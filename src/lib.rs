//! Verified core of an administrative CRUD layer: field extraction, view-model
//! metadata, conversions between typed records and flat string models,
//! validation, and list/create/edit/delete operations over an entity store.
pub mod text;
pub mod fields;
pub mod values;
pub mod model;
pub mod order;
pub mod store;
pub mod routes;
pub mod view_model;

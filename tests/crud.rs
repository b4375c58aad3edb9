use actix_admin::model::{AdminModel, FieldMap, Schema};
use actix_admin::routes::{create_or_edit_post, delete, delete_many, edit_get, parse_delete_ids, EntityValidator, Params, PostOutcome};
use actix_admin::store::{ActixAdminError, EntityStore, FilterKind, FilterValue, SortOrder};
use actix_admin::values::{FieldSpec, FieldValue, ValueKind};

struct NoChecks;

impl EntityValidator for NoChecks {
    fn validate(&self, _record: &Vec<FieldValue>) -> Vec<(String, String)> {
        Vec::new()
    }
}

struct CommentMustNotBeBanned;

impl EntityValidator for CommentMustNotBeBanned {
    fn validate(&self, record: &Vec<FieldValue>) -> Vec<(String, String)> {
        if record[2] == FieldValue::Text("banned".to_string()) {
            vec![("comment".to_string(), "not allowed".to_string())]
        } else {
            Vec::new()
        }
    }
}

fn field(name: &str, kind: ValueKind, optional: bool, primary_key: bool, searchable: bool) -> FieldSpec {
    FieldSpec { name: name.to_string(), kind, optional, primary_key, searchable, choices: Vec::new() }
}

fn comment_schema() -> Schema {
    Schema {
        entity_name: "comment".to_string(),
        fields: vec![
            field("id", ValueKind::Integer, false, true, false),
            field("insert_date", ValueKind::DateTime, false, false, false),
            field("comment", ValueKind::Text, false, false, true),
            field("user", ValueKind::Text, false, false, true),
            field("is_visible", ValueKind::Boolean, false, false, false),
            field("post_id", ValueKind::Integer, true, false, false),
            field("my_decimal", ValueKind::Decimal, false, false, false),
        ],
    }
}

fn comment_view_model() -> actix_admin::view_model::ActixAdminViewModel {
    actix_admin::view_model::view_model(&comment_schema(), Vec::new(), 0)
}

fn post_schema() -> Schema {
    let mut tea = field("tea_mandatory", ValueKind::Choice, false, false, false);
    tea.choices = vec!["EverydayTea".to_string(), "BreakfastTea".to_string()];
    Schema {
        entity_name: "post".to_string(),
        fields: vec![
            field("id", ValueKind::Integer, false, true, false),
            field("title", ValueKind::Text, false, false, true),
            field("text", ValueKind::Text, false, false, true),
            tea,
            field("insert_date", ValueKind::Date, false, false, false),
        ],
    }
}

fn form(pairs: &[(&str, &str)]) -> AdminModel {
    let mut m = AdminModel::create_empty();
    let mut values = FieldMap::new();
    for (k, v) in pairs {
        values.insert(k.to_string(), v.to_string());
    }
    m.values = values;
    m
}

fn comment_form(comment: &str, user: &str, date: &str, visible: &str, decimal: &str) -> AdminModel {
    form(&[
        ("id", "0"),
        ("insert_date", date),
        ("comment", comment),
        ("user", user),
        ("is_visible", visible),
        ("post_id", ""),
        ("my_decimal", decimal),
    ])
}

fn saved(outcome: PostOutcome) -> AdminModel {
    match outcome {
        PostOutcome::Saved(m) => m,
        PostOutcome::Invalid(m) => panic!("invalid: {:?}", m.errors),
        PostOutcome::Failed(e) => panic!("failed: {:?}", e),
    }
}

fn no_filters() -> Vec<FilterValue> {
    Vec::new()
}

fn listed_ids(store: &EntityStore, search: &str, sort_by: &str, order: SortOrder) -> Vec<String> {
    let (_, models) = store.list(1, 50, &no_filters(), search, sort_by, order).unwrap();
    models.iter().map(|m| m.primary_key.clone().unwrap()).collect()
}

#[test]
fn comment_create_and_edit() {
    let mut store = EntityStore::new(comment_schema()).unwrap();
    let created = saved(create_or_edit_post(&mut store, None, comment_form("test", "test", "1977-04-01T14:00", "true", "113.141"), &NoChecks));
    assert_eq!(created.primary_key, Some("1".to_string()));
    assert!(store.count() == 1, "After post, db does not contain 1 model");
    let entity = store.get_record(1).unwrap();
    assert!(entity[0] == FieldValue::Integer(1));
    assert!(entity[2] == FieldValue::Text("test".to_string()));
    assert!(entity[3] == FieldValue::Text("test".to_string()));
    assert!(entity[4] == FieldValue::Boolean(true));
    assert!(entity[5] == FieldValue::Absent);
    assert!(entity[6] == FieldValue::Decimal(113141, 3));
    assert!(entity[1] == FieldValue::DateTime(1977, 4, 1, 14, 0, 0));

    saved(create_or_edit_post(&mut store, Some(1), comment_form("updated", "updated", "1987-04-01T14:00", "false", "213.141"), &NoChecks));
    assert!(store.count() == 1, "After edit post, db does not contain 1 model");
    let entity = store.get_record(1).unwrap();
    assert!(entity[0] == FieldValue::Integer(1));
    assert!(entity[2] == FieldValue::Text("updated".to_string()));
    assert!(entity[3] == FieldValue::Text("updated".to_string()));
    assert!(entity[4] == FieldValue::Boolean(false));
    assert!(entity[5] == FieldValue::Absent);
    assert!(entity[6] == FieldValue::Decimal(213141, 3));
    assert!(entity[1] == FieldValue::DateTime(1987, 4, 1, 14, 0, 0));
}

#[test]
fn post_create_and_edit() {
    let mut store = EntityStore::new(post_schema()).unwrap();
    let model = form(&[("id", "0"), ("insert_date", "1977-04-01"), ("title", "test"), ("text", "test"), ("tea_mandatory", "EverydayTea")]);
    saved(create_or_edit_post(&mut store, None, model, &NoChecks));
    assert!(store.count() == 1, "After post, db does not contain 1 model");
    let entity = store.get_record(1).unwrap();
    assert!(entity[0] == FieldValue::Integer(1));
    assert!(entity[3] == FieldValue::Text("EverydayTea".to_string()));
    assert!(entity[1] == FieldValue::Text("test".to_string()));
    assert!(entity[2] == FieldValue::Text("test".to_string()));
    assert!(entity[4] == FieldValue::Date(1977, 4, 1));

    let model = form(&[("id", "0"), ("insert_date", "1987-04-01"), ("title", "updated"), ("text", "updated"), ("tea_mandatory", "BreakfastTea")]);
    saved(create_or_edit_post(&mut store, Some(1), model, &NoChecks));
    assert!(store.count() == 1, "After edit post, db does not contain 1 model");
    let entity = store.get_record(1).unwrap();
    assert!(entity[0] == FieldValue::Integer(1));
    assert!(entity[2] == FieldValue::Text("updated".to_string()));
    assert!(entity[1] == FieldValue::Text("updated".to_string()));
    assert!(entity[3] == FieldValue::Text("BreakfastTea".to_string()));
    assert!(entity[4] == FieldValue::Date(1987, 4, 1));
}

#[test]
fn edit_keeps_fields_that_are_not_supplied() {
    let mut store = EntityStore::new(comment_schema()).unwrap();
    saved(create_or_edit_post(&mut store, None, comment_form("a", "b", "1977-04-01T14:00", "true", "113.141"), &NoChecks));
    let r = store.edit_entity(1, form(&[("my_decimal", "213.141")]));
    assert!(r.is_ok());
    let entity = store.get_record(1).unwrap();
    assert!(entity[6] == FieldValue::Decimal(213141, 3));
    assert!(entity[2] == FieldValue::Text("a".to_string()));
    assert!(entity[4] == FieldValue::Boolean(true));
}

#[test]
fn edit_of_missing_key_is_entity_does_not_exist() {
    let mut store = EntityStore::new(comment_schema()).unwrap();
    saved(create_or_edit_post(&mut store, None, comment_form("a", "b", "1977-04-01T14:00", "true", "1.5"), &NoChecks));
    let r = store.edit_entity(7, comment_form("x", "y", "1977-04-01T14:00", "false", "2.5"));
    assert_eq!(r.unwrap_err(), ActixAdminError::EntityDoesNotExistError);
    let outcome = create_or_edit_post(&mut store, Some(7), comment_form("x", "y", "1977-04-01T14:00", "false", "2.5"), &NoChecks);
    assert!(matches!(outcome, PostOutcome::Failed(ActixAdminError::EntityDoesNotExistError)));
    assert_eq!(store.get_record(1).unwrap()[2], FieldValue::Text("a".to_string()));
    assert_eq!(store.count(), 1);
    assert_eq!(store.get_entity(7).unwrap_err(), ActixAdminError::EntityDoesNotExistError);
}

#[test]
fn delete_then_list_and_delete_again() {
    let mut store = EntityStore::new(comment_schema()).unwrap();
    for c in ["a", "b", "c"] {
        saved(create_or_edit_post(&mut store, None, comment_form(c, "u", "1977-04-01T14:00", "true", "1"), &NoChecks));
    }
    assert_eq!(delete(&mut store, 2), 200);
    assert_eq!(listed_ids(&store, "", "id", SortOrder::Asc), vec!["1".to_string(), "3".to_string()]);
    assert_eq!(store.delete_entity(2), Ok(true));
    assert_eq!(listed_ids(&store, "", "id", SortOrder::Asc), vec!["1".to_string(), "3".to_string()]);
}

#[test]
fn invalid_field_is_never_written() {
    let mut store = EntityStore::new(comment_schema()).unwrap();
    let outcome = create_or_edit_post(&mut store, None, comment_form("a", "b", "1977-04-01T14:00", "true", "not a number"), &NoChecks);
    match outcome {
        PostOutcome::Invalid(m) => {
            assert_eq!(m.errors.entries, vec![("my_decimal".to_string(), "invalid value".to_string())]);
        },
        _ => panic!("written"),
    }
    assert_eq!(store.count(), 0);
    let outcome = create_or_edit_post(&mut store, None, comment_form("a", "b", "1977-04-01T14:00", "yes", "1.0"), &NoChecks);
    assert!(matches!(outcome, PostOutcome::Invalid(_)));
    assert_eq!(store.count(), 0);
    assert_eq!(store.create_entity(comment_form("a", "b", "x", "true", "1.0")).unwrap_err(), ActixAdminError::ValidationError);
    assert_eq!(store.count(), 0);
}

#[test]
fn custom_validator_blocks_write() {
    let mut store = EntityStore::new(comment_schema()).unwrap();
    let outcome = create_or_edit_post(&mut store, None, comment_form("banned", "b", "1977-04-01T14:00", "true", "1.0"), &CommentMustNotBeBanned);
    match outcome {
        PostOutcome::Invalid(m) => {
            assert!(m.errors.entries.is_empty());
            assert_eq!(m.custom_errors.entries, vec![("comment".to_string(), "not allowed".to_string())]);
        },
        _ => panic!("written"),
    }
    assert_eq!(store.count(), 0);
}

#[test]
fn list_clamps_page_and_handles_empty() {
    let mut store = EntityStore::new(comment_schema()).unwrap();
    assert_eq!(store.list(3, 2, &no_filters(), "", "id", SortOrder::Asc).unwrap().0, 0);
    assert!(store.list(3, 2, &no_filters(), "", "id", SortOrder::Asc).unwrap().1.is_empty());
    for c in ["a", "b", "c", "d", "e"] {
        saved(create_or_edit_post(&mut store, None, comment_form(c, "u", "1977-04-01T14:00", "true", "1"), &NoChecks));
    }
    let (pages, models) = store.list(9, 2, &no_filters(), "", "id", SortOrder::Asc).unwrap();
    assert_eq!(pages, 3);
    assert_eq!(models.len(), 1);
    assert_eq!(models[0].primary_key, Some("5".to_string()));
    let (pages, models) = store.list(2, 2, &no_filters(), "", "id", SortOrder::Asc).unwrap();
    assert_eq!(pages, 3);
    let keys: Vec<String> = models.iter().map(|m| m.primary_key.clone().unwrap()).collect();
    assert_eq!(keys, vec!["3".to_string(), "4".to_string()]);
    assert_eq!(store.list(1, 2, &no_filters(), "", "nope", SortOrder::Asc).unwrap_err(), ActixAdminError::UnknownSortColumn);
}

#[test]
fn search_is_disjunctive_and_filters_conjunctive() {
    let mut store = EntityStore::new(comment_schema()).unwrap();
    saved(create_or_edit_post(&mut store, None, comment_form("hello world", "ann", "1977-04-01T14:00", "true", "1"), &NoChecks));
    saved(create_or_edit_post(&mut store, None, comment_form("other", "worldwide", "1977-04-01T14:00", "false", "2"), &NoChecks));
    saved(create_or_edit_post(&mut store, None, comment_form("nothing", "bob", "1977-04-01T14:00", "true", "3"), &NoChecks));
    assert_eq!(listed_ids(&store, "world", "id", SortOrder::Asc), vec!["1".to_string(), "2".to_string()]);
    let filters = vec![FilterValue { name: "is_visible".to_string(), kind: FilterKind::Equals, value: Some("true".to_string()) }];
    let (_, models) = store.list(1, 50, &filters, "world", "id", SortOrder::Asc).unwrap();
    assert_eq!(models.len(), 1);
    assert_eq!(models[0].primary_key, Some("1".to_string()));
    assert!(listed_ids(&store, "zzz", "id", SortOrder::Asc).is_empty());
    let filters = vec![
        FilterValue { name: "user".to_string(), kind: FilterKind::Contains, value: Some("o".to_string()) },
        FilterValue { name: "comment".to_string(), kind: FilterKind::NotEquals, value: Some("other".to_string()) },
        FilterValue { name: "is_visible".to_string(), kind: FilterKind::Equals, value: None },
    ];
    let (_, models) = store.list(1, 50, &filters, "", "id", SortOrder::Asc).unwrap();
    let keys: Vec<String> = models.iter().map(|m| m.primary_key.clone().unwrap()).collect();
    assert_eq!(keys, vec!["3".to_string()]);
}

#[test]
fn sort_desc_reverses_asc() {
    let mut store = EntityStore::new(comment_schema()).unwrap();
    saved(create_or_edit_post(&mut store, None, comment_form("a", "u", "1977-04-01T14:00", "true", "10.5"), &NoChecks));
    saved(create_or_edit_post(&mut store, None, comment_form("b", "u", "1977-04-01T14:00", "true", "9.75"), &NoChecks));
    saved(create_or_edit_post(&mut store, None, comment_form("c", "u", "1977-04-01T14:00", "true", "-3"), &NoChecks));
    saved(create_or_edit_post(&mut store, None, comment_form("d", "u", "1977-04-01T14:00", "true", "100"), &NoChecks));
    let asc = listed_ids(&store, "", "my_decimal", SortOrder::Asc);
    assert_eq!(asc, vec!["3".to_string(), "2".to_string(), "1".to_string(), "4".to_string()]);
    let mut desc = listed_ids(&store, "", "my_decimal", SortOrder::Desc);
    desc.reverse();
    assert_eq!(desc, asc);
    let by_comment = listed_ids(&store, "", "comment", SortOrder::Desc);
    assert_eq!(by_comment, vec!["4".to_string(), "3".to_string(), "2".to_string(), "1".to_string()]);
}

#[test]
fn delete_many_removes_named_keys() {
    let mut store = EntityStore::new(comment_schema()).unwrap();
    for c in ["a", "b", "c"] {
        saved(create_or_edit_post(&mut store, None, comment_form(c, "u", "1977-04-01T14:00", "true", "1"), &NoChecks));
    }
    assert_eq!(delete_many(&mut store, "ids=1&ids=3"), "/admin/comment/list?render_partial=true".to_string());
    assert_eq!(listed_ids(&store, "", "id", SortOrder::Asc), vec!["2".to_string()]);
    assert_eq!(parse_delete_ids("ids=2&ids=x"), None);
    assert_eq!(store.count(), 1);
}

#[test]
fn edit_get_of_missing_key_notifies() {
    let store = EntityStore::new(comment_schema()).unwrap();
    let params = Params { page: None, entities_per_page: None, search: None, sort_by: None, sort_order: None };
    let ctx = edit_get(&store, 4, &params, comment_view_model(), &Vec::new());
    assert_eq!(ctx.status, 500);
    assert_eq!(ctx.notifications, vec![ActixAdminError::EntityDoesNotExistError]);
    assert_eq!(ctx.sort_by, "id");
    assert_eq!(ctx.page, 1);
    assert_eq!(ctx.entities_per_page, 10);
    assert!(ctx.model.errors.entries.is_empty() && ctx.model.primary_key.is_none());
}

#[test]
fn edit_get_of_existing_key_loads_model() {
    let mut store = EntityStore::new(comment_schema()).unwrap();
    saved(create_or_edit_post(&mut store, None, comment_form("hi", "u", "1977-04-01T14:00", "true", "113.141"), &NoChecks));
    let params = Params { page: Some(2), entities_per_page: None, search: None, sort_by: None, sort_order: None };
    let ctx = edit_get(&store, 1, &params, comment_view_model(), &Vec::new());
    assert_eq!(ctx.status, 200);
    assert!(ctx.notifications.is_empty());
    assert_eq!(ctx.model.primary_key, Some("1".to_string()));
    assert_eq!(ctx.model.values.get("my_decimal"), Some("113.141".to_string()));
    assert_eq!(ctx.model.values.get("insert_date"), Some("1977-04-01T14:00".to_string()));
    assert_eq!(ctx.page, 2);
}

#[test]
fn select_list_from_stored_records() {
    let mut store = EntityStore::new(post_schema()).unwrap();
    let model = form(&[("insert_date", "1977-04-01"), ("title", "first"), ("text", "t"), ("tea_mandatory", "EverydayTea")]);
    saved(create_or_edit_post(&mut store, None, model, &NoChecks));
    let model = form(&[("insert_date", "1977-04-02"), ("title", "second"), ("text", "t"), ("tea_mandatory", "BreakfastTea")]);
    saved(create_or_edit_post(&mut store, None, model, &NoChecks));
    let rows = store.select_rows("title").unwrap();
    assert_eq!(rows, vec![(1, "first".to_string()), (2, "second".to_string())]);
    let list = actix_admin::view_model::derive_actix_admin_model_select_list(&rows);
    assert_eq!(list[1], ("2".to_string(), "second".to_string()));
    assert_eq!(store.select_rows("missing").unwrap_err(), ActixAdminError::UnknownSortColumn);
}

#[test]
fn view_model_filters_round_trip() {
    let defs = vec![("is_visible".to_string(), FilterKind::Equals)];
    let choices = vec![vec![("true".to_string(), "Visible".to_string()), ("false".to_string(), "Hidden".to_string())]];
    let mut shown = actix_admin::store::get_viewmodel_filter(&defs, &choices);
    assert_eq!(shown.len(), 1);
    assert!(shown[0].value.is_none());
    assert_eq!(shown[0].values, choices[0]);
    shown[0].value = Some("false".to_string());
    let applied = actix_admin::store::filter_values(&shown);
    assert_eq!(applied[0].name, "is_visible");
    assert_eq!(applied[0].kind, FilterKind::Equals);
    assert_eq!(applied[0].value, Some("false".to_string()));
    let mut store = EntityStore::new(comment_schema()).unwrap();
    saved(create_or_edit_post(&mut store, None, comment_form("a", "u", "1977-04-01T14:00", "true", "1"), &NoChecks));
    saved(create_or_edit_post(&mut store, None, comment_form("b", "u", "1977-04-01T14:00", "false", "1"), &NoChecks));
    let (_, models) = store.list(1, 50, &applied, "", "id", SortOrder::Asc).unwrap();
    assert_eq!(models.len(), 1);
    assert_eq!(models[0].primary_key, Some("2".to_string()));
}

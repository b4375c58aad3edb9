//! What the web routes decide: the form context of the create and edit
//! pages, the validation gate in front of every write, and deletion.
use vstd::prelude::*;
use crate::values::{FieldValue, FieldSpec, Datum};
use crate::text::{int_text, split_on, split_text, remove_all, remove_text, i64_of_text, parse_i64};
use crate::model::{AdminModel, Schema, validate_model, model_to_record, structural_errors, field_fails, lemma_structural_errors_empty, record_of_values};
use crate::view_model::{ActixAdminViewModel, lists_view, select_lists_of, get_select_lists};
use crate::store::{EntityStore, ActixAdminError, SortOrder, key_of, row_model, edited_row, supplied_fails};
use crate::model::{pair_view, lookup, field_text};

verus! {

/// Rows per page when the request names none.
pub const DEFAULT_ENTITIES_PER_PAGE: u64 = 10;

/// An entity's own checks on the record that would be stored, beyond the
/// types of its fields; it answers with error messages by field name.
pub trait EntityValidator {
    fn validate(&self, record: &Vec<FieldValue>) -> Vec<(String, String)>;
}

/// The query parameters of a list or form page, each optional.
#[derive(Clone, Debug)]
pub struct Params {
    pub page: Option<u64>,
    pub entities_per_page: Option<u64>,
    pub search: Option<String>,
    pub sort_by: Option<String>,
    pub sort_order: Option<SortOrder>,
}

/// What the create and edit form pages are rendered from.
#[derive(Clone, Debug)]
pub struct FormContext {
    pub model: AdminModel,
    pub notifications: Vec<ActixAdminError>,
    /// 200 when the model could be loaded, 500 otherwise.
    pub status: u16,
    pub page: u64,
    pub entities_per_page: u64,
    pub search: String,
    pub sort_by: String,
    pub sort_order: SortOrder,
    pub view_model: ActixAdminViewModel,
    /// The entity's select lists, keyed by field name.
    pub select_lists: Vec<(String, Vec<(String, String)>)>,
}

/// The form context for a loaded model, or for the error that loading it
/// gave; list parameters that the request lacks take their defaults.
pub fn create_or_edit_get(
    model_result: Result<AdminModel, ActixAdminError>,
    params: &Params,
    view_model: ActixAdminViewModel,
    available_lists: &Vec<(String, Vec<(String, String)>)>,
) -> (r: FormContext)
    ensures
        r.view_model == view_model,
        lists_view(r.select_lists@) == select_lists_of(view_model.fields@, available_lists@),
        model_result matches Ok(m) ==> r.model == m && r.notifications@.len() == 0 && r.status == 200,
        model_result matches Err(e) ==> r.model.values@.len() == 0 && r.model.primary_key is None
            && r.model.errors@.len() == 0 && r.model.custom_errors@.len() == 0
            && r.notifications@ == seq![e] && r.status == 500,
        r.page == (match params.page { Some(p) => p, None => 1 }),
        r.entities_per_page == (match params.entities_per_page { Some(p) => p, None => DEFAULT_ENTITIES_PER_PAGE }),
        r.search@ == (match params.search { Some(s) => s@, None => Seq::<char>::empty() }),
        r.sort_by@ == (match params.sort_by { Some(s) => s@, None => view_model.primary_key@ }),
        r.sort_order == (match params.sort_order { Some(o) => o, None => SortOrder::Asc }),
{
    let select_lists = get_select_lists(&view_model.fields, available_lists);
    let mut notifications: Vec<ActixAdminError> = Vec::new();
    let (model, status) = match model_result {
        Ok(m) => (m, 200u16),
        Err(e) => {
            notifications.push(e);
            assert(notifications@ =~= seq![e]);
            (AdminModel::create_empty(), 500u16)
        },
    };
    let page = match params.page {
        Some(p) => p,
        None => 1,
    };
    let entities_per_page = match params.entities_per_page {
        Some(p) => p,
        None => DEFAULT_ENTITIES_PER_PAGE,
    };
    let search = match &params.search {
        Some(s) => s.clone(),
        None => String::new(),
    };
    let sort_by = match &params.sort_by {
        Some(s) => s.clone(),
        None => view_model.primary_key.clone(),
    };
    let sort_order = match params.sort_order {
        Some(o) => o,
        None => SortOrder::Asc,
    };
    FormContext { model, notifications, status, page, entities_per_page, search, sort_by, sort_order, view_model, select_lists }
}

/// The form context of the create page: an empty model.
pub fn create_get(params: &Params, view_model: ActixAdminViewModel, available_lists: &Vec<(String, Vec<(String, String)>)>) -> (r: FormContext)
    ensures
        r.view_model == view_model,
        lists_view(r.select_lists@) == select_lists_of(view_model.fields@, available_lists@),
        r.model.values@.len() == 0,
        r.model.primary_key is None,
        r.model.errors@.len() == 0,
        r.model.custom_errors@.len() == 0,
        r.status == 200,
        r.notifications@.len() == 0,
        r.page == (match params.page { Some(p) => p, None => 1 }),
        r.entities_per_page == (match params.entities_per_page { Some(p) => p, None => DEFAULT_ENTITIES_PER_PAGE }),
        r.search@ == (match params.search { Some(s) => s@, None => Seq::<char>::empty() }),
        r.sort_by@ == (match params.sort_by { Some(s) => s@, None => view_model.primary_key@ }),
        r.sort_order == (match params.sort_order { Some(o) => o, None => SortOrder::Asc }),
{
    create_or_edit_get(Ok(AdminModel::create_empty()), params, view_model, available_lists)
}

/// The name of the schema's primary-key field.
pub fn primary_key_name(schema: &Schema) -> (r: String)
    requires
        schema.wf(),
    ensures
        r@ == schema.fields@[schema.pk_index()].name@,
{
    let p = schema.pk_position();
    schema.fields[p].name.clone()
}

/// The form context of the edit page of the record with key `id`: its
/// model, or an empty model with a notification when there is none.
pub fn edit_get(
    store: &EntityStore,
    id: i32,
    params: &Params,
    view_model: ActixAdminViewModel,
    available_lists: &Vec<(String, Vec<(String, String)>)>,
) -> (r: FormContext)
    requires
        store.wf(),
    ensures
        r.view_model == view_model,
        lists_view(r.select_lists@) == select_lists_of(view_model.fields@, available_lists@),
        !store.has_key(id as int) ==> r.status == 500 && r.notifications@ == seq![ActixAdminError::EntityDoesNotExistError]
            && r.model.values@.len() == 0 && r.model.primary_key is None
            && r.model.errors@.len() == 0 && r.model.custom_errors@.len() == 0,
        store.has_key(id as int) ==> r.status == 200 && r.notifications@.len() == 0
            && exists|k: int| 0 <= k < store.rows().len()
                && key_of(#[trigger] store.rows()[k], store.pk()) == id
                && row_model(store.spec_schema().fields@, store.rows()[k], store.pk(), r.model),
        r.page == (match params.page { Some(p) => p, None => 1 }),
        r.entities_per_page == (match params.entities_per_page { Some(p) => p, None => DEFAULT_ENTITIES_PER_PAGE }),
        r.search@ == (match params.search { Some(s) => s@, None => Seq::<char>::empty() }),
        r.sort_by@ == (match params.sort_by { Some(s) => s@, None => view_model.primary_key@ }),
        r.sort_order == (match params.sort_order { Some(o) => o, None => SortOrder::Asc }),
{
    create_or_edit_get(store.get_entity(id), params, view_model, available_lists)
}

/// Runs structural validation, then, only when every field's text parses
/// and the model carries no error yet, the entity's own checks on the
/// record; their answer becomes the model's custom errors and is returned.
pub fn validate_entity<V: EntityValidator>(schema: &Schema, model: &mut AdminModel, validator: &V) -> (r: Option<Vec<(String, String)>>)
    ensures
        final(model).errors@ == structural_errors(schema.fields@, old(model).values@),
        final(model).values == old(model).values,
        final(model).primary_key == old(model).primary_key,
        r is Some <==> structural_errors(schema.fields@, old(model).values@).len() == 0 && old(model).custom_errors@.len() == 0,
        r matches Some(answer) ==> final(model).custom_errors@ == answer@.map_values(|p: (String, String)| pair_view(p)),
        r is None ==> final(model).custom_errors == old(model).custom_errors,
{
    validate_model(schema, model);
    if model.has_errors() {
        return None;
    }
    proof {
        lemma_structural_errors_empty(schema.fields@, model.values@);
    }
    match model_to_record(schema, model) {
        Err(_) => None,
        Ok(record) => {
            let answer = validator.validate(&record);
            let mut errors = crate::model::FieldMap::new();
            let mut i: usize = 0;
            while i < answer.len()
                invariant
                    i <= answer@.len(),
                    errors@ == answer@.subrange(0, i as int).map_values(|p: (String, String)| pair_view(p)),
                decreases answer@.len() - i,
            {
                errors.insert(answer[i].0.clone(), answer[i].1.clone());
                assert(answer@.subrange(0, i + 1).map_values(|p: (String, String)| pair_view(p))
                    =~= answer@.subrange(0, i as int).map_values(|p: (String, String)| pair_view(p)).push(pair_view(answer@[i as int])));
                i = i + 1;
            }
            assert(answer@.subrange(0, i as int) =~= answer@);
            model.custom_errors = errors;
            Some(answer)
        },
    }
}

/// What a create or edit submission came to.
#[derive(Debug)]
pub enum PostOutcome {
    /// Stored; the model carries the record's key.
    Saved(AdminModel),
    /// Not stored: the model carries its validation errors.
    Invalid(AdminModel),
    /// Not stored: the store refused.
    Failed(ActixAdminError),
}

/// A field that fails with its supplied text fails structural validation.
proof fn lemma_supplied_fails_is_field_fails(fields: Seq<FieldSpec>, values: Seq<(Seq<char>, Seq<char>)>)
    ensures
        (forall|i: int| 0 <= i < fields.len() ==> !field_fails(#[trigger] fields[i], values))
            ==> forall|i: int| 0 <= i < fields.len() ==> !supplied_fails(#[trigger] fields[i], values),
{
    assert forall|i: int| 0 <= i < fields.len() && supplied_fails(#[trigger] fields[i], values)
        implies field_fails(fields[i], values) by {
        assert(field_text(values, fields[i].name@) == lookup(values, fields[i].name@).unwrap());
    }
}

/// Writes a validated model: one that carries errors is handed back
/// unwritten; otherwise it is created (`id` absent) or the record with key
/// `id` is edited, as `create_entity` and `edit_entity` do.
pub fn save_validated(store: &mut EntityStore, id: Option<i32>, model: AdminModel) -> (r: PostOutcome)
    requires
        old(store).wf(),
    ensures
        final(store).wf(),
        final(store).spec_schema() == old(store).spec_schema(),
        !(r is Saved) ==> final(store).rows() == old(store).rows(),
        model.spec_has_errors() ==> r == PostOutcome::Invalid(model),
        r matches PostOutcome::Invalid(m) ==> m == model && model.spec_has_errors(),
        r matches PostOutcome::Saved(m) ==> m.values == model.values,
        !model.spec_has_errors() && id is None ==> {
            let rec = record_of_values(old(store).spec_schema().fields@, model.values@);
            &&& rec is None ==> r == PostOutcome::Failed(ActixAdminError::ValidationError)
            &&& rec is Some && old(store).spec_next_id() == i32::MAX ==> r == PostOutcome::Failed(ActixAdminError::KeysExhausted)
            &&& rec is Some && old(store).spec_next_id() < i32::MAX ==> (r matches PostOutcome::Saved(m)
                && final(store).rows() == old(store).rows().push(
                    rec.unwrap().update(old(store).pk(), Datum::Integer(old(store).spec_next_id())))
                && m.values == model.values && m.errors == model.errors && m.custom_errors == model.custom_errors
                && (m.primary_key matches Some(t) && t@ == int_text(old(store).spec_next_id())))
        },
        id matches Some(k) ==> !model.spec_has_errors() ==> {
            &&& !old(store).has_key(k as int) ==> r == PostOutcome::Failed(ActixAdminError::EntityDoesNotExistError)
            &&& old(store).has_key(k as int) ==> exists|j: int| 0 <= j < old(store).rows().len()
                && key_of(#[trigger] old(store).rows()[j], old(store).pk()) == k
                && match edited_row(old(store).spec_schema().fields@, old(store).rows()[j], model.values@) {
                    None => r == PostOutcome::Failed(ActixAdminError::ValidationError),
                    Some(row) => r == PostOutcome::Saved(model) && final(store).rows() == old(store).rows().update(j, row),
                }
        },
{
    if model.has_errors() {
        return PostOutcome::Invalid(model);
    }
    let result = match id {
        None => store.create_entity(model),
        Some(k) => store.edit_entity(k, model),
    };
    match result {
        Ok(m) => PostOutcome::Saved(m),
        Err(e) => PostOutcome::Failed(e),
    }
}

/// Handles a create (`id` absent) or edit submission: validates the model
/// and writes it only when it has no errors.
pub fn create_or_edit_post<V: EntityValidator>(store: &mut EntityStore, id: Option<i32>, model: AdminModel, validator: &V) -> (r: PostOutcome)
    requires
        old(store).wf(),
    ensures
        final(store).wf(),
        final(store).spec_schema() == old(store).spec_schema(),
        (exists|i: int| 0 <= i < old(store).spec_schema().fields@.len()
            && field_fails(#[trigger] old(store).spec_schema().fields@[i], model.values@))
            ==> r is Invalid,
        r matches PostOutcome::Invalid(m) ==> m.spec_has_errors(),
        !(r is Saved) ==> final(store).rows() == old(store).rows(),
        r matches PostOutcome::Failed(e) ==> ((id is None && old(store).spec_next_id() == i32::MAX && e == ActixAdminError::KeysExhausted)
            || (id is Some && !old(store).has_key(id.unwrap() as int) && e == ActixAdminError::EntityDoesNotExistError)),
        r matches PostOutcome::Saved(m) ==> m.values == model.values,
        id is None && !(r is Invalid) && old(store).spec_next_id() < i32::MAX ==> r is Saved,
        id is Some && !(r is Invalid) && old(store).has_key(id.unwrap() as int) ==> r is Saved,
        id is None && r is Saved ==> final(store).rows() == old(store).rows().push(
            record_of_values(old(store).spec_schema().fields@, model.values@).unwrap()
                .update(old(store).pk(), Datum::Integer(old(store).spec_next_id()))),
        r matches PostOutcome::Saved(m) ==> (id is None ==> (m.primary_key matches Some(t) && t@ == int_text(old(store).spec_next_id()))),
        id is Some && r is Saved ==> exists|j: int| 0 <= j < old(store).rows().len()
            && key_of(#[trigger] old(store).rows()[j], old(store).pk()) == id.unwrap()
            && final(store).rows() == old(store).rows().update(j,
                edited_row(old(store).spec_schema().fields@, old(store).rows()[j], model.values@).unwrap()),
{
    let mut model = model;
    let _ = validate_entity(store.schema(), &mut model, validator);
    let ghost fields = store.spec_schema().fields@;
    proof {
        lemma_structural_errors_empty(fields, model.values@);
        lemma_supplied_fails_is_field_fails(fields, model.values@);
        if !model.spec_has_errors() {
            assert(structural_errors(fields, model.values@).len() == 0);
            assert(forall|i: int| 0 <= i < fields.len() ==> !field_fails(#[trigger] fields[i], model.values@));
            assert(record_of_values(fields, model.values@) is Some);
            assert(forall|row: Seq<Datum>| #[trigger] edited_row(fields, row, model.values@) is Some);
        }
    }
    proof { store.lemma_next_id_range(); }
    let ghost validated = model;
    let ghost before = store.rows();
    let ghost next = store.spec_next_id();
    let r = save_validated(store, id, model);
    proof {
        if id is None && !validated.spec_has_errors() {
            let rec = record_of_values(fields, validated.values@);
            assert(rec is Some);
            if next < i32::MAX {
                assert(r is Saved);
                assert(store.rows() == before.push(rec.unwrap().update(store.pk(), Datum::Integer(next))));
            }
        }
    }
    r
}

/// Deletes the record with key `id`; the response is 200 whether or not the
/// record existed.
pub fn delete(store: &mut EntityStore, id: i32) -> (r: u16)
    requires
        old(store).wf(),
    ensures
        final(store).wf(),
        r == 200,
        final(store).spec_schema() == old(store).spec_schema(),
        !final(store).has_key(id as int),
        !old(store).has_key(id as int) ==> final(store).rows() == old(store).rows(),
        old(store).has_key(id as int) ==> exists|k: int| 0 <= k < old(store).rows().len()
            && key_of(#[trigger] old(store).rows()[k], old(store).pk()) == id
            && final(store).rows() == old(store).rows().remove(k),
{
    let _ = store.delete_entity(id);
    200
}

/// The `i32` that a text denotes, when it denotes one in range.
pub open spec fn i32_of_text(s: Seq<char>) -> Option<i32> {
    match i64_of_text(s) {
        Some(v) => if i32::MIN <= v <= i32::MAX { Some(v as i32) } else { None },
        None => None,
    }
}

pub open spec fn ids_prefix() -> Seq<char> {
    "ids="@
}

/// The keys that the pieces of a delete-many body name: each non-empty
/// piece, with `ids=` taken out, must be an integer; `None` otherwise.
pub open spec fn ids_of(pieces: Seq<Seq<char>>) -> Option<Seq<i32>>
    decreases pieces.len(),
{
    if pieces.len() == 0 {
        Some(Seq::empty())
    } else {
        match ids_of(pieces.drop_last()) {
            None => None,
            Some(prev) => if pieces.last().len() == 0 {
                Some(prev)
            } else {
                match i32_of_text(remove_all(pieces.last(), ids_prefix())) {
                    Some(v) => Some(prev.push(v)),
                    None => None,
                }
            },
        }
    }
}

proof fn lemma_ids_of_none_extends(ps: Seq<Seq<char>>, j: int, k: int)
    requires
        0 <= j <= k <= ps.len(),
        ids_of(ps.subrange(0, j)) is None,
    ensures
        ids_of(ps.subrange(0, k)) is None,
    decreases k - j,
{
    if k > j {
        lemma_ids_of_none_extends(ps, j, k - 1);
        assert(ps.subrange(0, k).drop_last() =~= ps.subrange(0, k - 1));
    }
}

/// The keys that a form body such as `ids=1&ids=2` names.
pub open spec fn delete_ids(text: Seq<char>) -> Option<Seq<i32>> {
    ids_of(split_on(text, '&'))
}

/// Reads the keys of a delete-many form body.
pub fn parse_delete_ids(text: &str) -> (r: Option<Vec<i32>>)
    ensures
        r matches Some(v) ==> delete_ids(text@) == Some(v@),
        r is None ==> delete_ids(text@) is None,
{
    let pieces = split_text(text, '&');
    let ghost ps = pieces@.map_values(|t: String| t@);
    let mut ids: Vec<i32> = Vec::new();
    let mut i: usize = 0;
    while i < pieces.len()
        invariant
            ps == pieces@.map_values(|t: String| t@),
            ps == split_on(text@, '&'),
            i <= pieces@.len(),
            ids_of(ps.subrange(0, i as int)) == Some(ids@),
        decreases pieces@.len() - i,
    {
        assert(ps.subrange(0, i + 1).drop_last() =~= ps.subrange(0, i as int));
        assert(ps.subrange(0, i + 1).last() == pieces@[i as int]@);
        let piece = pieces[i].as_str();
        if piece.unicode_len() > 0 {
            let stripped = remove_text(piece, "ids=");
            match parse_i64(stripped.as_str()) {
                Some(v) => {
                    if v < i32::MIN as i64 || v > i32::MAX as i64 {
                        proof {
                            lemma_ids_of_none_extends(ps, i + 1, ps.len() as int);
                            assert(ps.subrange(0, ps.len() as int) =~= ps);
                        }
                        return None;
                    }
                    ids.push(v as i32);
                },
                None => {
                    proof {
                        lemma_ids_of_none_extends(ps, i + 1, ps.len() as int);
                        assert(ps.subrange(0, ps.len() as int) =~= ps);
                    }
                    return None;
                },
            }
        }
        i = i + 1;
    }
    assert(ps.subrange(0, i as int) =~= ps);
    Some(ids)
}

pub open spec fn list_location(entity_name: Seq<char>) -> Seq<char> {
    "/admin/"@ + entity_name + "/list?render_partial=true"@
}

/// Deletes every record that a delete-many form body names and answers with
/// the list page to go to; every piece of the body must name an integer key
/// (test with `parse_delete_ids` first).
pub fn delete_many(store: &mut EntityStore, text: &str) -> (r: String)
    requires
        old(store).wf(),
        delete_ids(text@) is Some,
    ensures
        final(store).wf(),
        final(store).spec_schema() == old(store).spec_schema(),
        r@ == list_location(old(store).spec_schema().entity_name@),
        forall|k: int| 0 <= k < delete_ids(text@).unwrap().len()
            ==> !final(store).has_key(#[trigger] delete_ids(text@).unwrap()[k] as int),
        forall|x: int| #[trigger] final(store).has_key(x) ==> old(store).has_key(x),
        forall|x: int| old(store).has_key(x) && !(exists|k: int| 0 <= k < delete_ids(text@).unwrap().len()
            && #[trigger] delete_ids(text@).unwrap()[k] as int == x) ==> #[trigger] final(store).has_key(x),
{
    let ids = match parse_delete_ids(text) {
        Some(ids) => ids,
        None => {
            return String::new();
        },
    };
    let mut i: usize = 0;
    while i < ids.len()
        invariant
            store.wf(),
            store.spec_schema() == old(store).spec_schema(),
            i <= ids@.len(),
            forall|k: int| 0 <= k < i ==> !store.has_key(#[trigger] ids@[k] as int),
            forall|x: int| #[trigger] store.has_key(x) ==> old(store).has_key(x),
            forall|x: int| old(store).has_key(x) && !(exists|k: int| 0 <= k < i && #[trigger] ids@[k] as int == x) ==> #[trigger] store.has_key(x),
        decreases ids@.len() - i,
    {
        let _ = store.delete_entity(ids[i]);
        proof {
            assert forall|x: int| old(store).has_key(x) && !(exists|k: int| 0 <= k < i + 1 && #[trigger] ids@[k] as int == x)
                implies #[trigger] store.has_key(x) by {
                assert(ids@[i as int] as int != x);
                if exists|k: int| 0 <= k < i && #[trigger] ids@[k] as int == x {
                    let k = choose|k: int| 0 <= k < i && #[trigger] ids@[k] as int == x;
                    assert(0 <= k < i + 1 && ids@[k] as int == x);
                }
            }
        }
        i = i + 1;
    }
    proof {
        let d = delete_ids(text@).unwrap();
        assert(ids@ == d);
        assert forall|x: int| old(store).has_key(x) && !(exists|k: int| 0 <= k < d.len() && #[trigger] d[k] as int == x)
            implies #[trigger] store.has_key(x) by {
            if exists|k: int| 0 <= k < i && #[trigger] ids@[k] as int == x {
                let k = choose|k: int| 0 <= k < i && #[trigger] ids@[k] as int == x;
                assert(d[k] as int == x);
            }
        }
    }
    let name = store.get_entity_name();
    String::from_str("/admin/").concat(name.as_str()).concat("/list?render_partial=true")
}

} // verus!

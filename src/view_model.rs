//! Per-field presentation metadata of an entity, its view model, and the
//! select lists that feed dropdowns.
use vstd::prelude::*;
use crate::text::{str_eq, int_to_text, int_text};
use crate::fields::ModelField;
use crate::model::{Schema, pair_view};

verus! {

#[verifier::external_type_specification]
#[verifier::external_body]
pub struct ExRegex(regex::Regex);

/// The pattern is accepted by the regular-expression compiler.
pub uninterp spec fn regex_compiles(p: Seq<char>) -> bool;

/// Relies on `regex::Regex::new`: it compiles the pattern, or reports that
/// it cannot.
#[verifier::external_body]
fn compile_regex(p: &str) -> (r: Option<regex::Regex>)
    ensures
        r is Some <==> regex_compiles(p@),
{
    regex::Regex::new(p).ok()
}

/// How a field is presented and edited.
#[derive(Clone, Copy, Debug, PartialEq, Eq, Structural)]
pub enum ActixAdminViewModelFieldType {
    Number,
    Text,
    TextArea,
    Date,
    DateTime,
    Checkbox,
    SelectList,
    FileUpload,
}

/// The presentation class of a field: a select list when it has one, else
/// a text area or an upload when marked so, else by its declared type, with
/// free text as the fallback.
pub open spec fn field_type_of(type_path: Seq<char>, has_select_list: bool, textarea: bool, file_upload: bool) -> ActixAdminViewModelFieldType {
    if has_select_list {
        ActixAdminViewModelFieldType::SelectList
    } else if textarea {
        ActixAdminViewModelFieldType::TextArea
    } else if file_upload {
        ActixAdminViewModelFieldType::FileUpload
    } else if type_path == "i32"@ || type_path == "i64"@ || type_path == "u32"@ || type_path == "u64"@
        || type_path == "usize"@ || type_path == "Decimal"@ {
        ActixAdminViewModelFieldType::Number
    } else if type_path == "bool"@ {
        ActixAdminViewModelFieldType::Checkbox
    } else if type_path == "Date"@ {
        ActixAdminViewModelFieldType::Date
    } else if type_path == "DateTime"@ || type_path == "DateTimeWithTimeZone"@ {
        ActixAdminViewModelFieldType::DateTime
    } else {
        ActixAdminViewModelFieldType::Text
    }
}

/// The presentation class of a field.
pub fn get_field_type(type_path: &str, select_list: &str, is_textarea: bool, is_file_upload: bool) -> (r: ActixAdminViewModelFieldType)
    ensures
        r == field_type_of(type_path@, select_list@.len() > 0, is_textarea, is_file_upload),
{
    if select_list.unicode_len() > 0 {
        ActixAdminViewModelFieldType::SelectList
    } else if is_textarea {
        ActixAdminViewModelFieldType::TextArea
    } else if is_file_upload {
        ActixAdminViewModelFieldType::FileUpload
    } else if str_eq(type_path, "i32") || str_eq(type_path, "i64") || str_eq(type_path, "u32")
        || str_eq(type_path, "u64") || str_eq(type_path, "usize") || str_eq(type_path, "Decimal") {
        ActixAdminViewModelFieldType::Number
    } else if str_eq(type_path, "bool") {
        ActixAdminViewModelFieldType::Checkbox
    } else if str_eq(type_path, "Date") {
        ActixAdminViewModelFieldType::Date
    } else if str_eq(type_path, "DateTime") || str_eq(type_path, "DateTimeWithTimeZone") {
        ActixAdminViewModelFieldType::DateTime
    } else {
        ActixAdminViewModelFieldType::Text
    }
}

/// The admin attributes declared on a field.
#[derive(Clone, Debug)]
pub struct FieldOptions {
    pub html_input_type: String,
    /// The select list that supplies the field's values; empty if none.
    pub select_list: String,
    pub searchable: bool,
    pub textarea: bool,
    pub file_upload: bool,
    /// An explicit list position; declaration order otherwise.
    pub list_sort_position: Option<usize>,
    pub list_hide_column: bool,
    /// A pattern for the list view's display of the value; empty if none.
    pub list_regex_mask: String,
}

/// The presentation metadata of one field.
#[derive(Clone, Debug)]
pub struct ActixAdminViewModelField {
    pub field_name: String,
    pub html_input_type: String,
    pub select_list: String,
    pub is_option: bool,
    pub list_sort_position: usize,
    pub field_type: ActixAdminViewModelFieldType,
    pub list_hide_column: bool,
    pub list_regex_mask: Option<regex::Regex>,
}

/// A field's list regex mask does not compile.
#[derive(Clone, Debug)]
pub struct MaskError {
    pub field_name: String,
}

/// The type whose name decides a field's presentation: the wrapped type of
/// an optional field.
pub open spec fn type_path_of(f: ModelField) -> Seq<char> {
    match f.inner_type {
        Some(t) => t@,
        None => f.ty@,
    }
}

/// The field's metadata matches its declaration and options at position `i`.
pub open spec fn describes(v: ActixAdminViewModelField, f: ModelField, o: FieldOptions, i: int) -> bool {
    &&& v.field_name@ == f.ident@
    &&& v.html_input_type@ == o.html_input_type@
    &&& v.select_list@ == o.select_list@
    &&& v.is_option == f.inner_type is Some
    &&& v.list_sort_position == (match o.list_sort_position { Some(p) => p as int, None => i })
    &&& v.field_type == field_type_of(type_path_of(f), o.select_list@.len() > 0, o.textarea, o.file_upload)
    &&& v.list_hide_column == o.list_hide_column
    &&& (v.list_regex_mask is None <==> o.list_regex_mask@.len() == 0)
}

/// Builds the metadata table of an entity's fields, one entry per field in
/// declaration order; every non-empty mask must compile.
pub fn view_model_fields(fields: &Vec<ModelField>, options: &Vec<FieldOptions>) -> (r: Result<Vec<ActixAdminViewModelField>, MaskError>)
    requires
        fields@.len() == options@.len(),
    ensures
        r is Ok <==> forall|i: int| 0 <= i < options@.len() ==> (#[trigger] options@[i]).list_regex_mask@.len() == 0
            || regex_compiles(options@[i].list_regex_mask@),
        r matches Ok(vs) ==> vs@.len() == fields@.len()
            && forall|i: int| 0 <= i < vs@.len() ==> describes(#[trigger] vs@[i], fields@[i], options@[i], i),
        r matches Err(e) ==> exists|i: int| 0 <= i < options@.len() && (#[trigger] fields@[i]).ident@ == e.field_name@
            && options@[i].list_regex_mask@.len() > 0 && !regex_compiles(options@[i].list_regex_mask@),
{
    let mut out: Vec<ActixAdminViewModelField> = Vec::new();
    let mut i: usize = 0;
    while i < fields.len()
        invariant
            fields@.len() == options@.len(),
            i <= fields@.len(),
            out@.len() == i,
            forall|k: int| 0 <= k < i ==> describes(#[trigger] out@[k], fields@[k], options@[k], k),
            forall|k: int| 0 <= k < i ==> (#[trigger] options@[k]).list_regex_mask@.len() == 0
                || regex_compiles(options@[k].list_regex_mask@),
        decreases fields@.len() - i,
    {
        let f = &fields[i];
        let o = &options[i];
        let mask = if o.list_regex_mask.as_str().unicode_len() == 0 {
            None
        } else {
            match compile_regex(o.list_regex_mask.as_str()) {
                Some(re) => Some(re),
                None => {
                    return Err(MaskError { field_name: f.ident.clone() });
                },
            }
        };
        let type_path = match &f.inner_type {
            Some(t) => t.as_str(),
            None => f.ty.as_str(),
        };
        let field_type = get_field_type(type_path, o.select_list.as_str(), o.textarea, o.file_upload);
        let position = match o.list_sort_position {
            Some(p) => p,
            None => i,
        };
        out.push(ActixAdminViewModelField {
            field_name: f.ident.clone(),
            html_input_type: o.html_input_type.clone(),
            select_list: o.select_list.clone(),
            is_option: f.is_option(),
            list_sort_position: position,
            field_type,
            list_hide_column: o.list_hide_column,
            list_regex_mask: mask,
        });
        i = i + 1;
    }
    Ok(out)
}

/// The view model of an entity: its name, its primary key, its field
/// metadata, and whether it offers search and a filter aside.
#[derive(Clone, Debug)]
pub struct ActixAdminViewModel {
    pub primary_key: String,
    pub entity_name: String,
    pub fields: Vec<ActixAdminViewModelField>,
    pub show_search: bool,
    pub user_can_access: Option<bool>,
    pub default_show_aside: bool,
}

/// The view model of an entity; search is shown when some field is
/// searchable, the filter aside when the entity has filters.
pub fn view_model(schema: &Schema, fields: Vec<ActixAdminViewModelField>, filter_count: usize) -> (r: ActixAdminViewModel)
    requires
        schema.wf(),
    ensures
        r.primary_key@ == schema.fields@[schema.pk_index()].name@,
        r.entity_name@ == schema.entity_name@,
        r.fields == fields,
        r.show_search == exists|j: int| 0 <= j < schema.fields@.len() && (#[trigger] schema.fields@[j]).searchable,
        r.user_can_access is None,
        r.default_show_aside == (filter_count > 0),
{
    let mut show_search = false;
    let mut j: usize = 0;
    while j < schema.fields.len()
        invariant
            j <= schema.fields@.len(),
            show_search == exists|q: int| 0 <= q < j && (#[trigger] schema.fields@[q]).searchable,
        decreases schema.fields@.len() - j,
    {
        if schema.fields[j].searchable {
            show_search = true;
        }
        j = j + 1;
    }
    ActixAdminViewModel {
        primary_key: crate::routes::primary_key_name(schema),
        entity_name: schema.entity_name.clone(),
        fields,
        show_search,
        user_can_access: None,
        default_show_aside: filter_count > 0,
    }
}

/// A select list in view form: values and labels.
pub open spec fn pairs_view(v: Vec<(String, String)>) -> Seq<(Seq<char>, Seq<char>)> {
    v@.map_values(|p: (String, String)| pair_view(p))
}

/// The last select list in `available` with the given name; empty if none.
pub open spec fn list_named(available: Seq<(String, Vec<(String, String)>)>, name: Seq<char>) -> Seq<(Seq<char>, Seq<char>)>
    decreases available.len(),
{
    if available.len() == 0 {
        Seq::empty()
    } else if available.last().0@ == name {
        pairs_view(available.last().1)
    } else {
        list_named(available.drop_last(), name)
    }
}

/// The select lists of a form, keyed by field name: one for each field that
/// has a select list, in field order, taken from `available` by its name.
pub open spec fn select_lists_of(fields: Seq<ActixAdminViewModelField>, available: Seq<(String, Vec<(String, String)>)>) -> Seq<(Seq<char>, Seq<(Seq<char>, Seq<char>)>)>
    decreases fields.len(),
{
    if fields.len() == 0 {
        Seq::empty()
    } else {
        let prev = select_lists_of(fields.drop_last(), available);
        let f = fields.last();
        if f.select_list@.len() > 0 {
            prev.push((f.field_name@, list_named(available, f.select_list@)))
        } else {
            prev
        }
    }
}

pub open spec fn lists_view(v: Seq<(String, Vec<(String, String)>)>) -> Seq<(Seq<char>, Seq<(Seq<char>, Seq<char>)>)> {
    v.map_values(|e: (String, Vec<(String, String)>)| (e.0@, pairs_view(e.1)))
}

fn copy_list(v: &Vec<(String, String)>) -> (r: Vec<(String, String)>)
    ensures
        pairs_view(r) == pairs_view(*v),
{
    let mut out: Vec<(String, String)> = Vec::new();
    let mut i: usize = 0;
    while i < v.len()
        invariant
            i <= v@.len(),
            out@.len() == i,
            forall|k: int| 0 <= k < i ==> pair_view(#[trigger] out@[k]) == pair_view(v@[k]),
        decreases v@.len() - i,
    {
        out.push((v[i].0.clone(), v[i].1.clone()));
        i = i + 1;
    }
    assert(pairs_view(out) =~= pairs_view(*v));
    out
}

fn find_list(available: &Vec<(String, Vec<(String, String)>)>, name: &str) -> (r: Vec<(String, String)>)
    ensures
        pairs_view(r) == list_named(available@, name@),
{
    let mut i: usize = available.len();
    assert(available@.subrange(0, i as int) =~= available@);
    while i > 0
        invariant
            i <= available@.len(),
            list_named(available@, name@) == list_named(available@.subrange(0, i as int), name@),
        decreases i,
    {
        let ghost pre = available@.subrange(0, i as int);
        assert(pre.drop_last() =~= available@.subrange(0, i - 1));
        if str_eq(available[i - 1].0.as_str(), name) {
            return copy_list(&available[i - 1].1);
        }
        i = i - 1;
    }
    Vec::new()
}

/// The select lists of a form, keyed by field name, one per field that has
/// a select list, each looked up by its list name in `available`.
pub fn get_select_lists(fields: &Vec<ActixAdminViewModelField>, available: &Vec<(String, Vec<(String, String)>)>) -> (r: Vec<(String, Vec<(String, String)>)>)
    ensures
        lists_view(r@) == select_lists_of(fields@, available@),
{
    let mut out: Vec<(String, Vec<(String, String)>)> = Vec::new();
    let mut i: usize = 0;
    while i < fields.len()
        invariant
            i <= fields@.len(),
            lists_view(out@) == select_lists_of(fields@.subrange(0, i as int), available@),
        decreases fields@.len() - i,
    {
        assert(fields@.subrange(0, i + 1).drop_last() =~= fields@.subrange(0, i as int));
        let f = &fields[i];
        if f.select_list.as_str().unicode_len() > 0 {
            let list = find_list(available, f.select_list.as_str());
            let ghost before = out@;
            out.push((f.field_name.clone(), list));
            assert(lists_view(out@) =~= lists_view(before).push((f.field_name@, list_named(available@, f.select_list@))));
        }
        i = i + 1;
    }
    assert(fields@.subrange(0, i as int) =~= fields@);
    out
}

/// A variant of an enumeration offered in a dropdown, with an optional
/// label that overrides its name.
#[derive(Clone, Debug)]
pub struct EnumVariant {
    pub name: String,
    pub label: Option<String>,
}

/// The select list of an enumeration: each variant's name as the value, its
/// label override or else its name as the label, in declaration order.
pub fn derive_actix_admin_enum_select_list(variants: &Vec<EnumVariant>) -> (r: Vec<(String, String)>)
    ensures
        r@.len() == variants@.len(),
        forall|i: int| 0 <= i < r@.len() ==> (#[trigger] r@[i]).0@ == variants@[i].name@
            && r@[i].1@ == (match variants@[i].label { Some(l) => l@, None => variants@[i].name@ }),
{
    let mut out: Vec<(String, String)> = Vec::new();
    let mut i: usize = 0;
    while i < variants.len()
        invariant
            i <= variants@.len(),
            out@.len() == i,
            forall|k: int| 0 <= k < i ==> (#[trigger] out@[k]).0@ == variants@[k].name@
                && out@[k].1@ == (match variants@[k].label { Some(l) => l@, None => variants@[k].name@ }),
        decreases variants@.len() - i,
    {
        let v = &variants[i];
        let label = match &v.label {
            Some(l) => l.clone(),
            None => v.name.clone(),
        };
        out.push((v.name.clone(), label));
        i = i + 1;
    }
    out
}

/// The select list of a foreign entity: each record's primary key as the
/// value and its display text as the label, in the order given.
pub fn derive_actix_admin_model_select_list(rows: &Vec<(i32, String)>) -> (r: Vec<(String, String)>)
    ensures
        r@.len() == rows@.len(),
        forall|i: int| 0 <= i < r@.len() ==> (#[trigger] r@[i]).0@ == int_text(rows@[i].0 as int)
            && r@[i].1@ == rows@[i].1@,
{
    let mut out: Vec<(String, String)> = Vec::new();
    let mut i: usize = 0;
    while i < rows.len()
        invariant
            i <= rows@.len(),
            out@.len() == i,
            forall|k: int| 0 <= k < i ==> (#[trigger] out@[k]).0@ == int_text(rows@[k].0 as int)
                && out@[k].1@ == rows@[k].1@,
        decreases rows@.len() - i,
    {
        out.push((int_to_text(rows[i].0 as i64), rows[i].1.clone()));
        i = i + 1;
    }
    out
}

} // verus!

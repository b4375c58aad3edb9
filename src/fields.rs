//! The field declarations of an entity, as a derive sees them, and the
//! extraction of the fields that take part in the admin interface.
use vstd::prelude::*;
use crate::text::str_eq;

verus! {

/// The declared visibility of a field.
#[derive(Clone, Copy, Debug, PartialEq, Eq, Structural)]
pub enum Visibility {
    Public,
    Crate,
    Inherited,
}

/// An attribute on a field: its path and, for the list form
/// `#[path(a, b)]`, the plain paths listed inside it.
#[derive(Clone, Debug)]
pub struct Attribute {
    pub path: String,
    pub list: Option<Vec<String>>,
}

/// A field as declared: attributes, visibility, name (absent in a tuple
/// struct) and type.
#[derive(Clone, Debug)]
pub struct Field {
    pub attrs: Vec<Attribute>,
    pub vis: Visibility,
    pub ident: Option<String>,
    pub ty: String,
}

/// The body of a type declaration that a derive is applied to.
#[derive(Clone, Debug)]
pub enum Data {
    Struct(Vec<Field>),
    Enum,
    Union,
}

/// A type declaration that a derive is applied to.
#[derive(Clone, Debug)]
pub struct DeriveInput {
    pub ident: String,
    pub data: Data,
}

pub open spec fn skip_word() -> Seq<char> {
    "skip"@
}

pub open spec fn field_names_attr() -> Seq<char> {
    "struct_field_names"@
}

/// The attribute is the list form of `path` and lists `item`.
pub open spec fn spec_lists_item(attr: Attribute, path: Seq<char>, item: Seq<char>) -> bool {
    attr.path@ == path && match attr.list {
        Some(items) => exists|i: int| 0 <= i < items@.len() && (#[trigger] items@[i])@ == item,
        None => false,
    }
}

/// The attribute is the list form of `path` and lists `skip`.
pub open spec fn spec_has_skip_attr(attr: Attribute, path: Seq<char>) -> bool {
    spec_lists_item(attr, path, skip_word())
}

/// The attribute is the list form of `path` and lists `item`, as
/// `#[sea_orm(primary_key)]` lists `primary_key`.
pub fn lists_item(attr: &Attribute, path: &str, item: &str) -> (r: bool)
    ensures
        r == spec_lists_item(*attr, path@, item@),
{
    if !str_eq(attr.path.as_str(), path) {
        return false;
    }
    match &attr.list {
        None => false,
        Some(items) => {
            let mut i: usize = 0;
            while i < items.len()
                invariant
                    i <= items@.len(),
                    attr.list == Some(*items),
                    attr.path@ == path@,
                    forall|k: int| 0 <= k < i ==> (#[trigger] items@[k])@ != item@,
                decreases items@.len() - i,
            {
                if str_eq(items[i].as_str(), item) {
                    assert(attr.list.unwrap()@[i as int]@ == item@);
                    return true;
                }
                i = i + 1;
            }
            false
        },
    }
}

/// The attribute is the list form of `path` and lists `skip`.
pub fn has_skip_attr(attr: &Attribute, path: &str) -> (r: bool)
    ensures
        r == spec_has_skip_attr(*attr, path@),
{
    lists_item(attr, path, "skip")
}

/// The field is marked to be left out.
pub open spec fn is_skipped(f: Field) -> bool {
    exists|i: int| 0 <= i < f.attrs@.len() && spec_has_skip_attr(#[trigger] f.attrs@[i], field_names_attr())
}

/// The named, unskipped fields in declaration order, as visibility, name and type.
pub open spec fn kept_fields(fs: Seq<Field>) -> Seq<(Visibility, Seq<char>, Seq<char>)>
    decreases fs.len(),
{
    if fs.len() == 0 {
        Seq::empty()
    } else {
        let prev = kept_fields(fs.drop_last());
        let f = fs.last();
        if !is_skipped(f) && f.ident is Some {
            prev.push((f.vis, f.ident.unwrap()@, f.ty@))
        } else {
            prev
        }
    }
}

pub open spec fn triple_view(t: (Visibility, String, String)) -> (Visibility, Seq<char>, Seq<char>) {
    (t.0, t.1@, t.2@)
}

fn skipped(f: &Field) -> (r: bool)
    ensures
        r == is_skipped(*f),
{
    let mut i: usize = 0;
    while i < f.attrs.len()
        invariant
            i <= f.attrs@.len(),
            forall|k: int| 0 <= k < i ==> !spec_has_skip_attr(#[trigger] f.attrs@[k], field_names_attr()),
        decreases f.attrs@.len() - i,
    {
        if has_skip_attr(&f.attrs[i], "struct_field_names") {
            return true;
        }
        i = i + 1;
    }
    false
}

/// The named fields not marked `#[struct_field_names(skip)]`, in order.
pub fn filter_fields(fields: &Vec<Field>) -> (r: Vec<(Visibility, String, String)>)
    ensures
        r@.map_values(|t: (Visibility, String, String)| triple_view(t)) == kept_fields(fields@),
{
    let mut out: Vec<(Visibility, String, String)> = Vec::new();
    let mut i: usize = 0;
    while i < fields.len()
        invariant
            i <= fields@.len(),
            out@.map_values(|t: (Visibility, String, String)| triple_view(t)) == kept_fields(fields@.subrange(0, i as int)),
        decreases fields@.len() - i,
    {
        let f = &fields[i];
        assert(fields@.subrange(0, i + 1).drop_last() =~= fields@.subrange(0, i as int));
        let ghost before = out@;
        if !skipped(f) {
            match &f.ident {
                Some(name) => {
                    out.push((f.vis, name.clone(), f.ty.clone()));
                    assert(out@.map_values(|t: (Visibility, String, String)| triple_view(t))
                        =~= before.map_values(|t: (Visibility, String, String)| triple_view(t)).push((f.vis, name@, f.ty@)));
                },
                None => {},
            }
        }
        i = i + 1;
    }
    assert(fields@.subrange(0, i as int) =~= fields@);
    out
}

/// The fields of a struct declaration, as `filter_fields` keeps them. The
/// derives accept structs only: callers test `input.data` first.
pub fn get_fields_for_tokenstream(input: &DeriveInput) -> (r: Vec<(Visibility, String, String)>)
    requires
        input.data is Struct,
    ensures
        input.data matches Data::Struct(fs) && r@.map_values(|t: (Visibility, String, String)| triple_view(t)) == kept_fields(fs@),
{
    match &input.data {
        Data::Struct(fs) => filter_fields(fs),
        _ => Vec::new(),
    }
}

/// The type argument of an `Option<..>` type text.
pub open spec fn option_inner(ty: Seq<char>) -> Option<Seq<char>> {
    if ty.len() > 8 && ty.subrange(0, 7) == "Option<"@ && ty.last() == '>' {
        Some(ty.subrange(7, ty.len() - 1))
    } else {
        None
    }
}

/// A field of an entity, as the admin derives use it.
#[derive(Clone, Debug)]
pub struct ModelField {
    pub visibility: Visibility,
    pub ident: String,
    pub ty: String,
    /// The wrapped type when the field is an `Option<..>`.
    pub inner_type: Option<String>,
    pub primary_key: bool,
}

impl ModelField {
    /// A field of type `ty`; its inner type is read off an `Option<..>`.
    pub fn new(visibility: Visibility, ident: String, ty: String, primary_key: bool) -> (r: ModelField)
        ensures
            r.visibility == visibility,
            r.ident == ident,
            r.ty == ty,
            r.primary_key == primary_key,
            r.inner_type matches Some(t) ==> option_inner(ty@) == Some(t@),
            r.inner_type is None ==> option_inner(ty@) is None,
    {
        let n = ty.as_str().unicode_len();
        let mut inner: Option<String> = None;
        if n > 8 && ty.as_str().get_char(n - 1) == '>' {
            let head = ty.as_str().substring_char(0, 7);
            if str_eq(head, "Option<") {
                inner = Some(ty.as_str().substring_char(7, n - 1).to_owned());
            }
        }
        ModelField { visibility, ident, ty, inner_type: inner, primary_key }
    }

    /// The field is an `Option<..>`.
    pub fn is_option(&self) -> (r: bool)
        ensures
            r == self.inner_type is Some,
    {
        self.inner_type.is_some()
    }
}

} // verus!

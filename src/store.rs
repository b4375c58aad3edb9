//! Create, read, update, delete and paginated listing of one entity's records.
use vstd::prelude::*;
use crate::text::{contains, contains_text, str_eq, int_to_text, int_text};
use crate::values::{FieldSpec, FieldValue, Datum, text_of_value, print_value};
use crate::model::{AdminModel, Schema, record_view, record_values, record_printable, pair_view};
use crate::model::{record_to_model, model_to_record, record_of_values, lookup};
use crate::order::{sort_positions, sorts_before, cell, ties};

verus! {

/// The ways an operation on an entity can fail.
#[derive(Clone, Copy, Debug, PartialEq, Eq, Structural)]
pub enum ActixAdminError {
    /// No record has the requested primary key.
    EntityDoesNotExistError,
    /// The store could not delete a record.
    DeleteError,
    /// A field's text does not parse as its declared type.
    ValidationError,
    /// The requested sort column is not a field of the entity.
    UnknownSortColumn,
    /// No primary key is left for a new record.
    KeysExhausted,
    /// A stored value has no text form.
    UnprintableValue,
}

/// Direction of a list's ordering.
#[derive(Clone, Copy, Debug, PartialEq, Eq, Structural)]
pub enum SortOrder {
    Asc,
    Desc,
}

/// The predicate a list filter applies to its field's text.
#[derive(Clone, Copy, Debug, PartialEq, Eq, Structural)]
pub enum FilterKind {
    /// The text equals the value.
    Equals,
    /// The text differs from the value.
    NotEquals,
    /// The text contains the value.
    Contains,
}

/// A list filter of an entity with its current value: it applies its
/// predicate to the field of its name; without a value it admits every row.
#[derive(Clone, Debug)]
pub struct FilterValue {
    pub name: String,
    pub kind: FilterKind,
    pub value: Option<String>,
}

/// A filter as a list page shows it: its current value and the choices it
/// offers, as value and label.
#[derive(Clone, Debug)]
pub struct ActixAdminViewModelFilter {
    pub name: String,
    pub value: Option<String>,
    pub values: Vec<(String, String)>,
    pub kind: FilterKind,
}

fn copy_pairs(v: &Vec<(String, String)>) -> (r: Vec<(String, String)>)
    ensures
        r@.map_values(|p: (String, String)| pair_view(p)) == v@.map_values(|p: (String, String)| pair_view(p)),
{
    let mut out: Vec<(String, String)> = Vec::new();
    let mut i: usize = 0;
    while i < v.len()
        invariant
            i <= v@.len(),
            out@.len() == i,
            forall|k: int| 0 <= k < i ==> pair_view(#[trigger] out@[k]) == pair_view(v@[k]),
        decreases v@.len() - i,
    {
        out.push((v[i].0.clone(), v[i].1.clone()));
        i = i + 1;
    }
    assert(out@.map_values(|p: (String, String)| pair_view(p)) =~= v@.map_values(|p: (String, String)| pair_view(p)));
    out
}

/// The filters of a list page before any value is chosen: one per entity
/// filter, in order, without a value, offering its choices.
pub fn get_viewmodel_filter(filters: &Vec<(String, FilterKind)>, choices: &Vec<Vec<(String, String)>>) -> (r: Vec<ActixAdminViewModelFilter>)
    requires
        filters@.len() == choices@.len(),
    ensures
        r@.len() == filters@.len(),
        forall|i: int| 0 <= i < r@.len() ==> (#[trigger] r@[i]).name@ == filters@[i].0@ && r@[i].value is None
            && r@[i].kind == filters@[i].1
            && r@[i].values@.map_values(|p: (String, String)| pair_view(p)) == choices@[i]@.map_values(|p: (String, String)| pair_view(p)),
{
    let mut out: Vec<ActixAdminViewModelFilter> = Vec::new();
    let mut i: usize = 0;
    while i < filters.len()
        invariant
            filters@.len() == choices@.len(),
            i <= filters@.len(),
            out@.len() == i,
            forall|k: int| 0 <= k < i ==> (#[trigger] out@[k]).name@ == filters@[k].0@ && out@[k].value is None
                && out@[k].kind == filters@[k].1
                && out@[k].values@.map_values(|p: (String, String)| pair_view(p)) == choices@[k]@.map_values(|p: (String, String)| pair_view(p)),
        decreases filters@.len() - i,
    {
        out.push(ActixAdminViewModelFilter {
            name: filters[i].0.clone(),
            value: None,
            values: copy_pairs(&choices[i]),
            kind: filters[i].1,
        });
        i = i + 1;
    }
    out
}

/// The filters that a list request applies: each shown filter's name,
/// predicate and current value.
pub fn filter_values(shown: &Vec<ActixAdminViewModelFilter>) -> (r: Vec<FilterValue>)
    ensures
        r@.len() == shown@.len(),
        forall|i: int| 0 <= i < r@.len() ==> (#[trigger] r@[i]).name@ == shown@[i].name@
            && r@[i].kind == shown@[i].kind
            && (r@[i].value is None <==> shown@[i].value is None)
            && (r@[i].value matches Some(v) ==> v@ == shown@[i].value.unwrap()@),
{
    let mut out: Vec<FilterValue> = Vec::new();
    let mut i: usize = 0;
    while i < shown.len()
        invariant
            i <= shown@.len(),
            out@.len() == i,
            forall|k: int| 0 <= k < i ==> (#[trigger] out@[k]).name@ == shown@[k].name@
                && out@[k].kind == shown@[k].kind
                && (out@[k].value is None <==> shown@[k].value is None)
                && (out@[k].value matches Some(v) ==> v@ == shown@[k].value.unwrap()@),
        decreases shown@.len() - i,
    {
        let value = match &shown[i].value {
            Some(v) => Some(v.clone()),
            None => None,
        };
        out.push(FilterValue { name: shown[i].name.clone(), kind: shown[i].kind, value });
        i = i + 1;
    }
    out
}

/// The filter's predicate on a field text, given the filter's value.
pub open spec fn filter_holds(kind: FilterKind, text: Seq<char>, value: Option<String>) -> bool {
    match value {
        None => true,
        Some(v) => match kind {
            FilterKind::Equals => text == v@,
            FilterKind::NotEquals => text != v@,
            FilterKind::Contains => contains_text(text, v@),
        },
    }
}

/// The records of one entity, in order of creation.
pub struct EntityStore {
    schema: Schema,
    pk_pos: usize,
    records: Vec<Vec<FieldValue>>,
    next_id: i32,
}

pub open spec fn rows_of(records: Seq<Vec<FieldValue>>) -> Seq<Seq<Datum>> {
    records.map_values(|r: Vec<FieldValue>| record_view(r@))
}

/// The primary key of a row, when it holds one.
pub open spec fn key_of(row: Seq<Datum>, pk: int) -> int {
    match row[pk] {
        Datum::Integer(i) => i,
        _ => -1,
    }
}

impl EntityStore {
    pub closed spec fn spec_schema(&self) -> Schema {
        self.schema
    }

    /// The stored rows, oldest first.
    pub closed spec fn rows(&self) -> Seq<Seq<Datum>> {
        rows_of(self.records@)
    }

    pub closed spec fn spec_next_id(&self) -> int {
        self.next_id as int
    }

    pub open spec fn pk(&self) -> int {
        self.spec_schema().pk_index()
    }

    /// The schema is well formed; each row has one value per field and an
    /// integer primary key; keys increase strictly and stay below the next key.
    pub closed spec fn wf(&self) -> bool {
        &&& self.spec_schema().wf()
        &&& self.pk_pos == self.pk()
        &&& forall|k: int| 0 <= k < self.rows().len() ==> (#[trigger] self.rows()[k]).len() == self.spec_schema().fields@.len()
        &&& forall|k: int| 0 <= k < self.rows().len() ==> (#[trigger] self.rows()[k])[self.pk()] is Integer
        &&& forall|k: int| 0 <= k < self.rows().len() ==> record_printable(#[trigger] self.rows()[k])
        &&& forall|a: int, b: int| 0 <= a < b < self.rows().len() ==> key_of(#[trigger] self.rows()[a], self.pk()) < key_of(#[trigger] self.rows()[b], self.pk())
        &&& forall|k: int| 0 <= k < self.rows().len() ==> 0 < key_of(#[trigger] self.rows()[k], self.pk()) < self.spec_next_id()
        &&& self.spec_next_id() >= 1
    }

    /// The next key is a positive `i32`.
    pub proof fn lemma_next_id_range(&self)
        requires
            self.wf(),
        ensures
            1 <= self.spec_next_id() <= i32::MAX,
    {
    }

    /// Some row has primary key `id`.
    pub open spec fn has_key(&self, id: int) -> bool {
        exists|k: int| 0 <= k < self.rows().len() && key_of(#[trigger] self.rows()[k], self.pk()) == id
    }
}

/// The text of a row's value in column `j`; empty when it has none.
pub open spec fn row_text(row: Seq<Datum>, j: int) -> Seq<char> {
    match text_of_value(row[j]) {
        Some(t) => t,
        None => Seq::empty(),
    }
}

pub open spec fn has_searchable(fields: Seq<FieldSpec>) -> bool {
    exists|j: int| 0 <= j < fields.len() && (#[trigger] fields[j]).searchable
}

/// A row matches the search when the term is empty, when no field is
/// searchable, or when the text of ANY searchable field contains the term.
pub open spec fn matches_search(fields: Seq<FieldSpec>, row: Seq<Datum>, term: Seq<char>) -> bool {
    term.len() == 0 || !has_searchable(fields)
        || exists|j: int| 0 <= j < fields.len() && (#[trigger] fields[j]).searchable && contains_text(row_text(row, j), term)
}

/// A row passes the filters when every filter's predicate holds, with its
/// value, on each field of the filter's name (conjunction).
pub open spec fn matches_filters(fields: Seq<FieldSpec>, row: Seq<Datum>, filters: Seq<FilterValue>) -> bool {
    forall|k: int, j: int| 0 <= k < filters.len() && 0 <= j < fields.len()
        && (#[trigger] fields[j]).name@ == (#[trigger] filters[k]).name@
        ==> filter_holds(filters[k].kind, row_text(row, j), filters[k].value)
}

pub open spec fn row_selected(fields: Seq<FieldSpec>, row: Seq<Datum>, term: Seq<char>, filters: Seq<FilterValue>) -> bool {
    matches_search(fields, row, term) && matches_filters(fields, row, filters)
}

/// The positions, in ascending order, of the first `n` rows that are selected.
pub open spec fn selected_positions(fields: Seq<FieldSpec>, rows: Seq<Seq<Datum>>, term: Seq<char>, filters: Seq<FilterValue>, n: int) -> Seq<usize>
    decreases n,
{
    if n <= 0 {
        Seq::empty()
    } else {
        let prev = selected_positions(fields, rows, term, filters, n - 1);
        if row_selected(fields, rows[n - 1], term, filters) {
            prev.push((n - 1) as usize)
        } else {
            prev
        }
    }
}

/// The number of pages of `per` rows that `n` rows fill.
pub open spec fn page_count(n: int, per: int) -> int {
    n / per + if n % per == 0 { 0int } else { 1int }
}

/// The zero-based page that a one-based page request is served with: the
/// request clamped to the pages there are.
pub open spec fn page_index(page: int, pages: int) -> int {
    if page <= 1 {
        0
    } else if page > pages {
        pages - 1
    } else {
        page - 1
    }
}

/// No page beyond the last is ever served: a request past the end gets the
/// last page, and every request on a non-empty list gets an existing page.
pub proof fn lemma_page_clamped(page: int, n: int, per: int)
    requires
        n > 0,
        per > 0,
    ensures
        0 <= page_index(page, page_count(n, per)) < page_count(n, per),
        page > page_count(n, per) ==> page_index(page, page_count(n, per)) == page_count(n, per) - 1,
{
    vstd::arithmetic::div_mod::lemma_div_pos_is_pos(n, per);
    vstd::arithmetic::div_mod::lemma_fundamental_div_mod(n, per);
    if n % per == 0 {
        let q = n / per;
        assert(q >= 1) by (nonlinear_arith)
            requires
                n == per * q,
                n > 0,
                per > 0,
                q >= 0,
        ;
    }
}

/// The positions list the rows ordered by column `col` in the direction.
pub open spec fn rows_sorted(rows: Seq<Seq<Datum>>, order: Seq<usize>, col: int, desc: bool) -> bool {
    forall|a: int, b: int| 0 <= a < b < order.len() ==>
        !sorts_before(rows[#[trigger] order[b] as int][col], rows[#[trigger] order[a] as int][col], desc)
}

/// `order` lists exactly the selected rows, ordered by the column `c` named
/// `sort_by` in the given direction, ties in order of creation.
pub open spec fn arranges(
    fields: Seq<FieldSpec>,
    rows: Seq<Seq<Datum>>,
    term: Seq<char>,
    filters: Seq<FilterValue>,
    sort_by: Seq<char>,
    sort_order: SortOrder,
    c: int,
    order: Seq<usize>,
) -> bool {
    let sel = selected_positions(fields, rows, term, filters, rows.len() as int);
    let desc = sort_order == SortOrder::Desc;
    &&& 0 <= c < fields.len() && fields[c].name@ == sort_by
    &&& order.to_multiset() == sel.to_multiset()
    &&& order.len() == sel.len()
    &&& rows_sorted(rows, order, c, desc)
    &&& rows_stable(rows, order, c, desc)
}

/// The first position of the page served for a request of `page`.
pub open spec fn page_start(page: int, n: int, per: int) -> int {
    if n == 0 { 0 } else { page_index(page, page_count(n, per)) * per }
}

/// One past the last position of the page served for a request of `page`.
pub open spec fn page_end(page: int, n: int, per: int) -> int {
    if n == 0 {
        0
    } else if page_start(page, n, per) + per <= n {
        page_start(page, n, per) + per
    } else {
        n
    }
}

/// Each position of a permutation of `sel` is one of `sel`'s.
proof fn lemma_permutation_member(order: Seq<usize>, sel: Seq<usize>, i: int)
    requires
        order.to_multiset() == sel.to_multiset(),
        0 <= i < order.len(),
    ensures
        sel.contains(order[i]),
{
    broadcast use vstd::seq_lib::group_to_multiset_ensures;
    assert(order.contains(order[i]));
    assert(order.to_multiset().count(order[i]) > 0);
    assert(sel.to_multiset().count(order[i]) > 0);
}

/// Rows whose values in column `col` tie keep their order of creation.
pub open spec fn rows_stable(rows: Seq<Seq<Datum>>, order: Seq<usize>, col: int, desc: bool) -> bool {
    forall|a: int, b: int| 0 <= a < b < order.len()
        && ties(rows[#[trigger] order[a] as int][col], rows[#[trigger] order[b] as int][col], desc)
        ==> order[a] < order[b]
}

fn cell_text(v: &FieldValue) -> (r: String)
    ensures
        r@ == match text_of_value(v@) {
            Some(t) => t,
            None => Seq::empty(),
        },
{
    match print_value(v) {
        Some(t) => t,
        None => String::new(),
    }
}

fn search_matches(fields: &Vec<FieldSpec>, row: &Vec<FieldValue>, term: &str) -> (r: bool)
    requires
        row@.len() == fields@.len(),
    ensures
        r == matches_search(fields@, record_view(row@), term@),
{
    let ghost rv = record_view(row@);
    if term.unicode_len() == 0 {
        return true;
    }
    let mut any = false;
    let mut found = false;
    let mut j: usize = 0;
    while j < fields.len()
        invariant
            row@.len() == fields@.len(),
            rv == record_view(row@),
            j <= fields@.len(),
            any == exists|q: int| 0 <= q < j && (#[trigger] fields@[q]).searchable,
            found == exists|q: int| 0 <= q < j && (#[trigger] fields@[q]).searchable && contains_text(row_text(rv, q), term@),
        decreases fields@.len() - j,
    {
        if fields[j].searchable {
            any = true;
            let t = cell_text(&row[j]);
            assert(t@ == row_text(rv, j as int));
            if contains(t.as_str(), term) {
                found = true;
            }
        }
        proof {
            if found {
                let q = choose|q: int| 0 <= q < j + 1 && (#[trigger] fields@[q]).searchable && contains_text(row_text(rv, q), term@);
            }
        }
        j = j + 1;
    }
    !any || found
}

fn filters_match(fields: &Vec<FieldSpec>, row: &Vec<FieldValue>, filters: &Vec<FilterValue>) -> (r: bool)
    requires
        row@.len() == fields@.len(),
    ensures
        r == matches_filters(fields@, record_view(row@), filters@),
{
    let ghost rv = record_view(row@);
    let mut k: usize = 0;
    while k < filters.len()
        invariant
            row@.len() == fields@.len(),
            rv == record_view(row@),
            k <= filters@.len(),
            forall|k2: int, j: int| 0 <= k2 < k && 0 <= j < fields@.len()
                && (#[trigger] fields@[j]).name@ == (#[trigger] filters@[k2]).name@
                ==> filter_holds(filters@[k2].kind, row_text(rv, j), filters@[k2].value),
        decreases filters@.len() - k,
    {
        match &filters[k].value {
            None => {},
            Some(v) => {
                let mut j: usize = 0;
                while j < fields.len()
                    invariant
                        row@.len() == fields@.len(),
                        rv == record_view(row@),
                        k < filters@.len(),
                        filters@[k as int].value == Some(*v),
                        j <= fields@.len(),
                        forall|j2: int| 0 <= j2 < j && (#[trigger] fields@[j2]).name@ == filters@[k as int].name@
                            ==> filter_holds(filters@[k as int].kind, row_text(rv, j2), filters@[k as int].value),
                    decreases fields@.len() - j,
                {
                    if str_eq(fields[j].name.as_str(), filters[k].name.as_str()) {
                        let t = cell_text(&row[j]);
                        assert(t@ == row_text(rv, j as int));
                        let holds = match filters[k].kind {
                            FilterKind::Equals => str_eq(t.as_str(), v.as_str()),
                            FilterKind::NotEquals => !str_eq(t.as_str(), v.as_str()),
                            FilterKind::Contains => contains(t.as_str(), v.as_str()),
                        };
                        if !holds {
                            return false;
                        }
                    }
                    j = j + 1;
                }
            },
        }
        k = k + 1;
    }
    true
}

/// Search is disjunctive: a row is selected exactly when it passes the
/// filters and the term is empty, nothing is searchable, or ANY searchable
/// field's text contains the term. A row that matches on no searchable field
/// is never selected, whatever the filters and the ordering.
pub proof fn lemma_search_disjunctive(
    fields: Seq<FieldSpec>,
    rows: Seq<Seq<Datum>>,
    term: Seq<char>,
    filters: Seq<FilterValue>,
    n: int,
    k: usize,
)
    requires
        0 <= n <= rows.len(),
        rows.len() <= usize::MAX,
    ensures
        selected_positions(fields, rows, term, filters, n).contains(k) <==> (k < n && row_selected(fields, rows[k as int], term, filters)),
        term.len() > 0 && has_searchable(fields)
            && (forall|j: int| 0 <= j < fields.len() && (#[trigger] fields[j]).searchable ==> !contains_text(row_text(rows[k as int], j), term))
            ==> !selected_positions(fields, rows, term, filters, n).contains(k),
    decreases n,
{
    if n <= 0 {
        assert(!Seq::<usize>::empty().contains(k));
    } else {
        lemma_search_disjunctive(fields, rows, term, filters, n - 1, k);
        let prev = selected_positions(fields, rows, term, filters, n - 1);
        if row_selected(fields, rows[n - 1], term, filters) {
            let cur = prev.push((n - 1) as usize);
            assert(cur.contains(k) <==> (prev.contains(k) || k == (n - 1) as usize)) by {
                if cur.contains(k) {
                    let i = choose|i: int| 0 <= i < cur.len() && cur[i] == k;
                    if i < prev.len() {
                        assert(prev[i] == k);
                    }
                }
                if prev.contains(k) {
                    let i = choose|i: int| 0 <= i < prev.len() && prev[i] == k;
                    assert(cur[i] == k);
                }
                if k == (n - 1) as usize {
                    assert(cur[prev.len() as int] == k);
                }
            }
        }
    }
}

/// Descending order reverses ascending order: the reverse of a list sorted
/// ascending by a column is sorted descending by it.
pub proof fn lemma_desc_reverses_asc(rows: Seq<Seq<Datum>>, order: Seq<usize>, col: int)
    requires
        rows_sorted(rows, order, col, false),
    ensures
        rows_sorted(rows, order.reverse(), col, true),
{
    let rev = order.reverse();
    assert forall|a: int, b: int| 0 <= a < b < rev.len() implies
        !sorts_before(rows[#[trigger] rev[b] as int][col], rows[#[trigger] rev[a] as int][col], true) by {
        let a2 = order.len() - 1 - b;
        let b2 = order.len() - 1 - a;
        assert(rev[b] == order[a2] && rev[a] == order[b2]);
        assert(!sorts_before(rows[order[b2] as int][col], rows[order[a2] as int][col], false));
    }
}

/// The row that editing gives: each supplied field but the primary key
/// parsed from its text, the others kept; `None` when a supplied text fails.
pub open spec fn edited_row(fields: Seq<FieldSpec>, row: Seq<Datum>, values: Seq<(Seq<char>, Seq<char>)>) -> Option<Seq<Datum>> {
    if forall|i: int| 0 <= i < fields.len() ==> !supplied_fails(#[trigger] fields[i], values) {
        Some(Seq::new(fields.len(), |i: int|
            if !fields[i].primary_key && lookup(values, fields[i].name@) is Some {
                crate::values::value_of_text(fields[i], lookup(values, fields[i].name@).unwrap()).unwrap()
            } else {
                row[i]
            }))
    } else {
        None
    }
}

/// The field is supplied, is not the primary key, and its text fails.
pub open spec fn supplied_fails(f: FieldSpec, values: Seq<(Seq<char>, Seq<char>)>) -> bool {
    !f.primary_key && match lookup(values, f.name@) {
        Some(t) => crate::values::value_of_text(f, t) is None,
        None => false,
    }
}

impl EntityStore {
    /// An empty store for a well-formed schema.
    pub fn new(schema: Schema) -> (r: Option<EntityStore>)
        ensures
            r is None <==> !schema.wf(),
            r matches Some(s) ==> s.wf() && s.rows().len() == 0 && s.spec_schema() == schema,
    {
        if !schema.well_formed() {
            return None;
        }
        let p = schema.pk_position();
        let s = EntityStore { schema, pk_pos: p, records: Vec::new(), next_id: 1 };
        assert(s.rows() =~= Seq::<Seq<Datum>>::empty());
        Some(s)
    }

    pub fn schema(&self) -> (r: &Schema)
        ensures
            *r == self.spec_schema(),
            self.wf() ==> r.wf(),
    {
        &self.schema
    }

    /// The entity's name.
    pub fn get_entity_name(&self) -> (r: String)
        ensures
            r@ == self.spec_schema().entity_name@,
    {
        self.schema.entity_name.clone()
    }

    /// The number of stored records.
    pub fn count(&self) -> (r: usize)
        ensures
            r == self.rows().len(),
    {
        self.records.len()
    }

    fn find_index(&self, id: i32) -> (r: Option<usize>)
        requires
            self.wf(),
        ensures
            r matches Some(k) ==> k < self.rows().len() && key_of(self.rows()[k as int], self.pk()) == id,
            r is None ==> !self.has_key(id as int),
    {
        let mut k: usize = 0;
        while k < self.records.len()
            invariant
                self.wf(),
                k <= self.rows().len(),
                self.rows().len() == self.records@.len(),
                forall|j: int| 0 <= j < k ==> key_of(#[trigger] self.rows()[j], self.pk()) != id,
            decreases self.records@.len() - k,
        {
            assert(self.rows()[k as int] == record_view(self.records@[k as int]@));
            assert(self.rows()[k as int].len() == self.records@[k as int]@.len());
            assert(self.rows()[k as int][self.pk()] == self.records@[k as int]@[self.pk()]@);
            match &self.records[k][self.pk_pos] {
                FieldValue::Integer(x) => {
                    if *x == id as i64 {
                        return Some(k);
                    }
                },
                _ => {},
            }
            k = k + 1;
        }
        None
    }

    /// Deletes the record with primary key `id`, if there is one. Deleting an
    /// absent key changes nothing and succeeds as well.
    pub fn delete_entity(&mut self, id: i32) -> (r: Result<bool, ActixAdminError>)
        requires
            old(self).wf(),
        ensures
            final(self).wf(),
            r == Ok::<bool, ActixAdminError>(true),
            final(self).spec_schema() == old(self).spec_schema(),
            !final(self).has_key(id as int),
            forall|x: int| #[trigger] final(self).has_key(x) ==> old(self).has_key(x),
            forall|x: int| old(self).has_key(x) && x != id ==> #[trigger] final(self).has_key(x),
            !old(self).has_key(id as int) ==> final(self).rows() == old(self).rows(),
            old(self).has_key(id as int) ==> exists|k: int| 0 <= k < old(self).rows().len()
                && key_of(#[trigger] old(self).rows()[k], old(self).pk()) == id
                && final(self).rows() == old(self).rows().remove(k),
    {
        match self.find_index(id) {
            None => {},
            Some(k) => {
                let ghost before = self.rows();
                self.records.remove(k);
                assert(self.rows() =~= before.remove(k as int));
                assert(key_of(before[k as int], self.pk()) == id);
                assert forall|x: int| old(self).has_key(x) && x != id implies #[trigger] self.has_key(x) by {
                    let j = choose|j: int| 0 <= j < before.len() && key_of(#[trigger] before[j], self.pk()) == x;
                    if j < k {
                        assert(self.rows()[j] == before[j]);
                    } else {
                        assert(j != k);
                        assert(self.rows()[j - 1] == before[j]);
                    }
                }
                assert forall|x: int| #[trigger] self.has_key(x) implies old(self).has_key(x) by {
                    let j = choose|j: int| 0 <= j < self.rows().len() && key_of(#[trigger] self.rows()[j], self.pk()) == x;
                    if j < k {
                        assert(self.rows()[j] == before[j]);
                    } else {
                        assert(self.rows()[j] == before[j + 1]);
                    }
                }
                assert forall|j: int| 0 <= j < self.rows().len() implies key_of(#[trigger] self.rows()[j], self.pk()) != id by {
                    if j < k {
                        assert(self.rows()[j] == before[j]);
                    } else {
                        assert(self.rows()[j] == before[j + 1]);
                    }
                }
            },
        }
        Ok(true)
    }

    /// Stores a new record made from the model, under the next primary key,
    /// and returns the model with that key set.
    pub fn create_entity(&mut self, model: AdminModel) -> (r: Result<AdminModel, ActixAdminError>)
        requires
            old(self).wf(),
        ensures
            final(self).wf(),
            final(self).spec_schema() == old(self).spec_schema(),
            record_of_values(old(self).spec_schema().fields@, model.values@) is None ==> r == Err::<AdminModel, ActixAdminError>(ActixAdminError::ValidationError),
            r is Err ==> final(self).rows() == old(self).rows(),
            r is Ok <==> (record_of_values(old(self).spec_schema().fields@, model.values@) is Some && old(self).spec_next_id() < i32::MAX),
            record_of_values(old(self).spec_schema().fields@, model.values@) is Some && old(self).spec_next_id() == i32::MAX
                ==> r == Err::<AdminModel, ActixAdminError>(ActixAdminError::KeysExhausted),
            r matches Ok(m) ==> {
                &&& final(self).rows() == old(self).rows().push(
                    record_of_values(old(self).spec_schema().fields@, model.values@).unwrap().update(old(self).pk(), Datum::Integer(old(self).spec_next_id())))
                &&& m.values == model.values
                &&& m.errors == model.errors
                &&& m.custom_errors == model.custom_errors
                &&& m.primary_key matches Some(t) && t@ == int_text(old(self).spec_next_id())
            },
    {
        let mut rec = match model_to_record(&self.schema, &model) {
            Ok(rec) => rec,
            Err(_) => {
                return Err(ActixAdminError::ValidationError);
            },
        };
        if self.next_id == i32::MAX {
            return Err(ActixAdminError::KeysExhausted);
        }
        let id = self.next_id;
        let ghost before = self.rows();
        let ghost rv = record_of_values(self.schema.fields@, model.values@).unwrap();
        assert(record_view(rec@).len() == rec@.len());
        rec.set(self.pk_pos, FieldValue::Integer(id as i64));
        assert(record_view(rec@) =~= rv.update(self.pk(), Datum::Integer(id as int)));
        self.records.push(rec);
        self.next_id = id + 1;
        assert(self.rows() =~= before.push(rv.update(self.pk(), Datum::Integer(id as int))));
        assert forall|a: int, b: int| 0 <= a < b < self.rows().len() implies key_of(#[trigger] self.rows()[a], self.pk()) < key_of(#[trigger] self.rows()[b], self.pk()) by {
            if b < before.len() {
                assert(self.rows()[a] == before[a] && self.rows()[b] == before[b]);
            } else {
                assert(self.rows()[a] == before[a]);
            }
        }
        assert forall|k: int| 0 <= k < self.rows().len() implies (#[trigger] self.rows()[k])[self.pk()] is Integer
            && 0 < key_of(self.rows()[k], self.pk()) < self.spec_next_id()
            && self.rows()[k].len() == self.spec_schema().fields@.len() by {
            if k < before.len() {
                assert(self.rows()[k] == before[k]);
            }
        }
        let mut m = model;
        m.primary_key = Some(int_to_text(id as i64));
        Ok(m)
    }

    /// Overwrites the fields that the model supplies, all but the primary
    /// key, in the record with primary key `id`; the other fields keep their
    /// values.
    pub fn edit_entity(&mut self, id: i32, model: AdminModel) -> (r: Result<AdminModel, ActixAdminError>)
        requires
            old(self).wf(),
        ensures
            final(self).wf(),
            final(self).spec_schema() == old(self).spec_schema(),
            !old(self).has_key(id as int) ==> r == Err::<AdminModel, ActixAdminError>(ActixAdminError::EntityDoesNotExistError),
            r is Err ==> final(self).rows() == old(self).rows(),
            old(self).has_key(id as int) ==> exists|k: int| 0 <= k < old(self).rows().len()
                && key_of(#[trigger] old(self).rows()[k], old(self).pk()) == id
                && match edited_row(old(self).spec_schema().fields@, old(self).rows()[k], model.values@) {
                    None => r == Err::<AdminModel, ActixAdminError>(ActixAdminError::ValidationError),
                    Some(row) => r is Ok && final(self).rows() == old(self).rows().update(k, row),
                },
            r matches Ok(m) ==> m == model,
    {
        let k = match self.find_index(id) {
            None => {
                return Err(ActixAdminError::EntityDoesNotExistError);
            },
            Some(k) => k,
        };
        let ghost fields = self.schema.fields@;
        let ghost before = self.rows();
        let ghost old_row = before[k as int];
        assert(old_row == record_view(self.records@[k as int]@));
        let mut row: Vec<FieldValue> = Vec::new();
        let mut i: usize = 0;
        while i < self.schema.fields.len()
            invariant
                self.wf(),
                fields == self.spec_schema().fields@,
                before == self.rows(),
                k < before.len(),
                old_row == before[k as int],
                key_of(before[k as int], self.pk()) == id,
                before == old(self).rows(),
                old_row == record_view(self.records@[k as int]@),
                old_row.len() == fields.len(),
                i <= fields.len(),
                row@.len() == i,
                record_printable(old_row),
                forall|j: int| 0 <= j < i ==> (#[trigger] text_of_value(row@[j]@)) is Some,
                forall|j: int| 0 <= j < i ==> !supplied_fails(#[trigger] fields[j], model.values@),
                forall|j: int| 0 <= j < i ==> (#[trigger] row@[j])@ == (if !fields[j].primary_key && lookup(model.values@, fields[j].name@) is Some {
                    crate::values::value_of_text(fields[j], lookup(model.values@, fields[j].name@).unwrap()).unwrap()
                } else {
                    old_row[j]
                }),
            decreases fields.len() - i,
        {
            let f = &self.schema.fields[i];
            let supplied = if f.primary_key { None } else { model.values.get(f.name.as_str()) };
            match supplied {
                Some(t) => match crate::values::parse_value(f, t.as_str()) {
                    Some(v) => row.push(v),
                    None => {
                        assert(supplied_fails(fields[i as int], model.values@));
                        assert(key_of(before[k as int], self.pk()) == id);
                        assert(old(self).has_key(id as int));
                        return Err(ActixAdminError::ValidationError);
                    },
                },
                None => {
                    assert(old_row[i as int] == self.records@[k as int]@[i as int]@);
                    row.push(self.records[k][i].duplicate());
                },
            }
            i = i + 1;
        }
        let ghost new_row = edited_row(fields, old_row, model.values@).unwrap();
        assert(record_view(row@) =~= new_row);
        assert(record_printable(new_row)) by {
            assert forall|j: int| 0 <= j < new_row.len() implies (#[trigger] text_of_value(new_row[j])) is Some by {
                assert(new_row[j] == row@[j]@);
            }
        }
        self.records.set(k, row);
        assert(self.rows() =~= before.update(k as int, new_row));
        assert forall|j: int| 0 <= j < self.rows().len() implies (#[trigger] self.rows()[j])[self.pk()] == before[j][self.pk()]
            && self.rows()[j].len() == before[j].len() by {
            if j == k {
                assert(!fields[self.pk()].primary_key ==> false);
            }
        }
        assert forall|a: int, b: int| 0 <= a < b < self.rows().len() implies key_of(#[trigger] self.rows()[a], self.pk()) < key_of(#[trigger] self.rows()[b], self.pk()) by {
            assert(key_of(self.rows()[a], self.pk()) == key_of(before[a], self.pk()));
            assert(key_of(self.rows()[b], self.pk()) == key_of(before[b], self.pk()));
        }
        assert forall|j: int| 0 <= j < self.rows().len() implies 0 < key_of(#[trigger] self.rows()[j], self.pk()) < self.spec_next_id() by {
            assert(key_of(self.rows()[j], self.pk()) == key_of(before[j], self.pk()));
        }
        Ok(model)
    }

    fn find_column(&self, name: &str) -> (r: Option<usize>)
        requires
            self.wf(),
        ensures
            r matches Some(c) ==> c < self.spec_schema().fields@.len() && self.spec_schema().fields@[c as int].name@ == name@,
            r is None ==> forall|c: int| 0 <= c < self.spec_schema().fields@.len() ==> (#[trigger] self.spec_schema().fields@[c]).name@ != name@,
    {
        let mut c: usize = 0;
        while c < self.schema.fields.len()
            invariant
                c <= self.schema.fields@.len(),
                forall|q: int| 0 <= q < c ==> (#[trigger] self.schema.fields@[q]).name@ != name@,
            decreases self.schema.fields@.len() - c,
        {
            if str_eq(self.schema.fields[c].name.as_str(), name) {
                return Some(c);
            }
            c = c + 1;
        }
        None
    }

    /// One page of the records that match the search and the filters,
    /// ordered by the column `sort_by`, and the number of pages.
    pub fn list(
        &self,
        page: u64,
        entities_per_page: u64,
        filters: &Vec<FilterValue>,
        search: &str,
        sort_by: &str,
        sort_order: SortOrder,
    ) -> (r: Result<(u64, Vec<AdminModel>), ActixAdminError>)
        requires
            self.wf(),
            entities_per_page > 0,
        ensures
            (r == Err::<(u64, Vec<AdminModel>), ActixAdminError>(ActixAdminError::UnknownSortColumn)) <==> !exists|c: int|
                0 <= c < self.spec_schema().fields@.len() && (#[trigger] self.spec_schema().fields@[c]).name@ == sort_by@,
            r is Err ==> r == Err::<(u64, Vec<AdminModel>), ActixAdminError>(ActixAdminError::UnknownSortColumn),
            r matches Ok((pages, models)) ==> exists|c: int, order: Seq<usize>|
                #[trigger] arranges(self.spec_schema().fields@, self.rows(), search@, filters@, sort_by@, sort_order, c, order)
                && pages == page_count(order.len() as int, entities_per_page as int)
                && models@.len() == page_end(page as int, order.len() as int, entities_per_page as int)
                    - page_start(page as int, order.len() as int, entities_per_page as int)
                && forall|i: int| 0 <= i < models@.len() ==> row_model(self.spec_schema().fields@,
                    self.rows()[order[page_start(page as int, order.len() as int, entities_per_page as int) + i] as int],
                    self.pk(), #[trigger] models@[i]),
    {
        let col = match self.find_column(sort_by) {
            Some(c) => c,
            None => {
                return Err(ActixAdminError::UnknownSortColumn);
            },
        };
        let ghost fields = self.schema.fields@;
        let ghost rows = self.rows();
        let mut sel: Vec<usize> = Vec::new();
        let mut k: usize = 0;
        while k < self.records.len()
            invariant
                self.wf(),
                fields == self.spec_schema().fields@,
                rows == self.rows(),
                rows.len() == self.records@.len(),
                k <= rows.len(),
                sel@ == selected_positions(fields, rows, search@, filters@, k as int),
                forall|q: int| 0 <= q < sel@.len() ==> (#[trigger] sel@[q]) < k,
                forall|a: int, b: int| 0 <= a < b < sel@.len() ==> #[trigger] sel@[a] < #[trigger] sel@[b],
            decreases rows.len() - k,
        {
            assert(rows[k as int] == record_view(self.records@[k as int]@));
            assert(rows[k as int].len() == fields.len());
            let keep = search_matches(&self.schema.fields, &self.records[k], search)
                && filters_match(&self.schema.fields, &self.records[k], filters);
            if keep {
                sel.push(k);
            }
            k = k + 1;
        }
        assert forall|q: int| 0 <= q < sel@.len() implies (#[trigger] sel@[q]) < self.records@.len()
            && col < self.records@[sel@[q] as int]@.len() by {
            assert(rows[sel@[q] as int] == record_view(self.records@[sel@[q] as int]@));
            assert(rows[sel@[q] as int].len() == fields.len());
        }
        let desc = match sort_order {
            SortOrder::Asc => false,
            SortOrder::Desc => true,
        };
        let order = sort_positions(&self.records, &sel, col, desc);
        assert forall|idx: int, cc: int| 0 <= idx < rows.len() && 0 <= cc < fields.len() implies #[trigger] cell(self.records@, idx, cc) == rows[idx][cc] by {
            assert(rows[idx] == record_view(self.records@[idx]@));
            assert(rows[idx].len() == fields.len());
        }
        assert(rows_sorted(rows, order@, col as int, desc)) by {
            assert forall|a: int, b: int| 0 <= a < b < order@.len() implies
                !sorts_before(rows[#[trigger] order@[b] as int][col as int], rows[#[trigger] order@[a] as int][col as int], desc) by {
                lemma_permutation_member(order@, sel@, a);
                lemma_permutation_member(order@, sel@, b);
                assert(cell(self.records@, order@[a] as int, col as int) == rows[order@[a] as int][col as int]);
                assert(cell(self.records@, order@[b] as int, col as int) == rows[order@[b] as int][col as int]);
            }
        }
        assert(rows_stable(rows, order@, col as int, desc)) by {
            assert forall|a: int, b: int| 0 <= a < b < order@.len()
                && ties(rows[#[trigger] order@[a] as int][col as int], rows[#[trigger] order@[b] as int][col as int], desc)
                implies order@[a] < order@[b] by {
                lemma_permutation_member(order@, sel@, a);
                lemma_permutation_member(order@, sel@, b);
                assert(cell(self.records@, order@[a] as int, col as int) == rows[order@[a] as int][col as int]);
                assert(cell(self.records@, order@[b] as int, col as int) == rows[order@[b] as int][col as int]);
            }
        }
        let n = order.len() as u64;
        let per = entities_per_page;
        let q = n / per;
        let rem = n % per;
        proof {
            vstd::arithmetic::div_mod::lemma_fundamental_div_mod(n as int, per as int);
            if rem != 0 {
                assert(q < u64::MAX) by (nonlinear_arith)
                    requires
                        n == per * q + rem,
                        rem > 0,
                        per > 0,
                        q >= 0,
                        n <= u64::MAX,
                ;
            }
        }
        let pages: u64 = if rem == 0 { q } else { q + 1 };
        let mut models: Vec<AdminModel> = Vec::new();
        assert(order@.len() == sel@.len()) by {
            broadcast use vstd::seq_lib::group_to_multiset_ensures;
        }
        assert(forall|q: int| 0 <= q < order@.len() ==> (#[trigger] order@[q]) < rows.len()) by {
            assert forall|q: int| 0 <= q < order@.len() implies (#[trigger] order@[q]) < rows.len() by {
                lemma_permutation_member(order@, sel@, q);
            }
        }
        assert(sel@ == selected_positions(fields, rows, search@, filters@, rows.len() as int));
        assert(arranges(fields, rows, search@, filters@, sort_by@, sort_order, col as int, order@));
        if pages == 0 {
            assert(n == 0) by {
                if n > 0 {
                    lemma_page_clamped(page as int, n as int, per as int);
                }
            }
            return Ok((pages, models));
        }
        assert(n > 0) by {
            if n == 0 {
                vstd::arithmetic::div_mod::lemma_small_mod(0, per as nat);
                vstd::arithmetic::div_mod::lemma_div_of0(per as int);
            }
        }
        proof {
            lemma_page_clamped(page as int, n as int, per as int);
        }
        let idx: u64 = if page <= 1 { 0 } else if page > pages { pages - 1 } else { page - 1 };
        assert(idx * per < n) by {
            vstd::arithmetic::div_mod::lemma_fundamental_div_mod(n as int, per as int);
            let q = n as int / per as int;
            let rr = n as int % per as int;
            assert(idx * per < n) by (nonlinear_arith)
                requires
                    n == per * q + rr,
                    0 <= rr < per,
                    idx < q + if rr == 0 { 0int } else { 1int },
                    idx >= 0,
                    per > 0,
            ;
        }
        let start: u64 = idx * per;
        let end: u64 = if per > n - start { n } else { start + per };
        assert(start == page_start(page as int, n as int, per as int));
        assert(end == page_end(page as int, n as int, per as int));
        let mut i: u64 = start;
        while i < end
            invariant
                self.wf(),
                fields == self.spec_schema().fields@,
                rows == self.rows(),
                rows.len() == self.records@.len(),
                start <= i <= end,
                end <= n,
                n == order@.len(),
                models@.len() == i - start,
                forall|q: int| 0 <= q < order@.len() ==> (#[trigger] order@[q]) < rows.len(),
                col < fields.len(),
                fields[col as int].name@ == sort_by@,
                arranges(fields, rows, search@, filters@, sort_by@, sort_order, col as int, order@),
                per == entities_per_page,
                start == page_start(page as int, n as int, per as int),
                end == page_end(page as int, n as int, per as int),
                forall|q: int| 0 <= q < models@.len() ==> row_model(fields, rows[order@[start + q] as int], self.pk(), #[trigger] models@[q]),
            decreases end - i,
        {
            let pos = order[i as usize];
            assert(pos == order@[start + (i - start)]);
            proof { self.lemma_row(pos as int); }
            match record_to_model(&self.schema, &self.records[pos]) {
                Some(m) => {
                    models.push(m);
                },
                None => {
                    return Err(ActixAdminError::UnprintableValue);
                },
            }
            i = i + 1;
        }
        assert(self.spec_schema().fields@[col as int].name@ == sort_by@);
        Ok((pages, models))
    }

    /// The rows of a select list over this entity: each record's primary
    /// key with the text of its `label_field`, in order of creation.
    pub fn select_rows(&self, label_field: &str) -> (r: Result<Vec<(i32, String)>, ActixAdminError>)
        requires
            self.wf(),
        ensures
            (r == Err::<Vec<(i32, String)>, ActixAdminError>(ActixAdminError::UnknownSortColumn)) <==> !exists|c: int|
                0 <= c < self.spec_schema().fields@.len() && (#[trigger] self.spec_schema().fields@[c]).name@ == label_field@,
            r is Err ==> r == Err::<Vec<(i32, String)>, ActixAdminError>(ActixAdminError::UnknownSortColumn),
            r matches Ok(v) ==> v@.len() == self.rows().len() && exists|c: int|
                0 <= c < self.spec_schema().fields@.len() && (#[trigger] self.spec_schema().fields@[c]).name@ == label_field@
                && forall|k: int| 0 <= k < v@.len() ==> (#[trigger] v@[k]).0 as int == key_of(self.rows()[k], self.pk())
                    && v@[k].1@ == row_text(self.rows()[k], c),
    {
        let col = match self.find_column(label_field) {
            Some(c) => c,
            None => {
                return Err(ActixAdminError::UnknownSortColumn);
            },
        };
        let mut out: Vec<(i32, String)> = Vec::new();
        let mut k: usize = 0;
        while k < self.records.len()
            invariant
                self.wf(),
                col < self.spec_schema().fields@.len(),
                k <= self.records@.len(),
                self.rows().len() == self.records@.len(),
                out@.len() == k,
                forall|q: int| 0 <= q < k ==> (#[trigger] out@[q]).0 as int == key_of(self.rows()[q], self.pk())
                    && out@[q].1@ == row_text(self.rows()[q], col as int),
            decreases self.records@.len() - k,
        {
            assert(self.rows()[k as int] == record_view(self.records@[k as int]@));
            assert(self.rows()[k as int].len() == self.spec_schema().fields@.len());
            let key = match &self.records[k][self.pk_pos] {
                FieldValue::Integer(x) => *x as i32,
                _ => 0,
            };
            assert(0 < key_of(self.rows()[k as int], self.pk()) < self.spec_next_id());
            out.push((key, cell_text(&self.records[k][col])));
            k = k + 1;
        }
        Ok(out)
    }

    /// The typed record with primary key `id`.
    pub fn get_record(&self, id: i32) -> (r: Option<Vec<FieldValue>>)
        requires
            self.wf(),
        ensures
            r is None <==> !self.has_key(id as int),
            r matches Some(v) ==> exists|k: int| 0 <= k < self.rows().len()
                && key_of(#[trigger] self.rows()[k], self.pk()) == id && record_view(v@) == self.rows()[k],
    {
        match self.find_index(id) {
            None => None,
            Some(k) => {
                let src = &self.records[k];
                let mut out: Vec<FieldValue> = Vec::new();
                let mut i: usize = 0;
                while i < src.len()
                    invariant
                        i <= src@.len(),
                        out@.len() == i,
                        forall|j: int| 0 <= j < i ==> (#[trigger] out@[j])@ == src@[j]@,
                    decreases src@.len() - i,
                {
                    out.push(src[i].duplicate());
                    i = i + 1;
                }
                assert(record_view(out@) =~= record_view(src@));
                Some(out)
            },
        }
    }

    /// The flat model of the record with primary key `id`.
    pub fn get_entity(&self, id: i32) -> (r: Result<AdminModel, ActixAdminError>)
        requires
            self.wf(),
        ensures
            !self.has_key(id as int) <==> r == Err::<AdminModel, ActixAdminError>(ActixAdminError::EntityDoesNotExistError),
            r is Err ==> r == Err::<AdminModel, ActixAdminError>(ActixAdminError::EntityDoesNotExistError),
            self.has_key(id as int) ==> exists|k: int| 0 <= k < self.rows().len()
                && key_of(#[trigger] self.rows()[k], self.pk()) == id
                && (r matches Ok(m) && row_model(self.spec_schema().fields@, self.rows()[k], self.pk(), m)),
    {
        match self.find_index(id) {
            None => Err(ActixAdminError::EntityDoesNotExistError),
            Some(k) => {
                proof { self.lemma_row(k as int); }
                match record_to_model(&self.schema, &self.records[k]) {
                    Some(m) => Ok(m),
                    None => Err(ActixAdminError::UnprintableValue),
                }
            },
        }
    }

    /// Facts on the row at position `k`: its values are those of the stored
    /// record, one per field, and its primary key is an integer.
    proof fn lemma_row(&self, k: int)
        requires
            self.wf(),
            0 <= k < self.rows().len(),
        ensures
            self.rows()[k] == record_view(self.records@[k]@),
            record_printable(self.rows()[k]),
            self.rows()[k].len() == self.spec_schema().fields@.len(),
            self.records@[k]@.len() == self.spec_schema().fields@.len(),
            self.rows()[k][self.pk()] == Datum::Integer(key_of(self.rows()[k], self.pk())),
            text_of_value(self.rows()[k][self.pk()]) == Some(int_text(key_of(self.rows()[k], self.pk()))),
    {
    }
}

/// `m` is the flat model of `row`: the row's field texts, its key's text,
/// and no errors.
pub open spec fn row_model(fields: Seq<FieldSpec>, row: Seq<Datum>, pk: int, m: AdminModel) -> bool {
    &&& m.values@ == record_values(fields, row, row.len() as int)
    &&& m.primary_key matches Some(t) && t@ == int_text(key_of(row, pk))
    &&& m.errors@.len() == 0
    &&& m.custom_errors@.len() == 0
}

} // verus!

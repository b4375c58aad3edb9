//! The flat admin model that crosses the web boundary, its conversions to and
//! from typed records, and structural validation.
use vstd::prelude::*;
use crate::text::str_eq;
use crate::values::{FieldSpec, FieldValue, Datum, ValueKind, text_of_value, value_of_text, parse_value, print_value};
use crate::values::{fits, prints_losslessly, lemma_value_round_trip};

verus! {

/// A string-keyed list of string values; a later entry for a key shadows an
/// earlier one.
#[derive(Clone, Debug)]
pub struct FieldMap {
    pub entries: Vec<(String, String)>,
}

pub open spec fn pair_view(p: (String, String)) -> (Seq<char>, Seq<char>) {
    (p.0@, p.1@)
}

impl View for FieldMap {
    type V = Seq<(Seq<char>, Seq<char>)>;

    open spec fn view(&self) -> Seq<(Seq<char>, Seq<char>)> {
        self.entries@.map_values(|p: (String, String)| pair_view(p))
    }
}

/// The value of the last entry for `k`.
pub open spec fn lookup(e: Seq<(Seq<char>, Seq<char>)>, k: Seq<char>) -> Option<Seq<char>>
    decreases e.len(),
{
    if e.len() == 0 {
        None
    } else if e.last().0 == k {
        Some(e.last().1)
    } else {
        lookup(e.drop_last(), k)
    }
}

/// The text a field has in a value list: empty when the field is missing.
pub open spec fn field_text(e: Seq<(Seq<char>, Seq<char>)>, k: Seq<char>) -> Seq<char> {
    match lookup(e, k) {
        Some(v) => v,
        None => Seq::empty(),
    }
}

impl FieldMap {
    pub fn new() -> (r: FieldMap)
        ensures
            r@.len() == 0,
    {
        FieldMap { entries: Vec::new() }
    }

    pub fn len(&self) -> (r: usize)
        ensures
            r == self@.len(),
    {
        self.entries.len()
    }

    /// Adds an entry; it shadows any earlier entry for the same key.
    pub fn insert(&mut self, key: String, value: String)
        ensures
            final(self)@ == old(self)@.push((key@, value@)),
    {
        self.entries.push((key, value));
        assert(final(self)@ =~= old(self)@.push((key@, value@)));
    }

    /// The value of the last entry for `key`.
    pub fn get(&self, key: &str) -> (r: Option<String>)
        ensures
            r matches Some(v) ==> lookup(self@, key@) == Some(v@),
            r is None ==> lookup(self@, key@) is None,
    {
        let mut i: usize = self.entries.len();
        assert(self@.subrange(0, i as int) =~= self@);
        while i > 0
            invariant
                i <= self@.len(),
                self@.len() == self.entries@.len(),
                lookup(self@, key@) == lookup(self@.subrange(0, i as int), key@),
            decreases i,
        {
            let ghost pre = self@.subrange(0, i as int);
            assert(pre.drop_last() =~= self@.subrange(0, i - 1));
            assert(pre.last() == pair_view(self.entries@[i - 1]));
            if str_eq(self.entries[i - 1].0.as_str(), key) {
                return Some(self.entries[i - 1].1.clone());
            }
            i = i - 1;
        }
        None
    }
}

/// The flat, string-valued form of an entity record.
#[derive(Clone, Debug)]
pub struct AdminModel {
    /// Absent until the record is stored.
    pub primary_key: Option<String>,
    pub values: FieldMap,
    /// Structural validation errors, by field name.
    pub errors: FieldMap,
    /// Errors from the entity's own validators, by field name.
    pub custom_errors: FieldMap,
}

impl AdminModel {
    pub fn create_empty() -> (r: AdminModel)
        ensures
            r.primary_key is None,
            r.values@.len() == 0,
            r.errors@.len() == 0,
            r.custom_errors@.len() == 0,
    {
        AdminModel {
            primary_key: None,
            values: FieldMap::new(),
            errors: FieldMap::new(),
            custom_errors: FieldMap::new(),
        }
    }

    pub open spec fn spec_has_errors(&self) -> bool {
        self.errors@.len() > 0 || self.custom_errors@.len() > 0
    }

    /// A model with errors may not be written.
    pub fn has_errors(&self) -> (r: bool)
        ensures
            r == self.spec_has_errors(),
    {
        self.errors.len() > 0 || self.custom_errors.len() > 0
    }
}

/// The fields of one entity.
#[derive(Clone, Debug)]
pub struct Schema {
    pub entity_name: String,
    pub fields: Vec<FieldSpec>,
}

impl Schema {
    /// Field names are distinct, and exactly one field is the primary key,
    /// a required integer.
    pub open spec fn wf(&self) -> bool {
        &&& forall|i: int, j: int|
            0 <= i < j < self.fields@.len() ==> #[trigger] self.fields@[i].name@ != #[trigger] self.fields@[j].name@
        &&& 0 <= self.pk_index() < self.fields@.len()
        &&& forall|i: int| 0 <= i < self.fields@.len() ==> (#[trigger] self.fields@[i].primary_key <==> i == self.pk_index())
        &&& self.fields@[self.pk_index()].kind == ValueKind::Integer
        &&& !self.fields@[self.pk_index()].optional
    }

    /// The position of the primary-key field.
    pub open spec fn pk_index(&self) -> int {
        choose|i: int| 0 <= i < self.fields@.len() && self.fields@[i].primary_key
    }
}

impl Schema {
    /// The position of the primary-key field.
    pub fn pk_position(&self) -> (r: usize)
        requires
            self.wf(),
        ensures
            r as int == self.pk_index(),
    {
        let n = self.fields.len();
        let mut p: usize = 0;
        while !self.fields[p].primary_key
            invariant
                self.wf(),
                n == self.fields@.len(),
                p <= self.pk_index(),
                self.pk_index() < self.fields@.len(),
            decreases self.fields@.len() - p,
        {
            p = p + 1;
        }
        p
    }

    /// Tells whether the schema is well formed.
    pub fn well_formed(&self) -> (r: bool)
        ensures
            r == self.wf(),
    {
        let n = self.fields.len();
        let mut count: usize = 0;
        let mut p: usize = 0;
        let mut i: usize = 0;
        while i < n
            invariant
                n == self.fields@.len(),
                i <= n,
                count <= i,
                count == 0 ==> forall|k: int| 0 <= k < i ==> !(#[trigger] self.fields@[k]).primary_key,
                count >= 1 ==> p < i && self.fields@[p as int].primary_key,
                count == 1 ==> forall|k: int| 0 <= k < i && (#[trigger] self.fields@[k]).primary_key ==> k == p,
                count >= 2 ==> exists|a: int, b: int| 0 <= a < b < i && (#[trigger] self.fields@[a]).primary_key && (#[trigger] self.fields@[b]).primary_key,
            decreases n - i,
        {
            if self.fields[i].primary_key {
                if count == 1 {
                    assert(self.fields@[p as int].primary_key && self.fields@[i as int].primary_key);
                }
                if count == 0 {
                    p = i;
                }
                count = if count < 2 { count + 1 } else { 2 };
            }
            i = i + 1;
        }
        if count != 1 {
            proof {
                if self.wf() {
                    let q = self.pk_index();
                    assert(self.fields@[q].primary_key);
                    if count >= 2 {
                        let (a, b) = choose|a: int, b: int| 0 <= a < b < n && (#[trigger] self.fields@[a]).primary_key && (#[trigger] self.fields@[b]).primary_key;
                        assert(a == q && b == q);
                    }
                }
            }
            return false;
        }
        assert(self.pk_index() == p as int);
        if self.fields[p].kind != ValueKind::Integer || self.fields[p].optional {
            return false;
        }
        let mut a: usize = 0;
        while a < n
            invariant
                n == self.fields@.len(),
                a <= n,
                forall|x: int, y: int| 0 <= x < y < n && x < a ==> #[trigger] self.fields@[x].name@ != #[trigger] self.fields@[y].name@,
            decreases n - a,
        {
            let mut b: usize = a + 1;
            while b < n
                invariant
                    n == self.fields@.len(),
                    a < n,
                    a < b <= n,
                    forall|x: int, y: int| 0 <= x < y < n && x < a ==> #[trigger] self.fields@[x].name@ != #[trigger] self.fields@[y].name@,
                    forall|y: int| a < y < b ==> self.fields@[a as int].name@ != #[trigger] self.fields@[y].name@,
                decreases n - b,
            {
                if str_eq(self.fields[a].name.as_str(), self.fields[b].name.as_str()) {
                    return false;
                }
                b = b + 1;
            }
            a = a + 1;
        }
        true
    }
}

pub open spec fn invalid_value_message() -> Seq<char> {
    "invalid value"@
}

/// The field is not the primary key and its text does not parse as its type.
pub open spec fn field_fails(f: FieldSpec, values: Seq<(Seq<char>, Seq<char>)>) -> bool {
    !f.primary_key && value_of_text(f, field_text(values, f.name@)) is None
}

/// One entry per failing field, in field order.
pub open spec fn structural_errors(fields: Seq<FieldSpec>, values: Seq<(Seq<char>, Seq<char>)>) -> Seq<(Seq<char>, Seq<char>)>
    decreases fields.len(),
{
    if fields.len() == 0 {
        Seq::empty()
    } else {
        let prev = structural_errors(fields.drop_last(), values);
        if field_fails(fields.last(), values) {
            prev.push((fields.last().name@, invalid_value_message()))
        } else {
            prev
        }
    }
}

/// The structural errors are empty exactly when no field fails.
pub proof fn lemma_structural_errors_empty(fields: Seq<FieldSpec>, values: Seq<(Seq<char>, Seq<char>)>)
    ensures
        (structural_errors(fields, values).len() == 0) <==> (forall|i: int| 0 <= i < fields.len() ==> !field_fails(#[trigger] fields[i], values)),
    decreases fields.len(),
{
    if fields.len() > 0 {
        lemma_structural_errors_empty(fields.drop_last(), values);
        if structural_errors(fields, values).len() == 0 {
            assert forall|i: int| 0 <= i < fields.len() implies !field_fails(#[trigger] fields[i], values) by {
                if i < fields.len() - 1 {
                    assert(fields[i] == fields.drop_last()[i]);
                }
            }
        } else {
            if forall|i: int| 0 <= i < fields.len() ==> !field_fails(#[trigger] fields[i], values) {
                assert forall|i: int| 0 <= i < fields.drop_last().len() implies !field_fails(#[trigger] fields.drop_last()[i], values) by {
                    assert(fields[i] == fields.drop_last()[i]);
                }
                assert(!field_fails(fields[fields.len() - 1], values));
            }
        }
    }
}

/// Checks every field's text against its declared type and records the
/// failures in `errors`; other parts of the model are kept.
pub fn validate_model(schema: &Schema, model: &mut AdminModel)
    ensures
        final(model).errors@ == structural_errors(schema.fields@, old(model).values@),
        final(model).values == old(model).values,
        final(model).primary_key == old(model).primary_key,
        final(model).custom_errors == old(model).custom_errors,
{
    let mut errors = FieldMap::new();
    let mut i: usize = 0;
    while i < schema.fields.len()
        invariant
            i <= schema.fields@.len(),
            errors@ == structural_errors(schema.fields@.subrange(0, i as int), model.values@),
        decreases schema.fields@.len() - i,
    {
        let f = &schema.fields[i];
        assert(schema.fields@.subrange(0, i + 1).drop_last() =~= schema.fields@.subrange(0, i as int));
        if !f.primary_key {
            let text = match model.values.get(f.name.as_str()) {
                Some(t) => t,
                None => String::new(),
            };
            if parse_value(f, text.as_str()).is_none() {
                proof {
                    reveal_strlit("invalid value");
                }
                errors.insert(f.name.clone(), String::from_str("invalid value"));
            }
        }
        i = i + 1;
    }
    assert(schema.fields@.subrange(0, i as int) =~= schema.fields@);
    model.errors = errors;
}

/// The value list of a record: each field's name with its value's text.
pub open spec fn record_values(fields: Seq<FieldSpec>, rec: Seq<Datum>, n: int) -> Seq<(Seq<char>, Seq<char>)>
    decreases n,
{
    if n <= 0 {
        Seq::empty()
    } else {
        record_values(fields, rec, n - 1).push((fields[n - 1].name@, text_of_value(rec[n - 1]).unwrap()))
    }
}

/// Every value of the record has a text.
pub open spec fn record_printable(rec: Seq<Datum>) -> bool {
    forall|i: int| 0 <= i < rec.len() ==> (#[trigger] text_of_value(rec[i])) is Some
}

pub open spec fn record_view(rec: Seq<FieldValue>) -> Seq<Datum> {
    rec.map_values(|v: FieldValue| v@)
}

/// Converts a typed record into its flat model: the primary key's text and
/// every field's text; no errors.
pub fn record_to_model(schema: &Schema, record: &Vec<FieldValue>) -> (r: Option<AdminModel>)
    requires
        schema.wf(),
        record@.len() == schema.fields@.len(),
    ensures
        r is None <==> !record_printable(record_view(record@)),
        r matches Some(m) ==> {
            &&& m.values@ == record_values(schema.fields@, record_view(record@), record@.len() as int)
            &&& m.primary_key matches Some(k) && Some(k@) == text_of_value(record@[schema.pk_index()]@)
            &&& m.errors@.len() == 0
            &&& m.custom_errors@.len() == 0
        },
{
    let ghost rv = record_view(record@);
    let mut values = FieldMap::new();
    let mut key: Option<String> = None;
    let mut i: usize = 0;
    while i < record.len()
        invariant
            schema.wf(),
            record@.len() == schema.fields@.len(),
            rv == record_view(record@),
            i <= record@.len(),
            values@ == record_values(schema.fields@, rv, i as int),
            forall|k: int| 0 <= k < i ==> (#[trigger] text_of_value(rv[k])) is Some,
            i > schema.pk_index() ==> (key matches Some(t) && Some(t@) == text_of_value(rv[schema.pk_index()])),
        decreases record@.len() - i,
    {
        match print_value(&record[i]) {
            Some(t) => {
                if schema.fields[i].primary_key {
                    key = Some(t.clone());
                }
                values.insert(schema.fields[i].name.clone(), t);
            },
            None => {
                assert(rv[i as int] == record@[i as int]@);
                assert(!record_printable(rv));
                return None;
            },
        }
        i = i + 1;
    }
    let mut m = AdminModel::create_empty();
    m.values = values;
    m.primary_key = key;
    Some(m)
}

/// The record that a value list denotes, with the primary key left unset,
/// or `None` when some field fails.
pub open spec fn record_of_values(fields: Seq<FieldSpec>, values: Seq<(Seq<char>, Seq<char>)>) -> Option<Seq<Datum>> {
    if forall|i: int| 0 <= i < fields.len() ==> !field_fails(#[trigger] fields[i], values) {
        Some(Seq::new(fields.len(), |i: int|
            if fields[i].primary_key {
                Datum::Absent
            } else {
                value_of_text(fields[i], field_text(values, fields[i].name@)).unwrap()
            }))
    } else {
        None
    }
}

/// A field's text did not parse as its declared type.
#[derive(Clone, Debug)]
pub struct ConversionError {
    pub field: String,
}

/// Converts a flat model into a typed record: every field but the primary
/// key parsed from its text, the primary key left unset.
pub fn model_to_record(schema: &Schema, model: &AdminModel) -> (r: Result<Vec<FieldValue>, ConversionError>)
    ensures
        r matches Ok(rec) ==> record_of_values(schema.fields@, model.values@) == Some(record_view(rec@))
            && record_printable(record_view(rec@)),
        r matches Err(e) ==> record_of_values(schema.fields@, model.values@) is None
            && exists|i: int| 0 <= i < schema.fields@.len() && field_fails(schema.fields@[i], model.values@)
                && schema.fields@[i].name@ == e.field@,
{
    let mut rec: Vec<FieldValue> = Vec::new();
    let mut i: usize = 0;
    while i < schema.fields.len()
        invariant
            i <= schema.fields@.len(),
            rec@.len() == i,
            forall|k: int| 0 <= k < i ==> (#[trigger] text_of_value(rec@[k]@)) is Some,
            forall|k: int| 0 <= k < i ==> !field_fails(#[trigger] schema.fields@[k], model.values@),
            forall|k: int| 0 <= k < i ==> (#[trigger] rec@[k])@ == (if schema.fields@[k].primary_key {
                Datum::Absent
            } else {
                value_of_text(schema.fields@[k], field_text(model.values@, schema.fields@[k].name@)).unwrap()
            }),
        decreases schema.fields@.len() - i,
    {
        let f = &schema.fields[i];
        if f.primary_key {
            rec.push(FieldValue::Absent);
        } else {
            let text = match model.values.get(f.name.as_str()) {
                Some(t) => t,
                None => String::new(),
            };
            match parse_value(f, text.as_str()) {
                Some(v) => rec.push(v),
                None => {
                    return Err(ConversionError { field: f.name.clone() });
                },
            }
        }
        i = i + 1;
    }
    assert(record_view(rec@) =~= record_of_values(schema.fields@, model.values@).unwrap());
    Ok(rec)
}

proof fn lemma_record_values_lookup(fields: Seq<FieldSpec>, rec: Seq<Datum>, n: int, i: int)
    requires
        0 <= i < n <= fields.len(),
        n <= rec.len(),
        forall|a: int, b: int| 0 <= a < b < fields.len() ==> #[trigger] fields[a].name@ != #[trigger] fields[b].name@,
    ensures
        lookup(record_values(fields, rec, n), fields[i].name@) == Some(text_of_value(rec[i]).unwrap()),
    decreases n,
{
    let e = record_values(fields, rec, n);
    assert(e.drop_last() =~= record_values(fields, rec, n - 1));
    if i < n - 1 {
        lemma_record_values_lookup(fields, rec, n - 1, i);
    }
}

/// Conversion round trip: turning a well-typed record into its flat model
/// and back gives every field but the primary key unchanged, where each
/// value prints losslessly.
pub proof fn lemma_conversion_round_trip(schema: Schema, rec: Seq<Datum>)
    requires
        schema.wf(),
        rec.len() == schema.fields@.len(),
        record_printable(rec),
        forall|i: int| 0 <= i < rec.len() ==> fits(schema.fields@[i], #[trigger] rec[i]),
        forall|i: int| 0 <= i < rec.len() ==> prints_losslessly(schema.fields@[i], #[trigger] rec[i]),
    ensures
        record_of_values(schema.fields@, record_values(schema.fields@, rec, rec.len() as int)) == Some(
            Seq::new(rec.len(), |i: int| if schema.fields@[i].primary_key { Datum::Absent } else { rec[i] }),
        ),
{
    let fields = schema.fields@;
    let n = rec.len() as int;
    let values = record_values(fields, rec, n);
    assert forall|i: int| 0 <= i < n implies field_text(values, #[trigger] fields[i].name@) == text_of_value(rec[i]).unwrap() by {
        lemma_record_values_lookup(fields, rec, n, i);
    }
    assert forall|i: int| 0 <= i < n implies value_of_text(fields[i], field_text(values, #[trigger] fields[i].name@)) == Some(rec[i]) by {
        assert(fits(fields[i], rec[i]));
        assert(prints_losslessly(fields[i], rec[i]));
        assert(text_of_value(rec[i]) is Some);
        lemma_value_round_trip(fields[i], rec[i]);
    }
    assert forall|i: int| 0 <= i < fields.len() implies !field_fails(#[trigger] fields[i], values) by {
        assert(value_of_text(fields[i], field_text(values, fields[i].name@)) == Some(rec[i]));
    }
    assert(record_of_values(fields, values).unwrap() =~= Seq::new(rec.len(), |i: int| if fields[i].primary_key { Datum::Absent } else { rec[i] }));
}

} // verus!

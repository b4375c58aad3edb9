//! Typed field values, the schema of an entity's fields, and the textual
//! form in which values cross the web boundary.
use vstd::prelude::*;
use crate::text::{int_text, i64_of_text, int_to_text, parse_i64, str_eq, lemma_int_text_round_trip};
use chrono::{Datelike, Timelike};

verus! {

/// The largest magnitude of a decimal mantissa (96 bits).
pub const MAX_DECIMAL_MANTISSA: i128 = 79228162514264337593543950335;

/// The largest number of fractional digits of a decimal.
pub const MAX_DECIMAL_SCALE: u32 = 28;

/// The decimal `m / 10^s` is representable.
pub open spec fn decimal_in_range(m: i128, s: u32) -> bool {
    s <= MAX_DECIMAL_SCALE && -MAX_DECIMAL_MANTISSA <= m <= MAX_DECIMAL_MANTISSA
}

/// What the decimal text parser makes of a text, as mantissa and scale.
pub uninterp spec fn decimal_of_text(s: Seq<char>) -> Option<(i128, u32)>;

/// The text of a representable decimal, with all of its fractional digits.
pub uninterp spec fn decimal_text(m: i128, s: u32) -> Seq<char>;

/// What the date parser makes of a `YYYY-MM-DD` text.
pub uninterp spec fn date_of_text(s: Seq<char>) -> Option<(i32, u32, u32)>;

/// The `YYYY-MM-DD` text of a calendar date, when it is one.
pub uninterp spec fn date_text(d: (i32, u32, u32)) -> Option<Seq<char>>;

/// What the timestamp parser makes of a `YYYY-MM-DDTHH:MM` text.
pub uninterp spec fn datetime_of_text(s: Seq<char>) -> Option<(i32, u32, u32, u32, u32, u32)>;

/// The `YYYY-MM-DDTHH:MM` text of a timestamp, when it is one.
pub uninterp spec fn datetime_text(t: (i32, u32, u32, u32, u32, u32)) -> Option<Seq<char>>;

/// Relies on `rust_decimal::Decimal::from_str`, and on the documented range
/// of a `Decimal` (a 96-bit mantissa, at most 28 fractional digits).
#[verifier::external_body]
fn parse_decimal(s: &str) -> (r: Option<(i128, u32)>)
    ensures
        r == decimal_of_text(s@),
        r matches Some((m, sc)) ==> decimal_in_range(m, sc),
{
    <rust_decimal::Decimal as std::str::FromStr>::from_str(s).ok().map(|d| (d.mantissa(), d.scale()))
}

/// Relies on `Display` of `rust_decimal::Decimal`, built by
/// `Decimal::from_i128_with_scale`, which accepts every representable pair.
#[verifier::external_body]
fn format_decimal(m: i128, s: u32) -> (r: String)
    requires
        decimal_in_range(m, s),
    ensures
        r@ == decimal_text(m, s),
{
    rust_decimal::Decimal::from_i128_with_scale(m, s).to_string()
}

/// Relies on `chrono::NaiveDate::parse_from_str` with the format `%Y-%m-%d`;
/// what it returns is a calendar date, so it has a text.
#[verifier::external_body]
fn parse_date(s: &str) -> (r: Option<(i32, u32, u32)>)
    ensures
        r == date_of_text(s@),
        r matches Some(d) ==> date_text(d) is Some,
{
    chrono::NaiveDate::parse_from_str(s, "%Y-%m-%d").ok().map(|d| (d.year(), d.month(), d.day()))
}

/// Relies on `chrono::NaiveDate::format` with `%Y-%m-%d`, for the date that
/// `NaiveDate::from_ymd_opt` builds.
#[verifier::external_body]
fn format_date(d: (i32, u32, u32)) -> (r: Option<String>)
    ensures
        r matches Some(t) ==> date_text(d) == Some(t@),
        r is None ==> date_text(d) is None,
{
    chrono::NaiveDate::from_ymd_opt(d.0, d.1, d.2).map(|v| v.format("%Y-%m-%d").to_string())
}

/// Relies on `chrono::NaiveDateTime::parse_from_str` with `%Y-%m-%dT%H:%M`;
/// what it returns is a valid timestamp, so it has a text.
#[verifier::external_body]
fn parse_datetime(s: &str) -> (r: Option<(i32, u32, u32, u32, u32, u32)>)
    ensures
        r == datetime_of_text(s@),
        r matches Some(t) ==> datetime_text(t) is Some,
{
    chrono::NaiveDateTime::parse_from_str(s, "%Y-%m-%dT%H:%M")
        .ok()
        .map(|t| (t.year(), t.month(), t.day(), t.hour(), t.minute(), t.second()))
}

/// Relies on `chrono::NaiveDateTime::format` with `%Y-%m-%dT%H:%M`, for the
/// timestamp that `NaiveDate::from_ymd_opt` and `and_hms_opt` build.
#[verifier::external_body]
fn format_datetime(t: (i32, u32, u32, u32, u32, u32)) -> (r: Option<String>)
    ensures
        r matches Some(x) ==> datetime_text(t) == Some(x@),
        r is None ==> datetime_text(t) is None,
{
    chrono::NaiveDate::from_ymd_opt(t.0, t.1, t.2)
        .and_then(|d| d.and_hms_opt(t.3, t.4, t.5))
        .map(|v| v.format("%Y-%m-%dT%H:%M").to_string())
}

/// The declared type of a field.
#[derive(Clone, Copy, Debug, PartialEq, Eq, Structural)]
pub enum ValueKind {
    Integer,
    Boolean,
    Text,
    Decimal,
    Date,
    DateTime,
    /// One of a fixed list of variant names.
    Choice,
}

/// One field of an entity's schema.
#[derive(Clone, Debug)]
pub struct FieldSpec {
    pub name: String,
    pub kind: ValueKind,
    /// The field may hold no value; its empty text means "absent".
    pub optional: bool,
    pub primary_key: bool,
    pub searchable: bool,
    /// The variant names of a `Choice` field.
    pub choices: Vec<String>,
}

/// A value of a typed record.
#[derive(Clone, Debug, PartialEq)]
pub enum FieldValue {
    Absent,
    Integer(i64),
    Boolean(bool),
    Text(String),
    /// Mantissa and number of fractional digits.
    Decimal(i128, u32),
    /// Year, month, day.
    Date(i32, u32, u32),
    /// Year, month, day, hour, minute, second.
    DateTime(i32, u32, u32, u32, u32, u32),
}

impl FieldValue {
    /// A copy of the value.
    pub fn duplicate(&self) -> (r: FieldValue)
        ensures
            r@ == self@,
    {
        match self {
            FieldValue::Absent => FieldValue::Absent,
            FieldValue::Integer(i) => FieldValue::Integer(*i),
            FieldValue::Boolean(b) => FieldValue::Boolean(*b),
            FieldValue::Text(t) => FieldValue::Text(t.clone()),
            FieldValue::Decimal(m, s) => FieldValue::Decimal(*m, *s),
            FieldValue::Date(y, mo, d) => FieldValue::Date(*y, *mo, *d),
            FieldValue::DateTime(y, mo, d, h, mi, s) => FieldValue::DateTime(*y, *mo, *d, *h, *mi, *s),
        }
    }
}

/// The mathematical value of a `FieldValue`.
pub enum Datum {
    Absent,
    Integer(int),
    Boolean(bool),
    Text(Seq<char>),
    Decimal(i128, u32),
    Date(i32, u32, u32),
    DateTime(i32, u32, u32, u32, u32, u32),
}

impl View for FieldValue {
    type V = Datum;

    open spec fn view(&self) -> Datum {
        match self {
            FieldValue::Absent => Datum::Absent,
            FieldValue::Integer(i) => Datum::Integer(*i as int),
            FieldValue::Boolean(b) => Datum::Boolean(*b),
            FieldValue::Text(t) => Datum::Text(t@),
            FieldValue::Decimal(m, s) => Datum::Decimal(*m, *s),
            FieldValue::Date(y, mo, d) => Datum::Date(*y, *mo, *d),
            FieldValue::DateTime(y, mo, d, h, mi, s) => Datum::DateTime(*y, *mo, *d, *h, *mi, *s),
        }
    }
}

pub open spec fn true_text() -> Seq<char> {
    seq!['t', 'r', 'u', 'e']
}

pub open spec fn false_text() -> Seq<char> {
    seq!['f', 'a', 'l', 's', 'e']
}

/// `t` is one of the field's variant names.
pub open spec fn is_choice(f: FieldSpec, t: Seq<char>) -> bool {
    exists|i: int| 0 <= i < f.choices@.len() && f.choices@[i]@ == t
}

/// The natural text of a value: empty when absent; `None` when the value
/// has no text (a decimal out of range, a day that is no calendar day).
pub open spec fn text_of_value(d: Datum) -> Option<Seq<char>> {
    match d {
        Datum::Absent => Some(Seq::empty()),
        Datum::Integer(i) => Some(int_text(i)),
        Datum::Boolean(b) => Some(if b { true_text() } else { false_text() }),
        Datum::Text(t) => Some(t),
        Datum::Decimal(m, s) => if decimal_in_range(m, s) { Some(decimal_text(m, s)) } else { None },
        Datum::Date(y, mo, dd) => date_text((y, mo, dd)),
        Datum::DateTime(y, mo, dd, h, mi, s) => datetime_text((y, mo, dd, h, mi, s)),
    }
}

/// The value that a text denotes for a field, or `None` when the text does
/// not parse as the field's declared type (structural validation).
pub open spec fn value_of_text(f: FieldSpec, s: Seq<char>) -> Option<Datum> {
    if f.optional && s.len() == 0 {
        Some(Datum::Absent)
    } else {
        match f.kind {
            ValueKind::Integer => match i64_of_text(s) {
                Some(i) => Some(Datum::Integer(i as int)),
                None => None,
            },
            ValueKind::Boolean => if s == true_text() {
                Some(Datum::Boolean(true))
            } else if s == false_text() {
                Some(Datum::Boolean(false))
            } else {
                None
            },
            ValueKind::Text => Some(Datum::Text(s)),
            ValueKind::Decimal => match decimal_of_text(s) {
                Some((m, sc)) => Some(Datum::Decimal(m, sc)),
                None => None,
            },
            ValueKind::Date => match date_of_text(s) {
                Some((y, mo, d)) => Some(Datum::Date(y, mo, d)),
                None => None,
            },
            ValueKind::DateTime => match datetime_of_text(s) {
                Some((y, mo, d, h, mi, sec)) => Some(Datum::DateTime(y, mo, d, h, mi, sec)),
                None => None,
            },
            ValueKind::Choice => if is_choice(f, s) { Some(Datum::Text(s)) } else { None },
        }
    }
}

/// The value has the field's declared type.
pub open spec fn fits(f: FieldSpec, d: Datum) -> bool {
    match d {
        Datum::Absent => f.optional,
        Datum::Integer(i) => f.kind == ValueKind::Integer && i64::MIN <= i <= i64::MAX,
        Datum::Boolean(_) => f.kind == ValueKind::Boolean,
        Datum::Text(t) => f.kind == ValueKind::Text || (f.kind == ValueKind::Choice && is_choice(f, t)),
        Datum::Decimal(m, s) => f.kind == ValueKind::Decimal && decimal_in_range(m, s),
        Datum::Date(..) => f.kind == ValueKind::Date,
        Datum::DateTime(..) => f.kind == ValueKind::DateTime,
    }
}

/// The value's text parses back to it: it is not an empty text in an
/// optional field, and the outside parsers read back what was printed.
pub open spec fn prints_losslessly(f: FieldSpec, d: Datum) -> bool {
    match d {
        Datum::Text(t) => !(f.optional && t.len() == 0),
        Datum::Decimal(m, s) => decimal_text(m, s).len() > 0 && decimal_of_text(decimal_text(m, s)) == Some((m, s)),
        Datum::Date(y, mo, dd) => match date_text((y, mo, dd)) {
            Some(t) => t.len() > 0 && date_of_text(t) == Some((y, mo, dd)),
            None => true,
        },
        Datum::DateTime(y, mo, dd, h, mi, s) => match datetime_text((y, mo, dd, h, mi, s)) {
            Some(t) => t.len() > 0 && datetime_of_text(t) == Some((y, mo, dd, h, mi, s)),
            None => true,
        },
        _ => true,
    }
}

/// Printing a well-typed value and parsing its text for the same field
/// gives the value back, where the value prints losslessly.
pub proof fn lemma_value_round_trip(f: FieldSpec, d: Datum)
    requires
        fits(f, d),
        prints_losslessly(f, d),
        text_of_value(d) is Some,
    ensures
        value_of_text(f, text_of_value(d).unwrap()) == Some(d),
{
    match d {
        Datum::Integer(i) => {
            lemma_int_text_round_trip(i);
        },
        Datum::Boolean(b) => {
            assert(true_text() != false_text()) by {
                assert(true_text().len() != false_text().len());
            }
        },
        _ => {},
    }
}

fn choice_index(f: &FieldSpec, s: &str) -> (r: bool)
    ensures
        r == is_choice(*f, s@),
{
    let mut i: usize = 0;
    while i < f.choices.len()
        invariant
            i <= f.choices@.len(),
            forall|k: int| 0 <= k < i ==> f.choices@[k]@ != s@,
        decreases f.choices@.len() - i,
    {
        if str_eq(f.choices[i].as_str(), s) {
            return true;
        }
        i = i + 1;
    }
    false
}

/// Parses a field's text into a value of its declared type.
pub fn parse_value(f: &FieldSpec, s: &str) -> (r: Option<FieldValue>)
    ensures
        r matches Some(v) ==> value_of_text(*f, s@) == Some(v@) && text_of_value(v@) is Some,
        r is None ==> value_of_text(*f, s@) is None,
{
    if f.optional && s.unicode_len() == 0 {
        return Some(FieldValue::Absent);
    }
    match f.kind {
        ValueKind::Integer => match parse_i64(s) {
            Some(i) => Some(FieldValue::Integer(i)),
            None => None,
        },
        ValueKind::Boolean => {
            proof {
                reveal_strlit("true");
                reveal_strlit("false");
            }
            if str_eq(s, "true") {
                assert("true"@ =~= true_text());
                Some(FieldValue::Boolean(true))
            } else if str_eq(s, "false") {
                assert("false"@ =~= false_text());
                Some(FieldValue::Boolean(false))
            } else {
                assert("true"@ =~= true_text());
                assert("false"@ =~= false_text());
                None
            }
        },
        ValueKind::Text => Some(FieldValue::Text(s.to_owned())),
        ValueKind::Decimal => match parse_decimal(s) {
            Some((m, sc)) => Some(FieldValue::Decimal(m, sc)),
            None => None,
        },
        ValueKind::Date => match parse_date(s) {
            Some((y, mo, d)) => Some(FieldValue::Date(y, mo, d)),
            None => None,
        },
        ValueKind::DateTime => match parse_datetime(s) {
            Some((y, mo, d, h, mi, sec)) => Some(FieldValue::DateTime(y, mo, d, h, mi, sec)),
            None => None,
        },
        ValueKind::Choice => if choice_index(f, s) {
            Some(FieldValue::Text(s.to_owned()))
        } else {
            None
        },
    }
}

/// The natural text of a value: decimals with all their digits, dates as
/// ISO-8601, booleans as `true` / `false`, an absent value as the empty text.
pub fn print_value(v: &FieldValue) -> (r: Option<String>)
    ensures
        r matches Some(t) ==> text_of_value(v@) == Some(t@),
        r is None ==> text_of_value(v@) is None,
{
    match v {
        FieldValue::Absent => Some(String::new()),
        FieldValue::Integer(i) => Some(int_to_text(*i)),
        FieldValue::Boolean(b) => {
            proof {
                reveal_strlit("true");
                reveal_strlit("false");
            }
            let t = if *b { String::from_str("true") } else { String::from_str("false") };
            assert(t@ =~= (if *b { true_text() } else { false_text() }));
            Some(t)
        },
        FieldValue::Text(t) => Some(t.clone()),
        FieldValue::Decimal(m, s) => {
            if *s <= MAX_DECIMAL_SCALE && -MAX_DECIMAL_MANTISSA <= *m && *m <= MAX_DECIMAL_MANTISSA {
                Some(format_decimal(*m, *s))
            } else {
                None
            }
        },
        FieldValue::Date(y, mo, d) => format_date((*y, *mo, *d)),
        FieldValue::DateTime(y, mo, d, h, mi, s) => format_datetime((*y, *mo, *d, *h, *mi, *s)),
    }
}

} // verus!

//! The order in which list views sort field values, and a stable sort.
use vstd::prelude::*;
use crate::values::{FieldValue, Datum};

verus! {

broadcast use vstd::seq_lib::to_multiset_insert;

/// Lexicographic order of texts by character code; a proper prefix comes first.
pub open spec fn text_lt(a: Seq<char>, b: Seq<char>) -> bool
    decreases a.len(),
{
    if a.len() == 0 {
        b.len() > 0
    } else if b.len() == 0 {
        false
    } else if a[0] != b[0] {
        a[0] < b[0]
    } else {
        text_lt(a.drop_first(), b.drop_first())
    }
}

pub open spec fn pow10(n: nat) -> int
    decreases n,
{
    if n == 0 { 1 } else { 10 * pow10((n - 1) as nat) }
}

/// A decimal `m / 10^s` as its integer part and its fraction in units of
/// `10^-28`; ordering these pairs orders the decimals by value.
pub open spec fn decimal_key(m: i128, s: u32) -> (int, int) {
    let e: nat = if s <= 28 { s as nat } else { 28 };
    (m as int / pow10(e), (m as int % pow10(e)) * pow10((28 - e) as nat))
}

pub open spec fn pair_lt(a: (int, int), b: (int, int)) -> bool {
    a.0 < b.0 || (a.0 == b.0 && a.1 < b.1)
}

pub open spec fn date_lt(a: (i32, u32, u32), b: (i32, u32, u32)) -> bool {
    a.0 < b.0 || (a.0 == b.0 && (a.1 < b.1 || (a.1 == b.1 && a.2 < b.2)))
}

pub open spec fn time_lt(a: (u32, u32, u32), b: (u32, u32, u32)) -> bool {
    a.0 < b.0 || (a.0 == b.0 && (a.1 < b.1 || (a.1 == b.1 && a.2 < b.2)))
}

/// The position of a value's kind in the order: absent values first.
pub open spec fn rank(d: Datum) -> int {
    match d {
        Datum::Absent => 0,
        Datum::Boolean(_) => 1,
        Datum::Integer(_) => 2,
        Datum::Decimal(..) => 3,
        Datum::Date(..) => 4,
        Datum::DateTime(..) => 5,
        Datum::Text(_) => 6,
    }
}

/// `a` sorts strictly before `b` in ascending order.
pub open spec fn datum_lt(a: Datum, b: Datum) -> bool {
    if rank(a) != rank(b) {
        rank(a) < rank(b)
    } else {
        match (a, b) {
            (Datum::Boolean(x), Datum::Boolean(y)) => !x && y,
            (Datum::Integer(x), Datum::Integer(y)) => x < y,
            (Datum::Decimal(m1, s1), Datum::Decimal(m2, s2)) => pair_lt(decimal_key(m1, s1), decimal_key(m2, s2)),
            (Datum::Date(y1, m1, d1), Datum::Date(y2, m2, d2)) => date_lt((y1, m1, d1), (y2, m2, d2)),
            (Datum::DateTime(y1, m1, d1, h1, i1, s1), Datum::DateTime(y2, m2, d2, h2, i2, s2)) =>
                date_lt((y1, m1, d1), (y2, m2, d2)) || ((y1, m1, d1) == (y2, m2, d2) && time_lt((h1, i1, s1), (h2, i2, s2))),
            (Datum::Text(x), Datum::Text(y)) => text_lt(x, y),
            _ => false,
        }
    }
}

/// `a` sorts strictly before `b` in the given direction.
pub open spec fn sorts_before(a: Datum, b: Datum, desc: bool) -> bool {
    if desc { datum_lt(b, a) } else { datum_lt(a, b) }
}

proof fn lemma_text_lt_props(a: Seq<char>, b: Seq<char>, c: Seq<char>)
    ensures
        text_lt(a, b) ==> !text_lt(b, a),
        text_lt(a, b) && text_lt(b, c) ==> text_lt(a, c),
    decreases a.len(),
{
    if a.len() > 0 && b.len() > 0 && c.len() > 0 {
        lemma_text_lt_props(a.drop_first(), b.drop_first(), c.drop_first());
    }
    if a.len() > 0 && b.len() > 0 {
        lemma_text_lt_props(a.drop_first(), b.drop_first(), b.drop_first());
    }
}

/// The order is a strict order: asymmetric and transitive.
pub proof fn lemma_datum_lt_strict(a: Datum, b: Datum, c: Datum)
    ensures
        datum_lt(a, b) ==> !datum_lt(b, a),
        datum_lt(a, b) && datum_lt(b, c) ==> datum_lt(a, c),
{
    match (a, b, c) {
        (Datum::Text(x), Datum::Text(y), Datum::Text(z)) => {
            lemma_text_lt_props(x, y, z);
        },
        (Datum::Text(x), Datum::Text(y), _) => {
            lemma_text_lt_props(x, y, y);
        },
        _ => {},
    }
}

fn text_less(a: &str, b: &str) -> (r: bool)
    ensures
        r == text_lt(a@, b@),
{
    let n = a.unicode_len();
    let m = b.unicode_len();
    let mut i: usize = 0;
    assert(a@.subrange(0, n as int) =~= a@);
    assert(b@.subrange(0, m as int) =~= b@);
    while i < n && i < m
        invariant
            n == a@.len(),
            m == b@.len(),
            i <= n,
            i <= m,
            text_lt(a@, b@) == text_lt(a@.subrange(i as int, n as int), b@.subrange(i as int, m as int)),
        decreases n - i,
    {
        let x = a.get_char(i);
        let y = b.get_char(i);
        let ghost sa = a@.subrange(i as int, n as int);
        let ghost sb = b@.subrange(i as int, m as int);
        assert(sa[0] == x && sb[0] == y);
        if x != y {
            return x < y;
        }
        assert(sa.drop_first() =~= a@.subrange(i + 1, n as int));
        assert(sb.drop_first() =~= b@.subrange(i + 1, m as int));
        i = i + 1;
    }
    i == n && i < m
}

fn pow10_exec(e: u32) -> (r: i128)
    requires
        e <= 28,
    ensures
        r == pow10(e as nat),
        1 <= r <= pow10(28),
{
    let mut p: i128 = 1;
    let mut k: u32 = 0;
    proof {
        lemma_pow10_mono(0, 28);
        lemma_pow10_28();
    }
    while k < e
        invariant
            k <= e <= 28,
            p == pow10(k as nat),
            1 <= p <= pow10(k as nat),
            pow10(k as nat) <= pow10(28),
        decreases e - k,
    {
        proof {
            lemma_pow10_mono(k as nat + 1, 28);
            lemma_pow10_28();
        }
        p = p * 10;
        k = k + 1;
    }
    p
}

proof fn lemma_pow10_28()
    ensures
        pow10(28) == 10000000000000000000000000000,
{
    reveal_with_fuel(pow10, 29);
}

proof fn lemma_pow10_mono(a: nat, b: nat)
    requires
        a <= b,
    ensures
        1 <= pow10(a) <= pow10(b),
    decreases b,
{
    if b > 0 && a < b {
        lemma_pow10_mono(a, (b - 1) as nat);
    } else if b > 0 {
        lemma_pow10_mono(0, (b - 1) as nat);
    }
    if a == 0 {
        assert(pow10(0) == 1);
    }
    if b == 28 {
        lemma_pow10_28();
    }
}

proof fn lemma_pow10_adds(a: nat, b: nat)
    ensures
        pow10(a) * pow10(b) == pow10(a + b),
    decreases a,
{
    if a > 0 {
        lemma_pow10_adds((a - 1) as nat, b);
        assert(pow10(a) * pow10(b) == 10 * (pow10((a - 1) as nat) * pow10(b))) by (nonlinear_arith)
            requires
                pow10(a) == 10 * pow10((a - 1) as nat),
        ;
    }
}

fn decimal_key_exec(m: i128, s: u32) -> (r: (i128, i128))
    ensures
        r.0 as int == decimal_key(m, s).0,
        r.1 as int == decimal_key(m, s).1,
{
    let e: u32 = if s <= 28 { s } else { 28 };
    let p = pow10_exec(e);
    let f = pow10_exec(28 - e);
    proof {
        lemma_pow10_adds(e as nat, (28 - e) as nat);
        lemma_pow10_mono(0, 28);
        lemma_pow10_28();
    }
    let ghost mi = m as int;
    let ghost pi = p as int;
    assert(i128::MIN <= mi / pi <= i128::MAX) by {
        vstd::arithmetic::div_mod::lemma_fundamental_div_mod(mi, pi);
        vstd::arithmetic::div_mod::lemma_mod_bound(mi, pi);
        let q = mi / pi;
        let r = mi % pi;
        if mi >= 0 {
            assert(0 <= q <= mi) by (nonlinear_arith)
                requires
                    mi == pi * q + r,
                    0 <= r < pi,
                    pi >= 1,
                    mi >= 0,
            ;
        } else {
            assert(mi <= q <= 0) by (nonlinear_arith)
                requires
                    mi == pi * q + r,
                    0 <= r < pi,
                    pi >= 1,
                    mi < 0,
            ;
        }
    }
    let q = match m.checked_div_euclid(p) {
        Some(q) => q,
        None => 0,
    };
    let rem = match m.checked_rem_euclid(p) {
        Some(x) => x,
        None => 0,
    };
    assert(0 <= rem < p);
    assert(rem * f < p * f) by (nonlinear_arith)
        requires
            0 <= rem < p,
            f >= 1,
    ;
    assert(rem * f >= 0) by (nonlinear_arith)
        requires
            0 <= rem,
            f >= 1,
    ;
    (q, rem * f)
}

proof fn lemma_sorts_before_strict(a: Datum, b: Datum, c: Datum, desc: bool)
    ensures
        sorts_before(a, b, desc) ==> !sorts_before(b, a, desc),
        sorts_before(a, b, desc) && sorts_before(b, c, desc) ==> sorts_before(a, c, desc),
{
    lemma_datum_lt_strict(a, b, c);
    lemma_datum_lt_strict(c, b, a);
    lemma_datum_lt_strict(b, a, c);
}

proof fn lemma_text_lt_connex(a: Seq<char>, b: Seq<char>, c: Seq<char>)
    ensures
        text_lt(a, c) ==> text_lt(a, b) || text_lt(b, c),
    decreases a.len(),
{
    if a.len() > 0 && b.len() > 0 && c.len() > 0 {
        lemma_text_lt_connex(a.drop_first(), b.drop_first(), c.drop_first());
    }
}

/// Values that neither sorts before the other are interchangeable: if `a`
/// sorts before `c`, any `b` sorts after `a` or before `c`.
pub proof fn lemma_datum_lt_connex(a: Datum, b: Datum, c: Datum)
    ensures
        datum_lt(a, c) ==> datum_lt(a, b) || datum_lt(b, c),
{
    match (a, b, c) {
        (Datum::Text(x), Datum::Text(y), Datum::Text(z)) => {
            lemma_text_lt_connex(x, y, z);
        },
        _ => {},
    }
}

proof fn lemma_sorts_before_connex(a: Datum, b: Datum, c: Datum, desc: bool)
    ensures
        sorts_before(a, c, desc) ==> sorts_before(a, b, desc) || sorts_before(b, c, desc),
{
    lemma_datum_lt_connex(a, b, c);
    lemma_datum_lt_connex(c, b, a);
}

/// Neither value sorts before the other.
pub open spec fn ties(a: Datum, b: Datum, desc: bool) -> bool {
    !sorts_before(a, b, desc) && !sorts_before(b, a, desc)
}

fn rank_exec(v: &FieldValue) -> (r: u8)
    ensures
        r as int == rank(v@),
{
    match v {
        FieldValue::Absent => 0,
        FieldValue::Boolean(_) => 1,
        FieldValue::Integer(_) => 2,
        FieldValue::Decimal(..) => 3,
        FieldValue::Date(..) => 4,
        FieldValue::DateTime(..) => 5,
        FieldValue::Text(_) => 6,
    }
}

/// Compares two values in ascending order.
pub fn datum_less(a: &FieldValue, b: &FieldValue) -> (r: bool)
    ensures
        r == datum_lt(a@, b@),
{
    let ra = rank_exec(a);
    let rb = rank_exec(b);
    if ra != rb {
        return ra < rb;
    }
    match (a, b) {
        (FieldValue::Boolean(x), FieldValue::Boolean(y)) => !*x && *y,
        (FieldValue::Integer(x), FieldValue::Integer(y)) => *x < *y,
        (FieldValue::Decimal(m1, s1), FieldValue::Decimal(m2, s2)) => {
            let k1 = decimal_key_exec(*m1, *s1);
            let k2 = decimal_key_exec(*m2, *s2);
            k1.0 < k2.0 || (k1.0 == k2.0 && k1.1 < k2.1)
        },
        (FieldValue::Date(y1, m1, d1), FieldValue::Date(y2, m2, d2)) =>
            *y1 < *y2 || (*y1 == *y2 && (*m1 < *m2 || (*m1 == *m2 && *d1 < *d2))),
        (FieldValue::DateTime(y1, m1, d1, h1, i1, s1), FieldValue::DateTime(y2, m2, d2, h2, i2, s2)) => {
            let date_before = *y1 < *y2 || (*y1 == *y2 && (*m1 < *m2 || (*m1 == *m2 && *d1 < *d2)));
            let same_date = *y1 == *y2 && *m1 == *m2 && *d1 == *d2;
            let time_before = *h1 < *h2 || (*h1 == *h2 && (*i1 < *i2 || (*i1 == *i2 && *s1 < *s2)));
            date_before || (same_date && time_before)
        },
        (FieldValue::Text(x), FieldValue::Text(y)) => text_less(x.as_str(), y.as_str()),
        _ => false,
    }
}

/// The value in column `col` of the row at position `idx`.
pub open spec fn cell(rows: Seq<Vec<FieldValue>>, idx: int, col: int) -> Datum {
    rows[idx]@[col]@
}

/// The positions are ordered by the values in column `col`, in the given
/// direction: no later position sorts strictly before an earlier one.
pub open spec fn sorted_by(rows: Seq<Vec<FieldValue>>, order: Seq<usize>, col: int, desc: bool) -> bool {
    forall|a: int, b: int| 0 <= a < b < order.len() ==>
        !sorts_before(cell(rows, #[trigger] order[b] as int, col), cell(rows, #[trigger] order[a] as int, col), desc)
}

/// Positions whose values tie keep their relative order.
pub open spec fn stable(rows: Seq<Vec<FieldValue>>, order: Seq<usize>, col: int, desc: bool) -> bool {
    forall|a: int, b: int| 0 <= a < b < order.len()
        && ties(cell(rows, #[trigger] order[a] as int, col), cell(rows, #[trigger] order[b] as int, col), desc)
        ==> order[a] < order[b]
}

/// Orders row positions by the values in column `col`, ascending or
/// descending; rows with equal values keep their relative order.
pub fn sort_positions(rows: &Vec<Vec<FieldValue>>, sel: &Vec<usize>, col: usize, desc: bool) -> (r: Vec<usize>)
    requires
        forall|k: int| 0 <= k < sel@.len() ==> (#[trigger] sel@[k]) < rows@.len() && col < rows@[sel@[k] as int]@.len(),
        forall|a: int, b: int| 0 <= a < b < sel@.len() ==> #[trigger] sel@[a] < #[trigger] sel@[b],
    ensures
        r@.to_multiset() == sel@.to_multiset(),
        r@.len() == sel@.len(),
        sorted_by(rows@, r@, col as int, desc),
        stable(rows@, r@, col as int, desc),
{
    let mut out: Vec<usize> = Vec::new();
    let mut i: usize = 0;
    assert(out@ =~= sel@.subrange(0, 0));
    while i < sel.len()
        invariant
            i <= sel@.len(),
            forall|k: int| 0 <= k < sel@.len() ==> (#[trigger] sel@[k]) < rows@.len() && col < rows@[sel@[k] as int]@.len(),
            out@.to_multiset() == sel@.subrange(0, i as int).to_multiset(),
            out@.len() == i,
            forall|k: int| 0 <= k < out@.len() ==> (#[trigger] out@[k]) < rows@.len() && col < rows@[out@[k] as int]@.len(),
            forall|a: int, b: int| 0 <= a < b < sel@.len() ==> #[trigger] sel@[a] < #[trigger] sel@[b],
            sorted_by(rows@, out@, col as int, desc),
            stable(rows@, out@, col as int, desc),
        decreases sel@.len() - i,
    {
        let x = sel[i];
        let ghost kx = cell(rows@, x as int, col as int);
        let mut p: usize = 0;
        let mut found = false;
        while p < out.len() && !found
            invariant
                p <= out@.len(),
                found ==> p < out@.len() && sorts_before(kx, cell(rows@, out@[p as int] as int, col as int), desc),
                x < rows@.len() && col < rows@[x as int]@.len(),
                kx == cell(rows@, x as int, col as int),
                forall|k: int| 0 <= k < out@.len() ==> (#[trigger] out@[k]) < rows@.len() && col < rows@[out@[k] as int]@.len(),
                forall|q: int| 0 <= q < p ==> !sorts_before(kx, cell(rows@, #[trigger] out@[q] as int, col as int), desc),
            decreases out@.len() - p + (if found { 0int } else { 1int }),
        {
            let y = out[p];
            let before = if desc {
                datum_less(&rows[y][col], &rows[x][col])
            } else {
                datum_less(&rows[x][col], &rows[y][col])
            };
            if before {
                found = true;
            } else {
                p = p + 1;
            }
        }
        let ghost old_out = out@;
        assert(p < old_out.len() ==> sorts_before(kx, cell(rows@, old_out[p as int] as int, col as int), desc));
        assert forall|k: int| 0 <= k < old_out.len() implies #[trigger] old_out[k] < x by {
            broadcast use vstd::seq_lib::group_to_multiset_ensures;
            assert(old_out.contains(old_out[k]));
            assert(old_out.to_multiset().count(old_out[k]) > 0);
            assert(sel@.subrange(0, i as int).to_multiset().count(old_out[k]) > 0);
            assert(sel@.subrange(0, i as int).contains(old_out[k]));
            let j = choose|j: int| 0 <= j < i && sel@.subrange(0, i as int)[j] == old_out[k];
            assert(sel@[j] == old_out[k]);
        }
        out.insert(p, x);
        assert(out@ == old_out.insert(p as int, x));
        assert(sel@.subrange(0, i + 1) =~= sel@.subrange(0, i as int).push(x));
        proof { vstd::seq_lib::to_multiset_build(sel@.subrange(0, i as int), x); }
        assert forall|a: int, b: int| 0 <= a < b < out@.len() implies
            !sorts_before(cell(rows@, #[trigger] out@[b] as int, col as int), cell(rows@, #[trigger] out@[a] as int, col as int), desc) by {
            if b < p {
                assert(out@[a] == old_out[a] && out@[b] == old_out[b]);
            } else if b == p {
                assert(out@[a] == old_out[a]);
            } else if a < p {
                assert(out@[a] == old_out[a] && out@[b] == old_out[b - 1]);
            } else if a == p {
                let ob = cell(rows@, old_out[b - 1] as int, col as int);
                let op = cell(rows@, old_out[p as int] as int, col as int);
                lemma_sorts_before_strict(ob, kx, op, desc);
                lemma_sorts_before_strict(kx, op, ob, desc);
                assert(out@[b] == old_out[b - 1]);
            } else {
                assert(out@[a] == old_out[a - 1] && out@[b] == old_out[b - 1]);
            }
        }
        assert forall|a: int, b: int| 0 <= a < b < out@.len()
            && ties(cell(rows@, #[trigger] out@[a] as int, col as int), cell(rows@, #[trigger] out@[b] as int, col as int), desc)
            implies out@[a] < out@[b] by {
            if b < p {
                assert(out@[a] == old_out[a] && out@[b] == old_out[b]);
            } else if b == p {
                assert(out@[a] == old_out[a]);
            } else if a < p {
                assert(out@[a] == old_out[a] && out@[b] == old_out[b - 1]);
            } else if a == p {
                let ob = cell(rows@, old_out[b - 1] as int, col as int);
                let op = cell(rows@, old_out[p as int] as int, col as int);
                assert(out@[b] == old_out[b - 1]);
                lemma_sorts_before_connex(kx, ob, op, desc);
                if b - 1 > p {
                    assert(!sorts_before(ob, op, desc));
                }
            } else {
                assert(out@[a] == old_out[a - 1] && out@[b] == old_out[b - 1]);
            }
        }
        i = i + 1;
    }
    assert(sel@.subrange(0, i as int) =~= sel@);
    out
}

} // verus!

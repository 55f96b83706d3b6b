//! Order statistics of measured values.
//!
//! A value is held as the 64 bits of an IEEE 754 double: a sign bit, then a
//! magnitude that grows with its bits, the largest magnitudes being no numbers.
//! Everything here compares values. What takes arithmetic, a point between two
//! values and the fences around the quartiles, is handed in.

use vstd::prelude::*;
use vstd::seq_lib::{to_multiset_build, to_multiset_insert};

verus! {

/// A summary of values.
pub struct Stats {
    pub min: u64,
    pub q1: u64,
    pub median: u64,
    pub q3: u64,
    pub max: u64,
    pub outliers: Vec<u64>,
    pub samples: Vec<u64>,
}

pub const SIGN_BIT: u64 = 0x8000_0000_0000_0000;

pub const INFINITY: u64 = 0x7ff0_0000_0000_0000;

/// The bits of a value without its sign.
pub open spec fn magnitude(bits: u64) -> int {
    if bits < SIGN_BIT {
        bits as int
    } else {
        bits - SIGN_BIT
    }
}

/// A number that orders values: the magnitude, negative below zero. The two
/// zeros are alike.
pub open spec fn order_key(bits: u64) -> int {
    if bits < SIGN_BIT {
        magnitude(bits)
    } else {
        -magnitude(bits)
    }
}

/// The bits are no number.
pub open spec fn is_nan(bits: u64) -> bool {
    magnitude(bits) > INFINITY
}

/// One value is below another. What is no number is below nothing and above
/// nothing.
pub open spec fn below(a: u64, b: u64) -> bool {
    !is_nan(a) && !is_nan(b) && order_key(a) < order_key(b)
}

/// Values in ascending order.
pub open spec fn ascending(s: Seq<u64>) -> bool {
    forall|i: int, j: int| 0 <= i <= j < s.len() ==> order_key(s[i]) <= order_key(s[j])
}

/// The values that are alike in order, in the order in which they stand.
pub open spec fn alike(s: Seq<u64>, key: int) -> Seq<u64> {
    s.filter(|b: u64| order_key(b) == key)
}

/// `r` holds the values of `s` in ascending order, and values that are alike stay
/// in the order that they had.
pub open spec fn sorted_from(r: Seq<u64>, s: Seq<u64>) -> bool {
    &&& ascending(r)
    &&& r.len() == s.len()
    &&& r.to_multiset() == s.to_multiset()
    &&& forall|key: int| #[trigger] alike(r, key) == alike(s, key)
}

/// Any two of the values can be compared.
pub open spec fn comparable(s: Seq<u64>) -> bool {
    s.len() >= 2 ==> forall|i: int| 0 <= i < s.len() ==> !is_nan(#[trigger] s[i])
}

/// Where a percentile lies among values in order: at a value, if both positions are the
/// same, or between two values. The weight, itself a value, says how far it is from the
/// lower one as a part of the way to the upper one.
#[derive(Clone, Copy, Debug, PartialEq, Eq, Structural)]
pub struct Position {
    pub lower: usize,
    pub upper: usize,
    pub weight: u64,
}

/// The bits of zero.
pub const ZERO: u64 = 0;

/// The bits of one quarter.
pub const QUARTER: u64 = 0x3fd0_0000_0000_0000;

/// The bits of one half.
pub const HALF: u64 = 0x3fe0_0000_0000_0000;

/// The bits of three quarters.
pub const THREE_QUARTERS: u64 = 0x3fe8_0000_0000_0000;

/// The bits of so many quarters.
pub open spec fn quarters(k: nat) -> u64 {
    if k == 0 {
        ZERO
    } else if k == 1 {
        QUARTER
    } else if k == 2 {
        HALF
    } else {
        THREE_QUARTERS
    }
}

/// Where the `k`th quartile of `n` values in order lies: `k` quarters of the way from
/// the first to the last.
pub open spec fn is_quartile_position(at: Position, n: nat, k: nat) -> bool {
    let point = k * ((n - 1) as nat);
    &&& at.lower == point / 4
    &&& at.upper == (if point % 4 == 0 {
        point / 4
    } else {
        point / 4 + 1
    })
    &&& at.weight == quarters(point % 4)
}

/// What a percentile can be: the value at its position, or what `interpolate` gives for
/// the values on both sides and the weight.
pub open spec fn is_percentile<I: Fn(u64, u64, u64) -> u64>(
    s: Seq<u64>,
    at: Position,
    interpolate: I,
    r: u64,
) -> bool {
    if at.lower == at.upper {
        r == s[at.lower as int]
    } else {
        interpolate.ensures((s[at.lower as int], s[at.upper as int], at.weight), r)
    }
}

/// What the `k`th quartile can be.
pub open spec fn is_quartile<I: Fn(u64, u64, u64) -> u64>(
    s: Seq<u64>,
    k: nat,
    interpolate: I,
    r: u64,
) -> bool {
    exists|at: Position| #[trigger]
        is_quartile_position(at, s.len(), k) && is_percentile(s, at, interpolate, r)
}

/// A value lies beyond the fences.
pub open spec fn outside(v: u64, lower: u64, upper: u64) -> bool {
    below(v, lower) || below(upper, v)
}

pub open spec fn outliers_of(s: Seq<u64>, lower: u64, upper: u64) -> Seq<u64> {
    s.filter(|v: u64| outside(v, lower, upper))
}

pub open spec fn kept_of(s: Seq<u64>, lower: u64, upper: u64) -> Seq<u64> {
    s.filter(|v: u64| !outside(v, lower, upper))
}

/// The summary of values in order. Its ends are the first and the last value
/// within the fences, or of all values if none is within.
pub open spec fn is_summary(st: Stats, s: Seq<u64>, lower: u64, upper: u64) -> bool {
    let kept = kept_of(s, lower, upper);
    let ends = if kept.len() == 0 {
        s
    } else {
        kept
    };
    &&& st.outliers@ == outliers_of(s, lower, upper)
    &&& st.samples@ == s
    &&& st.min == ends[0]
    &&& st.max == ends[ends.len() - 1]
}

/// A summary of values in order with its quartiles, and with the fences that `fences`
/// gives for them. No values have a summary of zeros.
pub open spec fn is_stats<I: Fn(u64, u64, u64) -> u64, F: Fn(u64, u64) -> (u64, u64)>(
    st: Stats,
    s: Seq<u64>,
    interpolate: I,
    fences: F,
) -> bool {
    if s.len() == 0 {
        &&& st.min == ZERO && st.q1 == ZERO && st.median == ZERO && st.q3 == ZERO
        &&& st.max == ZERO
        &&& st.outliers@.len() == 0 && st.samples@.len() == 0
    } else {
        &&& is_quartile(s, 1, interpolate, st.q1)
        &&& is_quartile(s, 2, interpolate, st.median)
        &&& is_quartile(s, 3, interpolate, st.q3)
        &&& exists|limits: (u64, u64)| #[trigger]
            fences.ensures((st.q1, st.q3), limits) && is_summary(st, s, limits.0, limits.1)
    }
}

proof fn lemma_alike_push(s: Seq<u64>, x: u64, key: int)
    ensures
        alike(s.push(x), key) == (if order_key(x) == key {
            alike(s, key).push(x)
        } else {
            alike(s, key)
        }),
{
    reveal(Seq::filter);
    assert(s.push(x).drop_last() =~= s);
}

proof fn lemma_none_alike(s: Seq<u64>, key: int)
    requires
        forall|i: int| 0 <= i < s.len() ==> order_key(#[trigger] s[i]) != key,
    ensures
        alike(s, key) == Seq::<u64>::empty(),
    decreases s.len(),
{
    reveal(Seq::filter);
    if s.len() > 0 {
        let t = s.drop_last();
        assert forall|i: int| 0 <= i < t.len() implies order_key(#[trigger] t[i]) != key by {
            assert(t[i] == s[i]);
        }
        lemma_none_alike(t, key);
    } else {
        assert(s =~= Seq::<u64>::empty());
    }
}

proof fn lemma_alike_insert(s: Seq<u64>, at: int, x: u64, key: int)
    requires
        0 <= at <= s.len(),
        forall|i: int| at <= i < s.len() ==> order_key(#[trigger] s[i]) > order_key(x),
    ensures
        alike(s.insert(at, x), key) == alike(s.push(x), key),
{
    let pred = |b: u64| order_key(b) == key;
    let (front, back) = (s.take(at), s.skip(at));
    assert(s =~= front + back);
    assert(s.insert(at, x) =~= front.push(x) + back);
    Seq::filter_distributes_over_add(front, back, pred);
    Seq::filter_distributes_over_add(front.push(x), back, pred);
    lemma_alike_push(front, x, key);
    lemma_alike_push(s, x, key);
    if order_key(x) == key {
        assert forall|i: int| 0 <= i < back.len() implies order_key(#[trigger] back[i]) != key by {
            assert(back[i] == s[at + i]);
        }
        lemma_none_alike(back, key);
        assert(alike(front, key) + Seq::<u64>::empty() =~= alike(front, key));
        assert(alike(front, key).push(x) + Seq::<u64>::empty() =~= alike(front, key).push(x));
    }
}

proof fn lemma_alike_contains(s: Seq<u64>, i: int)
    requires
        0 <= i < s.len(),
    ensures
        alike(s, order_key(s[i])).contains(s[i]),
{
    let pred = |b: u64| order_key(b) == order_key(s[i]);
    s.lemma_filter_contains(pred, i);
}

proof fn lemma_alike_members(s: Seq<u64>, key: int)
    requires
        alike(s, key).len() > 0,
    ensures
        exists|i: int| 0 <= i < s.len() && order_key(#[trigger] s[i]) == key,
    decreases s.len(),
{
    reveal(Seq::filter);
    if s.len() > 0 {
        if order_key(s.last()) == key {
            assert(order_key(s[s.len() - 1]) == key);
        } else {
            lemma_alike_members(s.drop_last(), key);
            let i = choose|i: int|
                0 <= i < s.drop_last().len() && order_key(#[trigger] s.drop_last()[i]) == key;
            assert(order_key(s[i]) == key);
        }
    }
}

proof fn lemma_order_is_unique(a: Seq<u64>, b: Seq<u64>)
    requires
        ascending(a),
        ascending(b),
        forall|key: int| #[trigger] alike(a, key) == alike(b, key),
    ensures
        a == b,
    decreases a.len(),
{
    if a.len() == 0 || b.len() == 0 {
        if b.len() > 0 {
            lemma_alike_contains(b, 0);
            assert(alike(a, order_key(b[0])) == alike(b, order_key(b[0])));
            lemma_alike_members(a, order_key(b[0]));
        }
        if a.len() > 0 {
            lemma_alike_contains(a, 0);
            assert(alike(a, order_key(a[0])) == alike(b, order_key(a[0])));
            lemma_alike_members(b, order_key(a[0]));
        }
        assert(a =~= b);
    } else {
        let (x, y) = (a.last(), b.last());
        let (a1, b1) = (a.drop_last(), b.drop_last());
        lemma_alike_contains(a, a.len() - 1);
        lemma_alike_contains(b, b.len() - 1);
        assert(alike(a, order_key(x)) == alike(b, order_key(x)));
        assert(alike(a, order_key(y)) == alike(b, order_key(y)));
        lemma_alike_members(b, order_key(x));
        lemma_alike_members(a, order_key(y));
        assert(order_key(x) == order_key(y));
        assert(a1.push(x) =~= a);
        assert(b1.push(y) =~= b);
        lemma_alike_push(a1, x, order_key(x));
        lemma_alike_push(b1, y, order_key(x));
        assert(alike(a, order_key(x)).last() == x);
        assert(alike(b, order_key(x)).last() == y);
        assert forall|key: int| #[trigger] alike(a1, key) == alike(b1, key) by {
            lemma_alike_push(a1, x, key);
            lemma_alike_push(b1, y, key);
            assert(alike(a, key) == alike(b, key));
            assert(alike(a1, key) =~= alike(b1, key)) by {
                if order_key(x) == key {
                    assert(alike(a, key).drop_last() =~= alike(a1, key));
                    assert(alike(b, key).drop_last() =~= alike(b1, key));
                }
            }
        }
        lemma_order_is_unique(a1, b1);
    }
}

/// There is one way to put values in order.
pub proof fn law_order_is_unique(a: Seq<u64>, b: Seq<u64>, s: Seq<u64>)
    requires
        sorted_from(a, s),
        sorted_from(b, s),
    ensures
        a == b,
{
    assert forall|key: int| #[trigger] alike(a, key) == alike(b, key) by {
        assert(alike(a, key) == alike(s, key));
        assert(alike(b, key) == alike(s, key));
    }
    lemma_order_is_unique(a, b);
}

/// Values that are in order stay as they are.
pub proof fn law_sorting_again_changes_nothing(r: Seq<u64>, s: Seq<u64>)
    requires
        ascending(s),
        sorted_from(r, s),
    ensures
        r == s,
{
    lemma_order_is_unique(r, s);
}

/// The keys of values, one for one.
pub open spec fn keys(s: Seq<u64>) -> Seq<int> {
    s.map_values(|b: u64| order_key(b))
}

/// What is made of the items of a list, one by one, does not depend on their order.
pub proof fn lemma_same_images<A, B>(a: Seq<A>, b: Seq<A>, f: spec_fn(A) -> B)
    requires
        a.to_multiset() == b.to_multiset(),
    ensures
        a.map_values(f).to_multiset() == b.map_values(f).to_multiset(),
    decreases a.len(),
{
    broadcast use vstd::seq_lib::group_to_multiset_ensures;

    assert(a.len() == a.to_multiset().len());
    assert(b.len() == b.to_multiset().len());
    if a.len() == 0 {
        assert(a.map_values(f) =~= b.map_values(f));
    } else {
        let x = a.last();
        let a1 = a.drop_last();
        assert(a1.push(x) =~= a);
        assert(a.to_multiset() == a1.to_multiset().insert(x));
        assert(b.to_multiset().count(x) > 0);
        assert(b.contains(x));
        let j = choose|j: int| 0 <= j < b.len() && b[j] == x;
        let b1 = b.remove(j);
        assert(b1.to_multiset() == b.to_multiset().remove(x));
        assert(a1.to_multiset() =~= b1.to_multiset());
        lemma_same_images(a1, b1, f);
        assert(a.map_values(f) =~= a1.map_values(f).push(f(x)));
        assert(b.map_values(f) =~= b1.map_values(f).insert(j, f(x)));
        to_multiset_insert(b1.map_values(f), j, f(x));
        to_multiset_build(a1.map_values(f), f(x));
    }
}

/// In which order values were measured makes no difference to their order
/// statistics: the values in order are the same, but for the signs of zeros.
pub proof fn law_measuring_order_is_irrelevant(
    r1: Seq<u64>,
    s1: Seq<u64>,
    r2: Seq<u64>,
    s2: Seq<u64>,
)
    requires
        sorted_from(r1, s1),
        sorted_from(r2, s2),
        s1.to_multiset() == s2.to_multiset(),
    ensures
        keys(r1) == keys(r2),
{
    lemma_same_images(r1, r2, |b: u64| order_key(b));
    let leq = |x: int, y: int| x <= y;
    assert(vstd::relations::sorted_by(keys(r1), leq));
    assert(vstd::relations::sorted_by(keys(r2), leq));
    assert(vstd::relations::total_ordering(leq));
    vstd::seq_lib::lemma_sorted_unique(keys(r1), keys(r2), leq);
}

/// The quartiles stand in order, between the first and the last value.
pub proof fn law_quartiles_stand_in_order(n: nat, q1: Position, median: Position, q3: Position)
    requires
        n > 0,
        is_quartile_position(q1, n, 1),
        is_quartile_position(median, n, 2),
        is_quartile_position(q3, n, 3),
    ensures
        q1.lower <= median.lower <= q3.lower <= n - 1,
        q1.upper <= median.upper <= q3.upper <= n - 1,
        q1.lower == median.lower && median.lower < median.upper ==> q1.weight <= median.weight,
        median.lower == q3.lower && q3.lower < q3.upper ==> median.weight <= q3.weight,
{
}

/// Every value is an outlier or within the fences, and no value is both.
pub proof fn law_every_value_counts_once(s: Seq<u64>, lower: u64, upper: u64)
    ensures
        outliers_of(s, lower, upper).len() + kept_of(s, lower, upper).len() == s.len(),
        outliers_of(s, lower, upper).to_multiset().add(kept_of(s, lower, upper).to_multiset())
            == s.to_multiset(),
    decreases s.len(),
{
    reveal(Seq::filter);
    if s.len() > 0 {
        let t = s.drop_last();
        law_every_value_counts_once(t, lower, upper);
        assert(t.push(s.last()) =~= s);
        to_multiset_build(t, s.last());
        to_multiset_build(outliers_of(t, lower, upper), s.last());
        to_multiset_build(kept_of(t, lower, upper), s.last());
        assert(outliers_of(s, lower, upper).to_multiset().add(
            kept_of(s, lower, upper).to_multiset(),
        ) =~= s.to_multiset());
    } else {
        assert(outliers_of(s, lower, upper) =~= s);
        assert(kept_of(s, lower, upper) =~= s);
        vstd::seq_lib::to_multiset_len(s);
        assert(outliers_of(s, lower, upper).to_multiset().add(
            kept_of(s, lower, upper).to_multiset(),
        ) =~= s.to_multiset());
    }
}

proof fn lemma_kept(s: Seq<u64>, lower: u64, upper: u64)
    requires
        ascending(s),
    ensures
        ascending(kept_of(s, lower, upper)),
        forall|i: int|
            0 <= i < kept_of(s, lower, upper).len() ==> s.contains(
                #[trigger] kept_of(s, lower, upper)[i],
            ) && !outside(kept_of(s, lower, upper)[i], lower, upper),
    decreases s.len(),
{
    reveal(Seq::filter);
    let k = kept_of(s, lower, upper);
    if s.len() > 0 {
        let t = s.drop_last();
        lemma_kept(t, lower, upper);
        let k1 = kept_of(t, lower, upper);
        assert forall|i: int| 0 <= i < k.len() implies s.contains(#[trigger] k[i]) && !outside(
            k[i],
            lower,
            upper,
        ) by {
            if i < k1.len() {
                assert(k[i] == k1[i]);
                assert(t.contains(k1[i]));
                let j = choose|j: int| 0 <= j < t.len() && t[j] == k1[i];
                assert(s[j] == k[i]);
            } else {
                assert(k[i] == s[s.len() - 1]);
            }
        }
        assert forall|i: int, j: int| 0 <= i <= j < k.len() implies order_key(k[i]) <= order_key(
            k[j],
        ) by {
            if j < k1.len() {
                assert(k[i] == k1[i] && k[j] == k1[j]);
            } else if i < j {
                assert(k[i] == k1[i]);
                assert(t.contains(k1[i]));
                let a = choose|a: int| 0 <= a < t.len() && t[a] == k1[i];
                assert(s[a] == k[i]);
                assert(k[j] == s[s.len() - 1]);
            }
        }
    }
}

/// The ends of a summary are measured values, the lower one not above the upper
/// one, and no value within the fences lies beyond them.
pub proof fn law_ends_are_measured(st: Stats, s: Seq<u64>, lower: u64, upper: u64)
    requires
        s.len() > 0,
        ascending(s),
        is_summary(st, s, lower, upper),
    ensures
        s.contains(st.min),
        s.contains(st.max),
        order_key(st.min) <= order_key(st.max),
        forall|i: int|
            0 <= i < s.len() && !outside(s[i], lower, upper) ==> order_key(st.min) <= order_key(
                #[trigger] s[i],
            ) <= order_key(st.max),
{
    lemma_kept(s, lower, upper);
    let kept = kept_of(s, lower, upper);
    if kept.len() == 0 {
        assert(s.contains(s[0]));
        assert(s.contains(s[s.len() - 1]));
    } else {
        assert(s.contains(kept[0]));
        assert(s.contains(kept[kept.len() - 1]));
    }
    assert forall|i: int| 0 <= i < s.len() && !outside(s[i], lower, upper) implies order_key(st.min)
        <= order_key(#[trigger] s[i]) <= order_key(st.max) by {
        s.lemma_filter_contains(|v: u64| !outside(v, lower, upper), i);
        let j = choose|j: int| 0 <= j < kept.len() && kept[j] == s[i];
        assert(order_key(kept[0]) <= order_key(kept[j]));
        assert(order_key(kept[j]) <= order_key(kept[kept.len() - 1]));
    }
}

/// A number that orders values.
pub fn key_of(bits: u64) -> (r: i64)
    ensures
        r == order_key(bits),
{
    if bits < SIGN_BIT {
        bits as i64
    } else {
        -((bits - SIGN_BIT) as i64)
    }
}

/// Whether bits are no number.
pub fn nan(bits: u64) -> (r: bool)
    ensures
        r == is_nan(bits),
{
    if bits < SIGN_BIT {
        bits > INFINITY
    } else {
        bits - SIGN_BIT > INFINITY
    }
}

/// Whether one value is below another.
pub fn is_below(a: u64, b: u64) -> (r: bool)
    ensures
        r == below(a, b),
{
    !nan(a) && !nan(b) && key_of(a) < key_of(b)
}

/// Whether any two of the values can be compared.
pub fn all_comparable(values: &Vec<u64>) -> (r: bool)
    ensures
        r == comparable(values@),
{
    if values.len() < 2 {
        return true;
    }
    for i in 0..values.len()
        invariant
            values@.len() >= 2,
            forall|j: int| 0 <= j < i ==> !is_nan(#[trigger] values@[j]),
    {
        if nan(values[i]) {
            assert(is_nan(values@[i as int]));
            return false;
        }
    }
    true
}

/// Puts values in ascending order. Values that are alike keep their order.
pub fn sort_values(values: &mut Vec<u64>)
    ensures
        sorted_from(final(values)@, old(values)@),
{
    let mut sorted: Vec<u64> = Vec::new();
    let ghost given = values@;
    proof {
        assert(given.take(0) =~= Seq::<u64>::empty());
        assert(sorted@ =~= Seq::<u64>::empty());
    }
    for i in 0..values.len()
        invariant
            values@ == given,
            sorted@.len() == i,
            sorted_from(sorted@, given.take(i as int)),
    {
        let x = values[i];
        let k = key_of(x);
        let mut at: usize = sorted.len();
        while at > 0 && key_of(sorted[at - 1]) > k
            invariant
                at <= sorted@.len(),
                k == order_key(x),
                forall|j: int|
                    at <= j < sorted@.len() ==> order_key(#[trigger] sorted@[j]) > order_key(x),
            decreases at,
        {
            at = at - 1;
        }
        let ghost before = sorted@;
        sorted.insert(at, x);
        proof {
            let part = given.take(i as int);
            assert(given.take(i + 1) =~= part.push(x));
            assert(sorted@ == before.insert(at as int, x));
            assert(ascending(sorted@)) by {
                assert forall|a: int, b: int| 0 <= a <= b < sorted@.len() implies order_key(
                    sorted@[a],
                ) <= order_key(sorted@[b]) by {
                    let a0 = if a < at {
                        a
                    } else {
                        a - 1
                    };
                    let b0 = if b < at {
                        b
                    } else {
                        b - 1
                    };
                    if a != at {
                        assert(sorted@[a] == before[a0]);
                    }
                    if b != at {
                        assert(sorted@[b] == before[b0]);
                    }
                    if b == at && a < at {
                        assert(order_key(before[a]) <= order_key(before[at - 1]));
                    }
                }
            }
            to_multiset_insert(before, at as int, x);
            to_multiset_build(part, x);
            assert forall|key: int| #[trigger] alike(sorted@, key) == alike(
                part.push(x),
                key,
            ) by {
                lemma_alike_insert(before, at as int, x, key);
                lemma_alike_push(before, x, key);
                lemma_alike_push(part, x, key);
                assert(alike(before, key) == alike(part, key));
            }
        }
    }
    assert(given.take(given.len() as int) =~= given);
    *values = sorted;
}

/// Where the `k`th quartile of `n` values in order lies.
pub fn quartile_position(n: usize, k: usize) -> (r: Position)
    requires
        n > 0,
        k <= 4,
    ensures
        is_quartile_position(r, n as nat, k as nat),
        r.lower < n,
        r.upper < n,
{
    let last = n - 1;
    let q = last / 4;
    let m = last % 4;
    proof {
        assert(q * k <= 4 * q) by (nonlinear_arith)
            requires
                k <= 4,
        ;
        assert(m * k <= 4 * m) by (nonlinear_arith)
            requires
                k <= 4,
        ;
    }
    let lower = q * k + m * k / 4;
    let way = m * k % 4;
    proof {
        assert(k * last == 4 * (q * k) + m * k) by (nonlinear_arith)
            requires
                last == 4 * q + m,
        ;
        assert(k * last / 4 == lower);
        assert(k * last % 4 == way);
        assert(way > 0 ==> lower < last);
    }
    if way == 0 {
        Position { lower, upper: lower, weight: ZERO }
    } else {
        let weight = if way == 1 {
            QUARTER
        } else if way == 2 {
            HALF
        } else {
            THREE_QUARTERS
        };
        Position { lower, upper: lower + 1, weight }
    }
}

/// The value at a percentile of values in order, given where it lies.
pub fn percentile<I: Fn(u64, u64, u64) -> u64>(
    sorted: &Vec<u64>,
    at: Position,
    interpolate: &I,
) -> (r: u64)
    requires
        at.lower < sorted@.len(),
        at.upper < sorted@.len(),
        at.lower != at.upper ==> interpolate.requires(
            (sorted@[at.lower as int], sorted@[at.upper as int], at.weight),
        ),
    ensures
        is_percentile(sorted@, at, *interpolate, r),
{
    if at.lower == at.upper {
        return sorted[at.lower];
    }
    interpolate(sorted[at.lower], sorted[at.upper], at.weight)
}

/// Summarizes values in order, given their quartiles and the fences.
pub fn summarize(
    sorted: &Vec<u64>,
    q1: u64,
    median: u64,
    q3: u64,
    lower_fence: u64,
    upper_fence: u64,
) -> (r: Stats)
    requires
        sorted@.len() > 0,
    ensures
        is_summary(r, sorted@, lower_fence, upper_fence),
        r.q1 == q1,
        r.median == median,
        r.q3 == q3,
{
    let mut outliers: Vec<u64> = Vec::new();
    let mut non_outliers: Vec<u64> = Vec::new();
    let mut samples: Vec<u64> = Vec::new();
    for i in 0..sorted.len()
        invariant
            outliers@ == outliers_of(sorted@.take(i as int), lower_fence, upper_fence),
            non_outliers@ == kept_of(sorted@.take(i as int), lower_fence, upper_fence),
            samples@ == sorted@.take(i as int),
    {
        let v = sorted[i];
        proof {
            reveal(Seq::filter);
            assert(sorted@.take(i + 1).drop_last() =~= sorted@.take(i as int));
            assert(sorted@.take(i + 1) =~= sorted@.take(i as int).push(v));
        }
        if is_below(v, lower_fence) || is_below(upper_fence, v) {
            outliers.push(v);
        } else {
            non_outliers.push(v);
        }
        samples.push(v);
    }
    assert(sorted@.take(sorted@.len() as int) =~= sorted@);
    let (min, max) = if non_outliers.len() == 0 {
        (sorted[0], sorted[sorted.len() - 1])
    } else {
        (non_outliers[0], non_outliers[non_outliers.len() - 1])
    };
    Stats { min, q1, median, q3, max, outliers, samples }
}

fn quartile<I: Fn(u64, u64, u64) -> u64>(sorted: &Vec<u64>, k: usize, interpolate: &I) -> (r: u64)
    requires
        sorted@.len() > 0,
        k <= 4,
        forall|a: u64, b: u64, weight: u64| #[trigger] interpolate.requires((a, b, weight)),
    ensures
        is_quartile(sorted@, k as nat, *interpolate, r),
{
    let at = quartile_position(sorted.len(), k);
    percentile(sorted, at, interpolate)
}

/// Puts values in order and summarizes them. `interpolate` gives the point between two
/// values that lies so far from the first, as a part of the way to the second; `fences`
/// gives the limits beyond which a value is an outlier when the quartiles are these.
pub fn calculate_stats<I: Fn(u64, u64, u64) -> u64, F: Fn(u64, u64) -> (u64, u64)>(
    values: &mut Vec<u64>,
    interpolate: I,
    fences: F,
) -> (r: Stats)
    requires
        comparable(old(values)@),
        forall|a: u64, b: u64, weight: u64| #[trigger] interpolate.requires((a, b, weight)),
        forall|q1: u64, q3: u64| #[trigger] fences.requires((q1, q3)),
    ensures
        sorted_from(final(values)@, old(values)@),
        is_stats(r, final(values)@, interpolate, fences),
{
    sort_values(values);
    if values.len() == 0 {
        return Stats {
            min: ZERO,
            q1: ZERO,
            median: ZERO,
            q3: ZERO,
            max: ZERO,
            outliers: Vec::new(),
            samples: Vec::new(),
        };
    }
    let q1 = quartile(values, 1, &interpolate);
    let median = quartile(values, 2, &interpolate);
    let q3 = quartile(values, 3, &interpolate);
    let limits = fences(q1, q3);
    summarize(values, q1, median, q3, limits.0, limits.1)
}

} // verus!

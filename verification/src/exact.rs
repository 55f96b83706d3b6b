//! What values and their percentiles are in exact arithmetic.

use crate::stats::{
    alike, ascending, below, comparable, is_nan, is_percentile, is_quartile, is_quartile_position,
    is_stats, is_summary, kept_of, law_ends_are_measured, magnitude, order_key, outside, quarters,
    sorted_from, Position, Stats, HALF, INFINITY, QUARTER, SIGN_BIT, THREE_QUARTERS, ZERO,
};
use vstd::arithmetic::power2::{
    lemma2_to64, lemma2_to64_rest, lemma_pow2_adds, lemma_pow2_pos, lemma_pow2_unfold, pow2,
};
use vstd::prelude::*;

verus! {

/// How many magnitudes there are from one power of two to the next.
pub open spec fn binade() -> nat {
    0x10_0000_0000_0000
}

/// A magnitude in units of the smallest one. Up to the second power of two the units are
/// counted one by one; from there on each power of two doubles the distance from one
/// magnitude to the next.
pub open spec fn units(m: nat) -> nat {
    if m < binade() {
        m
    } else {
        (binade() + m % binade()) * pow2((m / binade() - 1) as nat)
    }
}

/// One, in units of the smallest magnitude.
pub open spec fn one_unit() -> nat {
    pow2(1074)
}

/// A value that is a number.
pub open spec fn finite(bits: u64) -> bool {
    magnitude(bits) < INFINITY
}

pub open spec fn all_finite(s: Seq<u64>) -> bool {
    forall|i: int| 0 <= i < s.len() ==> finite(#[trigger] s[i])
}

/// The number that a value stands for.
pub open spec fn number(bits: u64) -> real {
    let n = units(magnitude(bits) as nat) as int;
    if bits < SIGN_BIT {
        n as real / one_unit() as real
    } else {
        (-n) as real / one_unit() as real
    }
}

proof fn lemma_units_step(m: nat)
    ensures
        units(m) < units(m + 1),
{
    let b = binade();
    if m + 1 < b {
    } else if m < b {
        assert(m + 1 == b);
        lemma2_to64();
        assert((m + 1) % b == 0 && (m + 1) / b == 1);
        assert(units(m + 1) == b * pow2(0));
        assert(units(m + 1) == b);
    } else if m % b + 1 < b {
        assert((m + 1) / b == m / b && (m + 1) % b == m % b + 1);
        let e = (m / b - 1) as nat;
        lemma_pow2_pos(e);
        assert((b + m % b) * pow2(e) < (b + m % b + 1) * pow2(e)) by (nonlinear_arith)
            requires
                pow2(e) > 0,
        ;
    } else {
        assert((m + 1) / b == m / b + 1 && (m + 1) % b == 0);
        let e = (m / b - 1) as nat;
        lemma_pow2_pos(e);
        lemma_pow2_unfold(e + 1);
        let (r, x, y) = (m % b, pow2(e), pow2(e + 1));
        assert((b + r) * x < b * y) by (nonlinear_arith)
            requires
                x > 0,
                y == 2 * x,
                r < b,
        ;
    }
}

proof fn lemma_units_increase(m: nat, n: nat)
    requires
        m < n,
    ensures
        units(m) < units(n),
    decreases n,
{
    lemma_units_step((n - 1) as nat);
    if m < n - 1 {
        lemma_units_increase(m, (n - 1) as nat);
    }
}

/// Values stand in the order of their numbers.
pub proof fn law_order_is_numeric(a: u64, b: u64)
    ensures
        order_key(a) < order_key(b) <==> number(a) < number(b),
        order_key(a) == order_key(b) <==> number(a) == number(b),
        order_key(a) <= order_key(b) <==> number(a) <= number(b),
{
    let (m, n) = (magnitude(a) as nat, magnitude(b) as nat);
    lemma_pow2_pos(1074);
    if m < n {
        lemma_units_increase(m, n);
    } else if n < m {
        lemma_units_increase(n, m);
    }
    assert(units(0) == 0);
    if m > 0 {
        lemma_units_increase(0, m);
    }
    if n > 0 {
        lemma_units_increase(0, n);
    }
    let x: int = if a < SIGN_BIT {
        units(m) as int
    } else {
        -units(m)
    };
    let y: int = if b < SIGN_BIT {
        units(n) as int
    } else {
        -units(n)
    };
    assert(order_key(a) < order_key(b) <==> x < y);
    assert(order_key(a) == order_key(b) <==> x == y);
    let u = one_unit() as real;
    assert(x < y ==> x as real / u < y as real / u) by (nonlinear_arith)
        requires
            u > 0real,
    ;
    assert(y < x ==> y as real / u < x as real / u) by (nonlinear_arith)
        requires
            u > 0real,
    ;
}

/// Where percentile `p` of `n` values in order lies, counted from the first.
pub open spec fn point(n: nat, p: real) -> real {
    p / 100real * ((n - 1) as real)
}

/// The last position not behind a percentile.
pub open spec fn floor_position(n: nat, p: real) -> int {
    point(n, p).floor()
}

/// The first position not in front of a percentile.
pub open spec fn ceiling_position(n: nat, p: real) -> int {
    if floor_position(n, p) as real == point(n, p) {
        floor_position(n, p)
    } else {
        floor_position(n, p) + 1
    }
}

/// How far a percentile is behind its floor position, as a part of the way to the next.
pub open spec fn exact_weight(n: nat, p: real) -> real {
    point(n, p) - floor_position(n, p) as real
}

/// The number that lies so far from `a`, as a part of the way to `b`.
pub open spec fn between(a: real, b: real, weight: real) -> real {
    a * (1real - weight) + b * weight
}

/// Percentile `p` of values in order, without rounding.
pub open spec fn exact_percentile(s: Seq<u64>, p: real) -> real {
    let n = s.len();
    between(
        number(s[floor_position(n, p)]),
        number(s[ceiling_position(n, p)]),
        exact_weight(n, p),
    )
}

/// The position is exactly that of percentile `p`.
pub open spec fn stands_at(at: Position, n: nat, p: real) -> bool {
    &&& at.lower == floor_position(n, p)
    &&& at.upper == ceiling_position(n, p)
    &&& number(at.weight) == exact_weight(n, p)
}

/// Between these two values and with this weight `interpolate` does not round.
pub open spec fn unrounded<I: Fn(u64, u64, u64) -> u64>(
    interpolate: I,
    a: u64,
    b: u64,
    weight: u64,
) -> bool {
    forall|r: u64| #[trigger]
        interpolate.ensures((a, b, weight), r) ==> number(r) == between(
            number(a),
            number(b),
            number(weight),
        )
}

proof fn lemma_position(n: nat, p: real)
    requires
        n > 0,
        0real <= p <= 100real,
    ensures
        0 <= floor_position(n, p) <= ceiling_position(n, p) <= n - 1,
        0real <= exact_weight(n, p) < 1real,
        ceiling_position(n, p) == floor_position(n, p) <==> exact_weight(n, p) == 0real,
{
    let last = (n - 1) as real;
    let x = point(n, p);
    assert(0real <= x <= last) by (nonlinear_arith)
        requires
            0real <= p <= 100real,
            last >= 0real,
            x == p / 100real * last,
    ;
    let f = x.floor();
    assert(f as real <= x < (f + 1) as real);
}

proof fn lemma_between(a: real, b: real, v: real, w: real)
    requires
        a <= b,
        0real <= v <= w <= 1real,
    ensures
        a <= between(a, b, v) <= between(a, b, w) <= b,
        between(a, b, 0real) == a,
{
    assert(a <= a * (1real - v) + b * v) by (nonlinear_arith)
        requires
            a <= b,
            0real <= v,
    ;
    assert(a * (1real - v) + b * v <= a * (1real - w) + b * w) by (nonlinear_arith)
        requires
            a <= b,
            v <= w,
    ;
    assert(a * (1real - w) + b * w <= b) by (nonlinear_arith)
        requires
            a <= b,
            w <= 1real,
    ;
    assert(a * (1real - 0real) + b * 0real == a) by (nonlinear_arith);
}

/// A percentile lies between the values on both sides; where it lies at a value it is
/// that value.
pub proof fn law_percentile_lies_between_its_neighbours(s: Seq<u64>, p: real)
    requires
        s.len() > 0,
        ascending(s),
        0real <= p <= 100real,
    ensures
        0 <= floor_position(s.len(), p) <= ceiling_position(s.len(), p) < s.len(),
        number(s[floor_position(s.len(), p)]) <= exact_percentile(s, p) <= number(
            s[ceiling_position(s.len(), p)],
        ),
        floor_position(s.len(), p) == ceiling_position(s.len(), p) ==> exact_percentile(s, p)
            == number(s[floor_position(s.len(), p)]),
{
    let n = s.len();
    lemma_position(n, p);
    let (x, y) = (s[floor_position(n, p)], s[ceiling_position(n, p)]);
    law_order_is_numeric(x, y);
    lemma_between(number(x), number(y), exact_weight(n, p), 1real);
}

/// Percentiles grow: one that is further on is not smaller. The first is the first
/// value, the last is the last, and a single value is all its percentiles.
pub proof fn law_percentiles_grow(s: Seq<u64>, p: real, q: real)
    requires
        s.len() > 0,
        ascending(s),
        0real <= p <= q <= 100real,
    ensures
        exact_percentile(s, p) <= exact_percentile(s, q),
        exact_percentile(s, 0real) == number(s[0]),
        exact_percentile(s, 100real) == number(s[s.len() - 1]),
        s.len() == 1 ==> exact_percentile(s, p) == number(s[0]),
{
    let n = s.len();
    let last = (n - 1) as real;
    law_percentile_lies_between_its_neighbours(s, p);
    law_percentile_lies_between_its_neighbours(s, q);
    law_percentile_lies_between_its_neighbours(s, 0real);
    law_percentile_lies_between_its_neighbours(s, 100real);
    lemma_position(n, p);
    lemma_position(n, q);
    assert(point(n, p) <= point(n, q)) by {
        assert(p / 100real * last <= q / 100real * last) by (nonlinear_arith)
            requires
                p <= q,
                last >= 0real,
        ;
    }
    assert(point(n, 0real) == 0real) by {
        assert(0real / 100real * last == 0real) by (nonlinear_arith);
    }
    assert(point(n, 100real) == last) by {
        assert(100real / 100real * last == last) by (nonlinear_arith);
    }
    let (i, j) = (floor_position(n, p), floor_position(n, q));
    assert(i <= j);
    if i == j {
        let (x, y) = (s[i], s[ceiling_position(n, q)]);
        law_order_is_numeric(x, y);
        lemma_between(number(x), number(y), exact_weight(n, p), exact_weight(n, q));
    } else {
        law_order_is_numeric(s[ceiling_position(n, p)], s[j]);
    }
}

/// What `percentile` returns is the percentile itself, if it is told exactly where it
/// lies and nothing is rounded.
pub proof fn law_percentile_is_exact<I: Fn(u64, u64, u64) -> u64>(
    s: Seq<u64>,
    p: real,
    at: Position,
    interpolate: I,
    r: u64,
)
    requires
        s.len() > 0,
        ascending(s),
        0real <= p <= 100real,
        stands_at(at, s.len(), p),
        is_percentile(s, at, interpolate, r),
        at.lower != at.upper ==> unrounded(
            interpolate,
            s[at.lower as int],
            s[at.upper as int],
            at.weight,
        ),
    ensures
        number(r) == exact_percentile(s, p),
{
    law_percentile_lies_between_its_neighbours(s, p);
}

/// What `percentile` returns grows with the percentile, if it is told exactly where
/// both lie and nothing is rounded.
pub proof fn law_returned_percentiles_grow<I: Fn(u64, u64, u64) -> u64>(
    s: Seq<u64>,
    p: real,
    q: real,
    at_p: Position,
    at_q: Position,
    interpolate: I,
    r_p: u64,
    r_q: u64,
)
    requires
        s.len() > 0,
        ascending(s),
        0real <= p <= q <= 100real,
        stands_at(at_p, s.len(), p),
        stands_at(at_q, s.len(), q),
        is_percentile(s, at_p, interpolate, r_p),
        is_percentile(s, at_q, interpolate, r_q),
        at_p.lower != at_p.upper ==> unrounded(
            interpolate,
            s[at_p.lower as int],
            s[at_p.upper as int],
            at_p.weight,
        ),
        at_q.lower != at_q.upper ==> unrounded(
            interpolate,
            s[at_q.lower as int],
            s[at_q.upper as int],
            at_q.weight,
        ),
    ensures
        order_key(r_p) <= order_key(r_q),
        p == 0real ==> order_key(r_p) == order_key(s[0]),
        q == 100real ==> order_key(r_q) == order_key(s[s.len() - 1]),
        s.len() == 1 ==> order_key(r_p) == order_key(s[0]),
{
    law_percentile_is_exact(s, p, at_p, interpolate, r_p);
    law_percentile_is_exact(s, q, at_q, interpolate, r_q);
    law_percentiles_grow(s, p, q);
    law_order_is_numeric(r_p, r_q);
    law_order_is_numeric(r_p, s[0]);
    law_order_is_numeric(r_q, s[s.len() - 1]);
}

/// The bits of the quarters stand for them.
pub proof fn lemma_quarters()
    ensures
        number(ZERO) == 0real,
        number(QUARTER) == 1real / 4real,
        number(HALF) == 1real / 2real,
        number(THREE_QUARTERS) == 3real / 4real,
{
    let b = binade();
    assert(units(0) == 0);
    lemma_pow2_pos(1074);
    lemma_pow2_pos(1072);
    lemma_pow2_unfold(1074);
    lemma_pow2_unfold(1073);
    lemma_pow2_unfold(1022);
    lemma_pow2_unfold(1021);
    assert(b == pow2(52)) by {
        lemma2_to64_rest();
    }
    lemma_pow2_adds(52, 1020);
    let x = pow2(1072) as int;
    assert(units(QUARTER as nat) == b * pow2(1020));
    assert(units(HALF as nat) == b * pow2(1021));
    assert(units(THREE_QUARTERS as nat) == (b + b / 2) * pow2(1021));
    assert(units(QUARTER as nat) == x);
    assert(b * pow2(1021) == 2 * x) by (nonlinear_arith)
        requires
            b * pow2(1020) == x,
            pow2(1021) == 2 * pow2(1020),
    ;
    assert((b + b / 2) * pow2(1021) == 3 * x) by (nonlinear_arith)
        requires
            b % 2 == 0,
            b * pow2(1020) == x,
            pow2(1021) == 2 * pow2(1020),
    ;
    let u = one_unit() as real;
    assert(0 as real / u == 0real && x as real / u == 1real / 4real && (2 * x) as real / u == 1real
        / 2real && (3 * x) as real / u == 3real / 4real) by (nonlinear_arith)
        requires
            x > 0,
            u == (4 * x) as real,
    ;
}

/// The quartiles lie exactly at a quarter, at a half and at three quarters of the way.
pub proof fn law_quartiles_are_percentiles(at: Position, n: nat, k: nat)
    requires
        n > 0,
        k <= 4,
        is_quartile_position(at, n, k),
    ensures
        stands_at(at, n, 25real * k as real),
{
    lemma_quarters();
    let m = (n - 1) as int;
    let p = 25real * k as real;
    let product = k * m;
    assert(point(n, p) == product as real / 4real) by {
        assert(25real * k as real / 100real * m as real == (k * m) as real / 4real)
            by (nonlinear_arith);
    }
    let (f, r) = (product / 4, product % 4);
    assert(product as real / 4real == f as real + r as real / 4real);
    assert(point(n, p).floor() == f);
}

/// Quarters of the way between neighbours of these values `interpolate` does not round.
pub open spec fn unrounded_among<I: Fn(u64, u64, u64) -> u64>(interpolate: I, s: Seq<u64>) -> bool {
    forall|i: int, k: nat|
        0 <= i < s.len() - 1 && 1 <= k <= 3 ==> unrounded(
            interpolate,
            #[trigger] s[i],
            s[i + 1],
            #[trigger] quarters(k),
        )
}

/// The quartiles of a summary are the percentiles that their names say, and stand in
/// order, if nothing is rounded.
pub proof fn law_quartiles_are_exact<
    I: Fn(u64, u64, u64) -> u64,
    F: Fn(u64, u64) -> (u64, u64),
>(s: Seq<u64>, interpolate: I, fences: F, st: Stats)
    requires
        s.len() > 0,
        ascending(s),
        is_stats(st, s, interpolate, fences),
        unrounded_among(interpolate, s),
    ensures
        number(st.q1) == exact_percentile(s, 25real),
        number(st.median) == exact_percentile(s, 50real),
        number(st.q3) == exact_percentile(s, 75real),
        order_key(s[0]) <= order_key(st.q1) <= order_key(st.median) <= order_key(st.q3)
            <= order_key(s[s.len() - 1]),
{
    lemma_quartile_is_exact(s, 1, interpolate, st.q1);
    lemma_quartile_is_exact(s, 2, interpolate, st.median);
    lemma_quartile_is_exact(s, 3, interpolate, st.q3);
    law_percentiles_grow(s, 0real, 25real);
    law_percentiles_grow(s, 25real, 50real);
    law_percentiles_grow(s, 50real, 75real);
    law_percentiles_grow(s, 75real, 100real);
    law_order_is_numeric(s[0], st.q1);
    law_order_is_numeric(st.q1, st.median);
    law_order_is_numeric(st.median, st.q3);
    law_order_is_numeric(st.q3, s[s.len() - 1]);
}

proof fn lemma_quartile_is_exact<I: Fn(u64, u64, u64) -> u64>(
    s: Seq<u64>,
    k: nat,
    interpolate: I,
    r: u64,
)
    requires
        s.len() > 0,
        ascending(s),
        k <= 4,
        is_quartile(s, k, interpolate, r),
        unrounded_among(interpolate, s),
    ensures
        number(r) == exact_percentile(s, 25real * k as real),
{
    let p = 25real * k as real;
    let at = choose|at: Position| #[trigger]
        is_quartile_position(at, s.len(), k) && is_percentile(s, at, interpolate, r);
    law_quartiles_are_percentiles(at, s.len(), k);
    lemma_position(s.len(), p);
    if at.lower != at.upper {
        assert(at.upper == at.lower + 1);
        let way = k * ((s.len() - 1) as nat) % 4;
        assert(unrounded(interpolate, s[at.lower as int], s[at.lower + 1], quarters(way)));
    }
    law_percentile_is_exact(s, p, at, interpolate, r);
}

/// The bits of a value are no number exactly when they are, without the sign, above those of
/// infinity.
pub open spec fn numeric(bits: u64) -> bool {
    bits % 0x8000_0000_0000_0000 <= 0x7ff0_0000_0000_0000
}

pub open spec fn all_numeric(s: Seq<u64>) -> bool {
    forall|i: int| 0 <= i < s.len() ==> numeric(#[trigger] s[i])
}

/// One value is below another exactly when its number is smaller; what is no number is below
/// nothing and above nothing.
pub proof fn law_below_is_numeric(a: u64, b: u64)
    ensures
        is_nan(a) <==> !numeric(a),
        numeric(a) && numeric(b) ==> (below(a, b) <==> number(a) < number(b)),
        !numeric(a) || !numeric(b) ==> !below(a, b),
{
    law_order_is_numeric(a, b);
}

/// Any two of some values can be compared exactly if there are not two of them or all are
/// numbers.
pub proof fn law_what_can_be_compared(s: Seq<u64>)
    ensures
        comparable(s) <==> s.len() < 2 || all_numeric(s),
{
    assert forall|i: int| 0 <= i < s.len() implies (is_nan(#[trigger] s[i]) <==> !numeric(s[i])) by {
        law_below_is_numeric(s[i], s[i]);
    }
    if comparable(s) && s.len() >= 2 {
        assert(all_numeric(s));
    }
    if all_numeric(s) {
        assert(comparable(s));
    }
}

/// Sorting puts the same values in the order of their numbers, and leaves those with the
/// same number in the order that they had.
pub proof fn law_values_are_sorted_by_number(r: Seq<u64>, s: Seq<u64>, x: real)
    requires
        sorted_from(r, s),
    ensures
        r.len() == s.len(),
        r.to_multiset() == s.to_multiset(),
        forall|i: int, j: int| 0 <= i <= j < r.len() ==> number(r[i]) <= number(r[j]),
        r.filter(|b: u64| number(b) == x) == s.filter(|b: u64| number(b) == x),
{
    assert forall|i: int, j: int| 0 <= i <= j < r.len() implies number(r[i]) <= number(r[j]) by {
        law_order_is_numeric(r[i], r[j]);
    }
    let with_number = |b: u64| number(b) == x;
    if exists|v: u64| #[trigger] with_number(v) {
        let v = choose|v: u64| #[trigger] with_number(v);
        let with_key = |b: u64| order_key(b) == order_key(v);
        assert forall|b: u64| #[trigger] with_number(b) == with_key(b) by {
            law_order_is_numeric(b, v);
        }
        assert(with_number =~= with_key);
        assert(alike(r, order_key(v)) == alike(s, order_key(v)));
    } else {
        lemma_none_picked(r, with_number);
        lemma_none_picked(s, with_number);
    }
}

proof fn lemma_none_picked(s: Seq<u64>, pick: spec_fn(u64) -> bool)
    requires
        forall|v: u64| !#[trigger] pick(v),
    ensures
        s.filter(pick) == Seq::<u64>::empty(),
    decreases s.len(),
{
    reveal(Seq::filter);
    if s.len() > 0 {
        lemma_none_picked(s.drop_last(), pick);
    } else {
        assert(s =~= Seq::<u64>::empty());
    }
}

proof fn lemma_picked(s: Seq<u64>, pick: spec_fn(u64) -> bool, x: u64)
    ensures
        s.filter(pick).to_multiset().count(x) == (if pick(x) {
            s.to_multiset().count(x)
        } else {
            0
        }),
        ascending(s) ==> ascending(s.filter(pick)),
        forall|i: int|
            0 <= i < s.filter(pick).len() ==> s.contains(#[trigger] s.filter(pick)[i]) && pick(
                s.filter(pick)[i],
            ),
    decreases s.len(),
{
    reveal(Seq::filter);
    broadcast use vstd::seq_lib::group_to_multiset_ensures;

    let f = s.filter(pick);
    if s.len() > 0 {
        let t = s.drop_last();
        let g = t.filter(pick);
        lemma_picked(t, pick, x);
        assert(t.push(s.last()) =~= s);
        assert forall|i: int| 0 <= i < f.len() implies s.contains(#[trigger] f[i]) && pick(
            f[i],
        ) by {
            if i < g.len() {
                assert(f[i] == g[i]);
                assert(t.contains(g[i]));
                let j = choose|j: int| 0 <= j < t.len() && t[j] == g[i];
                assert(s[j] == f[i]);
            } else {
                assert(f[i] == s[s.len() - 1]);
            }
        }
        if ascending(s) {
            assert(ascending(t)) by {
                assert forall|i: int, j: int| 0 <= i <= j < t.len() implies order_key(t[i])
                    <= order_key(t[j]) by {
                    assert(order_key(s[i]) <= order_key(s[j]));
                }
            }
            assert forall|i: int, j: int| 0 <= i <= j < f.len() implies order_key(f[i])
                <= order_key(f[j]) by {
                if j < g.len() {
                    assert(f[i] == g[i] && f[j] == g[j]);
                } else if i < j {
                    assert(f[i] == g[i]);
                    assert(t.contains(g[i]));
                    let a = choose|a: int| 0 <= a < t.len() && t[a] == g[i];
                    assert(order_key(s[a]) <= order_key(s[s.len() - 1]));
                }
            }
        }
    } else {
        assert(f =~= s);
    }
}

/// A number lies within the fences.
pub open spec fn within(v: u64, lower: u64, upper: u64) -> bool {
    number(lower) <= number(v) <= number(upper)
}

/// What a summary tells of values in order. The outliers are the values beyond the fences,
/// as often as they were measured and in order; the samples are all values. If any value
/// lies within the fences, the ends do too, however many outliers there are: they are
/// measured, and no value within the fences lies beyond them. If none does, the ends are the
/// smallest and the largest value.
pub proof fn law_summary_is_told_by_the_fences(
    st: Stats,
    s: Seq<u64>,
    lower: u64,
    upper: u64,
    x: u64,
)
    requires
        s.len() > 0,
        ascending(s),
        all_numeric(s),
        numeric(lower),
        numeric(upper),
        is_summary(st, s, lower, upper),
    ensures
        st.outliers@.to_multiset().count(x) == (if numeric(x) && within(x, lower, upper) {
            0
        } else {
            s.to_multiset().count(x)
        }),
        forall|i: int, j: int|
            0 <= i <= j < st.outliers@.len() ==> number(st.outliers@[i]) <= number(st.outliers@[j]),
        st.samples@ == s,
        s.contains(st.min) && s.contains(st.max),
        number(st.min) <= number(st.max),
        (exists|i: int| 0 <= i < s.len() && within(#[trigger] s[i], lower, upper)) ==> {
            &&& within(st.min, lower, upper)
            &&& within(st.max, lower, upper)
            &&& forall|i: int|
                0 <= i < s.len() && within(#[trigger] s[i], lower, upper) ==> number(st.min)
                    <= number(s[i]) <= number(st.max)
        },
        !(exists|i: int| 0 <= i < s.len() && within(#[trigger] s[i], lower, upper)) ==> forall|
            i: int,
        |
            0 <= i < s.len() ==> number(st.min) <= number(#[trigger] s[i]) <= number(st.max),
{
    broadcast use vstd::seq_lib::group_to_multiset_ensures;

    let out = |v: u64| outside(v, lower, upper);
    let kept = |v: u64| !outside(v, lower, upper);
    lemma_picked(s, out, x);
    lemma_picked(s, kept, x);
    assert forall|v: u64| numeric(v) implies (#[trigger] outside(v, lower, upper) <==> !within(
        v,
        lower,
        upper,
    )) by {
        law_below_is_numeric(v, lower);
        law_below_is_numeric(upper, v);
    }
    if !numeric(x) && s.to_multiset().count(x) > 0 {
        assert(s.contains(x));
    }
    let o = s.filter(out);
    assert(st.outliers@ == o);
    assert forall|i: int, j: int| 0 <= i <= j < o.len() implies number(o[i]) <= number(o[j]) by {
        law_order_is_numeric(o[i], o[j]);
    }
    law_ends_are_measured(st, s, lower, upper);
    law_order_is_numeric(st.min, st.max);
    let k = s.filter(kept);
    assert(k == kept_of(s, lower, upper));
    if exists|i: int| 0 <= i < s.len() && within(#[trigger] s[i], lower, upper) {
        let i = choose|i: int| 0 <= i < s.len() && within(#[trigger] s[i], lower, upper);
        assert(kept(s[i]));
        s.lemma_filter_contains(kept, i);
        assert(k.len() > 0);
        assert(s.contains(k[0]) && kept(k[0]));
        assert(s.contains(k[k.len() - 1]) && kept(k[k.len() - 1]));
        assert forall|j: int| 0 <= j < s.len() && within(#[trigger] s[j], lower, upper) implies
            number(st.min) <= number(s[j]) <= number(st.max) by {
            assert(!outside(s[j], lower, upper));
            law_order_is_numeric(st.min, s[j]);
            law_order_is_numeric(s[j], st.max);
        }
    } else {
        if k.len() > 0 {
            assert(s.contains(k[0]) && kept(k[0]));
            let j = choose|j: int| 0 <= j < s.len() && s[j] == k[0];
            assert(within(s[j], lower, upper));
        }
        assert forall|j: int| 0 <= j < s.len() implies number(st.min) <= number(
            #[trigger] s[j],
        ) <= number(st.max) by {
            law_order_is_numeric(s[0], s[j]);
            law_order_is_numeric(s[j], s[s.len() - 1]);
        }
    }
}

/// A summary of measured values: its samples are the values in order, its outliers and ends
/// go by the fences that its own quartiles have, and of no values all its numbers are zero.
pub proof fn law_summary_of_measured_values<
    I: Fn(u64, u64, u64) -> u64,
    F: Fn(u64, u64) -> (u64, u64),
>(a: Seq<u64>, s: Seq<u64>, interpolate: I, fences: F, st: Stats)
    requires
        all_numeric(a),
        sorted_from(s, a),
        is_stats(st, s, interpolate, fences),
        forall|f: (u64, u64)| #[trigger]
            fences.ensures((st.q1, st.q3), f) ==> numeric(f.0) && numeric(f.1),
    ensures
        st.samples@.to_multiset() == a.to_multiset(),
        forall|i: int, j: int|
            0 <= i <= j < st.samples@.len() ==> number(st.samples@[i]) <= number(st.samples@[j]),
        a.len() == 0 ==> {
            &&& number(st.min) == 0real && number(st.q1) == 0real && number(st.median) == 0real
            &&& number(st.q3) == 0real && number(st.max) == 0real
            &&& st.outliers@.len() == 0 && st.samples@.len() == 0
        },
        a.len() > 0 ==> exists|f: (u64, u64)| #[trigger]
            fences.ensures((st.q1, st.q3), f) && (forall|x: u64| #[trigger]
                st.outliers@.to_multiset().count(x) == (if numeric(x) && within(x, f.0, f.1) {
                    0
                } else {
                    a.to_multiset().count(x)
                })) && ((exists|x: u64| a.contains(x) && #[trigger] within(x, f.0, f.1)) ==> within(
                st.min,
                f.0,
                f.1,
            ) && within(st.max, f.0, f.1)),
{
    broadcast use vstd::seq_lib::group_to_multiset_ensures;

    lemma_quarters();
    law_values_are_sorted_by_number(s, a, 0real);
    if s.len() == 0 {
        assert(st.samples@ =~= s);
    } else {
        assert(all_numeric(s)) by {
            assert forall|i: int| 0 <= i < s.len() implies numeric(#[trigger] s[i]) by {
                assert(s.contains(s[i]));
                assert(s.to_multiset().count(s[i]) > 0);
                assert(a.contains(s[i]));
            }
        }
        let f = choose|limits: (u64, u64)| #[trigger]
            fences.ensures((st.q1, st.q3), limits) && is_summary(st, s, limits.0, limits.1);
        assert forall|x: u64| #[trigger]
            st.outliers@.to_multiset().count(x) == (if numeric(x) && within(x, f.0, f.1) {
                0
            } else {
                a.to_multiset().count(x)
            }) by {
            law_summary_is_told_by_the_fences(st, s, f.0, f.1, x);
        }
        law_summary_is_told_by_the_fences(st, s, f.0, f.1, 0);
        if exists|x: u64| a.contains(x) && #[trigger] within(x, f.0, f.1) {
            let x = choose|x: u64| a.contains(x) && #[trigger] within(x, f.0, f.1);
            assert(a.to_multiset().count(x) > 0);
            assert(s.contains(x));
            let i = choose|i: int| 0 <= i < s.len() && s[i] == x;
            assert(within(s[i], f.0, f.1));
        }
        assert(fences.ensures((st.q1, st.q3), f));
    }
}

} // verus!

//! Values seen in a mirror: what becomes of a summary when all values are negated.

use crate::exact::{all_finite, finite, law_order_is_numeric, lemma_quarters, number, one_unit, units};
use crate::rounded::{
    computes_fences, computes_points, fences_stay_finite, is_rounding,
    law_rounded_fences_are_opposite, law_rounded_points_are_opposite, rounded_fences, rounded_point,
};
use crate::stats::{
    is_percentile, is_quartile, is_quartile_position, is_stats, is_summary, keys, kept_of,
    lemma_same_images, magnitude, order_key, outside, sorted_from, Position, Stats, SIGN_BIT,
};
use vstd::prelude::*;

verus! {

/// A value with the other sign.
pub open spec fn negate(bits: u64) -> u64 {
    if bits < SIGN_BIT {
        (bits + SIGN_BIT) as u64
    } else {
        (bits - SIGN_BIT) as u64
    }
}

/// Values with the other sign, one for one.
pub open spec fn negated(s: Seq<u64>) -> Seq<u64> {
    s.map_values(|b: u64| negate(b))
}

/// Numbers with the other sign, the last of them first.
pub open spec fn mirrored(k: Seq<int>) -> Seq<int> {
    Seq::new(k.len(), |i: int| -k[k.len() - 1 - i])
}

/// One value is the negative of the other. The two zeros are alike.
pub open spec fn opposite(a: u64, b: u64) -> bool {
    order_key(b) == -order_key(a)
}

/// A value is the negative of another exactly when their numbers are.
pub proof fn law_opposite_numbers(a: u64, b: u64)
    ensures
        opposite(a, b) <==> number(b) == -number(a),
{
    let c = negate(a);
    assert(order_key(c) == -order_key(a));
    assert(magnitude(c) == magnitude(a));
    let n = units(magnitude(a) as nat) as int;
    let u = one_unit() as real;
    vstd::arithmetic::power2::lemma_pow2_pos(1074);
    assert((-n) as real / u == -(n as real / u)) by (nonlinear_arith)
        requires
            u > 0real,
    ;
    assert(number(c) == -number(a));
    law_order_is_numeric(c, b);
}

/// Between two values `interpolate` treats both ends alike: between their negatives, seen
/// from the other end, lies the negative. And between numbers lies a number.
pub open spec fn treats_ends_alike<I: Fn(u64, u64, u64) -> u64>(interpolate: I) -> bool {
    forall|a: u64, b: u64, v: u64, r: u64, a2: u64, b2: u64, w: u64, r2: u64|
        #![trigger interpolate.ensures((a, b, v), r), interpolate.ensures((b2, a2, w), r2)]
        finite(a) && finite(b) && 0real < number(v) && 0real < number(w) && number(v) + number(w)
            == 1real && opposite(a, a2) && opposite(b, b2) && interpolate.ensures((a, b, v), r)
            && interpolate.ensures((b2, a2, w), r2) ==> finite(r) && opposite(r, r2)
}

/// `fences` treats both sides alike: around the negatives of the quartiles stand the
/// negatives of the fences.
pub open spec fn treats_sides_alike<F: Fn(u64, u64) -> (u64, u64)>(fences: F) -> bool {
    forall|q1: u64, q3: u64, f: (u64, u64), p1: u64, p3: u64, g: (u64, u64)|
        #![trigger fences.ensures((q1, q3), f), fences.ensures((p1, p3), g)]
        finite(q1) && finite(q3) && opposite(q1, p3) && opposite(q3, p1) && fences.ensures(
            (q1, q3),
            f,
        ) && fences.ensures((p1, p3), g) ==> opposite(f.0, g.1) && opposite(f.1, g.0)
}

/// The values of one list in order are those of the other seen in a mirror.
spec fn facing(s: Seq<u64>, t: Seq<u64>) -> bool {
    &&& s.len() == t.len()
    &&& forall|i: int| 0 <= i < s.len() ==> opposite(s[s.len() - 1 - i], #[trigger] t[i])
}

proof fn lemma_facing(a: Seq<u64>, b: Seq<u64>, s: Seq<u64>, t: Seq<u64>)
    requires
        b.to_multiset() == negated(a).to_multiset(),
        sorted_from(s, a),
        sorted_from(t, b),
    ensures
        keys(t) == mirrored(keys(s)),
        facing(s, t),
{
    let key = |x: u64| order_key(x);
    lemma_same_images(s, a, |x: u64| negate(x));
    lemma_same_images(t, negated(s), key);
    let z = mirrored(keys(s));
    assert(keys(negated(s)) =~= z.reverse());
    z.lemma_reverse_to_multiset();
    let leq = |x: int, y: int| x <= y;
    assert(vstd::relations::sorted_by(keys(t), leq));
    assert(vstd::relations::sorted_by(z, leq));
    assert(vstd::relations::total_ordering(leq));
    vstd::seq_lib::lemma_sorted_unique(keys(t), z, leq);
    assert(keys(t).len() == t.len() && z.len() == s.len());
    assert forall|i: int| 0 <= i < s.len() implies opposite(
        s[s.len() - 1 - i],
        #[trigger] t[i],
    ) by {
        assert(keys(t)[i] == z[i]);
    }
}

proof fn lemma_facing_parts(
    s: Seq<u64>,
    t: Seq<u64>,
    pick: spec_fn(u64) -> bool,
    mirror_pick: spec_fn(u64) -> bool,
)
    requires
        facing(s, t),
        forall|x: u64, y: u64| opposite(x, y) ==> #[trigger] pick(x) == #[trigger] mirror_pick(y),
    ensures
        keys(t.filter(mirror_pick)) == mirrored(keys(s.filter(pick))),
    decreases s.len(),
{
    reveal(Seq::filter);
    if s.len() == 0 {
        assert(keys(t.filter(mirror_pick)) =~= mirrored(keys(s.filter(pick))));
    } else {
        let (x, y) = (s.last(), t.first());
        let (s1, t1) = (s.drop_last(), t.drop_first());
        assert(opposite(s[s.len() - 1 - 0], t[0]));
        assert forall|i: int| 0 <= i < s1.len() implies opposite(
            s1[s1.len() - 1 - i],
            #[trigger] t1[i],
        ) by {
            assert(opposite(s[s.len() - 1 - (i + 1)], t[i + 1]));
        }
        lemma_facing_parts(s1, t1, pick, mirror_pick);
        assert(t =~= seq![y] + t1);
        Seq::filter_distributes_over_add(seq![y], t1, mirror_pick);
        assert(seq![y].drop_last() =~= Seq::<u64>::empty());
        assert(Seq::<u64>::empty().filter(mirror_pick) =~= Seq::<u64>::empty());
        let front = seq![y].filter(mirror_pick);
        assert(front =~= if mirror_pick(y) {
            seq![y]
        } else {
            Seq::<u64>::empty()
        });
        let (ks, kt) = (keys(s1.filter(pick)), keys(t1.filter(mirror_pick)));
        assert(keys(t.filter(mirror_pick)) =~= keys(front) + kt);
        if pick(x) {
            assert(keys(s.filter(pick)) =~= ks.push(order_key(x)));
            assert(mirrored(ks.push(order_key(x))) =~= seq![-order_key(x)] + mirrored(ks));
        }
        assert(keys(t.filter(mirror_pick)) =~= mirrored(keys(s.filter(pick))));
    }
}

/// Opposite quartiles lie at opposite places.
proof fn lemma_facing_positions(n: nat, k: nat, at: Position, at2: Position)
    requires
        n > 0,
        k <= 4,
        is_quartile_position(at, n, k),
        is_quartile_position(at2, n, (4 - k) as nat),
    ensures
        0 <= at.lower <= at.upper <= n - 1,
        at2.lower == n - 1 - at.upper,
        at2.upper == n - 1 - at.lower,
        finite(at.weight),
        finite(at2.weight),
        at.lower != at.upper ==> {
            &&& 0real < number(at.weight)
            &&& 0real < number(at2.weight)
            &&& number(at.weight) + number(at2.weight) == 1real
        },
{
    lemma_quarters();
    let m = (n - 1) as int;
    let point = k * m;
    assert((4 - k) * m == 4 * m - point) by (nonlinear_arith)
        requires
            point == k * m,
    ;
    assert(0 <= point <= 4 * m) by (nonlinear_arith)
        requires
            point == k * m,
            0 <= k <= 4,
            0 <= m,
    ;
}

proof fn lemma_facing_quartiles<I: Fn(u64, u64, u64) -> u64>(
    s: Seq<u64>,
    t: Seq<u64>,
    k: nat,
    interpolate: I,
    r: u64,
    r2: u64,
)
    requires
        s.len() > 0,
        all_finite(s),
        facing(s, t),
        k <= 4,
        treats_ends_alike(interpolate),
        is_quartile(s, k, interpolate, r),
        is_quartile(t, (4 - k) as nat, interpolate, r2),
    ensures
        finite(r),
        opposite(r, r2),
{
    let n = s.len();
    let at = choose|at: Position| #[trigger]
        is_quartile_position(at, n, k) && is_percentile(s, at, interpolate, r);
    let at2 = choose|at: Position| #[trigger]
        is_quartile_position(at, n, (4 - k) as nat) && is_percentile(t, at, interpolate, r2);
    lemma_facing_positions(n, k, at, at2);
    let (lo, hi) = (at.lower as int, at.upper as int);
    assert(opposite(s[n - 1 - (n - 1 - lo)], t[n - 1 - lo]));
    assert(opposite(s[n - 1 - (n - 1 - hi)], t[n - 1 - hi]));
    assert(finite(s[lo]) && finite(s[hi]));
    if lo != hi {
        assert(interpolate.ensures((s[lo], s[hi], at.weight), r));
        assert(interpolate.ensures((t[n - 1 - hi], t[n - 1 - lo], at2.weight), r2));
    }
}

proof fn lemma_facing_rounded_quartiles<I: Fn(u64, u64, u64) -> u64>(
    s: Seq<u64>,
    t: Seq<u64>,
    k: nat,
    round: spec_fn(real) -> u64,
    interpolate: I,
    r: u64,
    r2: u64,
)
    requires
        s.len() > 0,
        all_finite(s),
        facing(s, t),
        k <= 4,
        is_rounding(round),
        computes_points(interpolate, round),
        is_quartile(s, k, interpolate, r),
        is_quartile(t, (4 - k) as nat, interpolate, r2),
        finite(r),
        finite(r2),
    ensures
        opposite(r, r2),
{
    let n = s.len();
    let at = choose|at: Position| #[trigger]
        is_quartile_position(at, n, k) && is_percentile(s, at, interpolate, r);
    let at2 = choose|at: Position| #[trigger]
        is_quartile_position(at, n, (4 - k) as nat) && is_percentile(t, at, interpolate, r2);
    lemma_facing_positions(n, k, at, at2);
    let (lo, hi) = (at.lower as int, at.upper as int);
    let (a, b, a2, b2) = (s[lo], s[hi], t[n - 1 - lo], t[n - 1 - hi]);
    assert(opposite(s[n - 1 - (n - 1 - lo)], a2));
    assert(opposite(s[n - 1 - (n - 1 - hi)], b2));
    assert(finite(a) && finite(b) && finite(a2) && finite(b2));
    if lo != hi {
        let (v, w) = (at.weight, at2.weight);
        law_opposite_numbers(a, a2);
        law_opposite_numbers(b, b2);
        law_rounded_points_are_opposite(round, a, b, v, a2, b2, w);
        assert(interpolate.ensures((a, b, v), r));
        assert(interpolate.ensures((b2, a2, w), r2));
        law_opposite_numbers(rounded_point(round, a, b, v), rounded_point(round, b2, a2, w));
        law_opposite_numbers(r, r2);
    }
}

/// The parts of a summary that hang on the fences alone.
proof fn lemma_facing_summaries(
    s: Seq<u64>,
    t: Seq<u64>,
    st: Stats,
    tt: Stats,
    f: (u64, u64),
    g: (u64, u64),
)
    requires
        s.len() > 0,
        facing(s, t),
        keys(t) == mirrored(keys(s)),
        is_summary(st, s, f.0, f.1),
        is_summary(tt, t, g.0, g.1),
        opposite(f.0, g.1),
        opposite(f.1, g.0),
    ensures
        opposite(st.min, tt.max),
        opposite(st.max, tt.min),
        keys(tt.outliers@) == mirrored(keys(st.outliers@)),
        keys(tt.samples@) == mirrored(keys(st.samples@)),
{
    let out = |v: u64| outside(v, f.0, f.1);
    let out2 = |v: u64| outside(v, g.0, g.1);
    let kept = |v: u64| !outside(v, f.0, f.1);
    let kept2 = |v: u64| !outside(v, g.0, g.1);
    assert(forall|x: u64, y: u64| opposite(x, y) ==> #[trigger] out(x) == #[trigger] out2(y));
    assert(forall|x: u64, y: u64| opposite(x, y) ==> #[trigger] kept(x) == #[trigger] kept2(y));
    lemma_facing_parts(s, t, out, out2);
    lemma_facing_parts(s, t, kept, kept2);
    let (ks, kt) = (kept_of(s, f.0, f.1), kept_of(t, g.0, g.1));
    assert(keys(kt) == mirrored(keys(ks)));
    assert(keys(kt).len() == kt.len() && keys(ks).len() == ks.len());
    if ks.len() > 0 {
        let last = ks.len() - 1;
        assert(keys(kt)[0] == -keys(ks)[last]);
        assert(keys(kt)[last] == -keys(ks)[0]);
    } else {
        let last = s.len() - 1;
        assert(opposite(s[s.len() - 1 - 0], t[0]));
        assert(opposite(s[s.len() - 1 - last], t[last]));
    }
}

proof fn lemma_sorted_finite(a: Seq<u64>, s: Seq<u64>)
    requires
        all_finite(a),
        sorted_from(s, a),
    ensures
        all_finite(s),
{
    broadcast use vstd::seq_lib::group_to_multiset_ensures;

    assert forall|i: int| 0 <= i < s.len() implies finite(#[trigger] s[i]) by {
        assert(s.contains(s[i]));
        assert(s.to_multiset().count(s[i]) > 0);
        assert(a.contains(s[i]));
    }
}

/// Negating all values mirrors their summary, if the functions handed in treat both ends
/// and both sides alike: the smallest end becomes the largest, the first quartile the
/// third, and outliers and samples stand in the opposite order with opposite signs. The
/// order in which the values come makes no difference.
pub proof fn law_negation_mirrors_the_summary<
    I: Fn(u64, u64, u64) -> u64,
    F: Fn(u64, u64) -> (u64, u64),
>(
    a: Seq<u64>,
    b: Seq<u64>,
    s: Seq<u64>,
    t: Seq<u64>,
    interpolate: I,
    fences: F,
    st: Stats,
    tt: Stats,
)
    requires
        all_finite(a),
        b.to_multiset() == negated(a).to_multiset(),
        sorted_from(s, a),
        sorted_from(t, b),
        is_stats(st, s, interpolate, fences),
        is_stats(tt, t, interpolate, fences),
        treats_ends_alike(interpolate),
        treats_sides_alike(fences),
    ensures
        opposite(st.min, tt.max),
        opposite(st.q1, tt.q3),
        opposite(st.median, tt.median),
        opposite(st.q3, tt.q1),
        opposite(st.max, tt.min),
        keys(tt.outliers@) == mirrored(keys(st.outliers@)),
        keys(tt.samples@) == mirrored(keys(st.samples@)),
{
    lemma_facing(a, b, s, t);
    if s.len() == 0 {
        assert(keys(tt.outliers@) =~= mirrored(keys(st.outliers@)));
        assert(keys(tt.samples@) =~= mirrored(keys(st.samples@)));
    } else {
        lemma_sorted_finite(a, s);
        lemma_facing_quartiles(s, t, 1, interpolate, st.q1, tt.q3);
        lemma_facing_quartiles(s, t, 2, interpolate, st.median, tt.median);
        lemma_facing_quartiles(s, t, 3, interpolate, st.q3, tt.q1);
        let f = choose|limits: (u64, u64)| #[trigger]
            fences.ensures((st.q1, st.q3), limits) && is_summary(st, s, limits.0, limits.1);
        let g = choose|limits: (u64, u64)| #[trigger]
            fences.ensures((tt.q1, tt.q3), limits) && is_summary(tt, t, limits.0, limits.1);
        lemma_facing_summaries(s, t, st, tt, f, g);
    }
}

/// The quartiles and the fences of a summary did not overflow.
pub open spec fn no_overflow<F: Fn(u64, u64) -> (u64, u64)>(st: Stats, fences: F) -> bool {
    &&& finite(st.q1) && finite(st.median) && finite(st.q3)
    &&& fences_stay_finite(fences, st.q1, st.q3)
}

/// Negating all values mirrors their summary, if points and fences are computed with a
/// rounding after every step and nothing overflows.
pub proof fn law_negation_mirrors_the_rounded_summary<
    I: Fn(u64, u64, u64) -> u64,
    F: Fn(u64, u64) -> (u64, u64),
>(
    a: Seq<u64>,
    b: Seq<u64>,
    s: Seq<u64>,
    t: Seq<u64>,
    round: spec_fn(real) -> u64,
    interpolate: I,
    fences: F,
    st: Stats,
    tt: Stats,
)
    requires
        all_finite(a),
        b.to_multiset() == negated(a).to_multiset(),
        sorted_from(s, a),
        sorted_from(t, b),
        is_rounding(round),
        computes_points(interpolate, round),
        computes_fences(fences, round),
        is_stats(st, s, interpolate, fences),
        is_stats(tt, t, interpolate, fences),
        no_overflow(st, fences),
        no_overflow(tt, fences),
    ensures
        opposite(st.min, tt.max),
        opposite(st.q1, tt.q3),
        opposite(st.median, tt.median),
        opposite(st.q3, tt.q1),
        opposite(st.max, tt.min),
        keys(tt.outliers@) == mirrored(keys(st.outliers@)),
        keys(tt.samples@) == mirrored(keys(st.samples@)),
{
    lemma_facing(a, b, s, t);
    if s.len() == 0 {
        assert(keys(tt.outliers@) =~= mirrored(keys(st.outliers@)));
        assert(keys(tt.samples@) =~= mirrored(keys(st.samples@)));
    } else {
        lemma_sorted_finite(a, s);
        lemma_facing_rounded_quartiles(s, t, 1, round, interpolate, st.q1, tt.q3);
        lemma_facing_rounded_quartiles(s, t, 2, round, interpolate, st.median, tt.median);
        lemma_facing_rounded_quartiles(s, t, 3, round, interpolate, st.q3, tt.q1);
        let f = choose|limits: (u64, u64)| #[trigger]
            fences.ensures((st.q1, st.q3), limits) && is_summary(st, s, limits.0, limits.1);
        let g = choose|limits: (u64, u64)| #[trigger]
            fences.ensures((tt.q1, tt.q3), limits) && is_summary(tt, t, limits.0, limits.1);
        law_opposite_numbers(st.q1, tt.q3);
        law_opposite_numbers(st.q3, tt.q1);
        law_rounded_fences_are_opposite(round, st.q1, st.q3, tt.q1, tt.q3);
        let (x, y) = (
            rounded_fences(round, st.q1, st.q3),
            rounded_fences(round, tt.q1, tt.q3),
        );
        law_opposite_numbers(x.0, y.1);
        law_opposite_numbers(x.1, y.0);
        law_opposite_numbers(f.0, g.1);
        law_opposite_numbers(f.1, g.0);
        lemma_facing_summaries(s, t, st, tt, f, g);
    }
}

} // verus!

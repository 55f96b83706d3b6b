//! The arithmetic on values when every step is rounded to a value.

use crate::exact::{finite, number};
use crate::mirror::opposite;
use vstd::prelude::*;

verus! {

/// Rounding keeps what is a value already, and treats both signs alike.
pub open spec fn is_rounding(round: spec_fn(real) -> u64) -> bool {
    &&& forall|v: u64| finite(v) ==> number(#[trigger] round(number(v))) == number(v)
    &&& forall|x: real| opposite(#[trigger] round(x), round(-x))
}

/// A number after rounding.
pub open spec fn rounded(round: spec_fn(real) -> u64, x: real) -> real {
    number(round(x))
}

/// The point that lies so far from `a`, as a part of the way to `b`: the sum of both
/// values, each with its part.
pub open spec fn rounded_point(round: spec_fn(real) -> u64, a: u64, b: u64, weight: u64) -> u64 {
    let rest = rounded(round, 1real - number(weight));
    let from_a = rounded(round, number(a) * rest);
    let from_b = rounded(round, number(b) * number(weight));
    round(from_a + from_b)
}

/// How far the fences stand from the quartiles: one and a half times the distance between
/// the quartiles.
pub open spec fn rounded_margin(round: spec_fn(real) -> u64, q1: u64, q3: u64) -> real {
    let iqr = rounded(round, number(q3) - number(q1));
    rounded(round, 3real / 2real * iqr)
}

/// The limits beyond which a value is an outlier.
pub open spec fn rounded_fences(round: spec_fn(real) -> u64, q1: u64, q3: u64) -> (u64, u64) {
    let margin = rounded_margin(round, q1, q3);
    (round(number(q1) - margin), round(number(q3) + margin))
}

/// `interpolate` computes points with this rounding, as long as nothing overflows.
pub open spec fn computes_points<I: Fn(u64, u64, u64) -> u64>(
    interpolate: I,
    round: spec_fn(real) -> u64,
) -> bool {
    forall|a: u64, b: u64, weight: u64, r: u64| #[trigger]
        interpolate.ensures((a, b, weight), r) && finite(a) && finite(b) && finite(weight)
            && finite(r) ==> number(r) == number(rounded_point(round, a, b, weight))
}

/// `fences` computes the limits with this rounding, as long as nothing overflows.
pub open spec fn computes_fences<F: Fn(u64, u64) -> (u64, u64)>(
    fences: F,
    round: spec_fn(real) -> u64,
) -> bool {
    forall|q1: u64, q3: u64, f: (u64, u64)| #[trigger]
        fences.ensures((q1, q3), f) && finite(q1) && finite(q3) && finite(f.0) && finite(f.1)
            ==> {
            &&& number(f.0) == number(rounded_fences(round, q1, q3).0)
            &&& number(f.1) == number(rounded_fences(round, q1, q3).1)
        }
}

/// Between quartiles that are finite the fences are finite.
pub open spec fn fences_stay_finite<F: Fn(u64, u64) -> (u64, u64)>(
    fences: F,
    q1: u64,
    q3: u64,
) -> bool {
    forall|f: (u64, u64)| #[trigger]
        fences.ensures((q1, q3), f) ==> finite(f.0) && finite(f.1)
}

/// The point between the negatives of two values, seen from the other end, is the
/// negative of the point between the values.
pub proof fn law_rounded_points_are_opposite(
    round: spec_fn(real) -> u64,
    a: u64,
    b: u64,
    v: u64,
    a2: u64,
    b2: u64,
    w: u64,
)
    requires
        is_rounding(round),
        finite(v),
        finite(w),
        number(v) + number(w) == 1real,
        number(a2) == -number(a),
        number(b2) == -number(b),
    ensures
        opposite(rounded_point(round, a, b, v), rounded_point(round, b2, a2, w)),
{
    let (x, y, p, q) = (number(a), number(b), number(v), number(w));
    assert(1real - p == q && 1real - q == p);
    assert(rounded(round, q) == q && rounded(round, p) == p);
    assert(-(x * q) == -x * q && -(y * p) == -y * p) by (nonlinear_arith);
    lemma_rounded_negative(round, x * q);
    lemma_rounded_negative(round, y * p);
    let sum = rounded(round, x * q) + rounded(round, y * p);
    assert(rounded(round, -y * p) + rounded(round, -x * q) == -sum);
    assert(opposite(round(sum), round(-sum)));
}

proof fn lemma_rounded_negative(round: spec_fn(real) -> u64, x: real)
    requires
        is_rounding(round),
    ensures
        rounded(round, -x) == -rounded(round, x),
{
    assert(opposite(round(x), round(-x)));
    crate::mirror::law_opposite_numbers(round(x), round(-x));
}

/// The fences around the negatives of the quartiles are the negatives of the fences.
pub proof fn law_rounded_fences_are_opposite(
    round: spec_fn(real) -> u64,
    q1: u64,
    q3: u64,
    p1: u64,
    p3: u64,
)
    requires
        is_rounding(round),
        number(p1) == -number(q3),
        number(p3) == -number(q1),
    ensures
        opposite(rounded_fences(round, q1, q3).0, rounded_fences(round, p1, p3).1),
        opposite(rounded_fences(round, q1, q3).1, rounded_fences(round, p1, p3).0),
{
    assert(number(p3) - number(p1) == number(q3) - number(q1));
    let margin = rounded_margin(round, q1, q3);
    assert(rounded_margin(round, p1, p3) == margin);
    assert(number(p3) + margin == -(number(q1) - margin));
    assert(number(p1) - margin == -(number(q3) + margin));
    assert(opposite(round(number(q1) - margin), round(-(number(q1) - margin))));
    assert(opposite(round(number(q3) + margin), round(-(number(q3) + margin))));
}

} // verus!

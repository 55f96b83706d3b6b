use quic_perf::stats::{
    all_comparable, calculate_stats, is_below, key_of, nan, percentile, quartile_position,
    sort_values, summarize, Position, Stats, HALF, QUARTER, THREE_QUARTERS, ZERO,
};

fn bits(values: &[f64]) -> Vec<u64> {
    values.iter().map(|v| v.to_bits()).collect()
}

fn floats(values: &[u64]) -> Vec<f64> {
    values.iter().map(|v| f64::from_bits(*v)).collect()
}

fn between(a: u64, b: u64, weight: u64) -> u64 {
    let w = f64::from_bits(weight);
    (f64::from_bits(a) * (1.0 - w) + f64::from_bits(b) * w).to_bits()
}

fn fences(q1: u64, q3: u64) -> (u64, u64) {
    let (q1, q3) = (f64::from_bits(q1), f64::from_bits(q3));
    let iqr = q3 - q1;
    ((q1 - 1.5 * iqr).to_bits(), (q3 + 1.5 * iqr).to_bits())
}

fn stats(values: &[f64]) -> Stats {
    let mut values = bits(values);
    assert!(all_comparable(&values));
    calculate_stats(&mut values, between, fences)
}

fn ends(s: &Stats) -> (f64, f64) {
    (f64::from_bits(s.min), f64::from_bits(s.max))
}

fn quartiles(s: &Stats) -> (f64, f64, f64) {
    (f64::from_bits(s.q1), f64::from_bits(s.median), f64::from_bits(s.q3))
}

const SAMPLES: [f64; 12] = [
    0.0,
    -0.0,
    1.0,
    -1.0,
    0.1,
    -0.1,
    f64::MAX,
    f64::MIN,
    f64::MIN_POSITIVE,
    f64::INFINITY,
    f64::NEG_INFINITY,
    f64::NAN,
];

#[test]
fn values_compare_like_floats() {
    for a in SAMPLES {
        assert_eq!(nan(a.to_bits()), a.is_nan());
        assert_eq!(nan((-a).to_bits()), a.is_nan());
        for b in SAMPLES {
            assert_eq!(is_below(a.to_bits(), b.to_bits()), a < b, "{a} {b}");
        }
    }
    assert_eq!(key_of((0.0f64).to_bits()), 0);
    assert_eq!(key_of((-0.0f64).to_bits()), 0);
    assert_eq!(key_of((-1.0f64).to_bits()), -key_of((1.0f64).to_bits()));
}

#[test]
fn values_are_sorted_like_floats() {
    let mut values = bits(&SAMPLES[..11]);
    let mut expected = SAMPLES[..11].to_vec();
    expected.sort_by(|a, b| a.partial_cmp(b).unwrap());
    sort_values(&mut values);
    assert_eq!(values, bits(&expected));
}

#[test]
fn values_that_are_alike_keep_their_order() {
    let mut values = bits(&[2.0, -0.0, 0.0, -3.0, 0.0, -0.0]);
    sort_values(&mut values);
    assert_eq!(values, bits(&[-3.0, -0.0, 0.0, 0.0, -0.0, 2.0]));
}

#[test]
fn sorting_again_changes_nothing() {
    let mut values = bits(&[5.0, 1.0, 4.0, 1.0, 3.0]);
    sort_values(&mut values);
    let once = values.clone();
    sort_values(&mut values);
    assert_eq!(values, once);
    assert_eq!(floats(&values), vec![1.0, 1.0, 3.0, 4.0, 5.0]);
}

#[test]
fn measuring_order_is_irrelevant() {
    let a = stats(&[1.0, 9.0, 3.0, 100.0, 5.0, 4.0]);
    let b = stats(&[100.0, 4.0, 5.0, 1.0, 3.0, 9.0]);
    assert_eq!(a.samples, b.samples);
    assert_eq!(quartiles(&a), quartiles(&b));
    assert_eq!(ends(&a), ends(&b));
    assert_eq!(a.outliers, b.outliers);
}

#[test]
fn a_single_value_needs_no_comparison() {
    assert!(all_comparable(&vec![]));
    assert!(all_comparable(&bits(&[f64::NAN])));
    assert!(!all_comparable(&bits(&[f64::NAN, 1.0])));
    assert!(!all_comparable(&bits(&[1.0, -f64::NAN])));
    assert!(all_comparable(&bits(&[1.0, f64::INFINITY])));
    let s = stats(&[f64::NAN]);
    assert!(f64::from_bits(s.median).is_nan());
    assert_eq!(s.outliers.len(), 0);
    assert_eq!(s.samples.len(), 1);
}

#[test]
fn no_values_have_a_summary_of_zeros() {
    let s = stats(&[]);
    assert_eq!(ends(&s), (0.0, 0.0));
    assert_eq!(quartiles(&s), (0.0, 0.0, 0.0));
    assert!(s.outliers.is_empty());
    assert!(s.samples.is_empty());
}

fn position(n: usize, p: f64) -> Position {
    let index = (p / 100.0) * (n as f64 - 1.0);
    let (lower, upper) = (index.floor() as usize, index.ceil() as usize);
    Position { lower, upper, weight: (index - lower as f64).to_bits() }
}

#[test]
fn quarters_are_written_as_bits() {
    assert_eq!(f64::from_bits(ZERO), 0.0);
    assert_eq!(f64::from_bits(QUARTER), 0.25);
    assert_eq!(f64::from_bits(HALF), 0.5);
    assert_eq!(f64::from_bits(THREE_QUARTERS), 0.75);
}

#[test]
fn percentile_lies_between_its_neighbours() {
    let sorted = bits(&[10.0, 20.0, 30.0, 40.0]);
    let at = |p| f64::from_bits(percentile(&sorted, position(4, p), &between));
    assert_eq!(at(0.0), 10.0);
    assert_eq!(at(25.0), 17.5);
    assert_eq!(at(50.0), 25.0);
    assert_eq!(at(75.0), 32.5);
    assert_eq!(at(100.0), 40.0);
    assert_eq!(at(12.5), 13.75);
    let sorted = bits(&[1.0, 2.0, 3.0, 4.0, 5.0]);
    assert_eq!(f64::from_bits(percentile(&sorted, position(5, 25.0), &between)), 2.0);
    assert_eq!(f64::from_bits(percentile(&sorted, position(5, 75.0), &between)), 4.0);
    assert_eq!(f64::from_bits(percentile(&sorted, position(5, 10.0), &between)), 1.4);
}

#[test]
fn percentiles_grow() {
    let sorted = bits(&[-4.0, 0.0, 1.0, 1.0, 64.0]);
    let at = |p| f64::from_bits(percentile(&sorted, position(5, p), &between));
    for step in 0..400 {
        let p = step as f64 / 4.0;
        assert!(at(p) <= at(p + 0.25), "{p}");
    }
    assert_eq!((at(0.0), at(100.0)), (-4.0, 64.0));
    let single = bits(&[7.0]);
    for p in [0.0, 3.0, 50.0, 99.9, 100.0] {
        assert_eq!(f64::from_bits(percentile(&single, position(1, p), &between)), 7.0);
    }
}

#[test]
fn quartiles_stand_where_floats_put_them() {
    for n in 1..40usize {
        for k in 0..5 {
            assert_eq!(quartile_position(n, k), position(n, 25.0 * k as f64), "{n} {k}");
        }
    }
    let expected = Position { lower: 6, upper: 7, weight: THREE_QUARTERS };
    assert_eq!(quartile_position(10, 3), expected);
}

#[test]
fn negation_mirrors_the_summary() {
    let values = [3.0, 100.0, 2.0, 1.0, 4.0, -50.0, 5.5, 0.1];
    let mirror = [-100.0, -0.1, -2.0, -5.5, 50.0, -1.0, -4.0, -3.0];
    let (s, t) = (stats(&values), stats(&mirror));
    let opposite = |list: &[u64]| floats(list).iter().rev().map(|v| -v).collect::<Vec<f64>>();
    assert_eq!(ends(&t), (-ends(&s).1, -ends(&s).0));
    let (q1, median, q3) = quartiles(&s);
    assert_eq!(quartiles(&t), (-q3, -median, -q1));
    assert_eq!(floats(&t.outliers), opposite(&s.outliers));
    assert_eq!(floats(&t.samples), opposite(&s.samples));
    assert_eq!(t.outliers.len(), 2);
}

#[test]
fn values_stand_in_the_order_of_their_numbers() {
    let numbers = [-1e300, -2.5, -f64::MIN_POSITIVE, -5e-324, 0.0, 5e-324, 1e-310, 0.1, 1.0, 1e300];
    for pair in numbers.windows(2) {
        assert!(key_of(pair[0].to_bits()) < key_of(pair[1].to_bits()));
    }
}

#[test]
fn values_beyond_the_fences_are_outliers() {
    let s = stats(&[3.0, 100.0, 2.0, 1.0, 4.0, -50.0, 5.0]);
    assert_eq!(quartiles(&s), (1.5, 3.0, 4.5));
    assert_eq!(floats(&s.outliers), vec![-50.0, 100.0]);
    assert_eq!(floats(&s.samples), vec![-50.0, 1.0, 2.0, 3.0, 4.0, 5.0, 100.0]);
    assert_eq!(ends(&s), (1.0, 5.0));
}

#[test]
fn every_value_counts_once() {
    let values = bits(&[1.0, 2.0, 3.0, 4.0]);
    let (lower, upper) = ((1.5f64).to_bits(), (3.0f64).to_bits());
    let s = summarize(&values, 7, 8, 9, lower, upper);
    assert_eq!((s.q1, s.median, s.q3), (7, 8, 9));
    assert_eq!(floats(&s.outliers), vec![1.0, 4.0]);
    assert_eq!(floats(&s.samples), vec![1.0, 2.0, 3.0, 4.0]);
    assert_eq!(ends(&s), (2.0, 3.0));
}

#[test]
fn ends_are_of_all_values_when_all_are_outliers() {
    let values = bits(&[1.0, 2.0]);
    let s = summarize(&values, 0, 0, 0, (5.0f64).to_bits(), (6.0f64).to_bits());
    assert_eq!(floats(&s.outliers), vec![1.0, 2.0]);
    assert_eq!(ends(&s), (1.0, 2.0));
}

#[test]
fn fences_that_are_no_numbers_keep_every_value() {
    let values = bits(&[1.0, 2.0]);
    let s = summarize(&values, 0, 0, 0, f64::NAN.to_bits(), f64::NAN.to_bits());
    assert!(s.outliers.is_empty());
    assert_eq!(ends(&s), (1.0, 2.0));
}

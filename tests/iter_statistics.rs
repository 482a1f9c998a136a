use statrs::binary64::Observation;
use statrs::iter_statistics::{AbsMaxAccumulator, AbsMinAccumulator, IterStatistics};

fn obs(values: &[f64]) -> Vec<Observation> {
    values.iter().map(|x| Observation::from_bits(x.to_bits())).collect()
}

fn value(o: Observation) -> f64 {
    f64::from_bits(o.to_bits())
}

#[test]
fn abs_min_of_empty_is_nan() {
    let x = obs(&[]);
    assert!(value(x.as_slice().abs_min()).is_nan());
}

#[test]
fn abs_max_of_empty_is_nan() {
    let x = obs(&[]);
    assert!(value(x.as_slice().abs_max()).is_nan());
}

#[test]
fn empty_gives_the_canonical_nan() {
    let x = obs(&[]);
    assert_eq!(x.as_slice().abs_min().to_bits(), f64::NAN.to_bits());
    assert_eq!(x.as_slice().abs_max().to_bits(), f64::NAN.to_bits());
}

#[test]
fn abs_min_with_nan_is_nan() {
    let y = obs(&[0.0, f64::NAN, 3.0, -2.0]);
    assert!(value(y.as_slice().abs_min()).is_nan());
}

#[test]
fn abs_max_with_nan_is_nan() {
    let y = obs(&[0.0, f64::NAN, 3.0, -2.0]);
    assert!(value(y.as_slice().abs_max()).is_nan());
}

#[test]
fn nan_first_or_last_stays() {
    let first = obs(&[f64::NAN, 1.0, -5.0]);
    let last = obs(&[1.0, -5.0, f64::NAN]);
    assert!(value(first.as_slice().abs_min()).is_nan());
    assert!(value(first.as_slice().abs_max()).is_nan());
    assert!(value(last.as_slice().abs_min()).is_nan());
    assert!(value(last.as_slice().abs_max()).is_nan());
}

#[test]
fn abs_min_of_mixed_signs() {
    let z = obs(&[0.0, 3.0, -2.0]);
    assert_eq!(value(z.as_slice().abs_min()), 0.0);
    let w = obs(&[4.0, -1.5, 3.0, -2.0]);
    assert_eq!(value(w.as_slice().abs_min()), 1.5);
}

#[test]
fn abs_max_of_mixed_signs() {
    let z = obs(&[0.0, 3.0, -2.0, -8.0]);
    assert_eq!(value(z.as_slice().abs_max()), 8.0);
}

#[test]
fn negative_zero_has_positive_magnitude() {
    let z = obs(&[-0.0]);
    assert_eq!(z.as_slice().abs_min().to_bits(), 0.0f64.to_bits());
    assert_eq!(z.as_slice().abs_max().to_bits(), 0.0f64.to_bits());
}

#[test]
fn infinities_are_magnitudes() {
    let z = obs(&[1.0, f64::NEG_INFINITY, -3.0]);
    assert_eq!(value(z.as_slice().abs_max()), f64::INFINITY);
    assert_eq!(value(z.as_slice().abs_min()), 1.0);
    let only = obs(&[f64::NEG_INFINITY]);
    assert_eq!(value(only.as_slice().abs_min()), f64::INFINITY);
}

#[test]
fn subnormals_and_large_values_order_by_magnitude() {
    let tiny = f64::from_bits(1);
    let z = obs(&[-1e300, tiny, -2.0 * tiny, 1e-300]);
    assert_eq!(value(z.as_slice().abs_min()), tiny);
    assert_eq!(value(z.as_slice().abs_max()), 1e300);
}

#[test]
fn abs_min_not_above_abs_max() {
    let cases: [&[f64]; 4] = [&[5.0], &[-1.0, 2.0], &[3.0, -3.0, 0.5, -7.25], &[-0.0, 0.0]];
    for c in cases.iter() {
        let s = obs(c);
        assert!(value(s.as_slice().abs_min()) <= value(s.as_slice().abs_max()));
    }
}

#[test]
fn repeated_runs_are_bit_identical() {
    let values = [0.1, -0.7, 1e-12, f64::NAN, 4.5];
    let a = obs(&values);
    let b = obs(&values);
    assert_eq!(a.as_slice().abs_min().to_bits(), b.as_slice().abs_min().to_bits());
    assert_eq!(a.as_slice().abs_max().to_bits(), b.as_slice().abs_max().to_bits());
    let c = obs(&values[..3]);
    let d = obs(&values[..3]);
    assert_eq!(c.as_slice().abs_min().to_bits(), d.as_slice().abs_min().to_bits());
    assert_eq!(value(c.as_slice().abs_min()), 1e-12);
    assert_eq!(value(d.as_slice().abs_max()), 0.7);
}

#[test]
fn accumulators_follow_the_stream() {
    let mut lo = AbsMinAccumulator::new();
    let mut hi = AbsMaxAccumulator::new();
    assert!(value(lo.result()).is_nan());
    assert!(value(hi.result()).is_nan());
    for x in [-3.0, 2.0, -9.0] {
        lo.push(Observation::from_bits(f64::to_bits(x)));
        hi.push(Observation::from_bits(f64::to_bits(x)));
    }
    assert_eq!(value(lo.result()), 2.0);
    assert_eq!(value(hi.result()), 9.0);
    lo.push(Observation::from_bits(f64::NAN.to_bits()));
    lo.push(Observation::from_bits(0.5f64.to_bits()));
    assert!(value(lo.result()).is_nan());
}

#[test]
fn observation_abs_and_nan() {
    let neg = Observation::from_bits((-2.5f64).to_bits());
    assert_eq!(value(neg.abs()), 2.5);
    assert!(!neg.is_nan());
    assert!(Observation::nan().is_nan());
    assert_eq!(Observation::nan().to_bits(), f64::NAN.to_bits());
    assert!(Observation::from_bits((-f64::NAN).to_bits()).is_nan());
    assert!(!Observation::from_bits(f64::INFINITY.to_bits()).is_nan());
}

#[test]
fn lt_magnitude_follows_numeric_order() {
    let a = Observation::from_bits(1.0f64.to_bits());
    let b = Observation::from_bits(2.0f64.to_bits());
    let n = Observation::nan();
    assert!(a.lt_magnitude(&b));
    assert!(!b.lt_magnitude(&a));
    assert!(!a.lt_magnitude(&n));
    assert!(!n.lt_magnitude(&a));
}

use rust_fuzzylogic::error::FuzzyError;
use rust_fuzzylogic::fixed::Fixed;
use rust_fuzzylogic::sampler::{sample_point, UniformSampler, DEFAULT_SAMPLES, MAX_SAMPLES};

/// The fixed-point number nearest to `v`.
fn fx(v: f64) -> Fixed {
    (v * 1e9).round() as Fixed
}

#[test]
fn uniform_sampler_two_points_inclusive_endpoints() {
    let s = UniformSampler::new(2).unwrap();
    let min = fx(-3.5);
    let max = fx(4.5);
    let pts = s.sample(min, max).unwrap();
    assert_eq!(pts.len(), 2);
    assert_eq!(pts[0], min);
    assert_eq!(pts[1], max, "Last point must equal max for n=2");
}

#[test]
fn uniform_sampler_inclusive_endpoints_default() {
    let s = UniformSampler::default();
    let n = DEFAULT_SAMPLES;
    assert_eq!(n, 101);
    assert_eq!(s.n(), 101);
    let min = fx(-5.0);
    let max = fx(5.0);
    let pts = s.sample(min, max).unwrap();
    assert_eq!(pts.len(), n);
    assert_eq!(pts.first().copied().unwrap(), min);
    assert_eq!(pts.last().copied().unwrap(), max, "Sampler should include max exactly");
}

#[test]
fn uniform_sampler_spacing_monotonic() {
    let s = UniformSampler::default();
    let pts = s.sample(fx(0.0), fx(10.0)).unwrap();
    assert!(pts.windows(2).all(|w| w[1] > w[0]));
    let base_step = pts[1] - pts[0];
    assert_eq!(base_step, fx(0.1));
    for i in 2..pts.len() {
        assert_eq!(pts[i] - pts[i - 1], base_step, "Non-uniform step at i={i}");
    }
}

#[test]
fn uniform_sampler_invalid_points_rejected() {
    assert!(matches!(UniformSampler::new(0), Err(FuzzyError::OutOfBounds)));
    assert!(matches!(UniformSampler::new(1), Err(FuzzyError::OutOfBounds)));
    assert!(UniformSampler::new(2).is_ok());
    assert!(UniformSampler::new(MAX_SAMPLES).is_ok());
    if let Some(too_many) = MAX_SAMPLES.checked_add(1) {
        assert!(matches!(UniformSampler::new(too_many), Err(FuzzyError::OutOfBounds)));
    }
}

#[test]
fn uniform_sampler_invalid_range_rejected() {
    let s = UniformSampler::default();
    assert!(matches!(s.sample(fx(1.0), fx(0.0)), Err(FuzzyError::BadArity)));
    assert!(matches!(s.sample(fx(1.0), fx(1.0)), Err(_)));
}

#[test]
fn grid_points_are_rounded_down() {
    // min + i * (max - min) / (n - 1) on [0, 10] with four points
    let s = UniformSampler::new(4).unwrap();
    assert_eq!(s.sample(0, 10), Ok(vec![0, 3, 6, 10]));
    assert_eq!(s.sample(-10, 0), Ok(vec![-10, -7, -4, 0]));
    assert_eq!(sample_point(0, 10, 4, 2), 6);
    assert_eq!(sample_point(-5, 5, 3, 1), 0);
}

#[test]
fn narrow_interval_never_goes_down() {
    // Narrower than the number of steps: neighbours may coincide, but the
    // ends are still exact and the points never fall.
    let s = UniformSampler::new(5).unwrap();
    let pts = s.sample(0, 2).unwrap();
    assert_eq!(pts, vec![0, 0, 1, 1, 2]);
    assert!(pts.windows(2).all(|w| w[1] >= w[0]));
}

#[test]
fn grid_spans_the_whole_number_range() {
    let s = UniformSampler::new(1001).unwrap();
    let pts = s.sample(Fixed::MIN, Fixed::MAX).unwrap();
    assert_eq!(pts.len(), 1001);
    assert_eq!(pts[0], Fixed::MIN);
    assert_eq!(pts[1000], Fixed::MAX);
    assert!(pts.windows(2).all(|w| w[1] > w[0]));
    assert_eq!(pts[500], -1);
}

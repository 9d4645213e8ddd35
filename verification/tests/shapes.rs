use rust_fuzzylogic::error::FuzzyError;
use rust_fuzzylogic::fixed::{Fixed, ONE};
use rust_fuzzylogic::membership::triangular::triangular_membership;
use rust_fuzzylogic::membership::{
    slope, validate_order, Gaussian, MembershipFn, MembershipShape, ShapeError, Trapezoidal,
    Triangular,
};

/// The fixed-point number nearest to `v`.
fn fx(v: f64) -> Fixed {
    (v * 1e9).round() as Fixed
}

/// The real number that `v` stands for.
fn as_real(v: Fixed) -> f64 {
    v as f64 / 1e9
}

#[test]
fn test_center_point() {
    let result = triangular_membership(fx(10.0), fx(0.0), fx(10.0), fx(20.0));
    assert_eq!(as_real(result), 1.0);
}

#[test]
fn test_left_slope() {
    let result = triangular_membership(fx(5.0), fx(0.0), fx(10.0), fx(20.0));
    assert_eq!(as_real(result), 0.5);
}

#[test]
fn triangular_membership_of_broken_corners_is_zero() {
    assert_eq!(triangular_membership(fx(1.0), fx(2.0), fx(1.0), fx(0.0)), 0);
    assert_eq!(triangular_membership(5, 0, 0, 10), 0);
    assert_eq!(triangular_membership(5, 0, 10, 10), 0);
    assert_eq!(triangular_membership(15, 0, 10, 20), fx(0.5));
}

#[test]
fn test_triangular() {
    let membership_func = Triangular::new(fx(-1.0), fx(0.0), fx(1.0));
    let eps = f64::EPSILON;

    assert_eq!(Triangular::new(fx(0.0), fx(0.0), fx(-1.0)), Err(FuzzyError::InvalidShape));

    assert!((as_real(membership_func.clone().unwrap().eval(fx(0.0))) - 1.0).abs() < eps);
    assert!((as_real(membership_func.clone().unwrap().eval(fx(0.5))) - 0.5).abs() < eps);
    assert!((as_real(membership_func.unwrap().eval(fx(1.0)))).abs() < eps);
}

#[test]
fn test_trapezoidal() {
    let membership_func = Trapezoidal::new(fx(-1.0), fx(0.0), fx(1.0), fx(2.0));
    let eps = f64::EPSILON;

    assert_eq!(
        Trapezoidal::new(fx(0.0), fx(0.0), fx(-1.0), fx(0.0)),
        Err(FuzzyError::InvalidShape)
    );

    assert!((as_real(membership_func.clone().unwrap().eval(fx(0.0))) - 1.0).abs() < eps);
    assert!((as_real(membership_func.clone().unwrap().eval(fx(1.0))) - 1.0).abs() < eps);
    assert!((as_real(membership_func.clone().unwrap().eval(fx(-0.5))) - 0.5).abs() < eps);
    assert!((as_real(membership_func.unwrap().eval(fx(2.0)))).abs() < eps);
}

#[test]
fn gaussian_test_gaussian() {
    let eps = f64::EPSILON;
    assert_eq!(Gaussian::new(fx(0.0), fx(0.0)), Err(FuzzyError::InvalidShape));
    let membership = Gaussian::new(fx(1.0), fx(0.0));

    assert!(as_real(membership.clone().unwrap().eval(fx(100.0))).abs() < eps);
    assert!((as_real(membership.clone().unwrap().eval(fx(0.0))) - 1.0).abs() < eps);
    assert_eq!(
        membership.clone().unwrap().eval(fx(-1.0)),
        membership.clone().unwrap().eval(fx(1.0))
    );
}

#[test]
fn triangle_midpoints() {
    let t = Triangular::new(fx(0.0), fx(5.0), fx(10.0)).unwrap();
    assert_eq!(t.eval(fx(2.5)), fx(0.5));
    assert_eq!(t.eval(fx(7.5)), fx(0.5));
    assert_eq!(t.eval(fx(5.0)), ONE);
    assert_eq!(t.eval(fx(0.0)), 0);
    assert_eq!(t.eval(fx(10.0)), 0);
    assert!((as_real(t.eval(fx(2.5))) - 0.5).abs() < 1e-6);
}

#[test]
fn triangle_ramps_round_down_on_the_way_up() {
    // (x - left) * ONE / (center - left), rounded down: 1 / 3 is 0.333333333.
    let t = Triangular::new(0, 3, 7).unwrap();
    assert_eq!(t.eval(1), 333_333_333);
    assert_eq!(t.eval(2), 666_666_666);
    // ONE - (x - center) * ONE / (right - center): 1 - 1 / 4 and 1 - 3 / 4.
    assert_eq!(t.eval(4), 750_000_000);
    assert_eq!(t.eval(6), 250_000_000);
}

#[test]
fn trapezoid_plateau() {
    let t = Trapezoidal::new(fx(-1.0), fx(0.0), fx(1.0), fx(2.0)).unwrap();
    assert_eq!(t.eval(fx(0.0)), ONE);
    assert_eq!(t.eval(fx(1.0)), ONE);
    assert_eq!(t.eval(fx(0.5)), ONE);
    assert_eq!(t.eval(fx(-0.5)), fx(0.5));
    assert_eq!(t.eval(fx(1.5)), fx(0.5));
    assert_eq!(t.eval(fx(2.0)), 0);
    assert_eq!(t.eval(fx(-1.0)), 0);
    assert_eq!(t.eval(fx(-3.0)), 0);
    assert_eq!(t.eval(fx(3.0)), 0);
}

#[test]
fn gaussian_identity() {
    let g = Gaussian::new(fx(1.0), fx(0.0)).unwrap();
    assert_eq!(g.eval(fx(0.0)), ONE);
    assert!((as_real(g.eval(fx(1.0))) - 0.6065306597).abs() < 1e-6);
    assert_eq!(g.eval(fx(1.0)), 606_530_659);
}

#[test]
fn gaussian_follows_the_exponential() {
    let g = Gaussian::new(fx(2.0), fx(-1.5)).unwrap();
    let mut x: f64 = -20.0;
    while x <= 20.0 {
        let t: f64 = (x + 1.5) / 2.0;
        let expected: f64 = (-t * t / 2.0).exp();
        assert!((as_real(g.eval(fx(x))) - expected).abs() < 5e-9, "at {}", x);
        x += 0.0625;
    }
}

#[test]
fn gaussian_is_symmetric_and_falls_away_from_the_mean() {
    let g = Gaussian::new(fx(0.75), fx(3.0)).unwrap();
    let mut last = ONE;
    for k in 0..200 {
        let d = k * 30_000_000;
        let right = g.eval(fx(3.0) + d);
        let left = g.eval(fx(3.0) - d);
        assert_eq!(left, right);
        assert!(right <= last);
        last = right;
    }
    assert_eq!(g.eval(fx(3.0) + 7 * fx(0.75)), 0);
    assert_eq!(g.eval(Fixed::MAX), 0);
    assert_eq!(g.eval(Fixed::MIN), 0);
}

#[test]
fn gaussian_at_the_limits_of_the_number_range() {
    let wide = Gaussian::new(Fixed::MAX, 0).unwrap();
    assert_eq!(wide.eval(0), ONE);
    let at_max = wide.eval(Fixed::MAX);
    assert!((as_real(at_max) - (-0.5f64).exp()).abs() < 5e-9);
    let narrow = Gaussian::new(1, Fixed::MIN).unwrap();
    assert_eq!(narrow.eval(Fixed::MIN), ONE);
    assert_eq!(narrow.eval(Fixed::MAX), 0);
    assert!((as_real(narrow.eval(Fixed::MIN + 1)) - (-0.5f64).exp()).abs() < 5e-9);
}

#[test]
fn shapes_reject_broken_invariants() {
    assert_eq!(Triangular::new(fx(3.0), fx(2.0), fx(1.0)), Err(FuzzyError::InvalidShape));
    assert_eq!(Triangular::new(fx(1.0), fx(1.0), fx(2.0)), Err(FuzzyError::InvalidShape));
    assert_eq!(Triangular::new(fx(1.0), fx(2.0), fx(2.0)), Err(FuzzyError::InvalidShape));
    assert_eq!(
        Trapezoidal::new(fx(1.0), fx(2.0), fx(2.0), fx(3.0)),
        Err(FuzzyError::InvalidShape)
    );
    assert_eq!(Gaussian::new(fx(0.0), fx(0.0)), Err(FuzzyError::InvalidShape));
    assert_eq!(Gaussian::new(fx(-1.0), fx(0.0)), Err(FuzzyError::InvalidShape));
    assert!(Gaussian::new(1, fx(0.0)).is_ok());
}

#[test]
fn degrees_stay_in_the_unit_interval() {
    let shapes = vec![
        MembershipShape::triangle(fx(-2.0), fx(0.5), fx(9.0)).unwrap(),
        MembershipShape::trapezoid(fx(-2.0), fx(0.5), fx(3.0), fx(9.0)).unwrap(),
        MembershipShape::gaussian(fx(1.0), fx(2.5)).unwrap(),
        MembershipShape::triangle(Fixed::MIN, 0, Fixed::MAX).unwrap(),
        MembershipShape::trapezoid(Fixed::MIN, -1, 1, Fixed::MAX).unwrap(),
    ];
    let points = vec![Fixed::MIN, fx(-2.0), fx(-1.999999999), -1, 0, 1, fx(0.5), fx(3.0), fx(8.9), fx(9.0), Fixed::MAX];
    for s in shapes.iter() {
        for x in points.iter() {
            let mu = s.eval(*x);
            assert!(0 <= mu && mu <= ONE);
            assert_eq!(mu, mu.clamp(0, ONE));
            assert_eq!(mu, s.membership(*x));
        }
    }
}

#[test]
fn validate_order_wants_strictly_rising_values() {
    assert_eq!(validate_order(&[fx(0.0), fx(1.1), fx(0.5)]), Err(FuzzyError::InvalidShape));
    assert_eq!(validate_order(&[1, 2, 3, 4]), Ok(()));
    assert_eq!(validate_order(&[1, 2, 2]), Err(FuzzyError::InvalidShape));
    assert_eq!(validate_order(&[5]), Ok(()));
    assert_eq!(validate_order(&[]), Ok(()));
}

#[test]
fn slope_is_clamped_at_both_ends() {
    assert_eq!(slope(-5, 0, 10, true), 0);
    assert_eq!(slope(0, 0, 10, true), 0);
    assert_eq!(slope(3, 0, 10, true), 300_000_000);
    assert_eq!(slope(10, 0, 10, true), ONE);
    assert_eq!(slope(50, 0, 10, true), ONE);
    assert_eq!(slope(-5, 0, 10, false), ONE);
    assert_eq!(slope(3, 0, 10, false), 700_000_000);
    assert_eq!(slope(10, 0, 10, false), 0);
    assert_eq!(slope(50, 0, 10, false), 0);
    assert_eq!(slope(Fixed::MAX - 1, Fixed::MIN, Fixed::MAX, true), 999_999_999);
}

#[test]
fn shape_constructors_name_the_broken_shape() {
    assert_eq!(MembershipShape::triangle(3, 2, 1), Err(ShapeError::BadTriangle));
    assert_eq!(MembershipShape::trapezoid(1, 2, 3, 3), Err(ShapeError::BadTrapezoid));
    assert_eq!(MembershipShape::gaussian(0, 0), Err(ShapeError::BadGaussian));
    assert_eq!(ShapeError::BadTriangle.to_fuzzy(), FuzzyError::InvalidShape);
    assert_eq!(ShapeError::BadGaussian.to_fuzzy(), FuzzyError::InvalidShape);
    let t = Triangular::new(0, 5, 10).unwrap();
    assert_eq!(MembershipShape::triangle(0, 5, 10), Ok(MembershipShape::Triangular(t)));
    assert_eq!(MembershipShape::from(t), MembershipShape::Triangular(t));
    let g = Gaussian::new(2, 7).unwrap();
    assert_eq!(MembershipShape::gaussian(7, 2), Ok(MembershipShape::Gaussian(g)));
}

#[test]
fn test_triangle() {
    let test_triangle = MembershipShape::triangle(fx(2.0), fx(3.0), fx(4.0)).unwrap();
    let mut i: f64 = 0.0;
    while i < 5.0 {
        println!(
            "triangular membership value for i={} is {}",
            i,
            as_real(test_triangle.membership(fx(i)))
        );
        i += 0.1;
    }
}

#[test]
fn test_trapezoid() {
    let test_trapezoid = MembershipShape::trapezoid(fx(1.0), fx(2.0), fx(3.0), fx(4.0)).unwrap();
    let mut i: f64 = 0.0;
    while i < 5.0 {
        println!(
            "trapezoid membership value for i={} is {}",
            i,
            as_real(test_trapezoid.membership(fx(i)))
        );
        i += 0.1;
    }
}

#[test]
fn challenge4_test_gaussian() {
    let test_gaussian = MembershipShape::gaussian(fx(2.5), fx(1.0)).unwrap();
    let mut i: f64 = 0.0;
    while i < 5.0 {
        println!(
            "gaussian membership value for i={} is {}",
            i,
            as_real(test_gaussian.membership(fx(i)))
        );
        i += 0.1;
    }
}

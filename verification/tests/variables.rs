use rust_fuzzylogic::error::FuzzyError;
use rust_fuzzylogic::fixed::{Fixed, ONE};
use rust_fuzzylogic::membership::{Gaussian, MembershipFn, Trapezoidal, Triangular};
use rust_fuzzylogic::term::Term;
use rust_fuzzylogic::variable::Variable;

/// The fixed-point number nearest to `v`.
fn fx(v: f64) -> Fixed {
    (v * 1e9).round() as Fixed
}

/// The real number that `v` stands for.
fn as_real(v: Fixed) -> f64 {
    v as f64 / 1e9
}

#[test]
fn test_new_rejects_invalid_domain() {
    assert!(matches!(Variable::new(fx(1.0), fx(1.0)), Err(FuzzyError::InvalidDomain)));
    assert!(matches!(Variable::new(fx(2.0), fx(1.0)), Err(FuzzyError::InvalidDomain)));
}

#[test]
fn test_insert_and_eval_by_name() {
    let mut v = Variable::new(fx(-10.0), fx(10.0)).unwrap();

    let cold_tri = Triangular::new(fx(-10.0), fx(-5.0), fx(0.0)).unwrap();
    let hot_tri = Triangular::new(fx(0.0), fx(5.0), fx(10.0)).unwrap();
    let cold = Term::new("cold", cold_tri.into());
    let hot = Term::new("hot", hot_tri.into());

    v.insert_term("cold", cold).unwrap();
    v.insert_term("hot", hot).unwrap();

    assert!(v.get("cold").is_some());
    assert!(v.get("warm").is_none());

    let x1 = fx(-5.0);
    let x2 = fx(7.5);

    let expected_cold_x1 = Triangular::new(fx(-10.0), fx(-5.0), fx(0.0)).unwrap().eval(x1);
    let expected_hot_x2 = Triangular::new(fx(0.0), fx(5.0), fx(10.0)).unwrap().eval(x2);

    let eps = f64::EPSILON;
    let y_cold_x1 = v.eval("cold", x1).unwrap();
    let y_hot_x2 = v.eval("hot", x2).unwrap();
    assert!((as_real(y_cold_x1) - as_real(expected_cold_x1)).abs() < eps);
    assert!((as_real(y_hot_x2) - as_real(expected_hot_x2)).abs() < eps);
    assert_eq!(y_cold_x1, ONE);
    assert_eq!(y_hot_x2, fx(0.5));

    assert!(v.eval("cold", fx(-10.0)).is_ok());
    assert!(v.eval("hot", fx(10.0)).is_ok());
}

#[test]
fn test_duplicate_term_rejected() {
    let mut v = Variable::new(fx(0.0), fx(1.0)).unwrap();
    let t1 = Term::new("x", Triangular::new(fx(0.0), fx(0.5), fx(1.0)).unwrap().into());
    let t2 = Term::new("x", Triangular::new(fx(0.0), fx(0.25), fx(0.5)).unwrap().into());

    v.insert_term("x", t1).unwrap();
    assert!(matches!(v.insert_term("x", t2), Err(FuzzyError::DuplicateTerm)));
    // The term registered first is still the one that answers.
    assert_eq!(v.eval("x", fx(0.5)), Ok(ONE));
}

#[test]
fn test_eval_unknown_term_errors() {
    let v = Variable::new(fx(0.0), fx(1.0)).unwrap();
    assert!(matches!(v.eval("missing", fx(0.3)), Err(FuzzyError::UnknownTerm)));
}

#[test]
fn test_eval_out_of_domain_errors() {
    let mut v = Variable::new(fx(0.0), fx(1.0)).unwrap();
    v.insert_term("x", Term::new("x", Triangular::new(fx(0.0), fx(0.5), fx(1.0)).unwrap().into()))
        .unwrap();

    assert!(matches!(v.eval("x", fx(-0.1)), Err(FuzzyError::OutOfBounds)));
    assert!(matches!(v.eval("x", fx(1.1)), Err(FuzzyError::OutOfBounds)));
    assert!(matches!(v.eval("x", fx(1.0) + 1), Err(FuzzyError::OutOfBounds)));
    assert!(matches!(v.eval("x", -1), Err(FuzzyError::OutOfBounds)));
}

#[test]
fn unknown_term_is_told_before_the_domain() {
    let v = Variable::new(fx(0.0), fx(1.0)).unwrap();
    assert_eq!(v.eval("missing", fx(5.0)), Err(FuzzyError::UnknownTerm));
}

#[test]
fn empty_term_name_is_rejected() {
    let mut v = Variable::new(fx(0.0), fx(1.0)).unwrap();
    let t = Term::new("x", Triangular::new(fx(0.0), fx(0.5), fx(1.0)).unwrap().into());
    assert_eq!(v.insert_term("", t), Err(FuzzyError::EmptyInput));
    assert!(v.get("").is_none());
}

#[test]
fn domain_is_reported() {
    let v = Variable::new(fx(-2.5), fx(4.0)).unwrap();
    assert_eq!(v.domain(), (fx(-2.5), fx(4.0)));
    let widest = Variable::new(Fixed::MIN, Fixed::MAX).unwrap();
    assert_eq!(widest.domain(), (Fixed::MIN, Fixed::MAX));
}

#[test]
fn registration_key_wins_over_the_label() {
    let mut v = Variable::new(fx(0.0), fx(10.0)).unwrap();
    let t = Term::new("hot", Triangular::new(fx(0.0), fx(2.5), fx(5.0)).unwrap().into());
    v.insert_term("Low", t).unwrap();
    assert!(v.get("hot").is_none());
    assert_eq!(v.get("Low").unwrap().name(), "hot");
    assert_eq!(v.eval("Low", fx(2.5)), Ok(ONE));
    assert_eq!(v.eval("hot", fx(2.5)), Err(FuzzyError::UnknownTerm));
}

#[test]
fn test_term() {
    let mf = Triangular::new(fx(-1.0), fx(0.0), fx(1.0)).unwrap();
    let term = Term::new("cold", mf.into());

    assert_eq!(term.name(), "cold");
    let x = fx(0.25);
    let y = term.eval(x);
    assert!(y >= 0 && y <= ONE);
    assert_eq!(y, fx(0.75));
}

#[test]
fn terms_hold_every_shape() {
    let mut v = Variable::new(fx(-10.0), fx(10.0)).unwrap();
    let tri = Triangular::new(fx(-1.0), fx(0.0), fx(1.0)).unwrap();
    let trap = Trapezoidal::new(fx(-1.0), fx(0.0), fx(1.0), fx(2.0)).unwrap();
    let bell = Gaussian::new(fx(1.0), fx(0.0)).unwrap();
    v.insert_term("tri", Term::new("tri", tri.into())).unwrap();
    v.insert_term("trap", Term::new("trap", trap.into())).unwrap();
    v.insert_term("bell", Term::new("bell", bell.into())).unwrap();
    for x in [fx(-10.0), fx(-0.5), 0, fx(0.5), fx(1.5), fx(10.0)] {
        assert_eq!(v.eval("tri", x), Ok(tri.eval(x)));
        assert_eq!(v.eval("trap", x), Ok(trap.eval(x)));
        assert_eq!(v.eval("bell", x), Ok(bell.eval(x)));
    }
}

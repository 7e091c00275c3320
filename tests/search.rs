use sicp::reduction::{Cube, Identity, Inc};
use sicp::search::{
    average, close_enough_p, fixed_point, half_interval_method, negative_p, positive_p, search,
    try_guess, AverageDamp, BisectionError, FixedPointError, Quadratic,
};

#[test]
fn test_half_interval_method() {
    let f = Quadratic { a: 1, b: -4, c: 3 };
    let root = half_interval_method(&f, 0, 2, 2).unwrap();
    assert!((root - 1).abs() < 1);
}

#[test]
fn half_interval_finds_an_exact_root() {
    let f = Quadratic { a: 1, b: -4, c: 3 };
    assert_eq!(half_interval_method(&f, 0, 2, 2), Ok(1));
}

#[test]
fn half_interval_rejects_ends_of_the_same_sign() {
    let f = Quadratic { a: 0, b: 1, c: 1 };
    assert_eq!(
        half_interval_method(&f, 0, 1, 2),
        Err(BisectionError::SameSign { a_value: 1, b_value: 2 })
    );
    assert_eq!(
        half_interval_method(&Inc, 0, 1, 2),
        Err(BisectionError::SameSign { a_value: 1, b_value: 2 })
    );
}

#[test]
fn half_interval_narrows_to_the_tolerance() {
    // x^2 - 2_000_000 has its root near 1414.2
    let f = Quadratic { a: 1, b: 0, c: -2_000_000 };
    let root = half_interval_method(&f, 2000, 0, 2).unwrap();
    assert!(root == 1414 || root == 1415);
    let wide = half_interval_method(&f, 0, 2000, 100).unwrap();
    assert!((wide - 1414).abs() < 100);
}

#[test]
fn half_interval_reports_undefined_values() {
    assert_eq!(
        half_interval_method(&Cube, -10, i64::MAX, 2),
        Err(BisectionError::Undefined { at: i64::MAX })
    );
    assert_eq!(search(&Identity, -4, 8, 2), Ok(0));
}

#[test]
fn fixed_point_of_average_damp_is_the_square_root() {
    assert_eq!(fixed_point(&AverageDamp { x: 100 }, 100, 2, 64), Ok(10));
    assert_eq!(fixed_point(&AverageDamp { x: 1_000_000 }, 1_000_000, 2, 64), Ok(1000));
}

#[test]
fn fixed_point_errors() {
    assert_eq!(fixed_point(&Inc, 0, 1, 5), Err(FixedPointError::NoConvergence { last: 5 }));
    assert_eq!(fixed_point(&AverageDamp { x: -1 }, 4, 2, 10), Err(FixedPointError::Undefined { at: 4 }));
    assert_eq!(try_guess(&Identity, 42, 1, 0), Err(FixedPointError::NoConvergence { last: 42 }));
    assert_eq!(try_guess(&Identity, 42, 1, 1), Ok(42));
}

#[test]
fn numeric_predicates() {
    assert!(close_enough_p(5, 6, 2));
    assert!(!close_enough_p(5, 7, 2));
    assert!(!close_enough_p(i64::MIN, i64::MAX, u64::MAX));
    assert_eq!(average(-3, 0), -2);
    assert_eq!(average(i64::MAX, i64::MAX), i64::MAX);
    assert_eq!(average(i64::MIN, i64::MAX), -1);
    assert!(positive_p(1) && !positive_p(0));
    assert!(negative_p(-1) && !negative_p(0));
}

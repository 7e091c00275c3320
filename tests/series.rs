use sicp::reduction::{
    accumulate, accumulate_iter, filtered_accumulate, product, product_iter, sum, sum_iter, Add,
    Cube, Identity, Inc, Mul, Prime, StepBy,
};
use sicp::series::{sum_cubes, sum_integers, sum_prime_square};

#[test]
fn test_sum_integers() {
    assert_eq!(Some(5050), sum_integers(0, 100));
}

#[test]
fn ch_1_3_test_sum_integers() {
    assert_eq!(Some(5050), sum(&Identity, 0, &Inc, 100));
}

#[test]
fn test_sum_cubes() {
    assert_eq!(sum_cubes(0, 3), Some(1 + 8 + 27));
    assert_eq!(sum_cubes(1, 10), Some(3025));
}

#[test]
fn ch_1_3_test_sum_cubes() {
    assert_eq!(sum(&Cube, 0, &Inc, 3), Some(1 + 8 + 27));
    assert_eq!(sum(&Cube, 1, &Inc, 10), Some(3025));
}

#[test]
fn test_sum_cubes_iter() {
    assert_eq!(sum_iter(&Cube, 0, &Inc, 3), Some(1 + 8 + 27));
    assert_eq!(sum_iter(&Cube, 1, &Inc, 10), Some(3025));
}

#[test]
fn test_sum_prime_square() {
    assert_eq!(sum_prime_square(0, 10), Some(1 + 2 + 3 + 5 + 7));
}

#[test]
fn filtered_sum_of_primes_is_eighteen() {
    assert_eq!(filtered_accumulate(&Add, 0, &Identity, 0, &Inc, 10, &Prime), Some(18));
}

#[test]
fn accumulate_of_identity_is_closed_form() {
    for (a, b) in [(0i64, 100i64), (3, 10), (-5, 3), (-100, -1), (7, 7)] {
        let closed = (b * (b + 1) - a * (a - 1)) / 2;
        assert_eq!(accumulate(&Add, 0, &Identity, a, &Inc, b), Some(closed));
        assert_eq!(sum_integers(a, b), Some(closed));
    }
}

#[test]
fn empty_ranges_give_the_null_value() {
    assert_eq!(accumulate(&Mul, 1, &Cube, 5, &Inc, 4), Some(1));
    assert_eq!(accumulate_iter(&Mul, 1, &Identity, 0, &StepBy { stride: 3 }, -1), Some(1));
    assert_eq!(product(&Cube, 10, &Inc, -10), Some(1));
    assert_eq!(sum(&Cube, 10, &Inc, -10), Some(0));
    assert_eq!(sum_integers(5, 4), Some(0));
    assert_eq!(sum_cubes(5, 4), Some(0));
}

#[test]
fn recursive_and_iterative_sums_agree() {
    for a in -20i64..20 {
        for b in -20i64..20 {
            assert_eq!(sum(&Cube, a, &Inc, b), sum_iter(&Cube, a, &Inc, b));
            assert_eq!(sum(&Identity, a, &StepBy { stride: 4 }, b), sum_iter(&Identity, a, &StepBy { stride: 4 }, b));
            assert_eq!(sum(&Cube, a, &Inc, b), sum_cubes(a, b));
        }
    }
}

#[test]
fn recursive_and_iterative_products_agree() {
    for a in 1i64..12 {
        for b in 1i64..12 {
            assert_eq!(product(&Identity, a, &Inc, b), product_iter(&Identity, a, &Inc, b));
        }
    }
    assert_eq!(product(&Identity, 1, &Inc, 20), Some(2432902008176640000));
    assert_eq!(product(&Identity, 1, &Inc, 21), None);
    assert_eq!(product_iter(&Identity, 1, &Inc, 21), None);
}

#[test]
fn stride_steps_through_the_range() {
    assert_eq!(sum(&Identity, 1, &StepBy { stride: 4 }, 13), Some(1 + 5 + 9 + 13));
    assert_eq!(sum(&Identity, 1, &StepBy { stride: 0 }, 13), None);
}

#[test]
fn overflow_is_reported() {
    assert_eq!(sum_integers(i64::MAX, i64::MAX), None);
    assert_eq!(sum_integers(i64::MAX - 1, i64::MAX - 1), Some(i64::MAX - 1));
    assert_eq!(sum_cubes(3_000_000, 3_000_000), None);
    assert_eq!(sum(&Cube, 2_000_000, &Inc, 2_000_000), Some(8_000_000_000_000_000_000));
    assert_eq!(sum(&Cube, 2_000_000, &Inc, 2_000_001), None);
}

#[test]
fn filter_skips_terms_that_would_overflow() {
    // 3_000_000 is not prime, so its cube is never evaluated.
    assert_eq!(filtered_accumulate(&Add, 0, &Cube, 3_000_000, &Inc, 3_000_000, &Prime), Some(0));
    assert_eq!(filtered_accumulate(&Add, 0, &Cube, 2, &Inc, 5, &Prime), Some(8 + 27 + 125));
}

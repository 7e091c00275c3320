use sicp::arith::{
    ackermann, even_p, expt, expt_iter, factorial, factorial_iter, fast_expt, fast_expt_iter,
    fast_fib, fib, fib_iter,
};
use sicp::divisors::{find_divisor, gcd, prime_p, smallest_divisor};

#[test]
fn test_factorial() {
    assert_eq!(factorial(0), Some(1));
    assert_eq!(factorial(1), Some(1));
    assert_eq!(factorial(2), Some(2));
    assert_eq!(factorial(3), Some(6));
    assert_eq!(factorial(4), Some(24));
    assert_eq!(factorial(5), Some(120));
    assert_eq!(factorial(6), Some(720));
}

#[test]
fn ch_1_2_test_factorial() {
    assert_eq!(factorial_iter(0), Some(1));
    assert_eq!(factorial_iter(1), Some(1));
    assert_eq!(factorial_iter(2), Some(2));
    assert_eq!(factorial_iter(3), Some(6));
    assert_eq!(factorial_iter(4), Some(24));
    assert_eq!(factorial_iter(5), Some(120));
    assert_eq!(factorial_iter(6), Some(720));
}

#[test]
fn test_ackermann() {
    assert_eq!(ackermann(1, 10), Some(1024));
    assert_eq!(ackermann(2, 4), Some(65536));
    assert_eq!(ackermann(3, 3), Some(65536));
}

#[test]
fn test_fib() {
    assert_eq!(fib(10), Some(55));
}

#[test]
fn ch_1_2_test_fib() {
    assert_eq!(fib_iter(10), Some(55));
}

#[test]
fn test_expt() {
    assert_eq!(expt(2, 10), Some(1024));
}

#[test]
fn ch_1_2_test_expt() {
    assert_eq!(expt_iter(2, 10), Some(1024));
}

#[test]
fn test_fast_expt() {
    assert_eq!(fast_expt(2, 10), Some(1024));
}

#[test]
fn ch_1_2_test_fast_expt() {
    assert_eq!(fast_expt_iter(2, 10), Some(1024));
}

#[test]
fn test_fast_fib() {
    assert_eq!(fast_fib(10), Some(55));
}

#[test]
fn test_gcd() {
    assert_eq!(gcd(206, 40), 2);
    assert_eq!(gcd(13, 5), 1);
}

#[test]
fn test_smallest_divisor() {
    assert_eq!(smallest_divisor(123), 3);
    assert_eq!(smallest_divisor(121), 11);
}

#[test]
fn test_prime_p() {
    assert!(!prime_p(121));
    assert!(prime_p(11));
}

#[test]
fn factorial_shapes_agree_up_to_overflow() {
    for n in 0..=25u64 {
        assert_eq!(factorial(n), factorial_iter(n));
    }
    assert_eq!(factorial(20), Some(2432902008176640000));
    assert_eq!(factorial(21), None);
    assert_eq!(factorial_iter(21), None);
}

#[test]
fn fibonacci_shapes_agree() {
    for n in 0..=25u64 {
        assert_eq!(fib(n), fib_iter(n));
        assert_eq!(fib(n), fast_fib(n));
    }
    for n in 0..=100u64 {
        assert_eq!(fib_iter(n), fast_fib(n));
    }
    assert_eq!(fib_iter(93), Some(12200160415121876738));
    assert_eq!(fast_fib(93), Some(12200160415121876738));
    assert_eq!(fib_iter(94), None);
    assert_eq!(fast_fib(94), None);
}

#[test]
fn exponentiation_shapes_agree() {
    for b in 0..=5u64 {
        for n in 0..=70u64 {
            let e = expt(b, n);
            assert_eq!(e, expt_iter(b, n));
            assert_eq!(e, fast_expt(b, n));
            assert_eq!(e, fast_expt_iter(b, n));
        }
    }
    assert_eq!(expt(0, 0), Some(1));
    assert_eq!(fast_expt(2, 63), Some(9223372036854775808));
    assert_eq!(fast_expt_iter(2, 64), None);
    assert_eq!(expt_iter(3, 41), None);
    assert_eq!(fast_expt(3, 40), Some(12157665459056928801));
    assert_eq!(fast_expt(1, u64::MAX), Some(1));
    assert_eq!(fast_expt_iter(0, u64::MAX), Some(0));
}

#[test]
fn even_p_on_small_numbers() {
    assert!(even_p(0));
    assert!(!even_p(7));
    assert!(even_p(10));
}

#[test]
fn ackermann_overflow_is_reported() {
    assert_eq!(ackermann(0, 7), Some(14));
    assert_eq!(ackermann(5, 0), Some(0));
    assert_eq!(ackermann(1, 64), None);
    assert_eq!(ackermann(1, 63), Some(1 << 63));
}

#[test]
fn gcd_edge_cases() {
    assert_eq!(gcd(0, 0), 0);
    assert_eq!(gcd(0, 7), 7);
    assert_eq!(gcd(7, 0), 7);
    assert_eq!(gcd(48, 180), 12);
}

#[test]
fn smallest_divisor_edge_cases() {
    assert_eq!(smallest_divisor(-5), -5);
    assert_eq!(smallest_divisor(0), 0);
    assert_eq!(smallest_divisor(1), 1);
    assert_eq!(smallest_divisor(2), 2);
    assert_eq!(smallest_divisor(49), 7);
    assert_eq!(smallest_divisor(97), 97);
    assert_eq!(find_divisor(91, 7), 7);
    assert_eq!(find_divisor(91, 8), 91);
    assert_eq!(find_divisor(35, 6), 35);
}

#[test]
fn primality() {
    assert!(prime_p(0));
    assert!(prime_p(1));
    assert!(prime_p(2));
    assert!(!prime_p(4));
    assert!(prime_p(97));
    assert!(prime_p(1_000_000_007));
    assert!(!prime_p(1_000_000_007 * 3));
}

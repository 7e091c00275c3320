//! Divisibility: Euclid's greatest common divisor, the smallest divisor by
//! trial division, and the primality test built on it.
use vstd::prelude::*;
use vstd::arithmetic::div_mod::{lemma_fundamental_div_mod, lemma_mod_multiples_basic};

verus! {

/// `d` divides `n`: `n` is an integer multiple of `d`.
pub open spec fn divides(d: int, n: int) -> bool {
    exists|k: int| n == #[trigger] (d * k)
}

/// `g` is a greatest common divisor of `a` and `b`: a common divisor that
/// every common divisor divides.
pub open spec fn is_gcd(g: int, a: int, b: int) -> bool {
    &&& divides(g, a)
    &&& divides(g, b)
    &&& forall|d: int| #[trigger] divides(d, a) && divides(d, b) ==> divides(d, g)
}

/// `n` is prime: at least 2, with no divisor strictly between 1 and `n`.
pub open spec fn is_prime(n: int) -> bool {
    n >= 2 && forall|k: int| 2 <= k < n ==> #[trigger] (n % k) != 0
}

/// `r` is the least divisor of `n` that is at least 2.
pub open spec fn is_least_divisor(n: int, r: int) -> bool {
    &&& 2 <= r <= n
    &&& n % r == 0
    &&& forall|k: int| 2 <= k < r ==> #[trigger] (n % k) != 0
}

/// A common divisor of `x` and `y` divides `x + c * y`.
proof fn lemma_divides_combination(d: int, x: int, y: int, c: int)
    requires
        divides(d, x),
        divides(d, y),
    ensures
        divides(d, x + c * y),
{
    let k1 = choose|k: int| x == #[trigger] (d * k);
    let k2 = choose|k: int| y == #[trigger] (d * k);
    assert(x + c * y == d * (k1 + c * k2)) by (nonlinear_arith)
        requires
            x == d * k1,
            y == d * k2,
    ;
}

/// The greatest common divisor of `a` and `b` by Euclid's algorithm.
pub fn gcd(a: u64, b: u64) -> (r: u64)
    ensures
        is_gcd(r as int, a as int, b as int),
    decreases b,
{
    if b == 0 {
        assert(a == a * 1 && 0 == a * 0);
        a
    } else {
        let r = gcd(b, a % b);
        proof {
            let q = (a / b) as int;
            let m = (a % b) as int;
            lemma_fundamental_div_mod(a as int, b as int);
            assert(a == m + q * b) by (nonlinear_arith)
                requires
                    a == b * q + m,
            ;
            lemma_divides_combination(r as int, m, b as int, q);
            assert forall|d: int| #[trigger] divides(d, a as int) && divides(d, b as int) implies divides(
                d,
                r as int,
            ) by {
                lemma_divides_combination(d, a as int, b as int, -q);
                assert(a + (-q) * b == m) by (nonlinear_arith)
                    requires
                        a == m + q * b,
                ;
            }
        }
        r
    }
}

/// No divisor of `n` in `from..` lies at or below its square root.
pub open spec fn no_divisor_to_root(n: int, from: int) -> bool {
    forall|k: int| from <= k && #[trigger] (k * k) <= n ==> n % k != 0
}

/// A composite `n` has a divisor of at least 2 at or below its square root.
proof fn lemma_small_cofactor(n: int, k: int) -> (j: int)
    requires
        2 <= k < n,
        n % k == 0,
    ensures
        2 <= j,
        j * j <= n,
        n % j == 0,
{
    lemma_fundamental_div_mod(n, k);
    let m = n / k;
    assert(n == k * m);
    assert(m >= 2) by (nonlinear_arith)
        requires
            n == k * m,
            2 <= k < n,
    ;
    if k * k <= n {
        k
    } else {
        lemma_mod_multiples_basic(k, m);
        assert(m * m <= n) by (nonlinear_arith)
            requires
                n == k * m,
                k * k > n,
                m >= 2,
                k >= 2,
        ;
        m
    }
}

/// The least divisor of `n` from `test_divisor` up, if there is one at or
/// below the square root of `n`; otherwise `n` itself.
pub fn find_divisor(n: i64, test_divisor: i64) -> (r: i64)
    requires
        test_divisor >= 1,
    ensures
        ({
            &&& test_divisor <= r
            &&& r * r <= n
            &&& n % r == 0
            &&& forall|k: int| test_divisor <= k < r ==> #[trigger] (n as int % k) != 0
        }) || (r == n && no_divisor_to_root(n as int, test_divisor as int)),
{
    let mut d = test_divisor;
    loop
        invariant
            1 <= test_divisor <= d,
            forall|k: int| test_divisor <= k < d ==> #[trigger] (n as int % k) != 0,
        decreases n - d + 1,
    {
        assert((d as int) * (d as int) <= (i64::MAX as int) * (i64::MAX as int)) by (nonlinear_arith)
            requires
                1 <= d <= i64::MAX,
        ;
        if (d as i128) * (d as i128) > n as i128 {
            assert forall|k: int| test_divisor <= k && #[trigger] (k * k) <= n implies n as int % k != 0 by {
                if k >= d {
                    assert(k * k >= d * d) by (nonlinear_arith)
                        requires
                            k >= d,
                            d >= 1,
                    ;
                }
            }
            return n;
        }
        assert(d <= n && d < i64::MAX) by (nonlinear_arith)
            requires
                d * d <= n,
                n <= i64::MAX,
                d >= 1,
        ;
        if n % d == 0 {
            return d;
        }
        d = d + 1;
    }
}

/// The least divisor of `n` that is at least 2, or `n` itself when `n < 2`.
pub fn smallest_divisor(n: i64) -> (r: i64)
    ensures
        n < 2 ==> r == n,
        n >= 2 ==> is_least_divisor(n as int, r as int),
{
    let r = find_divisor(n, 2);
    proof {
        if n >= 2 {
            if r * r <= n {
                assert(r <= n) by (nonlinear_arith)
                    requires
                        r * r <= n,
                        r >= 2,
                ;
            } else {
                assert forall|k: int| 2 <= k < r implies #[trigger] (n as int % k) != 0 by {
                    if n as int % k == 0 {
                        let j = lemma_small_cofactor(n as int, k);
                        assert(n as int % j != 0);
                    }
                }
                assert(n % n == 0) by {
                    lemma_mod_multiples_basic(1, n as int);
                }
            }
        } else {
            if r != n {
                assert(r * r >= 4) by (nonlinear_arith)
                    requires
                        r >= 2,
                ;
            }
        }
    }
    r
}

/// Whether `n` equals its own smallest divisor: true of the primes, and of
/// every `n < 2`.
pub fn prime_p(n: i64) -> (r: bool)
    ensures
        r == (n < 2 || is_prime(n as int)),
{
    let d = smallest_divisor(n);
    proof {
        if n >= 2 && d != n {
            assert(n % d == 0);
        }
    }
    n == d
}

} // verus!

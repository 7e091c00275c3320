//! Elementary procedures on natural numbers, each in a recursive and an
//! iterative shape: factorial, Fibonacci numbers and exponentiation. A result
//! that does not fit in a `u64` is reported as `None`.
use vstd::prelude::*;
use vstd::arithmetic::power::{
    lemma0_pow, lemma_pow0, lemma_pow1, lemma_pow_adds, lemma_pow_increases, lemma_pow_multiplies,
    lemma_pow_positive, pow,
};

verus! {

/// `n!`, with `0! == 1`.
pub open spec fn factorial_of(n: nat) -> nat
    decreases n,
{
    if n <= 1 {
        1
    } else {
        n * factorial_of((n - 1) as nat)
    }
}

/// The `n`th Fibonacci number: 0, 1, 1, 2, 3, 5, ...
pub open spec fn fib_of(n: nat) -> nat
    decreases n,
{
    if n == 0 {
        0
    } else if n == 1 {
        1
    } else {
        fib_of((n - 1) as nat) + fib_of((n - 2) as nat)
    }
}

/// `Some(v)` when the natural number `v` fits in a `u64`, else `None`.
pub open spec fn fit_u64(v: int) -> Option<u64> {
    if 0 <= v <= u64::MAX {
        Some(v as u64)
    } else {
        None
    }
}

/// Factorials do not decrease.
pub proof fn lemma_factorial_monotone(i: nat, j: nat)
    requires
        i <= j,
    ensures
        1 <= factorial_of(i) <= factorial_of(j),
    decreases j,
{
    if j > 1 {
        lemma_factorial_monotone(0, (j - 1) as nat);
        if i < j {
            lemma_factorial_monotone(i, (j - 1) as nat);
        }
        let f = factorial_of((j - 1) as nat);
        assert(f <= j * f) by (nonlinear_arith)
            requires
                j >= 2,
                f >= 1,
        ;
    }
}

/// Fibonacci numbers do not decrease.
pub proof fn lemma_fib_monotone(i: nat, j: nat)
    requires
        i <= j,
    ensures
        fib_of(i) <= fib_of(j),
    decreases j,
{
    if i < j {
        lemma_fib_monotone(i, (j - 1) as nat);
    }
}

/// `n!` by a recursive process.
pub fn factorial(n: u64) -> (r: Option<u64>)
    ensures
        r == fit_u64(factorial_of(n as nat) as int),
    decreases n,
{
    if n <= 1 {
        Some(1)
    } else {
        match factorial(n - 1) {
            Some(f) => {
                let r = n.checked_mul(f);
                proof {
                    lemma_factorial_monotone(0, (n - 1) as nat);
                }
                r
            },
            None => {
                proof {
                    lemma_factorial_monotone((n - 1) as nat, n as nat);
                }
                None
            },
        }
    }
}

/// `n!` by an iterative process: a running product over a counter.
pub fn factorial_iter(n: u64) -> (r: Option<u64>)
    ensures
        r == fit_u64(factorial_of(n as nat) as int),
{
    let mut product: u64 = 1;
    let mut counter: u64 = 1;
    while counter < n
        invariant
            1 <= counter,
            n >= 1 ==> counter <= n,
            n == 0 ==> counter == 1,
            product == factorial_of(counter as nat),
        decreases n - counter,
    {
        counter = counter + 1;
        match counter.checked_mul(product) {
            Some(p) => product = p,
            None => {
                proof {
                    lemma_factorial_monotone(counter as nat, n as nat);
                }
                return None;
            },
        }
    }
    assert(factorial_of(n as nat) == product) by {
        if n == 0 {
            assert(factorial_of(0) == factorial_of(1));
        }
    }
    Some(product)
}

/// The `n`th Fibonacci number by a tree-recursive process.
pub fn fib(n: u64) -> (r: Option<u64>)
    ensures
        r == fit_u64(fib_of(n as nat) as int),
    decreases n,
{
    if n == 0 {
        Some(0)
    } else if n == 1 {
        Some(1)
    } else {
        match (fib(n - 1), fib(n - 2)) {
            (Some(x), Some(y)) => x.checked_add(y),
            _ => None,
        }
    }
}

/// The `n`th Fibonacci number by an iterative process over the pair of
/// consecutive numbers `(fib(k), fib(k - 1))`.
pub fn fib_iter(n: u64) -> (r: Option<u64>)
    ensures
        r == fit_u64(fib_of(n as nat) as int),
{
    if n == 0 {
        return Some(0);
    }
    let mut a: u64 = 1;
    let mut b: u64 = 0;
    let mut k: u64 = 1;
    while k < n
        invariant
            1 <= k <= n,
            a == fib_of(k as nat),
            b == fib_of((k - 1) as nat),
        decreases n - k,
    {
        match a.checked_add(b) {
            Some(s) => {
                b = a;
                a = s;
                k = k + 1;
            },
            None => {
                proof {
                    lemma_fib_monotone((k + 1) as nat, n as nat);
                }
                return None;
            },
        }
    }
    Some(a)
}

/// A power of zero is zero or one.
proof fn lemma_pow_of_zero(e: nat)
    ensures
        0 <= pow(0, e) <= 1,
{
    if e == 0 {
        lemma_pow0(0);
    } else {
        lemma0_pow(e);
    }
}

/// `b^e == b * b^(e - 1)` for `e >= 1`.
proof fn lemma_pow_unfold(b: int, e: nat)
    requires
        e >= 1,
    ensures
        pow(b, e) == b * pow(b, (e - 1) as nat),
{
    lemma_pow_adds(b, 1, (e - 1) as nat);
    lemma_pow1(b);
}

/// A power of a positive base is at least every smaller power.
proof fn lemma_pow_grows(b: int, e1: nat, e2: nat)
    requires
        b >= 1,
        e1 <= e2,
    ensures
        1 <= pow(b, e1) <= pow(b, e2),
{
    lemma_pow_positive(b, e1);
    lemma_pow_increases(b as nat, e1, e2);
}

/// Whether `n` is even.
pub fn even_p(n: u64) -> (r: bool)
    ensures
        r == (n % 2 == 0),
{
    n % 2 == 0
}

/// `b^n` by a recursive process of `n` multiplications.
pub fn expt(b: u64, n: u64) -> (r: Option<u64>)
    ensures
        r == fit_u64(pow(b as int, n as nat)),
    decreases n,
{
    if n == 0 {
        proof {
            lemma_pow0(b as int);
        }
        Some(1)
    } else {
        proof {
            lemma_pow_unfold(b as int, n as nat);
        }
        match expt(b, n - 1) {
            Some(p) => b.checked_mul(p),
            None => {
                proof {
                    if b == 0 {
                        lemma_pow_of_zero((n - 1) as nat);
                    } else {
                        lemma_pow_grows(b as int, (n - 1) as nat, n as nat);
                    }
                }
                None
            },
        }
    }
}

/// `b^n` by an iterative process: a running product over a counter.
pub fn expt_iter(b: u64, n: u64) -> (r: Option<u64>)
    ensures
        r == fit_u64(pow(b as int, n as nat)),
{
    let mut product: u64 = 1;
    let mut counter: u64 = n;
    proof {
        lemma_pow0(b as int);
    }
    while counter > 0
        invariant
            counter <= n,
            product == pow(b as int, (n - counter) as nat),
        decreases counter,
    {
        proof {
            lemma_pow_unfold(b as int, (n - counter + 1) as nat);
        }
        match b.checked_mul(product) {
            Some(p) => {
                product = p;
                counter = counter - 1;
            },
            None => {
                proof {
                    if b == 0 {
                        lemma_pow_of_zero((n - counter + 1) as nat);
                    } else {
                        lemma_pow_grows(b as int, (n - counter + 1) as nat, n as nat);
                    }
                }
                return None;
            },
        }
    }
    Some(product)
}

/// `b^n` by a recursive process of successive squaring.
pub fn fast_expt(b: u64, n: u64) -> (r: Option<u64>)
    ensures
        r == fit_u64(pow(b as int, n as nat)),
    decreases n,
{
    if n == 0 {
        proof {
            lemma_pow0(b as int);
        }
        Some(1)
    } else if even_p(n) {
        let half = n / 2;
        proof {
            lemma_pow_adds(b as int, half as nat, half as nat);
        }
        match fast_expt(b, half) {
            Some(h) => h.checked_mul(h),
            None => {
                proof {
                    if b == 0 {
                        lemma_pow_of_zero(half as nat);
                    } else {
                        lemma_pow_grows(b as int, half as nat, n as nat);
                    }
                }
                None
            },
        }
    } else {
        proof {
            lemma_pow_unfold(b as int, n as nat);
        }
        match fast_expt(b, n - 1) {
            Some(p) => b.checked_mul(p),
            None => {
                proof {
                    if b == 0 {
                        lemma_pow_of_zero((n - 1) as nat);
                    } else {
                        lemma_pow_grows(b as int, (n - 1) as nat, n as nat);
                    }
                }
                None
            },
        }
    }
}

/// `b^n` by an iterative process of successive squaring, keeping
/// `a * base^k == b^n` throughout.
pub fn fast_expt_iter(b: u64, n: u64) -> (r: Option<u64>)
    ensures
        r == fit_u64(pow(b as int, n as nat)),
{
    let mut a: u64 = 1;
    let mut base: u64 = b;
    let mut k: u64 = n;
    proof {
        lemma_pow0(base as int);
    }
    while k > 0
        invariant
            a * pow(base as int, k as nat) == pow(b as int, n as nat),
            b == 0 ==> base == 0,
            b >= 1 ==> a >= 1 && base >= 1,
        decreases k,
    {
        if even_p(k) {
            match base.checked_mul(base) {
                Some(sq) => {
                    proof {
                        lemma_pow_multiplies(base as int, 2, (k / 2) as nat);
                        lemma_pow_unfold(base as int, 2);
                        lemma_pow_unfold(base as int, 1);
                        lemma_pow0(base as int);
                        if b >= 1 {
                            assert(sq >= 1) by (nonlinear_arith)
                                requires
                                    sq == base * base,
                                    base >= 1,
                            ;
                        }
                    }
                    base = sq;
                    k = k / 2;
                },
                None => {
                    proof {
                        lemma_pow_grows(base as int, 2, k as nat);
                        lemma_pow_unfold(base as int, 2);
                        lemma_pow_unfold(base as int, 1);
                        lemma_pow0(base as int);
                        let x = pow(base as int, k as nat);
                        assert(x <= a * x) by (nonlinear_arith)
                            requires
                                a >= 1,
                                x >= 1,
                        ;
                    }
                    return None;
                },
            }
        } else {
            proof {
                lemma_pow_unfold(base as int, k as nat);
                if base >= 1 {
                    lemma_pow_positive(base as int, (k - 1) as nat);
                }
            }
            let ghost rest = pow(base as int, (k - 1) as nat);
            match a.checked_mul(base) {
                Some(p) => {
                    assert(p * rest == a * (base * rest)) by (nonlinear_arith)
                        requires
                            p == a * base,
                    ;
                    if b >= 1 {
                        assert(p >= 1) by (nonlinear_arith)
                            requires
                                p == a * base,
                                a >= 1,
                                base >= 1,
                        ;
                    }
                    a = p;
                    k = k - 1;
                },
                None => {
                    proof {
                        if b == 0 {
                            assert(a * base == 0);
                        }
                        assert(a * base <= a * (base * rest)) by (nonlinear_arith)
                            requires
                                a >= 1,
                                base >= 1,
                                rest >= 1,
                        ;
                    }
                    return None;
                },
            }
        }
    }
    proof {
        lemma_pow0(base as int);
    }
    Some(a)
}

/// The variant of Ackermann's function with `A(x, 0) == 0`,
/// `A(0, y) == 2 * y`, `A(x, 1) == 2` and otherwise
/// `A(x, y) == A(x - 1, A(x, y - 1))`.
pub open spec fn ackermann_of(x: nat, y: nat) -> nat
    decreases x, y,
{
    if y == 0 {
        0
    } else if x == 0 {
        2 * y
    } else if y == 1 {
        2
    } else {
        ackermann_of((x - 1) as nat, ackermann_of(x, (y - 1) as nat))
    }
}

/// `A(x, y)` exceeds `y` once `y >= 1`.
pub proof fn lemma_ackermann_grows(x: nat, y: nat)
    ensures
        ackermann_of(x, y) >= y,
        y >= 1 ==> ackermann_of(x, y) >= y + 1,
    decreases x, y,
{
    if y >= 2 && x >= 1 {
        lemma_ackermann_grows(x, (y - 1) as nat);
        lemma_ackermann_grows((x - 1) as nat, ackermann_of(x, (y - 1) as nat));
    }
}

/// Ackermann's function by its tree-recursive definition.
pub fn ackermann(x: u64, y: u64) -> (r: Option<u64>)
    ensures
        r == fit_u64(ackermann_of(x as nat, y as nat) as int),
    decreases x, y,
{
    if y == 0 {
        Some(0)
    } else if x == 0 {
        y.checked_mul(2)
    } else if y == 1 {
        Some(2)
    } else {
        match ackermann(x, y - 1) {
            Some(inner) => ackermann(x - 1, inner),
            None => {
                proof {
                    lemma_ackermann_grows((x - 1) as nat, ackermann_of(x as nat, (y - 1) as nat));
                }
                None
            },
        }
    }
}

/// The addition law `fib(m + k) == fib(m) * fib(k + 1) + fib(m - 1) * fib(k)`.
pub proof fn lemma_fib_add(m: nat, k: nat)
    requires
        m >= 1,
    ensures
        fib_of(m + k) == fib_of(m) * fib_of(k + 1) + fib_of((m - 1) as nat) * fib_of(k),
    decreases k,
{
    let x = fib_of(m) as int;
    let y = fib_of((m - 1) as nat) as int;
    if k == 0 {
        assert(fib_of(1) == 1);
        assert(fib_of(0) == 0);
        assert(m + k == m);
        let (u, v) = (fib_of(k + 1) as int, fib_of(k) as int);
        assert(u == 1 && v == 0);
        assert(x * u + y * v == x) by (nonlinear_arith)
            requires
                u == 1 && v == 0,
        ;
    } else if k == 1 {
        assert(fib_of(0) == 0);
        assert(fib_of(1) == 1);
        assert(fib_of(2) == 1);
        assert(fib_of(m + 1) == fib_of(m) + fib_of((m - 1) as nat));
        let (u, v) = (fib_of(k + 1) as int, fib_of(k) as int);
        assert(u == 1 && v == 1);
        assert(x * u + y * v == x + y) by (nonlinear_arith)
            requires
                u == 1 && v == 1,
        ;
    } else {
        let k1 = (k - 1) as nat;
        let k2 = (k - 2) as nat;
        lemma_fib_add(m, k1);
        lemma_fib_add(m, k2);
        let f0 = fib_of(k2) as int;
        let f1 = fib_of(k1) as int;
        let f2 = fib_of(k) as int;
        assert(k1 + 1 == k && k2 + 1 == k1);
        assert(fib_of(m + k1) == x * f2 + y * f1);
        assert(fib_of(m + k2) == x * f1 + y * f0);
        assert(m + k1 == (m + k - 1) as nat && m + k2 == (m + k - 2) as nat);
        assert(fib_of(m + k) == fib_of((m + k - 1) as nat) + fib_of((m + k - 2) as nat));
        assert(fib_of(k + 1) == f2 + f1);
        assert(f2 == f1 + f0);
        assert((x * f2 + y * f1) + (x * f1 + y * f0) == x * (f2 + f1) + y * (f1 + f0))
            by (nonlinear_arith);
        assert(fib_of(m + k) == x * fib_of(k + 1) + y * fib_of(k));
    }
}

/// The `n`th Fibonacci number in a logarithmic number of steps. The state
/// `(a, b)` holds `(fib(k + 1), fib(k))`, and the transformation
/// `(a, b) -> (b q + a q + a p, b p + a q)` with `(p, q) == (fib(m - 1), fib(m))`
/// advances `k` by `m`; squaring the transformation doubles `m`.
pub fn fast_fib(n: u64) -> (r: Option<u64>)
    ensures
        r == fit_u64(fib_of(n as nat) as int),
{
    if n == 0 {
        return Some(0);
    }
    let mut a: u64 = 1;
    let mut b: u64 = 0;
    let mut p: u64 = 0;
    let mut q: u64 = 1;
    let mut count: u64 = n;
    let ghost mut k: nat = 0;
    let ghost mut m: nat = 1;
    assert(fib_of(1) == 1 && fib_of(0) == 0);
    while count > 1
        invariant
            1 <= count <= n,
            m >= 1,
            a == fib_of(k + 1),
            b == fib_of(k),
            p == fib_of((m - 1) as nat),
            q == fib_of(m),
            k + m * count == n,
        decreases count,
    {
        let ghost ai = a as int;
        let ghost bi = b as int;
        let ghost pi = p as int;
        let ghost qi = q as int;
        assert(0 <= ai * pi && 0 <= ai * qi && 0 <= bi * pi && 0 <= bi * qi && 0 <= pi * pi && 0
            <= qi * qi && 0 <= pi * qi) by (nonlinear_arith)
            requires
                ai >= 0 && bi >= 0 && pi >= 0 && qi >= 0,
        ;
        if count % 2 == 0 {
            proof {
                lemma_fib_add(m, (m - 1) as nat);
                lemma_fib_add(m, m);
                assert(fib_of(m + 1) == fib_of(m) + fib_of((m - 1) as nat));
                assert(qi * (qi + pi) + pi * qi == qi * qi + (pi * qi + pi * qi)) by (nonlinear_arith);
                assert(m + m <= n) by (nonlinear_arith)
                    requires
                        k + m * count == n,
                        count >= 2,
                        m >= 1,
                ;
                lemma_fib_monotone((m + m) as nat, n as nat);
                lemma_fib_monotone((m + m - 1) as nat, n as nat);
            }
            let pp = match p.checked_mul(p) {
                Some(v) => v,
                None => return None,
            };
            let qq = match q.checked_mul(q) {
                Some(v) => v,
                None => return None,
            };
            let pq = match p.checked_mul(q) {
                Some(v) => v,
                None => return None,
            };
            let new_p = match pp.checked_add(qq) {
                Some(v) => v,
                None => return None,
            };
            let twice_pq = match pq.checked_add(pq) {
                Some(v) => v,
                None => return None,
            };
            let new_q = match twice_pq.checked_add(qq) {
                Some(v) => v,
                None => return None,
            };
            p = new_p;
            q = new_q;
            count = count / 2;
            proof {
                assert((m + m) * count == m * (count * 2)) by (nonlinear_arith);
                m = m + m;
            }
        } else {
            proof {
                lemma_fib_add(m, k);
                lemma_fib_add(m, k + 1);
                assert(fib_of(k + 2) == fib_of(k + 1) + fib_of(k));
                assert(qi * (ai + bi) + pi * ai == bi * qi + ai * qi + ai * pi) by (nonlinear_arith);
                assert(k + m + 1 <= n) by (nonlinear_arith)
                    requires
                        k + m * count == n,
                        count >= 3,
                        m >= 1,
                ;
                lemma_fib_monotone(k + m + 1, n as nat);
            }
            let bq = match b.checked_mul(q) {
                Some(v) => v,
                None => return None,
            };
            let aq = match a.checked_mul(q) {
                Some(v) => v,
                None => return None,
            };
            let ap = match a.checked_mul(p) {
                Some(v) => v,
                None => return None,
            };
            let bp = match b.checked_mul(p) {
                Some(v) => v,
                None => return None,
            };
            let partial = match bq.checked_add(aq) {
                Some(v) => v,
                None => return None,
            };
            let new_a = match partial.checked_add(ap) {
                Some(v) => v,
                None => return None,
            };
            let new_b = match bp.checked_add(aq) {
                Some(v) => v,
                None => return None,
            };
            a = new_a;
            b = new_b;
            count = count - 1;
            proof {
                assert(m * (count + 1) == m * count + m) by (nonlinear_arith);
                k = k + m;
            }
        }
    }
    proof {
        lemma_fib_add(m, k);
        assert(k + m == n);
        let ai = a as int;
        let bi = b as int;
        let pi = p as int;
        let qi = q as int;
        assert(0 <= ai * qi && 0 <= bi * pi) by (nonlinear_arith)
            requires
                ai >= 0 && bi >= 0 && pi >= 0 && qi >= 0,
        ;
        assert(fib_of(n as nat) == bi * pi + ai * qi) by (nonlinear_arith)
            requires
                fib_of(n as nat) == qi * ai + pi * bi,
        ;
    }
    let bp = match b.checked_mul(p) {
        Some(v) => v,
        None => return None,
    };
    let aq = match a.checked_mul(q) {
        Some(v) => v,
        None => return None,
    };
    bp.checked_add(aq)
}

} // verus!

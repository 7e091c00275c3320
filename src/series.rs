//! Sums of integer series over consecutive points `a, a + 1, ..., b`,
//! written directly as recursive processes and related to the general
//! reduction in `reduction`.
use vstd::prelude::*;
use crate::reduction::{
    accumulate_spec, filtered_accumulate, filtered_accumulate_spec, fit_i64, remaining, Add, Cube,
    Identity, Inc, Prime, Step, Term,
};

verus! {

/// The exact sum `f(a) + f(a + 1) + ... + f(b)`, which is 0 when `a > b`.
pub open spec fn series(f: spec_fn(int) -> int, a: int, b: int) -> int
    decreases b + 1 - a,
{
    if a > b {
        0
    } else {
        f(a) + series(f, a + 1, b)
    }
}

/// Every term of the series and every tail sum `f(j) + ... + f(b)` fits in
/// an `i64`, and so does the point after `b`.
pub open spec fn series_fits(f: spec_fn(int) -> int, a: int, b: int) -> bool {
    &&& b < i64::MAX
    &&& forall|j: int|
        #![trigger series(f, j, b)]
        a <= j <= b ==> fit_i64(f(j)) is Some && fit_i64(series(f, j, b)) is Some
}

/// The series summed by a recursive process in `i64` arithmetic: its exact
/// value, or `None` when some term or partial sum on the way overflows.
pub open spec fn checked_series(f: spec_fn(int) -> int, a: int, b: int) -> Option<i64> {
    if a > b {
        Some(0)
    } else if series_fits(f, a, b) {
        Some(series(f, a, b) as i64)
    } else {
        None
    }
}

/// The terms of the series of integers.
pub open spec fn integer_terms() -> spec_fn(int) -> int {
    |j: int| j
}

/// The terms of the series of cubes.
pub open spec fn cube_terms() -> spec_fn(int) -> int {
    |j: int| j * j * j
}

/// `term` computes `f` wherever the value fits in an `i64`.
pub open spec fn term_computes<T: Term<i64>>(term: T, f: spec_fn(int) -> int) -> bool {
    forall|x: i64| #[trigger] term.spec_apply(x) == fit_i64(f(x as int))
}

/// One step of a checked series: the sum from `a` is `f(a)` added to the
/// sum from `a + 1`, with both the term and the total checked.
pub proof fn lemma_checked_series_step(f: spec_fn(int) -> int, a: int, b: int)
    requires
        a <= b,
        a < i64::MAX,
    ensures
        checked_series(f, a, b) == match checked_series(f, a + 1, b) {
            Some(rest) => if fit_i64(f(a)) is Some && fit_i64(f(a) + rest) is Some {
                Some((f(a) + rest) as i64)
            } else {
                None
            },
            None => None,
        },
{
    assert(series(f, a, b) == f(a) + series(f, a + 1, b));
    if a + 1 > b {
        assert(series(f, a + 1, b) == 0);
        if fit_i64(f(a)) is Some {
            assert(series_fits(f, a, b));
        }
    } else {
        if series_fits(f, a, b) {
            assert(series_fits(f, a + 1, b));
        }
        if series_fits(f, a + 1, b) && fit_i64(f(a)) is Some && fit_i64(series(f, a, b)) is Some {
            assert forall|j: int|
                #![trigger series(f, j, b)]
                a <= j <= b implies fit_i64(f(j)) is Some && fit_i64(series(f, j, b)) is Some by {
                if j > a {
                    assert(a + 1 <= j <= b);
                }
            }
        }
    }
}

/// The sum of the integers from `a` to `b` by a recursive process.
pub fn sum_integers(a: i64, b: i64) -> (r: Option<i64>)
    ensures
        r == checked_series(integer_terms(), a as int, b as int),
    decreases remaining(a, b),
{
    if a > b {
        return Some(0);
    }
    let n = match a.checked_add(1) {
        Some(n) => n,
        None => return None,
    };
    proof {
        lemma_checked_series_step(integer_terms(), a as int, b as int);
    }
    match sum_integers(n, b) {
        Some(rest) => a.checked_add(rest),
        None => None,
    }
}

/// `Cube` computes the cube wherever it fits.
pub proof fn lemma_cube_computes()
    ensures
        term_computes(Cube, cube_terms()),
{
    assert forall|x: i64| #[trigger] Cube.spec_apply(x) == fit_i64(cube_terms()(x as int)) by {
        let xi = x as int;
        let c = xi * xi * xi;
        assert(cube_terms()(xi) == c);
        assert(xi * xi >= 0) by (nonlinear_arith);
        if xi * xi <= i64::MAX {
            let sq = (xi * xi) as i64;
            assert(x.checked_mul(x) == Some(sq));
            assert(sq * x == c);
            assert(Cube.spec_apply(x) == fit_i64(c));
        } else {
            assert(c > i64::MAX || c < i64::MIN) by (nonlinear_arith)
                requires
                    xi * xi > i64::MAX,
                    c == xi * xi * xi,
            ;
            assert(Cube.spec_apply(x) == fit_i64(c));
        }
    }
}

/// The sum of the cubes of the integers from `a` to `b` by a recursive process.
pub fn sum_cubes(a: i64, b: i64) -> (r: Option<i64>)
    ensures
        r == checked_series(cube_terms(), a as int, b as int),
    decreases remaining(a, b),
{
    if a > b {
        return Some(0);
    }
    proof {
        lemma_cube_computes();
    }
    let c = match Cube.apply(a) {
        Some(c) => c,
        None => {
            proof {
                assert(series_fits(cube_terms(), a as int, b as int) ==> fit_i64(
                    cube_terms()(a as int),
                ) is Some && fit_i64(series(cube_terms(), a as int, b as int)) is Some);
            }
            return None;
        },
    };
    let n = match a.checked_add(1) {
        Some(n) => n,
        None => return None,
    };
    proof {
        lemma_checked_series_step(cube_terms(), a as int, b as int);
    }
    match sum_cubes(n, b) {
        Some(rest) => c.checked_add(rest),
        None => None,
    }
}

/// Summing a term that computes `f` over `a, a + 1, ..., b` with the
/// general reduction is the checked series of `f`.
pub proof fn lemma_accumulate_series<T: Term<i64>>(term: T, f: spec_fn(int) -> int, a: i64, b: i64)
    requires
        term_computes(term, f),
    ensures
        accumulate_spec(Add, 0i64, term, a, Inc, b) == checked_series(f, a as int, b as int),
    decreases remaining(a, b),
{
    if a <= b {
        assert(term.spec_apply(a) == fit_i64(f(a as int)));
        if a < i64::MAX {
            lemma_accumulate_series(term, f, (a + 1) as i64, b);
            lemma_checked_series_step(f, a as int, b as int);
        }
    }
}

/// Summing `Cube` over `a, a + 1, ..., b` with the general reduction is
/// `sum_cubes(a, b)`.
pub proof fn lemma_accumulate_sum_cubes(a: i64, b: i64)
    ensures
        accumulate_spec(Add, 0i64, Cube, a, Inc, b) == checked_series(cube_terms(), a as int, b as int),
{
    lemma_cube_computes();
    lemma_accumulate_series(Cube, cube_terms(), a, b);
}

/// Twice the sum of the integers from `a` to `b` is `b(b + 1) - a(a - 1)`.
pub proof fn lemma_integer_series_closed_form(a: int, b: int)
    requires
        a <= b,
    ensures
        2 * series(integer_terms(), a, b) == b * (b + 1) - a * (a - 1),
    decreases b - a,
{
    let s1 = series(integer_terms(), a + 1, b);
    assert(series(integer_terms(), a, b) == a + s1);
    if a < b {
        lemma_integer_series_closed_form(a + 1, b);
    } else {
        assert(s1 == 0);
        assert(b * (b + 1) - (a + 1) * a == 0) by (nonlinear_arith)
            requires
                a == b,
        ;
    }
    assert(2 * a + (b * (b + 1) - (a + 1) * a) == b * (b + 1) - a * (a - 1)) by (nonlinear_arith);
}

/// Accumulating the identity over `a, a + 1, ..., b` with addition from 0
/// gives `sum_integers(a, b)`, whose value, when it fits, is the closed form
/// `(b(b + 1) - a(a - 1)) / 2`.
pub proof fn lemma_accumulate_sum_integers(a: i64, b: i64)
    ensures
        accumulate_spec(Add, 0i64, Identity, a, Inc, b) == checked_series(
            integer_terms(),
            a as int,
            b as int,
        ),
        a <= b ==> 2 * series(integer_terms(), a as int, b as int) == b * (b + 1) - a * (a - 1),
{
    assert(term_computes(Identity, integer_terms()));
    lemma_accumulate_series(Identity, integer_terms(), a, b);
    if a <= b {
        lemma_integer_series_closed_form(a as int, b as int);
    }
}

/// The sum of the points from `a` to `b` that `prime_p` accepts.
pub fn sum_prime_square(a: i64, b: i64) -> (r: Option<i64>)
    ensures
        r == filtered_accumulate_spec(Add, 0i64, Identity, a, Inc, b, Prime),
{
    filtered_accumulate(&Add, 0, &Identity, a, &Inc, b, &Prime)
}

} // verus!

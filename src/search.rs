//! Convergence algorithms over integer points: bisection root finding
//! (`half_interval_method`) and fixed-point iteration (`fixed_point`).
use vstd::prelude::*;
use crate::reduction::Term;

verus! {

/// The distance between two points.
pub open spec fn distance(x: int, y: int) -> int {
    if x >= y {
        x - y
    } else {
        y - x
    }
}

/// Whether `x` lies between `a` and `b`, ends included, in either order.
pub open spec fn between(x: int, a: int, b: int) -> bool {
    (a <= x && x <= b) || (b <= x && x <= a)
}

/// The mean of two points, rounded down.
pub open spec fn average_spec(x: int, y: int) -> int {
    (x + y) / 2
}

/// Whether `f` is negative at `neg_point` and positive at `pos_point`.
pub open spec fn brackets<F: Term<i64>>(f: F, neg_point: i64, pos_point: i64) -> bool {
    &&& f.spec_apply(neg_point) matches Some(u) && u < 0
    &&& f.spec_apply(pos_point) matches Some(v) && v > 0
}

/// The mean of two points, rounded down; computed without overflow.
pub fn average(x: i64, y: i64) -> (r: i64)
    ensures
        r == average_spec(x as int, y as int),
{
    let (lo, hi) = if x <= y {
        (x, y)
    } else {
        (y, x)
    };
    let gap = (hi as i128 - lo as i128) as u64;
    (lo as i128 + (gap / 2) as i128) as i64
}

/// Whether `x > 0`.
pub fn positive_p(x: i64) -> (r: bool)
    ensures
        r == (x > 0),
{
    x > 0
}

/// Whether `x < 0`.
pub fn negative_p(x: i64) -> (r: bool)
    ensures
        r == (x < 0),
{
    x < 0
}

/// Whether two points are closer than `tolerance`.
pub fn close_enough_p(x: i64, y: i64, tolerance: u64) -> (r: bool)
    ensures
        r == (distance(x as int, y as int) < tolerance),
{
    let d = if x >= y {
        x as i128 - y as i128
    } else {
        y as i128 - x as i128
    };
    d < tolerance as i128
}

/// Why a root could not be found.
#[derive(Debug, Clone, Copy, PartialEq, Eq, Structural)]
pub enum BisectionError {
    /// The function values at the two ends are not of opposite sign.
    SameSign { a_value: i64, b_value: i64 },
    /// The function has no representable value at this point.
    Undefined { at: i64 },
}

/// Bisection of the bracket from `neg_point` to `pos_point`: stop with the
/// midpoint once the two ends are closer than `tolerance`, or when the
/// function vanishes at the midpoint; otherwise keep the half whose ends
/// still have opposite signs.
pub open spec fn search_spec<F: Term<i64>>(
    f: F,
    neg_point: i64,
    pos_point: i64,
    tolerance: u64,
) -> Result<i64, BisectionError>
    decreases distance(neg_point as int, pos_point as int),
    when tolerance >= 2
{
    let midpoint = average_spec(neg_point as int, pos_point as int) as i64;
    if distance(neg_point as int, pos_point as int) < tolerance {
        Ok(midpoint)
    } else {
        match f.spec_apply(midpoint) {
            None => Err(BisectionError::Undefined { at: midpoint }),
            Some(v) => if v > 0 {
                search_spec(f, neg_point, midpoint, tolerance)
            } else if v < 0 {
                search_spec(f, midpoint, pos_point, tolerance)
            } else {
                Ok(midpoint)
            },
        }
    }
}

/// What a successful bisection promises of its result `m`: the function
/// vanishes at `m`, or `m` is the midpoint of a bracket narrower than
/// `tolerance` that lies between `a` and `b`.
pub open spec fn is_bisection_root<F: Term<i64>>(f: F, m: i64, a: i64, b: i64, tolerance: u64) -> bool {
    ||| f.spec_apply(m) == Some(0i64)
    ||| exists|n: i64, p: i64|
        #![trigger brackets(f, n, p)]
        brackets(f, n, p) && distance(n as int, p as int) < tolerance && m == average_spec(
            n as int,
            p as int,
        ) && between(n as int, a as int, b as int) && between(p as int, a as int, b as int)
}

/// Bisects the bracket from `neg_point` (where `f` is negative) to
/// `pos_point` (where `f` is positive).
pub fn search<F: Term<i64>>(f: &F, neg_point: i64, pos_point: i64, tolerance: u64) -> (r: Result<
    i64,
    BisectionError,
>)
    requires
        tolerance >= 2,
        brackets(*f, neg_point, pos_point),
    ensures
        r == search_spec(*f, neg_point, pos_point, tolerance),
        r matches Ok(m) ==> is_bisection_root(*f, m, neg_point, pos_point, tolerance),
        r matches Err(e) ==> e is Undefined,
    decreases distance(neg_point as int, pos_point as int),
{
    let midpoint = average(neg_point, pos_point);
    if close_enough_p(neg_point, pos_point, tolerance) {
        assert(brackets(*f, neg_point, pos_point));
        return Ok(midpoint);
    }
    let test_value = match f.apply(midpoint) {
        Some(v) => v,
        None => return Err(BisectionError::Undefined { at: midpoint }),
    };
    if positive_p(test_value) {
        let r = search(f, neg_point, midpoint, tolerance);
        proof {
            if let Ok(m) = r {
                if f.spec_apply(m) != Some(0i64) {
                    let (n, p) = choose|n: i64, p: i64|
                        #![trigger brackets(*f, n, p)]
                        brackets(*f, n, p) && distance(n as int, p as int) < tolerance && m
                            == average_spec(n as int, p as int) && between(
                            n as int,
                            neg_point as int,
                            midpoint as int,
                        ) && between(p as int, neg_point as int, midpoint as int);
                    assert(brackets(*f, n, p));
                }
            }
        }
        r
    } else if negative_p(test_value) {
        let r = search(f, midpoint, pos_point, tolerance);
        proof {
            if let Ok(m) = r {
                if f.spec_apply(m) != Some(0i64) {
                    let (n, p) = choose|n: i64, p: i64|
                        #![trigger brackets(*f, n, p)]
                        brackets(*f, n, p) && distance(n as int, p as int) < tolerance && m
                            == average_spec(n as int, p as int) && between(
                            n as int,
                            midpoint as int,
                            pos_point as int,
                        ) && between(p as int, midpoint as int, pos_point as int);
                    assert(brackets(*f, n, p));
                }
            }
        }
        r
    } else {
        Ok(midpoint)
    }
}

/// The outcome of `half_interval_method`: search from the end where `f` is
/// negative towards the end where it is positive, or report the two values
/// when they do not have opposite signs.
pub open spec fn half_interval_spec<F: Term<i64>>(f: F, a: i64, b: i64, tolerance: u64) -> Result<
    i64,
    BisectionError,
> {
    match (f.spec_apply(a), f.spec_apply(b)) {
        (Some(a_value), Some(b_value)) => if a_value < 0 && b_value > 0 {
            search_spec(f, a, b, tolerance)
        } else if b_value < 0 && a_value > 0 {
            search_spec(f, b, a, tolerance)
        } else {
            Err(BisectionError::SameSign { a_value, b_value })
        },
        (None, _) => Err(BisectionError::Undefined { at: a }),
        (Some(_), None) => Err(BisectionError::Undefined { at: b }),
    }
}

/// Finds a root of `f` between `a` and `b` by bisection, to within `tolerance`.
pub fn half_interval_method<F: Term<i64>>(f: &F, a: i64, b: i64, tolerance: u64) -> (r: Result<
    i64,
    BisectionError,
>)
    requires
        tolerance >= 2,
    ensures
        r == half_interval_spec(*f, a, b, tolerance),
        r matches Ok(m) ==> is_bisection_root(*f, m, a, b, tolerance),
        r matches Err(BisectionError::SameSign { a_value, b_value }) ==> {
            &&& f.spec_apply(a) == Some(a_value)
            &&& f.spec_apply(b) == Some(b_value)
            &&& !(a_value < 0 && b_value > 0)
            &&& !(b_value < 0 && a_value > 0)
        },
{
    let a_value = match f.apply(a) {
        Some(v) => v,
        None => return Err(BisectionError::Undefined { at: a }),
    };
    let b_value = match f.apply(b) {
        Some(v) => v,
        None => return Err(BisectionError::Undefined { at: b }),
    };
    if negative_p(a_value) && positive_p(b_value) {
        search(f, a, b, tolerance)
    } else if negative_p(b_value) && positive_p(a_value) {
        let r = search(f, b, a, tolerance);
        proof {
            if let Ok(m) = r {
                if f.spec_apply(m) != Some(0i64) {
                    let (n, p) = choose|n: i64, p: i64|
                        #![trigger brackets(*f, n, p)]
                        brackets(*f, n, p) && distance(n as int, p as int) < tolerance && m
                            == average_spec(n as int, p as int) && between(n as int, b as int, a as int)
                            && between(p as int, b as int, a as int);
                    assert(brackets(*f, n, p));
                }
            }
        }
        r
    } else {
        Err(BisectionError::SameSign { a_value, b_value })
    }
}

/// Why a fixed point was not reached.
#[derive(Debug, Clone, Copy, PartialEq, Eq, Structural)]
pub enum FixedPointError {
    /// The allowed number of steps ran out; `last` is the latest guess.
    NoConvergence { last: i64 },
    /// The function has no representable value at this point.
    Undefined { at: i64 },
}

/// Iterates `guess, f(guess), f(f(guess)), ...` for at most `steps`
/// applications of `f`, stopping at the first pair of consecutive values
/// closer than `tolerance` with the later of the two.
pub open spec fn fixed_point_spec<F: Term<i64>>(f: F, guess: i64, tolerance: u64, steps: nat) -> Result<
    i64,
    FixedPointError,
>
    decreases steps,
{
    if steps == 0 {
        Err(FixedPointError::NoConvergence { last: guess })
    } else {
        match f.spec_apply(guess) {
            None => Err(FixedPointError::Undefined { at: guess }),
            Some(next) => if distance(guess as int, next as int) < tolerance {
                Ok(next)
            } else {
                fixed_point_spec(f, next, tolerance, (steps - 1) as nat)
            },
        }
    }
}

/// Applies `f` to `guess` and stops when the image is within `tolerance` of
/// it; otherwise tries the image, with one step fewer left.
pub fn try_guess<F: Term<i64>>(f: &F, guess: i64, tolerance: u64, steps: u64) -> (r: Result<
    i64,
    FixedPointError,
>)
    ensures
        r == fixed_point_spec(*f, guess, tolerance, steps as nat),
        r matches Ok(v) ==> exists|g: i64|
            f.spec_apply(g) == Some(v) && distance(g as int, v as int) < tolerance,
    decreases steps,
{
    if steps == 0 {
        return Err(FixedPointError::NoConvergence { last: guess });
    }
    let next = match f.apply(guess) {
        Some(v) => v,
        None => return Err(FixedPointError::Undefined { at: guess }),
    };
    if close_enough_p(guess, next, tolerance) {
        Ok(next)
    } else {
        try_guess(f, next, tolerance, steps - 1)
    }
}

/// Searches for a fixed point of `f` from `first_guess`, applying `f` at
/// most `max_steps` times.
pub fn fixed_point<F: Term<i64>>(f: &F, first_guess: i64, tolerance: u64, max_steps: u64) -> (r:
    Result<i64, FixedPointError>)
    ensures
        r == fixed_point_spec(*f, first_guess, tolerance, max_steps as nat),
        r matches Ok(v) ==> exists|g: i64|
            f.spec_apply(g) == Some(v) && distance(g as int, v as int) < tolerance,
{
    try_guess(f, first_guess, tolerance, max_steps)
}

/// The polynomial `x -> (a * x + b) * x + c`, undefined where a step of its
/// evaluation overflows.
pub struct Quadratic {
    pub a: i64,
    pub b: i64,
    pub c: i64,
}

impl Term<i64> for Quadratic {
    open spec fn spec_apply(&self, x: i64) -> Option<i64> {
        match self.a.checked_mul(x) {
            Some(ax) => match ax.checked_add(self.b) {
                Some(axb) => match axb.checked_mul(x) {
                    Some(axbx) => axbx.checked_add(self.c),
                    None => None,
                },
                None => None,
            },
            None => None,
        }
    }

    fn apply(&self, x: i64) -> (r: Option<i64>) {
        match self.a.checked_mul(x) {
            Some(ax) => match ax.checked_add(self.b) {
                Some(axb) => match axb.checked_mul(x) {
                    Some(axbx) => axbx.checked_add(self.c),
                    None => None,
                },
                None => None,
            },
            None => None,
        }
    }
}

/// The average-damped map `y -> average(y, x / y)` whose fixed points are
/// the integer square roots of `x`; defined for `x >= 0` and `y > 0`.
pub struct AverageDamp {
    pub x: i64,
}

impl Term<i64> for AverageDamp {
    open spec fn spec_apply(&self, y: i64) -> Option<i64> {
        if self.x >= 0 && y > 0 {
            Some(average_spec(y as int, self.x / y) as i64)
        } else {
            None
        }
    }

    fn apply(&self, y: i64) -> (r: Option<i64>) {
        if self.x >= 0 && y > 0 {
            let quotient = ((self.x as u64) / (y as u64)) as i64;
            Some(average(y, quotient))
        } else {
            None
        }
    }
}

} // verus!

//! Range reductions: fold a combining operation over the images of the points
//! `a, next(a), next(next(a)), ...` that do not exceed `b`.
//!
//! The operations are function objects: values of types implementing [`Term`],
//! [`Step`], [`Combiner`] and [`Filter`]. Every operation is partial: it returns
//! `None` where its result is not representable, and a reduction that meets
//! such a `None` returns `None` itself.
use vstd::prelude::*;
use vstd::arithmetic::mul::{lemma_mul_is_associative, lemma_mul_is_commutative};
use crate::divisors::{is_prime, prime_p};

verus! {

/// A partial function from integer points to values.
pub trait Term<V> {
    spec fn spec_apply(&self, x: i64) -> Option<V>;

    fn apply(&self, x: i64) -> (r: Option<V>)
        ensures
            r == self.spec_apply(x),
    ;
}

/// Advances a point of a range; every defined step moves strictly upward,
/// which is what makes each walk over a range finite.
pub trait Step {
    spec fn spec_step(&self, x: i64) -> Option<i64>;

    proof fn lemma_step_advances(&self, x: i64)
        ensures
            self.spec_step(x) is Some ==> self.spec_step(x)->0 > x,
    ;

    fn step(&self, x: i64) -> (r: Option<i64>)
        ensures
            r == self.spec_step(x),
    ;
}

/// A partial binary operation that folds a term into an accumulated value.
pub trait Combiner<V> {
    spec fn spec_combine(&self, x: V, y: V) -> Option<V>;

    fn combine(&self, x: V, y: V) -> (r: Option<V>)
        ensures
            r == self.spec_combine(x, y),
    ;
}

/// A predicate on points that decides which points take part in a reduction.
pub trait Filter {
    spec fn spec_test(&self, x: i64) -> bool;

    fn test(&self, x: i64) -> (r: bool)
        ensures
            r == self.spec_test(x),
    ;
}

/// The number of integer points from `a` up to `b`: a bound on the length of
/// every walk over the range.
pub open spec fn remaining(a: i64, b: i64) -> nat {
    if a > b {
        0
    } else {
        (b - a + 1) as nat
    }
}

/// The right-associated fold `combiner(term(a), fold of the rest)`, which is
/// `null_value` on an empty range (`a > b`).
pub open spec fn accumulate_spec<V, C: Combiner<V>, T: Term<V>, S: Step>(
    combiner: C,
    null_value: V,
    term: T,
    a: i64,
    next: S,
    b: i64,
) -> Option<V>
    decreases remaining(a, b),
{
    if a > b {
        Some(null_value)
    } else {
        match (term.spec_apply(a), next.spec_step(a)) {
            (Some(t), Some(n)) => {
                proof {
                    next.lemma_step_advances(a);
                }
                match accumulate_spec(combiner, null_value, term, n, next, b) {
                    Some(rest) => combiner.spec_combine(t, rest),
                    None => None,
                }
            },
            _ => None,
        }
    }
}

/// Folds `combiner` over the range by a recursive process:
/// `combiner(term(a), accumulate(.., next(a), ..))`, or `null_value` when `a > b`.
pub fn accumulate<V, C: Combiner<V>, T: Term<V>, S: Step>(
    combiner: &C,
    null_value: V,
    term: &T,
    a: i64,
    next: &S,
    b: i64,
) -> (r: Option<V>)
    ensures
        r == accumulate_spec(*combiner, null_value, *term, a, *next, b),
    decreases remaining(a, b),
{
    if a > b {
        return Some(null_value);
    }
    let t = match term.apply(a) {
        Some(t) => t,
        None => return None,
    };
    let n = match next.step(a) {
        Some(n) => n,
        None => return None,
    };
    proof {
        next.lemma_step_advances(a);
    }
    match accumulate(combiner, null_value, term, n, next, b) {
        Some(rest) => combiner.combine(t, rest),
        None => None,
    }
}

/// The left-associated fold of an iterative process: each point's term is
/// combined into the running `result` as `combiner(term(a), result)`, and the
/// final `result` is returned once the walk passes `b`.
pub open spec fn accumulate_iter_spec<V, C: Combiner<V>, T: Term<V>, S: Step>(
    combiner: C,
    result: V,
    term: T,
    a: i64,
    next: S,
    b: i64,
) -> Option<V>
    decreases remaining(a, b),
{
    if a > b {
        Some(result)
    } else {
        match (term.spec_apply(a), next.spec_step(a)) {
            (Some(t), Some(n)) => {
                proof {
                    next.lemma_step_advances(a);
                }
                match combiner.spec_combine(t, result) {
                    Some(r) => accumulate_iter_spec(combiner, r, term, n, next, b),
                    None => None,
                }
            },
            _ => None,
        }
    }
}

/// Folds `combiner` over the range by an iterative process in constant stack
/// space, starting from `null_value`.
pub fn accumulate_iter<V, C: Combiner<V>, T: Term<V>, S: Step>(
    combiner: &C,
    null_value: V,
    term: &T,
    a: i64,
    next: &S,
    b: i64,
) -> (r: Option<V>)
    ensures
        r == accumulate_iter_spec(*combiner, null_value, *term, a, *next, b),
{
    let ghost goal = accumulate_iter_spec(*combiner, null_value, *term, a, *next, b);
    let mut result = null_value;
    let mut x = a;
    while x <= b
        invariant
            accumulate_iter_spec(*combiner, result, *term, x, *next, b) == goal,
            goal == accumulate_iter_spec(*combiner, null_value, *term, a, *next, b),
        decreases remaining(x, b),
    {
        let t = match term.apply(x) {
            Some(t) => t,
            None => return None,
        };
        let n = match next.step(x) {
            Some(n) => n,
            None => return None,
        };
        proof {
            next.lemma_step_advances(x);
        }
        result = match combiner.combine(t, result) {
            Some(r) => r,
            None => return None,
        };
        x = n;
    }
    Some(result)
}

/// The right-associated fold over the points that pass `filter`; the points
/// that fail it are skipped, and their terms are never evaluated.
pub open spec fn filtered_accumulate_spec<V, C: Combiner<V>, T: Term<V>, S: Step, F: Filter>(
    combiner: C,
    null_value: V,
    term: T,
    a: i64,
    next: S,
    b: i64,
    filter: F,
) -> Option<V>
    decreases remaining(a, b),
{
    if a > b {
        Some(null_value)
    } else {
        match next.spec_step(a) {
            Some(n) => {
                proof {
                    next.lemma_step_advances(a);
                }
                let rest = filtered_accumulate_spec(combiner, null_value, term, n, next, b, filter);
                if filter.spec_test(a) {
                    match (term.spec_apply(a), rest) {
                        (Some(t), Some(rest)) => combiner.spec_combine(t, rest),
                        _ => None,
                    }
                } else {
                    rest
                }
            },
            None => None,
        }
    }
}

/// Folds `combiner` by a recursive process over the points of the range
/// that pass `filter`.
pub fn filtered_accumulate<V, C: Combiner<V>, T: Term<V>, S: Step, F: Filter>(
    combiner: &C,
    null_value: V,
    term: &T,
    a: i64,
    next: &S,
    b: i64,
    filter: &F,
) -> (r: Option<V>)
    ensures
        r == filtered_accumulate_spec(*combiner, null_value, *term, a, *next, b, *filter),
    decreases remaining(a, b),
{
    if a > b {
        return Some(null_value);
    }
    let n = match next.step(a) {
        Some(n) => n,
        None => return None,
    };
    proof {
        next.lemma_step_advances(a);
    }
    if filter.test(a) {
        let t = match term.apply(a) {
            Some(t) => t,
            None => return None,
        };
        match filtered_accumulate(combiner, null_value, term, n, next, b, filter) {
            Some(rest) => combiner.combine(t, rest),
            None => None,
        }
    } else {
        filtered_accumulate(combiner, null_value, term, n, next, b, filter)
    }
}

/// Checked addition of two integers.
pub struct Add;

/// Checked multiplication of two integers.
pub struct Mul;

/// The identity map on points.
pub struct Identity;

/// The cube of a point.
pub struct Cube;

/// The successor of a point: `x + 1`.
pub struct Inc;

/// Advances a point by a fixed positive stride: `x + stride`.
pub struct StepBy {
    pub stride: i64,
}

impl Combiner<i64> for Add {
    open spec fn spec_combine(&self, x: i64, y: i64) -> Option<i64> {
        x.checked_add(y)
    }

    fn combine(&self, x: i64, y: i64) -> (r: Option<i64>) {
        x.checked_add(y)
    }
}

impl Combiner<i64> for Mul {
    open spec fn spec_combine(&self, x: i64, y: i64) -> Option<i64> {
        x.checked_mul(y)
    }

    fn combine(&self, x: i64, y: i64) -> (r: Option<i64>) {
        x.checked_mul(y)
    }
}

impl Term<i64> for Identity {
    open spec fn spec_apply(&self, x: i64) -> Option<i64> {
        Some(x)
    }

    fn apply(&self, x: i64) -> (r: Option<i64>) {
        Some(x)
    }
}

impl Term<i64> for Cube {
    open spec fn spec_apply(&self, x: i64) -> Option<i64> {
        match x.checked_mul(x) {
            Some(sq) => sq.checked_mul(x),
            None => None,
        }
    }

    fn apply(&self, x: i64) -> (r: Option<i64>) {
        match x.checked_mul(x) {
            Some(sq) => sq.checked_mul(x),
            None => None,
        }
    }
}

impl Term<i64> for Inc {
    open spec fn spec_apply(&self, x: i64) -> Option<i64> {
        x.checked_add(1)
    }

    fn apply(&self, x: i64) -> (r: Option<i64>) {
        x.checked_add(1)
    }
}

impl Step for Inc {
    open spec fn spec_step(&self, x: i64) -> Option<i64> {
        x.checked_add(1)
    }

    proof fn lemma_step_advances(&self, x: i64) {
    }

    fn step(&self, x: i64) -> (r: Option<i64>) {
        x.checked_add(1)
    }
}

impl Step for StepBy {
    /// A stride that is not positive would not advance: there the step is undefined.
    open spec fn spec_step(&self, x: i64) -> Option<i64> {
        if self.stride > 0 {
            x.checked_add(self.stride)
        } else {
            None
        }
    }

    proof fn lemma_step_advances(&self, x: i64) {
    }

    fn step(&self, x: i64) -> (r: Option<i64>) {
        if self.stride > 0 {
            x.checked_add(self.stride)
        } else {
            None
        }
    }
}

/// Sums `term` over the range by a recursive process.
pub fn sum<T: Term<i64>, S: Step>(term: &T, a: i64, next: &S, b: i64) -> (r: Option<i64>)
    ensures
        r == accumulate_spec(Add, 0i64, *term, a, *next, b),
{
    accumulate(&Add, 0, term, a, next, b)
}

/// Sums `term` over the range by an iterative process.
pub fn sum_iter<T: Term<i64>, S: Step>(term: &T, a: i64, next: &S, b: i64) -> (r: Option<i64>)
    ensures
        r == accumulate_iter_spec(Add, 0i64, *term, a, *next, b),
{
    accumulate_iter(&Add, 0, term, a, next, b)
}

/// Multiplies `term` over the range by a recursive process.
pub fn product<T: Term<i64>, S: Step>(term: &T, a: i64, next: &S, b: i64) -> (r: Option<i64>)
    ensures
        r == accumulate_spec(Mul, 1i64, *term, a, *next, b),
{
    accumulate(&Mul, 1, term, a, next, b)
}

/// Multiplies `term` over the range by an iterative process.
pub fn product_iter<T: Term<i64>, S: Step>(term: &T, a: i64, next: &S, b: i64) -> (r: Option<i64>)
    ensures
        r == accumulate_iter_spec(Mul, 1i64, *term, a, *next, b),
{
    accumulate_iter(&Mul, 1, term, a, next, b)
}

/// Passes the points that `prime_p` accepts: the primes, and every point below 2.
pub struct Prime;

impl Filter for Prime {
    open spec fn spec_test(&self, x: i64) -> bool {
        x < 2 || is_prime(x as int)
    }

    fn test(&self, x: i64) -> (r: bool) {
        prime_p(x)
    }
}

/// `Some(v)` when the integer `v` fits in an `i64`, else `None`.
pub open spec fn fit_i64(v: int) -> Option<i64> {
    if i64::MIN <= v <= i64::MAX {
        Some(v as i64)
    } else {
        None
    }
}

/// The exact value of folding `op` over the terms of the range, computed
/// over unbounded integers; `None` where a term or a step is undefined.
pub open spec fn exact_fold<T: Term<i64>, S: Step>(
    op: spec_fn(int, int) -> int,
    unit: int,
    term: T,
    a: i64,
    next: S,
    b: i64,
) -> Option<int>
    decreases remaining(a, b),
{
    if a > b {
        Some(unit)
    } else {
        match (term.spec_apply(a), next.spec_step(a)) {
            (Some(t), Some(n)) => {
                proof {
                    next.lemma_step_advances(a);
                }
                match exact_fold(op, unit, term, n, next, b) {
                    Some(rest) => Some(op(t as int, rest)),
                    None => None,
                }
            },
            _ => None,
        }
    }
}

/// `combiner` computes `op` wherever the result fits in an `i64`.
pub open spec fn computes<C: Combiner<i64>>(combiner: C, op: spec_fn(int, int) -> int) -> bool {
    forall|x: i64, y: i64| #[trigger] combiner.spec_combine(x, y) == fit_i64(op(x as int, y as int))
}

/// `op` is associative and commutative, with `unit` as its identity.
pub open spec fn is_commutative_monoid(op: spec_fn(int, int) -> int, unit: int) -> bool {
    &&& forall|x: int, y: int, z: int| #[trigger] op(op(x, y), z) == op(x, op(y, z))
    &&& forall|x: int, y: int| #[trigger] op(x, y) == op(y, x)
    &&& forall|x: int| #[trigger] op(unit, x) == x
}

/// The sum of two integers.
pub open spec fn plus(x: int, y: int) -> int {
    x + y
}

/// The product of two integers.
pub open spec fn times(x: int, y: int) -> int {
    x * y
}

/// Whenever the recursive fold is defined, it is the exact fold.
pub proof fn lemma_accumulate_exact<C: Combiner<i64>, T: Term<i64>, S: Step>(
    combiner: C,
    op: spec_fn(int, int) -> int,
    unit: i64,
    term: T,
    a: i64,
    next: S,
    b: i64,
)
    requires
        computes(combiner, op),
    ensures
        accumulate_spec(combiner, unit, term, a, next, b) matches Some(v) ==> exact_fold(
            op,
            unit as int,
            term,
            a,
            next,
            b,
        ) == Some(v as int),
    decreases remaining(a, b),
{
    if a <= b {
        if let (Some(t), Some(n)) = (term.spec_apply(a), next.spec_step(a)) {
            next.lemma_step_advances(a);
            lemma_accumulate_exact(combiner, op, unit, term, n, next, b);
            if let Some(rest) = accumulate_spec(combiner, unit, term, n, next, b) {
                assert(combiner.spec_combine(t, rest) == fit_i64(op(t as int, rest as int)));
            }
        }
    }
}

/// Whenever the iterative fold from `acc` is defined, it is the exact fold
/// combined with `acc`.
pub proof fn lemma_accumulate_iter_exact<C: Combiner<i64>, T: Term<i64>, S: Step>(
    combiner: C,
    op: spec_fn(int, int) -> int,
    unit: int,
    acc: i64,
    term: T,
    a: i64,
    next: S,
    b: i64,
)
    requires
        computes(combiner, op),
        is_commutative_monoid(op, unit),
    ensures
        accumulate_iter_spec(combiner, acc, term, a, next, b) matches Some(v) ==> exact_fold(
            op,
            unit,
            term,
            a,
            next,
            b,
        ) matches Some(e) && v == op(e, acc as int),
    decreases remaining(a, b),
{
    if a > b {
        assert(op(unit, acc as int) == acc);
    } else if let (Some(t), Some(n)) = (term.spec_apply(a), next.spec_step(a)) {
        next.lemma_step_advances(a);
        assert(combiner.spec_combine(t, acc) == fit_i64(op(t as int, acc as int)));
        if let Some(r) = combiner.spec_combine(t, acc) {
            lemma_accumulate_iter_exact(combiner, op, unit, r, term, n, next, b);
            if let Some(v) = accumulate_iter_spec(combiner, r, term, n, next, b) {
                let e = exact_fold(op, unit, term, n, next, b)->0;
                assert(op(e, op(t as int, acc as int)) == op(op(e, t as int), acc as int));
                assert(op(e, t as int) == op(t as int, e));
            }
        }
    }
}

/// The recursive and the iterative fold of a commutative monoid agree
/// wherever both are defined.
pub proof fn lemma_shapes_agree<C: Combiner<i64>, T: Term<i64>, S: Step>(
    combiner: C,
    op: spec_fn(int, int) -> int,
    unit: i64,
    term: T,
    a: i64,
    next: S,
    b: i64,
)
    requires
        computes(combiner, op),
        is_commutative_monoid(op, unit as int),
    ensures
        accumulate_spec(combiner, unit, term, a, next, b) is Some && accumulate_iter_spec(
            combiner,
            unit,
            term,
            a,
            next,
            b,
        ) is Some ==> accumulate_spec(combiner, unit, term, a, next, b) == accumulate_iter_spec(
            combiner,
            unit,
            term,
            a,
            next,
            b,
        ),
{
    lemma_accumulate_exact(combiner, op, unit, term, a, next, b);
    lemma_accumulate_iter_exact(combiner, op, unit as int, unit, term, a, next, b);
    if let Some(e) = exact_fold(op, unit as int, term, a, next, b) {
        assert(op(e, unit as int) == op(unit as int, e));
    }
}

/// `sum` and `sum_iter` agree on every range on which neither overflows.
pub proof fn lemma_sum_shapes_agree<T: Term<i64>, S: Step>(term: T, a: i64, next: S, b: i64)
    ensures
        accumulate_spec(Add, 0i64, term, a, next, b) is Some && accumulate_iter_spec(
            Add,
            0i64,
            term,
            a,
            next,
            b,
        ) is Some ==> accumulate_spec(Add, 0i64, term, a, next, b) == accumulate_iter_spec(
            Add,
            0i64,
            term,
            a,
            next,
            b,
        ),
{
    let op = |x: int, y: int| plus(x, y);
    assert(computes(Add, op));
    lemma_shapes_agree(Add, op, 0i64, term, a, next, b);
}

/// `product` and `product_iter` agree on every range on which neither overflows.
pub proof fn lemma_product_shapes_agree<T: Term<i64>, S: Step>(term: T, a: i64, next: S, b: i64)
    ensures
        accumulate_spec(Mul, 1i64, term, a, next, b) is Some && accumulate_iter_spec(
            Mul,
            1i64,
            term,
            a,
            next,
            b,
        ) is Some ==> accumulate_spec(Mul, 1i64, term, a, next, b) == accumulate_iter_spec(
            Mul,
            1i64,
            term,
            a,
            next,
            b,
        ),
{
    let op = |x: int, y: int| times(x, y);
    assert(computes(Mul, op));
    assert forall|x: int, y: int, z: int| #[trigger] op(op(x, y), z) == op(x, op(y, z)) by {
        lemma_mul_is_associative(x, y, z);
    }
    assert forall|x: int, y: int| #[trigger] op(x, y) == op(y, x) by {
        lemma_mul_is_commutative(x, y);
    }
    lemma_shapes_agree(Mul, op, 1i64, term, a, next, b);
}

/// Every term that the walk over the range evaluates is nonnegative.
pub open spec fn terms_nonnegative<T: Term<i64>, S: Step>(term: T, a: i64, next: S, b: i64) -> bool
    decreases remaining(a, b),
{
    if a > b {
        true
    } else {
        match (term.spec_apply(a), next.spec_step(a)) {
            (Some(t), Some(n)) => {
                proof {
                    next.lemma_step_advances(a);
                }
                t >= 0 && terms_nonnegative(term, n, next, b)
            },
            _ => true,
        }
    }
}

/// With nonnegative terms, the recursive sum is defined whenever the exact
/// sum fits, and is that sum.
pub proof fn lemma_sum_nonnegative_exact<T: Term<i64>, S: Step>(
    term: T,
    a: i64,
    next: S,
    b: i64,
    total: int,
)
    requires
        terms_nonnegative(term, a, next, b),
        exact_fold(|x: int, y: int| plus(x, y), 0, term, a, next, b) == Some(total),
        total <= i64::MAX,
    ensures
        total >= 0,
        accumulate_spec(Add, 0i64, term, a, next, b) == Some(total as i64),
    decreases remaining(a, b),
{
    if a <= b {
        let t = term.spec_apply(a)->0;
        let n = next.spec_step(a)->0;
        next.lemma_step_advances(a);
        let rest = exact_fold(|x: int, y: int| plus(x, y), 0, term, n, next, b)->0;
        lemma_sum_nonnegative_exact(term, n, next, b, rest);
    }
}

/// With nonnegative terms, the iterative sum from a nonnegative `acc` is
/// defined whenever `acc` plus the exact sum fits, and is that value.
pub proof fn lemma_sum_iter_nonnegative_exact<T: Term<i64>, S: Step>(
    acc: i64,
    term: T,
    a: i64,
    next: S,
    b: i64,
    total: int,
)
    requires
        acc >= 0,
        terms_nonnegative(term, a, next, b),
        exact_fold(|x: int, y: int| plus(x, y), 0, term, a, next, b) == Some(total),
        acc + total <= i64::MAX,
    ensures
        total >= 0,
        accumulate_iter_spec(Add, acc, term, a, next, b) == Some((acc + total) as i64),
    decreases remaining(a, b),
{
    if a <= b {
        let t = term.spec_apply(a)->0;
        let n = next.spec_step(a)->0;
        next.lemma_step_advances(a);
        let rest = exact_fold(|x: int, y: int| plus(x, y), 0, term, n, next, b)->0;
        lemma_sum_nonnegative_exact(term, n, next, b, rest);
        lemma_sum_iter_nonnegative_exact((t + acc) as i64, term, n, next, b, rest);
    }
}

/// With nonnegative terms whose exact sum fits in an `i64`, `sum` and
/// `sum_iter` are both defined and both equal that sum.
pub proof fn lemma_nonnegative_sum_shapes_agree<T: Term<i64>, S: Step>(
    term: T,
    a: i64,
    next: S,
    b: i64,
    total: int,
)
    requires
        terms_nonnegative(term, a, next, b),
        exact_fold(|x: int, y: int| plus(x, y), 0, term, a, next, b) == Some(total),
        total <= i64::MAX,
    ensures
        accumulate_spec(Add, 0i64, term, a, next, b) == Some(total as i64),
        accumulate_iter_spec(Add, 0i64, term, a, next, b) == Some(total as i64),
{
    lemma_sum_nonnegative_exact(term, a, next, b, total);
    lemma_sum_iter_nonnegative_exact(0, term, a, next, b, total);
}

/// Over an empty range (`a > b`) every fold, in either shape and with or
/// without a filter, is its null value.
pub proof fn lemma_empty_range<V, C: Combiner<V>, T: Term<V>, S: Step, F: Filter>(
    combiner: C,
    null_value: V,
    term: T,
    a: i64,
    next: S,
    b: i64,
    filter: F,
)
    requires
        a > b,
    ensures
        accumulate_spec(combiner, null_value, term, a, next, b) == Some(null_value),
        accumulate_iter_spec(combiner, null_value, term, a, next, b) == Some(null_value),
        filtered_accumulate_spec(combiner, null_value, term, a, next, b, filter) == Some(
            null_value,
        ),
{
}

/// The product over an empty range is 1, whatever the term and the step.
pub proof fn lemma_empty_product<T: Term<i64>, S: Step>(term: T, a: i64, next: S, b: i64)
    requires
        a > b,
    ensures
        accumulate_spec(Mul, 1i64, term, a, next, b) == Some(1i64),
        accumulate_iter_spec(Mul, 1i64, term, a, next, b) == Some(1i64),
{
}

} // verus!

//! Higher-order numeric procedures over exact integers: range reductions
//! (`accumulate`, `sum`, `product`, `filtered_accumulate`) in recursive and
//! iterative shapes, bisection root finding, fixed-point iteration, and the
//! elementary recursive and iterative procedures around them.
pub mod arith;
pub mod divisors;
pub mod reduction;
pub mod search;
pub mod series;

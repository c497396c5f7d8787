//! The floating-point operations that the statistics are built from.

use vstd::prelude::*;

verus! {

/// Arithmetic on binary64 numbers, given and returned as bit patterns.
///
/// The statistics call these operations in a fixed order and leave their
/// results open: nothing is promised of them here. What is stated about a
/// statistic says of which operations, on which operands, it is the result.
pub trait Arithmetic {
    /// The first number plus the second.
    fn sum(&self, first: u64, second: u64) -> u64;

    /// The first number minus the second.
    fn difference(&self, first: u64, second: u64) -> u64;

    /// The first number times the second.
    fn product(&self, first: u64, second: u64) -> u64;

    /// The first number divided by the second.
    fn quotient(&self, first: u64, second: u64) -> u64;

    /// The square root of a number.
    fn root(&self, number: u64) -> u64;

    /// The number nearest to a count.
    fn of_count(&self, count: usize) -> u64;
}

/// Whether `result` is an outcome of [`Arithmetic::sum`].
pub open spec fn gives_sum<A: Arithmetic>(
    arithmetic: &A,
    first: u64,
    second: u64,
    result: u64,
) -> bool {
    call_ensures(A::sum, (arithmetic, first, second), result)
}

/// Whether `result` is an outcome of [`Arithmetic::difference`].
pub open spec fn gives_difference<A: Arithmetic>(
    arithmetic: &A,
    first: u64,
    second: u64,
    result: u64,
) -> bool {
    call_ensures(A::difference, (arithmetic, first, second), result)
}

/// Whether `result` is an outcome of [`Arithmetic::product`].
pub open spec fn gives_product<A: Arithmetic>(
    arithmetic: &A,
    first: u64,
    second: u64,
    result: u64,
) -> bool {
    call_ensures(A::product, (arithmetic, first, second), result)
}

/// Whether `result` is an outcome of [`Arithmetic::quotient`].
pub open spec fn gives_quotient<A: Arithmetic>(
    arithmetic: &A,
    first: u64,
    second: u64,
    result: u64,
) -> bool {
    call_ensures(A::quotient, (arithmetic, first, second), result)
}

/// Whether `result` is an outcome of [`Arithmetic::root`].
pub open spec fn gives_root<A: Arithmetic>(arithmetic: &A, number: u64, result: u64) -> bool {
    call_ensures(A::root, (arithmetic, number), result)
}

/// Whether `result` is an outcome of [`Arithmetic::of_count`].
pub open spec fn gives_count<A: Arithmetic>(arithmetic: &A, count: usize, result: u64) -> bool {
    call_ensures(A::of_count, (arithmetic, count), result)
}

/// An outcome of an operation is what a call of it may return, and nothing else
/// is.
pub proof fn law_outcomes<A: Arithmetic>(
    arithmetic: &A,
    first: u64,
    second: u64,
    count: usize,
    result: u64,
)
    ensures
        gives_sum(arithmetic, first, second, result) <==> call_ensures(
            A::sum,
            (arithmetic, first, second),
            result,
        ),
        gives_difference(arithmetic, first, second, result) <==> call_ensures(
            A::difference,
            (arithmetic, first, second),
            result,
        ),
        gives_product(arithmetic, first, second, result) <==> call_ensures(
            A::product,
            (arithmetic, first, second),
            result,
        ),
        gives_quotient(arithmetic, first, second, result) <==> call_ensures(
            A::quotient,
            (arithmetic, first, second),
            result,
        ),
        gives_root(arithmetic, first, result) <==> call_ensures(
            A::root,
            (arithmetic, first),
            result,
        ),
        gives_count(arithmetic, count, result) <==> call_ensures(
            A::of_count,
            (arithmetic, count),
            result,
        ),
{
}

} // verus!

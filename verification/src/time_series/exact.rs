//! What the statistics are where no rounding takes place.
//!
//! Sum, mean and standard deviation are computed by rounding operations, so in
//! general they are close to the statistic, as the accuracy laws say, and not
//! equal to it. Where every intermediate number can be represented, they are
//! the statistic: the sum of the window, its mean, and its population standard
//! deviation. Numbers are counted in units, as in [`binary64::units`].

use crate::arithmetic::{self, Arithmetic};
use crate::binary64;
use crate::time_series::expanding::ExpandingFn;
use crate::time_series::window::{self, Accumulator};
use vstd::prelude::*;

verus! {

/// Whether some finite pattern stands for this number of units.
pub open spec fn representable(number: int) -> bool {
    exists|bits: u64| binary64::is_finite(bits) && #[trigger] binary64::units(bits) == number
}

/// Whether a pattern is finite and stands for this number of units.
pub open spec fn stands_for(bits: u64, number: int) -> bool {
    binary64::is_finite(bits) && binary64::units(bits) == number
}

/// Whether every operation returns the exact result where that result can be
/// represented, as correctly rounded IEEE 754 arithmetic does. Products,
/// quotients and roots carry the factor that counts one in units.
pub open spec fn rounds_correctly<A: Arithmetic>(arithmetic: &A) -> bool {
    &&& forall|a: u64, b: u64, r: u64, x: int, y: int|
        #![trigger arithmetic::gives_sum(arithmetic, a, b, r), stands_for(a, x), stands_for(b, y)]
        arithmetic::gives_sum(arithmetic, a, b, r) && stands_for(a, x) && stands_for(b, y)
            && representable(x + y) ==> stands_for(r, x + y)
    &&& forall|a: u64, b: u64, r: u64, x: int, y: int|
        #![trigger arithmetic::gives_difference(arithmetic, a, b, r), stands_for(a, x), stands_for(b, y)]
        arithmetic::gives_difference(arithmetic, a, b, r) && stands_for(a, x) && stands_for(b, y)
            && representable(x - y) ==> stands_for(r, x - y)
    &&& forall|a: u64, b: u64, r: u64, x: int, y: int, z: int|
        #![trigger arithmetic::gives_product(arithmetic, a, b, r), stands_for(a, x), stands_for(b, y), representable(z)]
        arithmetic::gives_product(arithmetic, a, b, r) && stands_for(a, x) && stands_for(b, y)
            && representable(z) && z * binary64::one() == x * y ==> stands_for(r, z)
    &&& forall|a: u64, b: u64, r: u64, x: int, y: int, z: int|
        #![trigger arithmetic::gives_quotient(arithmetic, a, b, r), stands_for(a, x), stands_for(b, y), representable(z)]
        arithmetic::gives_quotient(arithmetic, a, b, r) && stands_for(a, x) && stands_for(b, y)
            && y != 0 && representable(z) && z * y == x * binary64::one() ==> stands_for(r, z)
    &&& forall|a: u64, r: u64, x: int, z: int|
        #![trigger arithmetic::gives_root(arithmetic, a, r), stands_for(a, x), representable(z)]
        arithmetic::gives_root(arithmetic, a, r) && stands_for(a, x) && z >= 0 && representable(z)
            && z * z == x * binary64::one() ==> stands_for(r, z)
    &&& forall|n: usize, r: u64| #[trigger]
        arithmetic::gives_count(arithmetic, n, r) && representable(n * binary64::one())
            ==> stands_for(r, n * binary64::one())
}

/// The numbers that finite patterns stand for.
pub open spec fn numbers(patterns: Seq<u64>) -> Seq<int> {
    patterns.map_values(|bits: u64| binary64::units(bits))
}

/// Whether all patterns are finite.
pub open spec fn all_finite(patterns: Seq<u64>) -> bool {
    forall|i: int| 0 <= i < patterns.len() ==> binary64::is_finite(#[trigger] patterns[i])
}

/// The sum of some numbers.
pub open spec fn total(numbers: Seq<int>) -> int
    decreases numbers.len(),
{
    if numbers.len() == 0 {
        0
    } else {
        total(numbers.drop_last()) + numbers.last()
    }
}

/// The sum of the squared deviations of some numbers from a centre.
pub open spec fn squared_deviations(numbers: Seq<int>, centre: int) -> int
    decreases numbers.len(),
{
    if numbers.len() == 0 {
        0
    } else {
        squared_deviations(numbers.drop_last(), centre) + (numbers.last() - centre) * (
        numbers.last() - centre)
    }
}

/// Whether `mean` is the mean of some numbers; that of none counts as 0.
pub open spec fn is_mean(numbers: Seq<int>, mean: int) -> bool {
    if numbers.len() == 0 {
        mean == 0
    } else {
        mean * numbers.len() == total(numbers)
    }
}

/// Whether the running sums of some numbers can be represented.
pub open spec fn sums_fit(numbers: Seq<int>) -> bool
    decreases numbers.len(),
{
    numbers.len() > 0 ==> {
        &&& sums_fit(numbers.drop_last())
        &&& representable(total(numbers))
    }
}

/// Whether the running means of some numbers, and what Welford's algorithm
/// forms on the way to them, can be represented. `means[k]` is the mean of the
/// first `k` numbers.
pub open spec fn means_fit(numbers: Seq<int>, means: Seq<int>) -> bool
    decreases numbers.len(),
{
    &&& means.len() == numbers.len() + 1
    &&& is_mean(numbers, means.last())
    &&& numbers.len() > 0 ==> {
        let earlier = means[numbers.len() - 1];
        &&& means_fit(numbers.drop_last(), means.drop_last())
        &&& representable(numbers.len() * binary64::one())
        &&& representable(numbers.last() - earlier)
        &&& representable(means.last() - earlier)
        &&& representable(means.last())
    }
}

/// Whether, beside the running means, the running sums of squared deviations
/// and what is added to them can be represented. `spreads[k]` is that sum for
/// the first `k` numbers, with squares counted in units too.
pub open spec fn deviations_fit(numbers: Seq<int>, means: Seq<int>, spreads: Seq<int>) -> bool
    decreases numbers.len(),
{
    &&& means_fit(numbers, means)
    &&& spreads.len() == numbers.len() + 1
    &&& spreads.last() * binary64::one() == squared_deviations(numbers, means.last())
    &&& numbers.len() > 0 ==> {
        &&& deviations_fit(numbers.drop_last(), means.drop_last(), spreads.drop_last())
        &&& representable(numbers.last() - means.last())
        &&& representable(spreads.last() - spreads[numbers.len() - 1])
        &&& representable(spreads.last())
    }
}

/// Moving the centre of squared deviations.
proof fn lemma_moved_centre(numbers: Seq<int>, centre: int, shift: int)
    ensures
        squared_deviations(numbers, centre + shift) == squared_deviations(numbers, centre) - 2
            * shift * (total(numbers) - numbers.len() * centre) + numbers.len() * (shift * shift),
    decreases numbers.len(),
{
    if numbers.len() > 0 {
        let before = numbers.drop_last();
        let n = before.len() as int;
        let (t, x) = (total(before), numbers.last());
        lemma_moved_centre(before, centre, shift);
        assert((x - (centre + shift)) * (x - (centre + shift)) == (x - centre) * (x - centre) - 2
            * shift * (x - centre) + shift * shift) by (nonlinear_arith);
        assert(2 * shift * (t + x - (n + 1) * centre) == 2 * shift * (t - n * centre) + 2 * shift
            * (x - centre)) by (nonlinear_arith);
        assert((n + 1) * (shift * shift) == n * (shift * shift) + shift * shift)
            by (nonlinear_arith);
    } else {
        assert(2 * shift * (0 - 0 * centre) == 0 && 0 * (shift * shift) == 0) by (nonlinear_arith);
    }
}

/// Welford's identity: what a number adds to the squared deviations is its
/// deviation from the old mean times its deviation from the new one.
pub proof fn law_welford(numbers: Seq<int>, earlier: int, mean: int)
    requires
        numbers.len() > 0,
        is_mean(numbers.drop_last(), earlier),
        is_mean(numbers, mean),
    ensures
        squared_deviations(numbers, mean) == squared_deviations(numbers.drop_last(), earlier) + (
        numbers.last() - earlier) * (numbers.last() - mean),
{
    let before = numbers.drop_last();
    let n = before.len() as int;
    let (t, x) = (total(before), numbers.last());
    let shift = mean - earlier;
    lemma_moved_centre(before, earlier, shift);
    assert(earlier + shift == mean);
    assert(mean * (n + 1) == t + x);
    if n == 0 {
        assert(mean == x) by (nonlinear_arith)
            requires
                mean * (n + 1) == t + x,
                n == 0,
                t == 0,
        ;
        assert(2 * shift * (t - n * earlier) == 0 && n * (shift * shift) == 0)
            by (nonlinear_arith)
            requires
                n == 0,
                t == 0,
        ;
        assert(squared_deviations(before, mean) == 0 && squared_deviations(before, earlier) == 0);
        assert((x - mean) * (x - mean) == 0 && (x - earlier) * (x - mean) == 0)
            by (nonlinear_arith)
            requires
                mean == x,
        ;
    } else {
        assert(earlier * n == t);
        assert(2 * shift * (t - n * earlier) == 0) by (nonlinear_arith)
            requires
                earlier * n == t,
        ;
        assert(x - mean == n * shift && x - earlier == (n + 1) * shift) by (nonlinear_arith)
            requires
                mean * (n + 1) == t + x,
                earlier * n == t,
                shift == mean - earlier,
        ;
        assert(n * (shift * shift) + (n * shift) * (n * shift) == ((n + 1) * shift) * (n * shift))
            by (nonlinear_arith);
    }
}

proof fn lemma_numbers_push(patterns: Seq<u64>, x: u64)
    ensures
        numbers(patterns.push(x)).drop_last() == numbers(patterns),
        numbers(patterns.push(x)).last() == binary64::units(x),
        numbers(patterns.push(x)).len() == patterns.len() + 1,
        all_finite(patterns.push(x)) ==> all_finite(patterns) && binary64::is_finite(x),
{
    let longer = patterns.push(x);
    assert(numbers(longer).drop_last() =~= numbers(patterns));
    if all_finite(longer) {
        assert(binary64::is_finite(longer[patterns.len() as int]));
        assert forall|i: int| 0 <= i < patterns.len() implies binary64::is_finite(
            #[trigger] patterns[i],
        ) by {
            assert(longer[i] == patterns[i]);
        }
    }
}

/// One step of Welford's algorithm without rounding, as far as the mean.
proof fn lemma_exact_mean_step<A: Arithmetic>(
    arithmetic: &A,
    before: Accumulator,
    x: u64,
    after: Accumulator,
    delta: u64,
    count: u64,
    shift: u64,
    rest: u64,
    product: u64,
    numbers: Seq<int>,
    means: Seq<int>,
)
    requires
        rounds_correctly(arithmetic),
        window::welford(arithmetic, before, x, after, delta, count, shift, rest, product),
        numbers.len() > 0,
        after.seen == numbers.len(),
        stands_for(x, numbers.last()),
        means_fit(numbers, means),
        stands_for(before.mean, means[numbers.len() - 1]),
    ensures
        stands_for(delta, numbers.last() - means[numbers.len() - 1]),
        stands_for(after.mean, means.last()),
{
    let n = numbers.len() as int;
    let earlier = means[n - 1];
    let mean = means.last();
    let one = binary64::one();
    let (t, y) = (total(numbers.drop_last()), numbers.last());
    vstd::arithmetic::power2::lemma_pow2_pos(1074);
    reveal_with_fuel(means_fit, 2);
    assert(means.drop_last().last() == earlier);
    assert(is_mean(numbers.drop_last(), earlier));
    assert(stands_for(delta, y - earlier));
    assert(stands_for(count, n * one));
    assert(earlier * (n - 1) == t) by {
        if n == 1 {
            assert(earlier * 0 == 0);
        }
    }
    assert(n * one != 0 && (mean - earlier) * (n * one) == (y - earlier) * one)
        by (nonlinear_arith)
        requires
            n > 0,
            one > 0,
            mean * n == t + y,
            earlier * (n - 1) == t,
    ;
    assert(stands_for(shift, mean - earlier));
    assert(earlier + (mean - earlier) == mean);
}

/// One step of Welford's algorithm without rounding.
proof fn lemma_exact_spread_step<A: Arithmetic>(
    arithmetic: &A,
    before: Accumulator,
    x: u64,
    after: Accumulator,
    delta: u64,
    count: u64,
    shift: u64,
    rest: u64,
    product: u64,
    numbers: Seq<int>,
    means: Seq<int>,
    spreads: Seq<int>,
)
    requires
        rounds_correctly(arithmetic),
        window::welford(arithmetic, before, x, after, delta, count, shift, rest, product),
        numbers.len() > 0,
        after.seen == numbers.len(),
        stands_for(x, numbers.last()),
        deviations_fit(numbers, means, spreads),
        stands_for(before.mean, means[numbers.len() - 1]),
        stands_for(before.m2, spreads[numbers.len() - 1]),
    ensures
        stands_for(after.m2, spreads.last()),
{
    lemma_exact_mean_step(
        arithmetic,
        before,
        x,
        after,
        delta,
        count,
        shift,
        rest,
        product,
        numbers,
        means,
    );
    let n = numbers.len() as int;
    let earlier = means[n - 1];
    let mean = means.last();
    let one = binary64::one();
    let (old, new) = (spreads[n - 1], spreads.last());
    reveal_with_fuel(means_fit, 2);
    reveal_with_fuel(deviations_fit, 2);
    assert(means.drop_last().last() == earlier);
    assert(spreads.drop_last().last() == old);
    law_welford(numbers, earlier, mean);
    assert(stands_for(rest, numbers.last() - mean));
    assert((new - old) * one == (numbers.last() - earlier) * (numbers.last() - mean))
        by (nonlinear_arith)
        requires
            new * one == old * one + (numbers.last() - earlier) * (numbers.last() - mean),
    ;
    assert(stands_for(product, new - old));
    assert(old + (new - old) == new);
}

/// The accumulator before row `i`, where nothing was rounded.
proof fn lemma_exact_sum<A: Arithmetic>(
    arithmetic: &A,
    function: ExpandingFn,
    min_periods: usize,
    cells: Seq<Option<u64>>,
    states: Seq<Accumulator>,
    values: Seq<Option<u64>>,
    i: int,
)
    requires
        window::expands_through(arithmetic, function, min_periods, cells, states, values),
        function is Mean || function is Sum || function is Std,
        rounds_correctly(arithmetic),
        0 <= i <= cells.len(),
        all_finite(window::observed(cells.take(i))),
        sums_fit(numbers(window::observed(cells.take(i)))),
    ensures
        stands_for(states[i].sum, total(numbers(window::observed(cells.take(i))))),
    decreases i,
{
    if i > 0 {
        let j = i - 1;
        window::lemma_window_grows(cells, j);
        assert(window::expands_row(
            arithmetic,
            function,
            min_periods,
            states[j],
            cells[j],
            states[j + 1],
            values[j],
        ));
        if let Some(x) = cells[j] {
            lemma_numbers_push(window::observed(cells.take(j)), x);
            lemma_exact_sum(arithmetic, function, min_periods, cells, states, values, j);
            assert(stands_for(x, binary64::units(x)));
        } else {
            lemma_exact_sum(arithmetic, function, min_periods, cells, states, values, j);
        }
    } else {
        assert(binary64::units(0) == 0);
    }
}

proof fn lemma_exact_mean<A: Arithmetic>(
    arithmetic: &A,
    function: ExpandingFn,
    min_periods: usize,
    cells: Seq<Option<u64>>,
    states: Seq<Accumulator>,
    values: Seq<Option<u64>>,
    i: int,
    means: Seq<int>,
)
    requires
        window::expands_through(arithmetic, function, min_periods, cells, states, values),
        function is Mean || function is Sum || function is Std,
        rounds_correctly(arithmetic),
        0 <= i <= cells.len(),
        all_finite(window::observed(cells.take(i))),
        means_fit(numbers(window::observed(cells.take(i))), means),
    ensures
        stands_for(states[i].mean, means.last()),
    decreases i,
{
    if i > 0 {
        let j = i - 1;
        window::lemma_window_grows(cells, j);
        window::lemma_seen(arithmetic, function, min_periods, cells, states, values, i);
        assert(window::expands_row(
            arithmetic,
            function,
            min_periods,
            states[j],
            cells[j],
            states[j + 1],
            values[j],
        ));
        if let Some(x) = cells[j] {
            lemma_numbers_push(window::observed(cells.take(j)), x);
            lemma_exact_mean(
                arithmetic,
                function,
                min_periods,
                cells,
                states,
                values,
                j,
                means.drop_last(),
            );
            let (delta, count, shift, rest, product) = choose|
                delta: u64,
                count: u64,
                shift: u64,
                rest: u64,
                product: u64,
            | #[trigger]
                window::welford(
                    arithmetic,
                    states[j],
                    x,
                    states[i],
                    delta,
                    count,
                    shift,
                    rest,
                    product,
                );
            lemma_exact_mean_step(
                arithmetic,
                states[j],
                x,
                states[i],
                delta,
                count,
                shift,
                rest,
                product,
                numbers(window::observed(cells.take(i))),
                means,
            );
        } else {
            lemma_exact_mean(arithmetic, function, min_periods, cells, states, values, j, means);
        }
    } else {
        assert(binary64::units(0) == 0);
    }
}

proof fn lemma_exact_spread<A: Arithmetic>(
    arithmetic: &A,
    function: ExpandingFn,
    min_periods: usize,
    cells: Seq<Option<u64>>,
    states: Seq<Accumulator>,
    values: Seq<Option<u64>>,
    i: int,
    means: Seq<int>,
    spreads: Seq<int>,
)
    requires
        window::expands_through(arithmetic, function, min_periods, cells, states, values),
        function is Mean || function is Sum || function is Std,
        rounds_correctly(arithmetic),
        0 <= i <= cells.len(),
        all_finite(window::observed(cells.take(i))),
        deviations_fit(numbers(window::observed(cells.take(i))), means, spreads),
    ensures
        stands_for(states[i].m2, spreads.last()),
    decreases i,
{
    vstd::arithmetic::power2::lemma_pow2_pos(1074);
    if i > 0 {
        let j = i - 1;
        window::lemma_window_grows(cells, j);
        window::lemma_seen(arithmetic, function, min_periods, cells, states, values, i);
        assert(window::expands_row(
            arithmetic,
            function,
            min_periods,
            states[j],
            cells[j],
            states[j + 1],
            values[j],
        ));
        if let Some(x) = cells[j] {
            lemma_numbers_push(window::observed(cells.take(j)), x);
            lemma_exact_mean(
                arithmetic,
                function,
                min_periods,
                cells,
                states,
                values,
                j,
                means.drop_last(),
            );
            lemma_exact_spread(
                arithmetic,
                function,
                min_periods,
                cells,
                states,
                values,
                j,
                means.drop_last(),
                spreads.drop_last(),
            );
            let (delta, count, shift, rest, product) = choose|
                delta: u64,
                count: u64,
                shift: u64,
                rest: u64,
                product: u64,
            | #[trigger]
                window::welford(
                    arithmetic,
                    states[j],
                    x,
                    states[i],
                    delta,
                    count,
                    shift,
                    rest,
                    product,
                );
            lemma_exact_spread_step(
                arithmetic,
                states[j],
                x,
                states[i],
                delta,
                count,
                shift,
                rest,
                product,
                numbers(window::observed(cells.take(i))),
                means,
                spreads,
            );
        } else {
            lemma_exact_spread(
                arithmetic,
                function,
                min_periods,
                cells,
                states,
                values,
                j,
                means,
                spreads,
            );
        }
    } else {
        assert(binary64::units(0) == 0);
        assert(spreads.last() == 0) by (nonlinear_arith)
            requires
                spreads.last() * binary64::one() == 0,
                binary64::one() > 0,
        ;
    }
}

/// The expanding sum is the sum of the observations so far, wherever their
/// running sums can be represented.
pub proof fn law_sum_is_exact<A: Arithmetic>(
    arithmetic: &A,
    min_periods: usize,
    cells: Seq<Option<u64>>,
    values: Seq<Option<u64>>,
    i: int,
)
    requires
        window::expands(arithmetic, ExpandingFn::Sum, min_periods, cells, values),
        rounds_correctly(arithmetic),
        0 <= i < cells.len(),
        values[i] is Some,
        all_finite(window::observed(cells.take(i + 1))),
        sums_fit(numbers(window::observed(cells.take(i + 1)))),
    ensures
        stands_for(values[i]->0, total(numbers(window::observed(cells.take(i + 1))))),
{
    let states = choose|states: Seq<Accumulator>| #[trigger]
        window::expands_through(arithmetic, ExpandingFn::Sum, min_periods, cells, states, values);
    lemma_exact_sum(arithmetic, ExpandingFn::Sum, min_periods, cells, states, values, i + 1);
    assert(window::expands_row(
        arithmetic,
        ExpandingFn::Sum,
        min_periods,
        states[i],
        cells[i],
        states[i + 1],
        values[i],
    ));
}

/// The expanding mean is the mean of the observations so far, wherever their
/// running means, and the differences formed on the way, can be represented.
pub proof fn law_mean_is_exact<A: Arithmetic>(
    arithmetic: &A,
    min_periods: usize,
    cells: Seq<Option<u64>>,
    values: Seq<Option<u64>>,
    i: int,
    means: Seq<int>,
)
    requires
        window::expands(arithmetic, ExpandingFn::Mean, min_periods, cells, values),
        rounds_correctly(arithmetic),
        0 <= i < cells.len(),
        values[i] is Some,
        all_finite(window::observed(cells.take(i + 1))),
        means_fit(numbers(window::observed(cells.take(i + 1))), means),
    ensures
        binary64::is_finite(values[i]->0),
        is_mean(numbers(window::observed(cells.take(i + 1))), binary64::units(values[i]->0)),
{
    let states = choose|states: Seq<Accumulator>| #[trigger]
        window::expands_through(arithmetic, ExpandingFn::Mean, min_periods, cells, states, values);
    lemma_exact_mean(
        arithmetic,
        ExpandingFn::Mean,
        min_periods,
        cells,
        states,
        values,
        i + 1,
        means,
    );
    assert(window::expands_row(
        arithmetic,
        ExpandingFn::Mean,
        min_periods,
        states[i],
        cells[i],
        states[i + 1],
        values[i],
    ));
}

/// The expanding standard deviation is that of the observations so far taken
/// as the whole population: its square times their number is the sum of their
/// squared deviations from their mean. This holds wherever that sum, its
/// running values, the variance and the root can be represented.
pub proof fn law_std_is_exact<A: Arithmetic>(
    arithmetic: &A,
    min_periods: usize,
    cells: Seq<Option<u64>>,
    values: Seq<Option<u64>>,
    i: int,
    means: Seq<int>,
    spreads: Seq<int>,
    variance: int,
    deviation: int,
)
    requires
        window::expands(arithmetic, ExpandingFn::Std, min_periods, cells, values),
        rounds_correctly(arithmetic),
        0 <= i < cells.len(),
        values[i] is Some,
        all_finite(window::observed(cells.take(i + 1))),
        deviations_fit(numbers(window::observed(cells.take(i + 1))), means, spreads),
        representable(variance),
        variance * window::observed(cells.take(i + 1)).len() == spreads.last(),
        representable(deviation),
        0 <= deviation,
        deviation * deviation == variance * binary64::one(),
    ensures
        stands_for(values[i]->0, deviation),
        is_mean(numbers(window::observed(cells.take(i + 1))), means.last()),
        window::observed(cells.take(i + 1)).len() * (deviation * deviation) == squared_deviations(
            numbers(window::observed(cells.take(i + 1))),
            means.last(),
        ),
{
    let states = choose|states: Seq<Accumulator>| #[trigger]
        window::expands_through(arithmetic, ExpandingFn::Std, min_periods, cells, states, values);
    lemma_exact_spread(
        arithmetic,
        ExpandingFn::Std,
        min_periods,
        cells,
        states,
        values,
        i + 1,
        means,
        spreads,
    );
    window::lemma_seen(
        arithmetic,
        ExpandingFn::Std,
        min_periods,
        cells,
        states,
        values,
        i + 1,
    );
    window::lemma_window_grows(cells, i);
    let n = window::observed(cells.take(i + 1)).len() as int;
    let one = binary64::one();
    vstd::arithmetic::power2::lemma_pow2_pos(1074);
    assert(window::expands_row(
        arithmetic,
        ExpandingFn::Std,
        min_periods,
        states[i],
        cells[i],
        states[i + 1],
        values[i],
    ));
    let (count, quotient, result) = choose|count: u64, quotient: u64, result: u64| #[trigger]
        window::deviates(arithmetic, states[i + 1], count, quotient, result) && values[i] == Some(
            result,
        );
    assert(n > 0);
    assert(stands_for(count, n * one));
    assert(n * one != 0 && variance * (n * one) == spreads.last() * one) by (nonlinear_arith)
        requires
            n > 0,
            one > 0,
            variance * n == spreads.last(),
    ;
    assert(stands_for(quotient, variance));
    assert(stands_for(result, deviation));
    assert(n * (deviation * deviation) == spreads.last() * one) by (nonlinear_arith)
        requires
            deviation * deviation == variance * one,
            variance * n == spreads.last(),
    ;
}

} // verus!

//! What holds of an expanding statistic as a whole.

use crate::arithmetic::{self, Arithmetic};
use crate::binary64;
use crate::time_series::expanding::ExpandingFn;
use crate::time_series::window::{self, Accumulator};
use vstd::prelude::*;

verus! {

/// The values of those rows whose cell is not null.
pub open spec fn kept(cells: Seq<Option<u64>>, values: Seq<Option<u64>>) -> Seq<Option<u64>>
    decreases cells.len(),
{
    if cells.len() == 0 {
        Seq::empty()
    } else {
        match cells.last() {
            None => kept(cells.drop_last(), values.drop_last()),
            Some(x) => kept(cells.drop_last(), values.drop_last()).push(values.last()),
        }
    }
}

/// Whether `least` is the smallest of the numbers: it is one of them, and no
/// number is below it. It is a NaN only if all of them are.
pub open spec fn is_least(numbers: Seq<u64>, least: u64) -> bool {
    &&& numbers.contains(least)
    &&& forall|i: int|
        0 <= i < numbers.len() && !binary64::is_nan(#[trigger] numbers[i])
            ==> !binary64::is_nan(least) && binary64::units(least)
            <= binary64::units(numbers[i])
}

/// Whether `greatest` is the largest of the numbers: it is one of them, and no
/// number is above it. It is a NaN only if all of them are.
pub open spec fn is_greatest(numbers: Seq<u64>, greatest: u64) -> bool {
    &&& numbers.contains(greatest)
    &&& forall|i: int|
        0 <= i < numbers.len() && !binary64::is_nan(#[trigger] numbers[i])
            ==> !binary64::is_nan(greatest) && binary64::units(numbers[i])
            <= binary64::units(greatest)
}

/// Whether every operation gives a NaN where an operand is one, as IEEE 754
/// arithmetic does.
pub open spec fn propagates_nan<A: Arithmetic>(arithmetic: &A) -> bool {
    &&& forall|a: u64, b: u64, r: u64| #[trigger]
        arithmetic::gives_sum(arithmetic, a, b, r) && (binary64::is_nan(a)
            || binary64::is_nan(b)) ==> binary64::is_nan(r)
    &&& forall|a: u64, b: u64, r: u64| #[trigger]
        arithmetic::gives_difference(arithmetic, a, b, r) && (binary64::is_nan(a)
            || binary64::is_nan(b)) ==> binary64::is_nan(r)
    &&& forall|a: u64, b: u64, r: u64| #[trigger]
        arithmetic::gives_product(arithmetic, a, b, r) && (binary64::is_nan(a)
            || binary64::is_nan(b)) ==> binary64::is_nan(r)
    &&& forall|a: u64, b: u64, r: u64| #[trigger]
        arithmetic::gives_quotient(arithmetic, a, b, r) && (binary64::is_nan(a)
            || binary64::is_nan(b)) ==> binary64::is_nan(r)
    &&& forall|a: u64, r: u64| #[trigger]
        arithmetic::gives_root(arithmetic, a, r) && binary64::is_nan(a)
            ==> binary64::is_nan(r)
}

/// Every row keeps its position. A row whose cell is null gets null; a row whose
/// cell holds a value gets a value exactly where at least `min_periods` values
/// were observed up to and with it.
pub proof fn law_rows_that_get_a_value<A: Arithmetic>(
    arithmetic: &A,
    function: ExpandingFn,
    min_periods: usize,
    cells: Seq<Option<u64>>,
    values: Seq<Option<u64>>,
    i: int,
)
    requires
        window::expands(arithmetic, function, min_periods, cells, values),
        0 <= i < cells.len(),
    ensures
        values.len() == cells.len(),
        cells[i] is None ==> values[i] is None,
        cells[i] is Some ==> (values[i] is Some <==> window::observed(cells.take(i + 1)).len()
            >= min_periods),
{
    let states = choose|states: Seq<Accumulator>| #[trigger]
        window::expands_through(arithmetic, function, min_periods, cells, states, values);
    window::lemma_presence(arithmetic, function, min_periods, cells, states, values, i);
}

/// The window only ever gains observations: what a row gets does not depend on
/// the rows after it, so the statistic of the first rows alone is the same.
pub proof fn law_later_rows_do_not_matter<A: Arithmetic>(
    arithmetic: &A,
    function: ExpandingFn,
    min_periods: usize,
    cells: Seq<Option<u64>>,
    values: Seq<Option<u64>>,
    rows: int,
)
    requires
        window::expands(arithmetic, function, min_periods, cells, values),
        0 <= rows <= cells.len(),
    ensures
        window::expands(
            arithmetic,
            function,
            min_periods,
            cells.take(rows),
            values.take(rows),
        ),
{
    let states = choose|states: Seq<Accumulator>| #[trigger]
        window::expands_through(
            arithmetic,
            function,
            min_periods,
            cells,
            states,
            values,
        );
    let fewer = states.take(rows + 1);
    assert forall|i: int| 0 <= i < rows implies window::expands_row(
        arithmetic,
        function,
        min_periods,
        fewer[i],
        #[trigger] cells.take(rows)[i],
        fewer[i + 1],
        values.take(rows)[i],
    ) by {
        assert(cells.take(rows)[i] == cells[i]);
    }
    assert(window::expands_through(
        arithmetic,
        function,
        min_periods,
        cells.take(rows),
        fewer,
        values.take(rows),
    ));
}

/// The states of the window once the null rows are dropped.
proof fn lemma_without_nulls<A: Arithmetic>(
    arithmetic: &A,
    function: ExpandingFn,
    min_periods: usize,
    cells: Seq<Option<u64>>,
    states: Seq<Accumulator>,
    values: Seq<Option<u64>>,
) -> (fewer: Seq<Accumulator>)
    requires
        window::expands_through(
            arithmetic,
            function,
            min_periods,
            cells,
            states,
            values,
        ),
    ensures
        window::expands_through(
            arithmetic,
            function,
            min_periods,
            window::observed(cells).map_values(|x: u64| Some(x)),
            fewer,
            kept(cells, values),
        ),
        fewer.last() == states.last(),
    decreases cells.len(),
{
    let some = |x: u64| Some(x);
    let packed = window::observed(cells).map_values(some);
    if cells.len() == 0 {
        assert(packed =~= Seq::<Option<u64>>::empty());
        states
    } else {
        let (cells0, states0, values0) = (
            cells.drop_last(),
            states.drop_last(),
            values.drop_last(),
        );
        let n = cells0.len() as int;
        assert forall|i: int| 0 <= i < n implies window::expands_row(
            arithmetic,
            function,
            min_periods,
            states0[i],
            #[trigger] cells0[i],
            states0[i + 1],
            values0[i],
        ) by {
            assert(cells0[i] == cells[i]);
        }
        let fewer0 = lemma_without_nulls(
            arithmetic,
            function,
            min_periods,
            cells0,
            states0,
            values0,
        );
        let packed0 = window::observed(cells0).map_values(some);
        assert(window::expands_row(
            arithmetic,
            function,
            min_periods,
            states[n],
            cells[n],
            states[n + 1],
            values[n],
        ));
        match cells.last() {
            None => fewer0,
            Some(x) => {
                let fewer = fewer0.push(states.last());
                assert(packed =~= packed0.push(Some(x)));
                let values1 = kept(cells, values);
                assert forall|i: int| 0 <= i < packed.len() implies
                    window::expands_row(
                    arithmetic,
                    function,
                    min_periods,
                    fewer[i],
                    #[trigger] packed[i],
                    fewer[i + 1],
                    values1[i],
                ) by {
                    if i < packed0.len() {
                        assert(packed[i] == packed0[i]);
                        assert(fewer[i] == fewer0[i] && fewer[i + 1] == fewer0[i + 1]);
                    }
                }
                fewer
            },
        }
    }
}

/// Null values do not contribute: the rows that hold a value get what they
/// would get in a column without the null rows.
pub proof fn law_nulls_do_not_contribute<A: Arithmetic>(
    arithmetic: &A,
    function: ExpandingFn,
    min_periods: usize,
    cells: Seq<Option<u64>>,
    values: Seq<Option<u64>>,
)
    requires
        window::expands(arithmetic, function, min_periods, cells, values),
    ensures
        window::expands(
            arithmetic,
            function,
            min_periods,
            window::observed(cells).map_values(|x: u64| Some(x)),
            kept(cells, values),
        ),
{
    let states = choose|states: Seq<Accumulator>| #[trigger]
        window::expands_through(
            arithmetic,
            function,
            min_periods,
            cells,
            states,
            values,
        );
    let fewer = lemma_without_nulls(arithmetic, function, min_periods, cells, states, values);
}

/// What one window has observed, every later one has too.
proof fn lemma_window_keeps(cells: Seq<Option<u64>>, i: int, j: int, x: u64)
    requires
        0 <= i <= j <= cells.len(),
        window::observed(cells.take(i)).contains(x),
    ensures
        window::observed(cells.take(j)).contains(x),
    decreases j - i,
{
    if i < j {
        lemma_window_keeps(cells, i, j - 1, x);
        window::lemma_window_grows(cells, j - 1);
        let earlier = window::observed(cells.take(j - 1));
        let k = choose|k: int| 0 <= k < earlier.len() && earlier[k] == x;
        assert(window::observed(cells.take(j))[k] == x);
    }
}

proof fn lemma_least_grows(numbers: Seq<u64>, least: u64, x: u64)
    requires
        is_least(numbers, least),
    ensures
        is_least(numbers.push(x), binary64::lesser(least, x)),
{
    let grown = numbers.push(x);
    let k = choose|k: int| 0 <= k < numbers.len() && numbers[k] == least;
    assert(grown[k] == least && grown[numbers.len() as int] == x);
    assert forall|i: int| 0 <= i < grown.len() && !binary64::is_nan(#[trigger] grown[i]) implies
        !binary64::is_nan(binary64::lesser(least, x)) && binary64::units(binary64::lesser(least, x))
        <= binary64::units(grown[i]) by {
        if i < numbers.len() {
            assert(grown[i] == numbers[i]);
        }
    }
}

proof fn lemma_greatest_grows(numbers: Seq<u64>, greatest: u64, x: u64)
    requires
        is_greatest(numbers, greatest),
    ensures
        is_greatest(numbers.push(x), binary64::greater(greatest, x)),
{
    let grown = numbers.push(x);
    let k = choose|k: int| 0 <= k < numbers.len() && numbers[k] == greatest;
    assert(grown[k] == greatest && grown[numbers.len() as int] == x);
    assert forall|i: int| 0 <= i < grown.len() && !binary64::is_nan(#[trigger] grown[i]) implies
        !binary64::is_nan(binary64::greater(greatest, x)) && binary64::units(grown[i])
        <= binary64::units(binary64::greater(greatest, x)) by {
        if i < numbers.len() {
            assert(grown[i] == numbers[i]);
        }
    }
}

/// The running extremes before row `i`.
proof fn lemma_running_extremes<A: Arithmetic>(
    arithmetic: &A,
    function: ExpandingFn,
    min_periods: usize,
    cells: Seq<Option<u64>>,
    states: Seq<Accumulator>,
    values: Seq<Option<u64>>,
    i: int,
)
    requires
        window::expands_through(arithmetic, function, min_periods, cells, states, values),
        0 <= i <= cells.len(),
    ensures
        function is Min ==> match states[i].min {
            None => window::observed(cells.take(i)).len() == 0,
            Some(least) => is_least(window::observed(cells.take(i)), least),
        },
        function is Max ==> match states[i].max {
            None => window::observed(cells.take(i)).len() == 0,
            Some(greatest) => is_greatest(window::observed(cells.take(i)), greatest),
        },
    decreases i,
{
    if i > 0 {
        let j = i - 1;
        lemma_running_extremes(arithmetic, function, min_periods, cells, states, values, j);
        window::lemma_window_grows(cells, j);
        assert(window::expands_row(
            arithmetic,
            function,
            min_periods,
            states[j],
            cells[j],
            states[j + 1],
            values[j],
        ));
        if let Some(x) = cells[j] {
            let earlier = window::observed(cells.take(j));
            assert(earlier.push(x)[earlier.len() as int] == x);
            if function is Min && states[j].min is Some {
                lemma_least_grows(earlier, states[j].min->0, x);
            }
            if function is Max && states[j].max is Some {
                lemma_greatest_grows(earlier, states[j].max->0, x);
            }
        }
    }
}

/// The expanding minimum is the smallest number observed so far: it is one of
/// the observations, none is below it, and NaN observations are ignored as
/// long as there is a number.
pub proof fn law_min_is_least<A: Arithmetic>(
    arithmetic: &A,
    min_periods: usize,
    cells: Seq<Option<u64>>,
    values: Seq<Option<u64>>,
    i: int,
)
    requires
        window::expands(arithmetic, ExpandingFn::Min, min_periods, cells, values),
        0 <= i < cells.len(),
        values[i] is Some,
    ensures
        is_least(window::observed(cells.take(i + 1)), values[i]->0),
{
    let states = choose|states: Seq<Accumulator>| #[trigger]
        window::expands_through(arithmetic, ExpandingFn::Min, min_periods, cells, states, values);
    lemma_running_extremes(
        arithmetic,
        ExpandingFn::Min,
        min_periods,
        cells,
        states,
        values,
        i + 1,
    );
    assert(window::expands_row(
        arithmetic,
        ExpandingFn::Min,
        min_periods,
        states[i],
        cells[i],
        states[i + 1],
        values[i],
    ));
}

/// The expanding maximum is the largest number observed so far: it is one of
/// the observations, none is above it, and NaN observations are ignored as
/// long as there is a number.
pub proof fn law_max_is_greatest<A: Arithmetic>(
    arithmetic: &A,
    min_periods: usize,
    cells: Seq<Option<u64>>,
    values: Seq<Option<u64>>,
    i: int,
)
    requires
        window::expands(arithmetic, ExpandingFn::Max, min_periods, cells, values),
        0 <= i < cells.len(),
        values[i] is Some,
    ensures
        is_greatest(window::observed(cells.take(i + 1)), values[i]->0),
{
    let states = choose|states: Seq<Accumulator>| #[trigger]
        window::expands_through(arithmetic, ExpandingFn::Max, min_periods, cells, states, values);
    lemma_running_extremes(
        arithmetic,
        ExpandingFn::Max,
        min_periods,
        cells,
        states,
        values,
        i + 1,
    );
    assert(window::expands_row(
        arithmetic,
        ExpandingFn::Max,
        min_periods,
        states[i],
        cells[i],
        states[i + 1],
        values[i],
    ));
}

/// The expanding minimum never rises from one row to a later one.
pub proof fn law_min_never_rises<A: Arithmetic>(
    arithmetic: &A,
    min_periods: usize,
    cells: Seq<Option<u64>>,
    values: Seq<Option<u64>>,
    i: int,
    j: int,
)
    requires
        window::expands(arithmetic, ExpandingFn::Min, min_periods, cells, values),
        0 <= i <= j < cells.len(),
        values[i] is Some,
        values[j] is Some,
        !binary64::is_nan(values[i]->0),
    ensures
        !binary64::is_nan(values[j]->0),
        binary64::units(values[j]->0) <= binary64::units(values[i]->0),
{
    law_min_is_least(arithmetic, min_periods, cells, values, i);
    law_min_is_least(arithmetic, min_periods, cells, values, j);
    lemma_window_keeps(cells, i + 1, j + 1, values[i]->0);
}

/// The expanding maximum never falls from one row to a later one.
pub proof fn law_max_never_falls<A: Arithmetic>(
    arithmetic: &A,
    min_periods: usize,
    cells: Seq<Option<u64>>,
    values: Seq<Option<u64>>,
    i: int,
    j: int,
)
    requires
        window::expands(arithmetic, ExpandingFn::Max, min_periods, cells, values),
        0 <= i <= j < cells.len(),
        values[i] is Some,
        values[j] is Some,
        !binary64::is_nan(values[i]->0),
    ensures
        !binary64::is_nan(values[j]->0),
        binary64::units(values[i]->0) <= binary64::units(values[j]->0),
{
    law_max_is_greatest(arithmetic, min_periods, cells, values, i);
    law_max_is_greatest(arithmetic, min_periods, cells, values, j);
    lemma_window_keeps(cells, i + 1, j + 1, values[i]->0);
}

/// Once a NaN was observed, sum, mean and squared deviations are NaN.
proof fn lemma_nan_stays<A: Arithmetic>(
    arithmetic: &A,
    function: ExpandingFn,
    min_periods: usize,
    cells: Seq<Option<u64>>,
    states: Seq<Accumulator>,
    values: Seq<Option<u64>>,
    j: int,
    i: int,
)
    requires
        window::expands_through(arithmetic, function, min_periods, cells, states, values),
        function is Mean || function is Sum || function is Std,
        propagates_nan(arithmetic),
        0 <= j < i <= cells.len(),
        cells[j] is Some,
        binary64::is_nan(cells[j]->0),
    ensures
        binary64::is_nan(states[i].sum),
        binary64::is_nan(states[i].mean),
        binary64::is_nan(states[i].m2),
    decreases i,
{
    let k = i - 1;
    assert(window::expands_row(
        arithmetic,
        function,
        min_periods,
        states[k],
        cells[k],
        states[k + 1],
        values[k],
    ));
    if j < k {
        lemma_nan_stays(arithmetic, function, min_periods, cells, states, values, j, k);
    }
}

/// A NaN is a value, not a missing one: from the row that holds it on, every
/// expanding mean, sum and standard deviation is NaN.
pub proof fn law_nan_propagates<A: Arithmetic>(
    arithmetic: &A,
    function: ExpandingFn,
    min_periods: usize,
    cells: Seq<Option<u64>>,
    values: Seq<Option<u64>>,
    j: int,
    i: int,
)
    requires
        window::expands(arithmetic, function, min_periods, cells, values),
        function is Mean || function is Sum || function is Std,
        propagates_nan(arithmetic),
        0 <= j <= i < cells.len(),
        cells[j] is Some,
        binary64::is_nan(cells[j]->0),
        values[i] is Some,
    ensures
        binary64::is_nan(values[i]->0),
{
    let states = choose|states: Seq<Accumulator>| #[trigger]
        window::expands_through(arithmetic, function, min_periods, cells, states, values);
    lemma_nan_stays(arithmetic, function, min_periods, cells, states, values, j, i + 1);
    assert(window::expands_row(
        arithmetic,
        function,
        min_periods,
        states[i],
        cells[i],
        states[i + 1],
        values[i],
    ));
}

/// Whether every operation has one outcome for given operands.
pub open spec fn repeatable<A: Arithmetic>(arithmetic: &A) -> bool {
    &&& forall|a: u64, b: u64, r: u64, s: u64| #[trigger]
        arithmetic::gives_sum(arithmetic, a, b, r) && #[trigger] arithmetic::gives_sum(
            arithmetic,
            a,
            b,
            s,
        ) ==> r == s
    &&& forall|a: u64, b: u64, r: u64, s: u64| #[trigger]
        arithmetic::gives_difference(arithmetic, a, b, r) && #[trigger]
        arithmetic::gives_difference(arithmetic, a, b, s) ==> r == s
    &&& forall|a: u64, b: u64, r: u64, s: u64| #[trigger]
        arithmetic::gives_product(arithmetic, a, b, r) && #[trigger] arithmetic::gives_product(
            arithmetic,
            a,
            b,
            s,
        ) ==> r == s
    &&& forall|a: u64, b: u64, r: u64, s: u64| #[trigger]
        arithmetic::gives_quotient(arithmetic, a, b, r) && #[trigger] arithmetic::gives_quotient(
            arithmetic,
            a,
            b,
            s,
        ) ==> r == s
    &&& forall|a: u64, r: u64, s: u64| #[trigger]
        arithmetic::gives_root(arithmetic, a, r) && #[trigger] arithmetic::gives_root(
            arithmetic,
            a,
            s,
        ) ==> r == s
    &&& forall|n: usize, r: u64, s: u64| #[trigger]
        arithmetic::gives_count(arithmetic, n, r) && #[trigger] arithmetic::gives_count(
            arithmetic,
            n,
            s,
        ) ==> r == s
}

proof fn lemma_same_states<A: Arithmetic>(
    arithmetic: &A,
    function: ExpandingFn,
    min_periods: usize,
    cells: Seq<Option<u64>>,
    states: Seq<Accumulator>,
    values: Seq<Option<u64>>,
    other_states: Seq<Accumulator>,
    other_values: Seq<Option<u64>>,
    i: int,
)
    requires
        window::expands_through(arithmetic, function, min_periods, cells, states, values),
        window::expands_through(
            arithmetic,
            function,
            min_periods,
            cells,
            other_states,
            other_values,
        ),
        repeatable(arithmetic),
        0 <= i <= cells.len(),
    ensures
        states[i] == other_states[i],
        i > 0 ==> values[i - 1] == other_values[i - 1],
    decreases i,
{
    if i > 0 {
        let j = i - 1;
        lemma_same_states(
            arithmetic,
            function,
            min_periods,
            cells,
            states,
            values,
            other_states,
            other_values,
            j,
        );
        assert(window::expands_row(
            arithmetic,
            function,
            min_periods,
            states[j],
            cells[j],
            states[j + 1],
            values[j],
        ));
        assert(window::expands_row(
            arithmetic,
            function,
            min_periods,
            other_states[j],
            cells[j],
            other_states[j + 1],
            other_values[j],
        ));
    }
}

/// The same column gives the same statistic again, wherever the operations give
/// the same results again.
pub proof fn law_same_column_same_values<A: Arithmetic>(
    arithmetic: &A,
    function: ExpandingFn,
    min_periods: usize,
    cells: Seq<Option<u64>>,
    values: Seq<Option<u64>>,
    other_values: Seq<Option<u64>>,
)
    requires
        window::expands(arithmetic, function, min_periods, cells, values),
        window::expands(arithmetic, function, min_periods, cells, other_values),
        repeatable(arithmetic),
    ensures
        values == other_values,
{
    let states = choose|states: Seq<Accumulator>| #[trigger]
        window::expands_through(arithmetic, function, min_periods, cells, states, values);
    let other_states = choose|states: Seq<Accumulator>| #[trigger]
        window::expands_through(arithmetic, function, min_periods, cells, states, other_values);
    assert forall|i: int| 0 <= i < cells.len() implies values[i] == other_values[i] by {
        lemma_same_states(
            arithmetic,
            function,
            min_periods,
            cells,
            states,
            values,
            other_states,
            other_values,
            i + 1,
        );
    }
    assert(values =~= other_values);
}

/// Whether two patterns are equal or both NaN.
pub open spec fn alike(first: u64, second: u64) -> bool {
    first == second || (binary64::is_nan(first) && binary64::is_nan(second))
}

/// Whether two cells are both null or hold patterns that are alike.
pub open spec fn alike_cells(first: Option<u64>, second: Option<u64>) -> bool {
    match (first, second) {
        (Some(a), Some(b)) => alike(a, b),
        (None, None) => true,
        _ => false,
    }
}

/// Whether two columns agree row by row, up to which NaN it is.
pub open spec fn alike_rows(first: Seq<Option<u64>>, second: Seq<Option<u64>>) -> bool {
    &&& first.len() == second.len()
    &&& forall|i: int|
        #![trigger first[i]]
        #![trigger second[i]]
        0 <= i < first.len() ==> alike_cells(first[i], second[i])
}

/// Whether every operation gives results that are alike for operands that are,
/// as the arithmetic of `Float64` numbers does: which NaN comes out of an
/// operation is left open, everything else is not.
pub open spec fn repeatable_up_to_nan<A: Arithmetic>(arithmetic: &A) -> bool {
    &&& forall|a: u64, b: u64, r: u64, c: u64, d: u64, s: u64| #[trigger]
        arithmetic::gives_sum(arithmetic, a, b, r) && #[trigger] arithmetic::gives_sum(
            arithmetic,
            c,
            d,
            s,
        ) && alike(a, c) && alike(b, d) ==> alike(r, s)
    &&& forall|a: u64, b: u64, r: u64, c: u64, d: u64, s: u64| #[trigger]
        arithmetic::gives_difference(arithmetic, a, b, r) && #[trigger]
        arithmetic::gives_difference(arithmetic, c, d, s) && alike(a, c) && alike(b, d) ==> alike(
            r,
            s,
        )
    &&& forall|a: u64, b: u64, r: u64, c: u64, d: u64, s: u64| #[trigger]
        arithmetic::gives_product(arithmetic, a, b, r) && #[trigger] arithmetic::gives_product(
            arithmetic,
            c,
            d,
            s,
        ) && alike(a, c) && alike(b, d) ==> alike(r, s)
    &&& forall|a: u64, b: u64, r: u64, c: u64, d: u64, s: u64| #[trigger]
        arithmetic::gives_quotient(arithmetic, a, b, r) && #[trigger] arithmetic::gives_quotient(
            arithmetic,
            c,
            d,
            s,
        ) && alike(a, c) && alike(b, d) ==> alike(r, s)
    &&& forall|a: u64, r: u64, c: u64, s: u64| #[trigger]
        arithmetic::gives_root(arithmetic, a, r) && #[trigger] arithmetic::gives_root(
            arithmetic,
            c,
            s,
        ) && alike(a, c) ==> alike(r, s)
    &&& forall|n: usize, r: u64, s: u64| #[trigger]
        arithmetic::gives_count(arithmetic, n, r) && #[trigger] arithmetic::gives_count(
            arithmetic,
            n,
            s,
        ) ==> alike(r, s)
}

/// Whether two accumulators agree up to which NaN they hold.
spec fn alike_states(first: Accumulator, second: Accumulator) -> bool {
    &&& first.seen == second.seen
    &&& alike(first.sum, second.sum)
    &&& alike(first.mean, second.mean)
    &&& alike(first.m2, second.m2)
    &&& alike_cells(first.min, second.min)
    &&& alike_cells(first.max, second.max)
}

proof fn lemma_alike_welford<A: Arithmetic>(
    arithmetic: &A,
    function: ExpandingFn,
    before: Accumulator,
    x: u64,
    after: Accumulator,
    other_before: Accumulator,
    other_x: u64,
    other_after: Accumulator,
)
    requires
        window::observes(arithmetic, function, before, x, after),
        window::observes(arithmetic, function, other_before, other_x, other_after),
        function is Mean || function is Sum || function is Std,
        repeatable_up_to_nan(arithmetic),
        alike_states(before, other_before),
        alike(x, other_x),
    ensures
        alike_states(after, other_after),
{
    let (d, c, s, e, p) = choose|
        delta: u64,
        count: u64,
        shift: u64,
        rest: u64,
        product: u64,
    | #[trigger]
        window::welford(arithmetic, before, x, after, delta, count, shift, rest, product);
    let (d2, c2, s2, e2, p2) = choose|
        delta: u64,
        count: u64,
        shift: u64,
        rest: u64,
        product: u64,
    | #[trigger]
        window::welford(
            arithmetic,
            other_before,
            other_x,
            other_after,
            delta,
            count,
            shift,
            rest,
            product,
        );
    assert(alike(after.sum, other_after.sum));
    assert(alike(d, d2) && alike(c, c2));
    assert(alike(s, s2));
    assert(alike(after.mean, other_after.mean));
    assert(alike(e, e2));
    assert(alike(p, p2));
}

/// One row of two columns that are alike.
proof fn lemma_alike_row<A: Arithmetic>(
    arithmetic: &A,
    function: ExpandingFn,
    min_periods: usize,
    before: Accumulator,
    cell: Option<u64>,
    after: Accumulator,
    value: Option<u64>,
    other_before: Accumulator,
    other_cell: Option<u64>,
    other_after: Accumulator,
    other_value: Option<u64>,
)
    requires
        window::expands_row(arithmetic, function, min_periods, before, cell, after, value),
        window::expands_row(
            arithmetic,
            function,
            min_periods,
            other_before,
            other_cell,
            other_after,
            other_value,
        ),
        repeatable_up_to_nan(arithmetic),
        alike_states(before, other_before),
        alike_cells(cell, other_cell),
    ensures
        alike_states(after, other_after),
        alike_cells(value, other_value),
{
    if let Some(x) = cell {
        let other_x = other_cell->0;
        if !(function is Min || function is Max) {
            lemma_alike_welford(
                arithmetic,
                function,
                before,
                x,
                after,
                other_before,
                other_x,
                other_after,
            );
        }
        if function is Std && after.seen >= min_periods {
            let (c, v, d) = choose|count: u64, variance: u64, deviation: u64| #[trigger]
                window::deviates(arithmetic, after, count, variance, deviation) && value == Some(
                    deviation,
                );
            let (c2, v2, d2) = choose|count: u64, variance: u64, deviation: u64| #[trigger]
                window::deviates(arithmetic, other_after, count, variance, deviation)
                    && other_value == Some(deviation);
            assert(alike(c, c2));
            assert(alike(v, v2));
            assert(alike(d, d2));
        }
    }
}

proof fn lemma_alike_states<A: Arithmetic>(
    arithmetic: &A,
    function: ExpandingFn,
    min_periods: usize,
    cells: Seq<Option<u64>>,
    states: Seq<Accumulator>,
    values: Seq<Option<u64>>,
    other_cells: Seq<Option<u64>>,
    other_states: Seq<Accumulator>,
    other_values: Seq<Option<u64>>,
    i: int,
)
    requires
        window::expands_through(arithmetic, function, min_periods, cells, states, values),
        window::expands_through(
            arithmetic,
            function,
            min_periods,
            other_cells,
            other_states,
            other_values,
        ),
        repeatable_up_to_nan(arithmetic),
        alike_rows(cells, other_cells),
        0 <= i <= cells.len(),
    ensures
        alike_states(states[i], other_states[i]),
        i > 0 ==> alike_cells(values[i - 1], other_values[i - 1]),
    decreases i,
{
    if i > 0 {
        let j = i - 1;
        lemma_alike_states(
            arithmetic,
            function,
            min_periods,
            cells,
            states,
            values,
            other_cells,
            other_states,
            other_values,
            j,
        );
        assert(alike_cells(cells[j], other_cells[j]));
        lemma_alike_row(
            arithmetic,
            function,
            min_periods,
            states[j],
            cells[j],
            states[j + 1],
            values[j],
            other_states[j],
            other_cells[j],
            other_states[j + 1],
            other_values[j],
        );
    }
}

/// Columns that agree up to which NaN they hold have statistics that do, row by
/// row. In particular two runs on one column give the same values, NaN counting
/// as equal to NaN.
pub proof fn law_alike_columns_alike_values<A: Arithmetic>(
    arithmetic: &A,
    function: ExpandingFn,
    min_periods: usize,
    cells: Seq<Option<u64>>,
    values: Seq<Option<u64>>,
    other_cells: Seq<Option<u64>>,
    other_values: Seq<Option<u64>>,
)
    requires
        window::expands(arithmetic, function, min_periods, cells, values),
        window::expands(arithmetic, function, min_periods, other_cells, other_values),
        repeatable_up_to_nan(arithmetic),
        alike_rows(cells, other_cells),
    ensures
        alike_rows(values, other_values),
{
    let states = choose|states: Seq<Accumulator>| #[trigger]
        window::expands_through(arithmetic, function, min_periods, cells, states, values);
    let other_states = choose|states: Seq<Accumulator>| #[trigger]
        window::expands_through(
            arithmetic,
            function,
            min_periods,
            other_cells,
            states,
            other_values,
        );
    assert forall|i: int| 0 <= i < values.len() implies alike_cells(
        #[trigger] values[i],
        other_values[i],
    ) by {
        lemma_alike_states(
            arithmetic,
            function,
            min_periods,
            cells,
            states,
            values,
            other_cells,
            other_states,
            other_values,
            i + 1,
        );
    }
    assert forall|i: int| 0 <= i < values.len() implies alike_cells(
        values[i],
        #[trigger] other_values[i],
    ) by {
        assert(alike_cells(values[i], other_values[i]));
    }
}

/// The statistic of the first rows alone is the beginning of the statistic of
/// all rows, NaN counting as equal to NaN.
pub proof fn law_first_rows_alone<A: Arithmetic>(
    arithmetic: &A,
    function: ExpandingFn,
    min_periods: usize,
    cells: Seq<Option<u64>>,
    values: Seq<Option<u64>>,
    rows: int,
    first_values: Seq<Option<u64>>,
)
    requires
        window::expands(arithmetic, function, min_periods, cells, values),
        0 <= rows <= cells.len(),
        window::expands(arithmetic, function, min_periods, cells.take(rows), first_values),
        repeatable_up_to_nan(arithmetic),
    ensures
        alike_rows(first_values, values.take(rows)),
{
    law_later_rows_do_not_matter(arithmetic, function, min_periods, cells, values, rows);
    law_alike_columns_alike_values(
        arithmetic,
        function,
        min_periods,
        cells.take(rows),
        first_values,
        cells.take(rows),
        values.take(rows),
    );
}

/// The statistic of a column without its null rows is what the rows that hold a
/// value get in the whole column, NaN counting as equal to NaN; the null rows
/// get null.
pub proof fn law_null_rows_dropped<A: Arithmetic>(
    arithmetic: &A,
    function: ExpandingFn,
    min_periods: usize,
    cells: Seq<Option<u64>>,
    values: Seq<Option<u64>>,
    packed_values: Seq<Option<u64>>,
)
    requires
        window::expands(arithmetic, function, min_periods, cells, values),
        window::expands(
            arithmetic,
            function,
            min_periods,
            window::observed(cells).map_values(|x: u64| Some(x)),
            packed_values,
        ),
        repeatable_up_to_nan(arithmetic),
    ensures
        alike_rows(packed_values, kept(cells, values)),
        forall|i: int|
            0 <= i < cells.len() && cells[i] is None ==> #[trigger] values[i] is None,
{
    law_nulls_do_not_contribute(arithmetic, function, min_periods, cells, values);
    let packed = window::observed(cells).map_values(|x: u64| Some(x));
    law_alike_columns_alike_values(
        arithmetic,
        function,
        min_periods,
        packed,
        packed_values,
        packed,
        kept(cells, values),
    );
    assert forall|i: int| 0 <= i < cells.len() && cells[i] is None implies #[trigger] values[i]
        is None by {
        law_rows_that_get_a_value(arithmetic, function, min_periods, cells, values, i);
    }
}

} // verus!

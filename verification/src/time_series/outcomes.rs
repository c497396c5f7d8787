//! What the values are, said of the cells and of the operations alone.
//!
//! Minimum and maximum are compared with the cells themselves. Sum, mean and
//! standard deviation are traced through the outcomes of the operations, from
//! zero on and over every observation.

use crate::arithmetic::Arithmetic;
use crate::binary64;
use crate::time_series::expanding::{ExpandingAggregator, ExpandingFn};
use crate::time_series::laws;
use crate::time_series::window::{self, expand, Accumulator};
use crate::error::Error;
use crate::frames;
use polars::prelude::Series;
use vstd::prelude::*;

verus! {

/// The observations are the cells that are not null, all of them and in order.
pub proof fn law_observed(cells: Seq<Option<u64>>)
    ensures
        window::observed(cells) == cells.filter(|cell: Option<u64>| cell is Some).map_values(
            |cell: Option<u64>| cell->0,
        ),
        window::observed(cells).len() == cells.filter(|cell: Option<u64>| cell is Some).len(),
    decreases cells.len(),
{
    let is_some = |cell: Option<u64>| cell is Some;
    let value = |cell: Option<u64>| cell->0;
    reveal(Seq::filter);
    if cells.len() > 0 {
        law_observed(cells.drop_last());
    }
    assert(window::observed(cells) =~= cells.filter(is_some).map_values(value));
}

/// A computed column has a row for each cell. A row whose cell is null gets
/// null. A row whose cell holds a value gets one exactly where at least
/// `min_periods` of the cells up to and with it are not null.
pub proof fn law_computed_rows<A: Arithmetic>(
    arithmetic: &A,
    function: ExpandingFn,
    min_periods: usize,
    cells: Vec<Option<u64>>,
    values: Vec<Option<u64>>,
    i: int,
)
    requires
        call_ensures(expand::<A>, (arithmetic, function, min_periods, &cells), values),
        0 <= i < cells@.len(),
    ensures
        values@.len() == cells@.len(),
        values@[i] is Some <==> cells@[i] is Some && cells@.take(i + 1).filter(
            |cell: Option<u64>| cell is Some,
        ).len() >= min_periods,
        window::expands(arithmetic, function, min_periods, cells@, values@),
{
    law_observed(cells@.take(i + 1));
}

/// The expanding statistic of a series is computed from its cells, by the
/// function and with the number of observations that are configured. Whether
/// there is one depends on the type alone.
pub proof fn law_series_are_expanded<A: Arithmetic>(
    aggregator: ExpandingAggregator,
    arithmetic: &A,
    series: Series,
    result: Result<Series, Error>,
)
    requires
        call_ensures(
            ExpandingAggregator::expanding_series::<A>,
            (&aggregator, &series, arithmetic),
            result,
        ),
    ensures
        result is Ok <==> frames::series_is_float64(series),
        result matches Ok(expanded) ==> {
            &&& frames::series_is_float64(expanded)
            &&& frames::series_name(expanded).len() == 0
            &&& window::expands(
                arithmetic,
                aggregator@.function,
                aggregator@.min_periods,
                frames::series_cells(series),
                frames::series_cells(expanded),
            )
        },
        result matches Err(error) ==> (error matches Error::InvalidInput(text) && text@
            == "column must be f64"@),
{
}

/// The statistic of any series can be asked for that is short enough for polars.
pub proof fn law_series_that_can_be_expanded<A: Arithmetic>(
    aggregator: ExpandingAggregator,
    arithmetic: &A,
    series: Series,
)
    requires
        frames::series_is_float64(series) ==> frames::series_cells(series).len() < 0xffff_ffff,
    ensures
        call_requires(
            ExpandingAggregator::expanding_series::<A>,
            (&aggregator, &series, arithmetic),
        ),
{
}

/// Any column can be computed, and any observation taken that can be counted.
pub proof fn law_any_column_is_computed<A: Arithmetic>(
    arithmetic: &A,
    function: ExpandingFn,
    min_periods: usize,
    cells: Vec<Option<u64>>,
    state: Accumulator,
    x: u64,
)
    ensures
        call_requires(expand::<A>, (arithmetic, function, min_periods, &cells)),
        state.seen < usize::MAX ==> call_requires(
            Accumulator::observe::<A>,
            (state, arithmetic, function, x),
        ),
        call_requires(Accumulator::statistic::<A>, (&state, arithmetic, function)),
{
}

/// A window holds each value of the cells that it goes over.
proof fn lemma_window_holds(cells: Seq<Option<u64>>, rows: int, j: int)
    requires
        0 <= j < rows <= cells.len(),
        cells[j] is Some,
    ensures
        window::observed(cells.take(rows)).contains(cells[j]->0),
    decreases rows,
{
    let earlier = window::observed(cells.take(rows - 1));
    window::lemma_window_grows(cells, rows - 1);
    if j < rows - 1 {
        lemma_window_holds(cells, rows - 1, j);
        let k = choose|k: int| 0 <= k < earlier.len() && earlier[k] == cells[j]->0;
        assert(window::observed(cells.take(rows))[k] == cells[j]->0);
    } else {
        assert(window::observed(cells.take(rows))[earlier.len() as int] == cells[j]->0);
    }
}

/// What a window holds comes from the cells that it goes over.
proof fn lemma_window_comes_from(cells: Seq<Option<u64>>, rows: int, x: u64) -> (j: int)
    requires
        0 <= rows <= cells.len(),
        window::observed(cells.take(rows)).contains(x),
    ensures
        0 <= j < rows,
        cells[j] == Some(x),
    decreases rows,
{
    let now = window::observed(cells.take(rows));
    let k = choose|k: int| 0 <= k < now.len() && now[k] == x;
    if rows == 0 {
        assert(cells.take(0) =~= Seq::<Option<u64>>::empty());
        0
    } else {
        window::lemma_window_grows(cells, rows - 1);
        if cells[rows - 1] == Some(x) {
            rows - 1
        } else {
            let earlier = window::observed(cells.take(rows - 1));
            assert(k < earlier.len() && earlier[k] == x);
            lemma_window_comes_from(cells, rows - 1, x)
        }
    }
}

/// A row that gets a value has observed one.
pub(crate) proof fn lemma_value_observed<A: Arithmetic>(
    arithmetic: &A,
    function: ExpandingFn,
    min_periods: usize,
    cells: Seq<Option<u64>>,
    values: Seq<Option<u64>>,
    i: int,
)
    requires
        window::expands(arithmetic, function, min_periods, cells, values),
        0 <= i < cells.len(),
        values[i] is Some,
    ensures
        window::observed(cells.take(i + 1)).len() > 0,
{
    laws::law_rows_that_get_a_value(arithmetic, function, min_periods, cells, values, i);
    lemma_window_holds(cells, i + 1, i);
}

/// The expanding minimum of a row is the value of a cell up to that row. No
/// number in those cells is below it, be it finite or infinite, and it is a NaN
/// only where they hold no number.
pub proof fn law_min_of_cells<A: Arithmetic>(
    arithmetic: &A,
    min_periods: usize,
    cells: Seq<Option<u64>>,
    values: Seq<Option<u64>>,
    i: int,
) -> (from: int)
    requires
        window::expands(arithmetic, ExpandingFn::Min, min_periods, cells, values),
        0 <= i < cells.len(),
        values[i] is Some,
    ensures
        0 <= from <= i,
        cells[from] == values[i],
        forall|j: int|
            0 <= j <= i && #[trigger] cells[j] is Some && cells[j]->0 & 0x7fff_ffff_ffff_ffff
                <= 0x7ff0_0000_0000_0000 ==> {
                &&& values[i]->0 & 0x7fff_ffff_ffff_ffff <= 0x7ff0_0000_0000_0000
                &&& binary64::units(values[i]->0) <= binary64::units(cells[j]->0)
            },
{
    laws::law_min_is_least(arithmetic, min_periods, cells, values, i);
    binary64::law_nan_pattern(values[i]->0);
    assert forall|j: int|
        0 <= j <= i && #[trigger] cells[j] is Some && cells[j]->0 & 0x7fff_ffff_ffff_ffff
            <= 0x7ff0_0000_0000_0000 implies {
        &&& values[i]->0 & 0x7fff_ffff_ffff_ffff <= 0x7ff0_0000_0000_0000
        &&& binary64::units(values[i]->0) <= binary64::units(cells[j]->0)
    } by {
        binary64::law_nan_pattern(cells[j]->0);
        lemma_window_holds(cells, i + 1, j);
    }
    lemma_window_comes_from(cells, i + 1, values[i]->0)
}

/// The expanding maximum of a row is the value of a cell up to that row. No
/// number in those cells is above it, be it finite or infinite, and it is a NaN
/// only where they hold no number.
pub proof fn law_max_of_cells<A: Arithmetic>(
    arithmetic: &A,
    min_periods: usize,
    cells: Seq<Option<u64>>,
    values: Seq<Option<u64>>,
    i: int,
) -> (from: int)
    requires
        window::expands(arithmetic, ExpandingFn::Max, min_periods, cells, values),
        0 <= i < cells.len(),
        values[i] is Some,
    ensures
        0 <= from <= i,
        cells[from] == values[i],
        forall|j: int|
            0 <= j <= i && #[trigger] cells[j] is Some && cells[j]->0 & 0x7fff_ffff_ffff_ffff
                <= 0x7ff0_0000_0000_0000 ==> {
                &&& values[i]->0 & 0x7fff_ffff_ffff_ffff <= 0x7ff0_0000_0000_0000
                &&& binary64::units(cells[j]->0) <= binary64::units(values[i]->0)
            },
{
    laws::law_max_is_greatest(arithmetic, min_periods, cells, values, i);
    binary64::law_nan_pattern(values[i]->0);
    assert forall|j: int|
        0 <= j <= i && #[trigger] cells[j] is Some && cells[j]->0 & 0x7fff_ffff_ffff_ffff
            <= 0x7ff0_0000_0000_0000 implies {
        &&& values[i]->0 & 0x7fff_ffff_ffff_ffff <= 0x7ff0_0000_0000_0000
        &&& binary64::units(cells[j]->0) <= binary64::units(values[i]->0)
    } by {
        binary64::law_nan_pattern(cells[j]->0);
        lemma_window_holds(cells, i + 1, j);
    }
    lemma_window_comes_from(cells, i + 1, values[i]->0)
}

/// The outcomes of the operations on some observations, one of each kind for
/// each observation. Sums, means and spreads begin with that of no observation.
pub struct Trace {
    /// The running sums.
    pub sums: Seq<u64>,
    /// The deviations of the observations from the mean before them.
    pub deltas: Seq<u64>,
    /// The numbers of observations.
    pub counts: Seq<u64>,
    /// The shares of the deviations by which the means move.
    pub shifts: Seq<u64>,
    /// The running means.
    pub means: Seq<u64>,
    /// The deviations of the observations from the mean with them.
    pub rests: Seq<u64>,
    /// The products of both deviations.
    pub products: Seq<u64>,
    /// The running sums of squared deviations.
    pub spreads: Seq<u64>,
}

/// Whether a trace has an outcome of each kind for each observation.
pub open spec fn covers(trace: Trace, observations: Seq<u64>) -> bool {
    &&& trace.sums.len() == observations.len() + 1
    &&& trace.deltas.len() == observations.len()
    &&& trace.counts.len() == observations.len()
    &&& trace.shifts.len() == observations.len()
    &&& trace.means.len() == observations.len() + 1
    &&& trace.rests.len() == observations.len()
    &&& trace.products.len() == observations.len()
    &&& trace.spreads.len() == observations.len() + 1
}

spec fn step_of<A: Arithmetic>(
    arithmetic: &A,
    observations: Seq<u64>,
    trace: Trace,
    k: int,
) -> bool {
    &&& call_ensures(
        A::sum,
        (arithmetic, trace.sums[k], observations[k]),
        trace.sums[k + 1],
    )
    &&& call_ensures(
        A::difference,
        (arithmetic, observations[k], trace.means[k]),
        trace.deltas[k],
    )
    &&& call_ensures(A::of_count, (arithmetic, (k + 1) as usize), trace.counts[k])
    &&& call_ensures(
        A::quotient,
        (arithmetic, trace.deltas[k], trace.counts[k]),
        trace.shifts[k],
    )
    &&& call_ensures(
        A::sum,
        (arithmetic, trace.means[k], trace.shifts[k]),
        trace.means[k + 1],
    )
    &&& call_ensures(
        A::difference,
        (arithmetic, observations[k], trace.means[k + 1]),
        trace.rests[k],
    )
    &&& call_ensures(
        A::product,
        (arithmetic, trace.deltas[k], trace.rests[k]),
        trace.products[k],
    )
    &&& call_ensures(
        A::sum,
        (arithmetic, trace.spreads[k], trace.products[k]),
        trace.spreads[k + 1],
    )
}

/// The outcomes on the way to the accumulator before row `i`.
proof fn lemma_trace<A: Arithmetic>(
    arithmetic: &A,
    function: ExpandingFn,
    min_periods: usize,
    cells: Seq<Option<u64>>,
    states: Seq<Accumulator>,
    values: Seq<Option<u64>>,
    i: int,
) -> (trace: Trace)
    requires
        window::expands_through(arithmetic, function, min_periods, cells, states, values),
        function is Mean || function is Sum || function is Std,
        0 <= i <= cells.len(),
    ensures
        covers(trace, window::observed(cells.take(i))),
        trace.sums[0] == 0,
        trace.means[0] == 0,
        trace.spreads[0] == 0,
        forall|k: int|
            0 <= k < window::observed(cells.take(i)).len() ==> #[trigger] step_of(
                arithmetic,
                window::observed(cells.take(i)),
                trace,
                k,
            ),
        trace.sums.last() == states[i].sum,
        trace.means.last() == states[i].mean,
        trace.spreads.last() == states[i].m2,
    decreases i,
{
    if i == 0 {
        assert(cells.take(0) =~= Seq::<Option<u64>>::empty());
        Trace {
            sums: seq![0u64],
            deltas: Seq::empty(),
            counts: Seq::empty(),
            shifts: Seq::empty(),
            means: seq![0u64],
            rests: Seq::empty(),
            products: Seq::empty(),
            spreads: seq![0u64],
        }
    } else {
        let j = i - 1;
        let before = lemma_trace(arithmetic, function, min_periods, cells, states, values, j);
        let earlier = window::observed(cells.take(j));
        let now = window::observed(cells.take(i));
        window::lemma_window_grows(cells, j);
        window::lemma_seen(arithmetic, function, min_periods, cells, states, values, i);
        assert(window::expands_row(
            arithmetic,
            function,
            min_periods,
            states[j],
            cells[j],
            states[j + 1],
            values[j],
        ));
        if let Some(x) = cells[j] {
            let (delta, count, shift, rest, product) = choose|
                delta: u64,
                count: u64,
                shift: u64,
                rest: u64,
                product: u64,
            | #[trigger]
                window::welford(
                    arithmetic,
                    states[j],
                    x,
                    states[i],
                    delta,
                    count,
                    shift,
                    rest,
                    product,
                );
            let trace = Trace {
                sums: before.sums.push(states[i].sum),
                deltas: before.deltas.push(delta),
                counts: before.counts.push(count),
                shifts: before.shifts.push(shift),
                means: before.means.push(states[i].mean),
                rests: before.rests.push(rest),
                products: before.products.push(product),
                spreads: before.spreads.push(states[i].m2),
            };
            assert forall|k: int| 0 <= k < now.len() implies #[trigger] step_of(
                arithmetic,
                now,
                trace,
                k,
            ) by {
                if k < earlier.len() {
                    assert(step_of(arithmetic, earlier, before, k));
                    assert(now[k] == earlier[k]);
                } else {
                    assert(k == earlier.len() && now[k] == x);
                    assert((k + 1) as usize == states[i].seen);
                }
            }
            trace
        } else {
            before
        }
    }
}

/// The expanding sum is the addition of all observations, from left to right
/// and beginning with zero: each partial sum is an outcome of adding the next
/// observation to the one before, whether that rounds or not.
pub proof fn law_sum_adds_every_observation<A: Arithmetic>(
    arithmetic: &A,
    min_periods: usize,
    cells: Seq<Option<u64>>,
    values: Seq<Option<u64>>,
    i: int,
) -> (sums: Seq<u64>)
    requires
        window::expands(arithmetic, ExpandingFn::Sum, min_periods, cells, values),
        0 <= i < cells.len(),
        values[i] is Some,
    ensures
        sums.len() == window::observed(cells.take(i + 1)).len() + 1,
        sums[0] == 0,
        forall|k: int|
            0 <= k < window::observed(cells.take(i + 1)).len() ==> call_ensures(
                A::sum,
                (arithmetic, sums[k], #[trigger] window::observed(cells.take(i + 1))[k]),
                sums[k + 1],
            ),
        values[i] == Some(sums.last()),
{
    let states = choose|states: Seq<Accumulator>| #[trigger]
        window::expands_through(arithmetic, ExpandingFn::Sum, min_periods, cells, states, values);
    let trace = lemma_trace(
        arithmetic,
        ExpandingFn::Sum,
        min_periods,
        cells,
        states,
        values,
        i + 1,
    );
    assert(window::expands_row(
        arithmetic,
        ExpandingFn::Sum,
        min_periods,
        states[i],
        cells[i],
        states[i + 1],
        values[i],
    ));
    let observations = window::observed(cells.take(i + 1));
    assert forall|k: int| 0 <= k < observations.len() implies call_ensures(
        A::sum,
        (arithmetic, trace.sums[k], #[trigger] observations[k]),
        trace.sums[k + 1],
    ) by {
        assert(step_of(arithmetic, observations, trace, k));
    }
    trace.sums
}

/// The expanding mean begins with zero and moves with every observation: by the
/// deviation of the observation from the mean so far, divided by the number of
/// observations with it. Each number on the way is an outcome of that operation.
pub proof fn law_mean_moves_with_every_observation<A: Arithmetic>(
    arithmetic: &A,
    min_periods: usize,
    cells: Seq<Option<u64>>,
    values: Seq<Option<u64>>,
    i: int,
) -> (trace: Trace)
    requires
        window::expands(arithmetic, ExpandingFn::Mean, min_periods, cells, values),
        0 <= i < cells.len(),
        values[i] is Some,
    ensures
        covers(trace, window::observed(cells.take(i + 1))),
        trace.means[0] == 0,
        forall|k: int|
            0 <= k < window::observed(cells.take(i + 1)).len() ==> {
                &&& call_ensures(
                    A::difference,
                    (
                        arithmetic,
                        window::observed(cells.take(i + 1))[k],
                        trace.means[k],
                    ),
                    #[trigger] trace.deltas[k],
                )
                &&& call_ensures(A::of_count, (arithmetic, (k + 1) as usize), trace.counts[k])
                &&& call_ensures(
                    A::quotient,
                    (arithmetic, trace.deltas[k], trace.counts[k]),
                    trace.shifts[k],
                )
                &&& call_ensures(
                    A::sum,
                    (arithmetic, trace.means[k], trace.shifts[k]),
                    trace.means[k + 1],
                )
            },
        window::observed(cells.take(i + 1)).len() <= usize::MAX,
        values[i] == Some(trace.means.last()),
{
    let states = choose|states: Seq<Accumulator>| #[trigger]
        window::expands_through(arithmetic, ExpandingFn::Mean, min_periods, cells, states, values);
    let trace = lemma_trace(
        arithmetic,
        ExpandingFn::Mean,
        min_periods,
        cells,
        states,
        values,
        i + 1,
    );
    window::lemma_seen(
        arithmetic,
        ExpandingFn::Mean,
        min_periods,
        cells,
        states,
        values,
        i + 1,
    );
    assert(window::expands_row(
        arithmetic,
        ExpandingFn::Mean,
        min_periods,
        states[i],
        cells[i],
        states[i + 1],
        values[i],
    ));
    let observations = window::observed(cells.take(i + 1));
    assert forall|k: int| 0 <= k < observations.len() implies {
        &&& call_ensures(
            A::difference,
            (arithmetic, observations[k], trace.means[k]),
            #[trigger] trace.deltas[k],
        )
        &&& call_ensures(A::of_count, (arithmetic, (k + 1) as usize), trace.counts[k])
        &&& call_ensures(
            A::quotient,
            (arithmetic, trace.deltas[k], trace.counts[k]),
            trace.shifts[k],
        )
        &&& call_ensures(
            A::sum,
            (arithmetic, trace.means[k], trace.shifts[k]),
            trace.means[k + 1],
        )
    } by {
        assert(step_of(arithmetic, observations, trace, k));
    }
    trace
}

/// The expanding standard deviation is the root of the sum of squared
/// deviations, divided by the number of observations. That sum begins with zero
/// and grows with every observation: by the product of its deviations from the
/// mean without it and from the mean with it. Each number on the way is an
/// outcome of that operation.
pub proof fn law_deviation_grows_with_every_observation<A: Arithmetic>(
    arithmetic: &A,
    min_periods: usize,
    cells: Seq<Option<u64>>,
    values: Seq<Option<u64>>,
    i: int,
) -> (outcome: (Trace, u64, u64))
    requires
        window::expands(arithmetic, ExpandingFn::Std, min_periods, cells, values),
        0 <= i < cells.len(),
        values[i] is Some,
    ensures
        covers(outcome.0, window::observed(cells.take(i + 1))),
        outcome.0.means[0] == 0,
        outcome.0.spreads[0] == 0,
        forall|k: int|
            0 <= k < window::observed(cells.take(i + 1)).len() ==> {
                &&& call_ensures(
                    A::difference,
                    (
                        arithmetic,
                        window::observed(cells.take(i + 1))[k],
                        outcome.0.means[k],
                    ),
                    #[trigger] outcome.0.deltas[k],
                )
                &&& call_ensures(
                    A::of_count,
                    (arithmetic, (k + 1) as usize),
                    outcome.0.counts[k],
                )
                &&& call_ensures(
                    A::quotient,
                    (arithmetic, outcome.0.deltas[k], outcome.0.counts[k]),
                    outcome.0.shifts[k],
                )
                &&& call_ensures(
                    A::sum,
                    (arithmetic, outcome.0.means[k], outcome.0.shifts[k]),
                    outcome.0.means[k + 1],
                )
                &&& call_ensures(
                    A::difference,
                    (
                        arithmetic,
                        window::observed(cells.take(i + 1))[k],
                        outcome.0.means[k + 1],
                    ),
                    outcome.0.rests[k],
                )
                &&& call_ensures(
                    A::product,
                    (arithmetic, outcome.0.deltas[k], outcome.0.rests[k]),
                    outcome.0.products[k],
                )
                &&& call_ensures(
                    A::sum,
                    (arithmetic, outcome.0.spreads[k], outcome.0.products[k]),
                    outcome.0.spreads[k + 1],
                )
            },
        window::observed(cells.take(i + 1)).len() <= usize::MAX,
        call_ensures(
            A::of_count,
            (arithmetic, window::observed(cells.take(i + 1)).len() as usize),
            outcome.1,
        ),
        call_ensures(
            A::quotient,
            (arithmetic, outcome.0.spreads.last(), outcome.1),
            outcome.2,
        ),
        values[i] is Some && call_ensures(A::root, (arithmetic, outcome.2), values[i]->0),
{
    let states = choose|states: Seq<Accumulator>| #[trigger]
        window::expands_through(arithmetic, ExpandingFn::Std, min_periods, cells, states, values);
    let trace = lemma_trace(
        arithmetic,
        ExpandingFn::Std,
        min_periods,
        cells,
        states,
        values,
        i + 1,
    );
    window::lemma_seen(
        arithmetic,
        ExpandingFn::Std,
        min_periods,
        cells,
        states,
        values,
        i + 1,
    );
    assert(window::expands_row(
        arithmetic,
        ExpandingFn::Std,
        min_periods,
        states[i],
        cells[i],
        states[i + 1],
        values[i],
    ));
    let observations = window::observed(cells.take(i + 1));
    let (count, variance, deviation) = choose|count: u64, variance: u64, deviation: u64| #[trigger]
        window::deviates(arithmetic, states[i + 1], count, variance, deviation) && values[i]
            == Some(deviation);
    assert forall|k: int| 0 <= k < observations.len() implies {
        &&& call_ensures(
            A::difference,
            (arithmetic, observations[k], trace.means[k]),
            #[trigger] trace.deltas[k],
        )
        &&& call_ensures(A::of_count, (arithmetic, (k + 1) as usize), trace.counts[k])
        &&& call_ensures(
            A::quotient,
            (arithmetic, trace.deltas[k], trace.counts[k]),
            trace.shifts[k],
        )
        &&& call_ensures(
            A::sum,
            (arithmetic, trace.means[k], trace.shifts[k]),
            trace.means[k + 1],
        )
        &&& call_ensures(
            A::difference,
            (arithmetic, observations[k], trace.means[k + 1]),
            trace.rests[k],
        )
        &&& call_ensures(
            A::product,
            (arithmetic, trace.deltas[k], trace.rests[k]),
            trace.products[k],
        )
        &&& call_ensures(
            A::sum,
            (arithmetic, trace.spreads[k], trace.products[k]),
            trace.spreads[k + 1],
        )
    } by {
        assert(step_of(arithmetic, observations, trace, k));
    }
    (trace, count, variance)
}

/// What one observation does to an accumulator. It is counted. For sum, mean and
/// standard deviation it is added to the sum, the mean moves by the share of its
/// deviation, and the product of its deviations from both means is added to the
/// spread. For the minimum and the maximum it is compared with the one so far.
pub proof fn law_observation<A: Arithmetic>(
    before: Accumulator,
    arithmetic: &A,
    function: ExpandingFn,
    x: u64,
    after: Accumulator,
) -> (outcome: (u64, u64, u64, u64, u64))
    requires
        call_ensures(Accumulator::observe::<A>, (before, arithmetic, function, x), after),
    ensures
        after.seen == before.seen + 1,
        function is Sum || function is Mean || function is Std ==> {
            &&& call_ensures(A::sum, (arithmetic, before.sum, x), after.sum)
            &&& call_ensures(A::difference, (arithmetic, x, before.mean), outcome.0)
            &&& call_ensures(A::of_count, (arithmetic, after.seen), outcome.1)
            &&& call_ensures(A::quotient, (arithmetic, outcome.0, outcome.1), outcome.2)
            &&& call_ensures(A::sum, (arithmetic, before.mean, outcome.2), after.mean)
            &&& call_ensures(A::difference, (arithmetic, x, after.mean), outcome.3)
            &&& call_ensures(A::product, (arithmetic, outcome.0, outcome.3), outcome.4)
            &&& call_ensures(A::sum, (arithmetic, before.m2, outcome.4), after.m2)
        },
        function is Min ==> {
            &&& after.min is Some
            &&& after.min == Some(x) || after.min == before.min
            &&& x & 0x7fff_ffff_ffff_ffff <= 0x7ff0_0000_0000_0000 ==> {
                &&& after.min->0 & 0x7fff_ffff_ffff_ffff <= 0x7ff0_0000_0000_0000
                &&& binary64::units(after.min->0) <= binary64::units(x)
            }
            &&& before.min is Some && before.min->0 & 0x7fff_ffff_ffff_ffff
                <= 0x7ff0_0000_0000_0000 ==> {
                &&& after.min->0 & 0x7fff_ffff_ffff_ffff <= 0x7ff0_0000_0000_0000
                &&& binary64::units(after.min->0) <= binary64::units(before.min->0)
            }
        },
        function is Max ==> {
            &&& after.max is Some
            &&& after.max == Some(x) || after.max == before.max
            &&& x & 0x7fff_ffff_ffff_ffff <= 0x7ff0_0000_0000_0000 ==> {
                &&& after.max->0 & 0x7fff_ffff_ffff_ffff <= 0x7ff0_0000_0000_0000
                &&& binary64::units(x) <= binary64::units(after.max->0)
            }
            &&& before.max is Some && before.max->0 & 0x7fff_ffff_ffff_ffff
                <= 0x7ff0_0000_0000_0000 ==> {
                &&& after.max->0 & 0x7fff_ffff_ffff_ffff <= 0x7ff0_0000_0000_0000
                &&& binary64::units(before.max->0) <= binary64::units(after.max->0)
            }
        },
{
    binary64::law_nan_pattern(x);
    if before.min is Some {
        binary64::law_nan_pattern(before.min->0);
    }
    if before.max is Some {
        binary64::law_nan_pattern(before.max->0);
    }
    if function is Sum || function is Mean || function is Std {
        let (delta, count, shift, rest, product) = choose|
            delta: u64,
            count: u64,
            shift: u64,
            rest: u64,
            product: u64,
        | #[trigger]
            window::welford(arithmetic, before, x, after, delta, count, shift, rest, product);
        (delta, count, shift, rest, product)
    } else {
        (0, 0, 0, 0, 0)
    }
}

/// What is read off an accumulator: the mean, the sum, the minimum or the
/// maximum as they are, or the root of the spread divided by the number of
/// observations.
pub proof fn law_reading<A: Arithmetic>(
    state: Accumulator,
    arithmetic: &A,
    function: ExpandingFn,
    value: Option<u64>,
) -> (outcome: (u64, u64))
    requires
        call_ensures(Accumulator::statistic::<A>, (&state, arithmetic, function), value),
    ensures
        function is Mean ==> value == Some(state.mean),
        function is Sum ==> value == Some(state.sum),
        function is Min ==> value == state.min,
        function is Max ==> value == state.max,
        function is Std ==> {
            &&& call_ensures(A::of_count, (arithmetic, state.seen), outcome.0)
            &&& call_ensures(A::quotient, (arithmetic, state.m2, outcome.0), outcome.1)
            &&& value is Some && call_ensures(A::root, (arithmetic, outcome.1), value->0)
        },
{
    if function is Std {
        let (count, variance, deviation) = choose|count: u64, variance: u64, deviation: u64|
            #[trigger] window::deviates(arithmetic, state, count, variance, deviation) && value
                == Some(deviation);
        (count, variance)
    } else {
        (0, 0)
    }
}

} // verus!

//! The growing window: an accumulator that takes one observation after the
//! other, and the statistic that each row gets from it.

use crate::arithmetic::{self, Arithmetic};
use crate::binary64::{self, take_greater, take_lesser};
use crate::time_series::expanding::ExpandingFn;
use vstd::prelude::*;

verus! {

/// What is known of the observations so far. Numbers are binary64 patterns.
#[derive(Clone, Copy)]
pub struct Accumulator {
    /// How many observations there were.
    pub seen: usize,
    /// Their sum.
    pub sum: u64,
    /// Their mean.
    pub mean: u64,
    /// The sum of their squared deviations from the mean.
    pub m2: u64,
    /// The smallest of them.
    pub min: Option<u64>,
    /// The largest of them.
    pub max: Option<u64>,
}

/// The accumulator before the first observation: zero is the pattern 0.
pub open spec fn nothing_seen() -> Accumulator {
    Accumulator { seen: 0, sum: 0, mean: 0, m2: 0, min: None, max: None }
}

/// The non-null cells, in order.
pub open spec fn observed(cells: Seq<Option<u64>>) -> Seq<u64>
    decreases cells.len(),
{
    if cells.len() == 0 {
        Seq::empty()
    } else {
        match cells.last() {
            None => observed(cells.drop_last()),
            Some(x) => observed(cells.drop_last()).push(x),
        }
    }
}

/// One step of Welford's algorithm, with the outcome of each operation: how
/// sum, mean and squared deviations go from `before` to `after` on `x`.
pub open spec fn welford<A: Arithmetic>(
    arithmetic: &A,
    before: Accumulator,
    x: u64,
    after: Accumulator,
    delta: u64,
    count: u64,
    shift: u64,
    rest: u64,
    product: u64,
) -> bool {
    &&& arithmetic::gives_sum(arithmetic, before.sum, x, after.sum)
    &&& arithmetic::gives_difference(arithmetic, x, before.mean, delta)
    &&& arithmetic::gives_count(arithmetic, after.seen, count)
    &&& arithmetic::gives_quotient(arithmetic, delta, count, shift)
    &&& arithmetic::gives_sum(arithmetic, before.mean, shift, after.mean)
    &&& arithmetic::gives_difference(arithmetic, x, after.mean, rest)
    &&& arithmetic::gives_product(arithmetic, delta, rest, product)
    &&& arithmetic::gives_sum(arithmetic, before.m2, product, after.m2)
}

/// How the accumulator goes from `before` to `after` on the observation `x`:
/// only what `function` needs is kept up to date.
pub open spec fn observes<A: Arithmetic>(
    arithmetic: &A,
    function: ExpandingFn,
    before: Accumulator,
    x: u64,
    after: Accumulator,
) -> bool {
    &&& after.seen == before.seen + 1
    &&& match function {
        ExpandingFn::Min => {
            &&& after.min == Some(
                match before.min {
                    None => x,
                    Some(current) => binary64::lesser(current, x),
                },
            )
            &&& after == (Accumulator { seen: after.seen, min: after.min, ..before })
        },
        ExpandingFn::Max => {
            &&& after.max == Some(
                match before.max {
                    None => x,
                    Some(current) => binary64::greater(current, x),
                },
            )
            &&& after == (Accumulator { seen: after.seen, max: after.max, ..before })
        },
        ExpandingFn::Mean | ExpandingFn::Sum | ExpandingFn::Std => {
            &&& after.min == before.min
            &&& after.max == before.max
            &&& exists|delta: u64, count: u64, shift: u64, rest: u64, product: u64|
                #[trigger]
                welford(arithmetic, before, x, after, delta, count, shift, rest, product)
        },
    }
}

/// The last step of the standard deviation, with the outcome of each operation.
pub open spec fn deviates<A: Arithmetic>(
    arithmetic: &A,
    state: Accumulator,
    count: u64,
    variance: u64,
    deviation: u64,
) -> bool {
    &&& arithmetic::gives_count(arithmetic, state.seen, count)
    &&& arithmetic::gives_quotient(arithmetic, state.m2, count, variance)
    &&& arithmetic::gives_root(arithmetic, variance, deviation)
}

/// Whether `value` is the statistic that `function` reads off the accumulator.
pub open spec fn emits<A: Arithmetic>(
    arithmetic: &A,
    function: ExpandingFn,
    state: Accumulator,
    value: Option<u64>,
) -> bool {
    match function {
        ExpandingFn::Mean => value == Some(state.mean),
        ExpandingFn::Sum => value == Some(state.sum),
        ExpandingFn::Min => value == state.min,
        ExpandingFn::Max => value == state.max,
        ExpandingFn::Std => exists|count: u64, variance: u64, deviation: u64|
            #[trigger] deviates(arithmetic, state, count, variance, deviation) && value == Some(
                deviation,
            ),
    }
}

/// One row: a null cell leaves the accumulator alone and gives null; a value
/// is observed and gives the statistic, or null while fewer than `min_periods`
/// values were seen.
pub open spec fn expands_row<A: Arithmetic>(
    arithmetic: &A,
    function: ExpandingFn,
    min_periods: usize,
    before: Accumulator,
    cell: Option<u64>,
    after: Accumulator,
    value: Option<u64>,
) -> bool {
    match cell {
        None => after == before && value is None,
        Some(x) => {
            &&& observes(arithmetic, function, before, x, after)
            &&& if after.seen < min_periods {
                value is None
            } else {
                emits(arithmetic, function, after, value)
            }
        },
    }
}

/// All rows, with the accumulator before each of them and after the last.
pub open spec fn expands_through<A: Arithmetic>(
    arithmetic: &A,
    function: ExpandingFn,
    min_periods: usize,
    cells: Seq<Option<u64>>,
    states: Seq<Accumulator>,
    values: Seq<Option<u64>>,
) -> bool {
    &&& states.len() == cells.len() + 1
    &&& values.len() == cells.len()
    &&& states[0] == nothing_seen()
    &&& forall|i: int|
        0 <= i < cells.len() ==> expands_row(
            arithmetic,
            function,
            min_periods,
            states[i],
            #[trigger] cells[i],
            states[i + 1],
            values[i],
        )
}

/// Whether `values` is the expanding statistic of `cells`: row by row, from an
/// accumulator that has seen nothing.
pub open spec fn expands<A: Arithmetic>(
    arithmetic: &A,
    function: ExpandingFn,
    min_periods: usize,
    cells: Seq<Option<u64>>,
    values: Seq<Option<u64>>,
) -> bool {
    exists|states: Seq<Accumulator>|
        #[trigger] expands_through(arithmetic, function, min_periods, cells, states, values)
}

/// What a row adds to the window.
pub proof fn lemma_window_grows(cells: Seq<Option<u64>>, i: int)
    requires
        0 <= i < cells.len(),
    ensures
        observed(cells.take(i + 1)) == match cells[i] {
            None => observed(cells.take(i)),
            Some(x) => observed(cells.take(i)).push(x),
        },
{
    assert(cells.take(i + 1).drop_last() =~= cells.take(i));
    assert(cells.take(i + 1).last() == cells[i]);
}

/// The accumulator before row `i` has seen what the cells before it hold.
pub proof fn lemma_seen<A: Arithmetic>(
    arithmetic: &A,
    function: ExpandingFn,
    min_periods: usize,
    cells: Seq<Option<u64>>,
    states: Seq<Accumulator>,
    values: Seq<Option<u64>>,
    i: int,
)
    requires
        expands_through(arithmetic, function, min_periods, cells, states, values),
        0 <= i <= cells.len(),
    ensures
        states[i].seen == observed(cells.take(i)).len(),
    decreases i,
{
    if i > 0 {
        lemma_seen(arithmetic, function, min_periods, cells, states, values, i - 1);
        assert(cells.take(i).drop_last() =~= cells.take(i - 1));
        assert(cells.take(i).last() == cells[i - 1]);
        assert(expands_row(
            arithmetic,
            function,
            min_periods,
            states[i - 1],
            cells[i - 1],
            states[i - 1 + 1],
            values[i - 1],
        ));
    }
}

/// A row gets a value exactly where its own cell holds one and at least
/// `min_periods` cells up to and with it do.
pub proof fn lemma_presence<A: Arithmetic>(
    arithmetic: &A,
    function: ExpandingFn,
    min_periods: usize,
    cells: Seq<Option<u64>>,
    states: Seq<Accumulator>,
    values: Seq<Option<u64>>,
    i: int,
)
    requires
        expands_through(arithmetic, function, min_periods, cells, states, values),
        0 <= i < cells.len(),
    ensures
        values[i] is Some <==> cells[i] is Some && observed(cells.take(i + 1)).len()
            >= min_periods,
{
    assert(expands_row(
        arithmetic,
        function,
        min_periods,
        states[i],
        cells[i],
        states[i + 1],
        values[i],
    ));
    lemma_seen(arithmetic, function, min_periods, cells, states, values, i + 1);
}

impl Accumulator {
    /// An accumulator that has seen nothing.
    pub fn new() -> (result: Accumulator)
        ensures
            result == nothing_seen(),
    {
        Accumulator { seen: 0, sum: 0, mean: 0, m2: 0, min: None, max: None }
    }

    /// Takes one observation. Mean and squared deviations follow Welford's
    /// algorithm, which stays stable where sums of squares would cancel.
    pub fn observe<A: Arithmetic>(self, arithmetic: &A, function: ExpandingFn, x: u64) -> (after:
        Accumulator)
        requires
            self.seen < usize::MAX,
        ensures
            observes(arithmetic, function, self, x, after),
    {
        let mut after = self;
        after.seen = self.seen + 1;
        match function {
            ExpandingFn::Min => {
                after.min = Some(
                    match self.min {
                        None => x,
                        Some(current) => take_lesser(current, x),
                    },
                );
            },
            ExpandingFn::Max => {
                after.max = Some(
                    match self.max {
                        None => x,
                        Some(current) => take_greater(current, x),
                    },
                );
            },
            ExpandingFn::Mean | ExpandingFn::Sum | ExpandingFn::Std => {
                after.sum = arithmetic.sum(self.sum, x);
                let delta: u64 = arithmetic.difference(x, self.mean);
                let count: u64 = arithmetic.of_count(after.seen);
                let shift: u64 = arithmetic.quotient(delta, count);
                after.mean = arithmetic.sum(self.mean, shift);
                let rest: u64 = arithmetic.difference(x, after.mean);
                let product: u64 = arithmetic.product(delta, rest);
                after.m2 = arithmetic.sum(self.m2, product);
                assert(welford(arithmetic, self, x, after, delta, count, shift, rest, product));
            },
        }
        after
    }

    /// The statistic of the observations so far.
    pub fn statistic<A: Arithmetic>(&self, arithmetic: &A, function: ExpandingFn) -> (value: Option<
        u64,
    >)
        ensures
            emits(arithmetic, function, *self, value),
    {
        match function {
            ExpandingFn::Mean => Some(self.mean),
            ExpandingFn::Sum => Some(self.sum),
            ExpandingFn::Min => self.min,
            ExpandingFn::Max => self.max,
            ExpandingFn::Std => {
                let count: u64 = arithmetic.of_count(self.seen);
                let variance: u64 = arithmetic.quotient(self.m2, count);
                let deviation: u64 = arithmetic.root(variance);
                assert(deviates(arithmetic, *self, count, variance, deviation));
                Some(deviation)
            },
        }
    }
}

/// Computes the expanding statistic of a column, row by row. Every row keeps
/// its position. A row gets a value exactly where its own cell holds one and
/// at least `min_periods` cells up to and with it do.
pub fn expand<A: Arithmetic>(
    arithmetic: &A,
    function: ExpandingFn,
    min_periods: usize,
    cells: &Vec<Option<u64>>,
) -> (values: Vec<Option<u64>>)
    ensures
        expands(arithmetic, function, min_periods, cells@, values@),
        values@.len() == cells@.len(),
        forall|i: int|
            0 <= i < cells@.len() ==> (#[trigger] values@[i] is Some <==> cells@[i] is Some
                && observed(cells@.take(i + 1)).len() >= min_periods),
{
    let mut state = Accumulator::new();
    let mut values: Vec<Option<u64>> = Vec::with_capacity(cells.len());
    let ghost mut states: Seq<Accumulator> = seq![state];
    for i in 0..cells.len()
        invariant
            states.len() == i + 1,
            states[i as int] == state,
            state.seen <= i,
            expands_through(
                arithmetic,
                function,
                min_periods,
                cells@.take(i as int),
                states,
                values@,
            ),
    {
        let ghost before = state;
        let ghost earlier = values@;
        let cell: Option<u64> = cells[i];
        let value: Option<u64> = match cell {
            None => None,
            Some(x) => {
                state = state.observe(arithmetic, function, x);
                if state.seen < min_periods {
                    None
                } else {
                    state.statistic(arithmetic, function)
                }
            },
        };
        values.push(value);
        proof {
            assert(expands_row(arithmetic, function, min_periods, before, cell, state, value));
            let rows = cells@.take(i as int);
            let longer = cells@.take(i + 1);
            let grown = states.push(state);
            assert forall|j: int| 0 <= j < longer.len() implies expands_row(
                arithmetic,
                function,
                min_periods,
                grown[j],
                #[trigger] longer[j],
                grown[j + 1],
                values@[j],
            ) by {
                if j < i {
                    assert(longer[j] == rows[j]);
                    assert(grown[j] == states[j] && grown[j + 1] == states[j + 1]);
                    assert(values@[j] == earlier[j]);
                }
            }
            states = grown;
        }
    }
    proof {
        assert(cells@.take(cells@.len() as int) =~= cells@);
        assert forall|i: int| 0 <= i < cells@.len() implies (#[trigger] values@[i] is Some
            <==> cells@[i] is Some && observed(cells@.take(i + 1)).len() >= min_periods) by {
            lemma_presence(arithmetic, function, min_periods, cells@, states, values@, i);
        }
    }
    values
}

} // verus!

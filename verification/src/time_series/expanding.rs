//! Expanding window aggregations.
//!
//! [`ExpandingAggregator`] computes mean, sum, min, max, and standard
//! deviation over a growing window: at each row `i` the statistic is
//! computed over all rows `0..=i`. Analogous to `df.expanding()` in pandas.

use crate::arithmetic::Arithmetic;
use crate::error::Error;
use crate::frames::{
    self, displayed_type, find_column, float64_cells, float64_series, has_float64, is_among,
    is_float64, is_searchable, materializes, names_of, put_series, renamed, said, ROW_LIMIT,
};
use crate::time_series::window::{self, expand};
use polars::prelude::{Column, DataFrame, Series};
use vstd::prelude::*;
use vstd::string::StringExecFns;

verus! {

/// Expanding window function to apply.
#[derive(Clone, Copy)]
pub enum ExpandingFn {
    /// Expanding mean over all rows seen so far.
    Mean,
    /// Expanding sum over all rows seen so far.
    Sum,
    /// Expanding minimum over all rows seen so far.
    Min,
    /// Expanding maximum over all rows seen so far.
    Max,
    /// Expanding (population) standard deviation over all rows seen so far.
    Std,
}

/// Compute expanding window statistics.
///
/// At each row `i`, the configured statistic is computed over the growing
/// window `0..=i`, so the window only ever gains observations. The
/// standard deviation is the population standard deviation.
///
/// Null values do not contribute to the accumulator, but every input row
/// keeps its position in the output: a row with a null value produces
/// null, and a row with a value produces the statistic over all non-null
/// values seen so far. No value is produced until at least `min_periods`
/// non-null observations have been seen.
///
/// NaN values are treated as values, not as missing: they propagate into
/// the mean/sum/std accumulators (subsequent outputs stay NaN) and are
/// ignored by the min/max accumulators.
///
/// New `Float64` columns named `{column}_expanding_{function}` are appended.
/// If a column with a generated name already exists in the input, it is
/// replaced; otherwise existing columns pass through unchanged. Configured
/// columns must be `Float64`; this is validated at fit time.
pub struct ExpandingAggregator {
    fitted: bool,
    columns: Vec<String>,
    function: ExpandingFn,
    min_periods: usize,
}

/// What an [`ExpandingAggregator`] is configured to do, and whether it was
/// fitted.
pub struct Configuration {
    pub fitted: bool,
    pub columns: Seq<Seq<char>>,
    pub function: ExpandingFn,
    pub min_periods: usize,
}

impl View for ExpandingAggregator {
    type V = Configuration;

    closed spec fn view(&self) -> Configuration {
        Configuration {
            fitted: self.fitted,
            columns: self.columns@.map_values(|column: String| column@),
            function: self.function,
            min_periods: self.min_periods,
        }
    }
}

/// How a function is called in the names of generated columns.
pub open spec fn function_name(function: ExpandingFn) -> Seq<char> {
    match function {
        ExpandingFn::Mean => "mean"@,
        ExpandingFn::Sum => "sum"@,
        ExpandingFn::Min => "min"@,
        ExpandingFn::Max => "max"@,
        ExpandingFn::Std => "std"@,
    }
}

/// The name of the column that is generated from a column.
pub open spec fn output_name(column: Seq<char>, function: ExpandingFn) -> Seq<char> {
    column + "_expanding_"@ + function_name(function)
}

/// What is wrong with a frame as far as one configured column goes.
pub open spec fn column_problem(x: DataFrame, name: Seq<char>) -> Option<Seq<char>> {
    match frames::find(x, name) {
        None => Some("ExpandingAggregator: column '"@ + name + "' not found."@),
        Some(column) => if frames::column_is_float64(column) {
            None
        } else {
            Some(
                "ExpandingAggregator: column '"@ + name + "' has dtype "@
                    + frames::column_type_name(column) + "; expected Float64."@,
            )
        },
    }
}

/// The problem of the first configured column, from the given one on, that has
/// one.
pub open spec fn first_problem(x: DataFrame, names: Seq<Seq<char>>, from: int) -> Option<Seq<char>>
    decreases names.len() - from,
{
    if from >= names.len() {
        None
    } else {
        match column_problem(x, names[from]) {
            Some(problem) => Some(problem),
            None => first_problem(x, names, from + 1),
        }
    }
}

/// Whether fitting to a frame comes to look for columns.
pub open spec fn fit_searches(configuration: Configuration, x: DataFrame) -> bool {
    &&& frames::frame_height(x) > 0
    &&& configuration.columns.len() > 0
    &&& configuration.min_periods > 0
}

/// Why a configuration cannot be fitted to a frame, if it cannot.
pub open spec fn fit_problem(configuration: Configuration, x: DataFrame) -> Option<Seq<char>> {
    if frames::frame_height(x) == 0 {
        Some(
            "ExpandingAggregator.fit received a DataFrame with 0 rows. Provide at least one row."@,
        )
    } else if configuration.columns.len() == 0 {
        Some("ExpandingAggregator: at least one column is required."@)
    } else if configuration.min_periods == 0 {
        Some("ExpandingAggregator: min_periods must be >= 1, got 0"@)
    } else {
        first_problem(x, configuration.columns, 0)
    }
}

/// Whether polars can do what fitting to a frame asks of it. It panics where
/// names have to be looked for that it cannot tell apart.
pub open spec fn fit_is_safe(configuration: Configuration, x: DataFrame) -> bool {
    fit_searches(configuration, x) ==> frames::searchable(
        frames::column_names(frames::frame_columns(x)),
    )
}

/// Whether the column that a frame finds under a name can be materialized and
/// has a length that fits the frame.
pub open spec fn is_even(x: DataFrame, name: Seq<char>) -> bool {
    frames::find(x, name) matches Some(column) && frames::column_materializes(column)
        && frames::fits(frames::column_cells(column).len(), frames::frame_height(x))
}

/// What [`ExpandingAggregator::fit`] returns and leaves behind: an error that
/// says what speaks against the frame, or else an aggregator that was fitted.
/// That one can transform the same frame, if the configured columns of it are
/// even.
pub open spec fn fit_outcome(
    before: Configuration,
    x: DataFrame,
    result: Result<(), Error>,
    after: Configuration,
) -> bool {
    &&& match fit_problem(before, x) {
        None => result is Ok,
        Some(problem) => result matches Err(Error::InvalidInput(text)) && text@ == problem,
    }
    &&& after == (Configuration { fitted: before.fitted || result is Ok, ..before })
    &&& result is Ok && (forall|k: int|
        0 <= k < after.columns.len() ==> is_even(x, #[trigger] after.columns[k]))
        ==> transform_refusal(after, x) is None
}

/// Why a frame cannot be transformed.
pub enum Refusal {
    /// The aggregator was not fitted.
    NotFitted,
    /// The frame has no column of this name.
    Missing(Seq<char>),
    /// A configured column is not `Float64`.
    NotFloat64,
    /// A configured column has neither the height of the frame nor one cell, so
    /// that what is derived from it cannot be put into the frame.
    Uneven,
}

/// What speaks against the first configured column, from the given one on, from
/// which nothing can be derived.
pub open spec fn first_refusal(x: DataFrame, names: Seq<Seq<char>>, from: int) -> Option<Refusal>
    decreases names.len() - from,
{
    if from >= names.len() {
        None
    } else {
        match frames::find(x, names[from]) {
            None => Some(Refusal::Missing(names[from])),
            Some(column) => if !frames::series_is_float64(frames::column_series(column)) {
                Some(Refusal::NotFloat64)
            } else if !frames::fits(
                frames::column_cells(column).len(),
                frames::frame_height(x),
            ) {
                Some(Refusal::Uneven)
            } else {
                first_refusal(x, names, from + 1)
            },
        }
    }
}

/// Why a frame cannot be transformed, if it cannot.
pub open spec fn transform_refusal(configuration: Configuration, x: DataFrame) -> Option<Refusal> {
    if !configuration.fitted {
        Some(Refusal::NotFitted)
    } else {
        first_refusal(x, configuration.columns, 0)
    }
}

/// The names of the columns after one more was put in. The first is put into a
/// copy of the input, which may pass over columns; later ones are not.
pub open spec fn names_with(
    x: DataFrame,
    names: Seq<Seq<char>>,
    from: int,
    name: Seq<char>,
) -> Seq<Seq<char>> {
    let there = if from == 0 {
        frames::place(x, name) is Some
    } else {
        names.contains(name)
    };
    if there {
        names
    } else {
        names.push(name)
    }
}

/// Whether polars can do what deriving columns asks of it, from the given
/// configured column on, where the columns of the result have these names so
/// far: each column that is come to can be materialized and is not too long,
/// and what is derived from it can be put among the names.
pub open spec fn derives_safely(
    configuration: Configuration,
    x: DataFrame,
    names: Seq<Seq<char>>,
    from: int,
) -> bool
    decreases configuration.columns.len() - from,
{
    if from >= configuration.columns.len() {
        true
    } else {
        match frames::find(x, configuration.columns[from]) {
            None => true,
            Some(column) => {
                let cells = frames::column_cells(column);
                &&& frames::column_materializes(column)
                &&& cells.len() < ROW_LIMIT
                &&& frames::series_is_float64(frames::column_series(column)) && frames::fits(
                    cells.len(),
                    frames::frame_height(x),
                ) ==> {
                    &&& frames::searchable(names)
                    &&& derives_safely(
                        configuration,
                        x,
                        names_with(
                            x,
                            names,
                            from,
                            output_name(configuration.columns[from], configuration.function),
                        ),
                        from + 1,
                    )
                }
            },
        }
    }
}

/// Whether polars can do what transforming a frame asks of it. It panics where
/// names have to be looked for that it cannot tell apart, and on columns that
/// it cannot materialize.
pub open spec fn transform_is_safe(configuration: Configuration, x: DataFrame) -> bool {
    let names = frames::column_names(frames::frame_columns(x));
    configuration.fitted && configuration.columns.len() > 0 ==> frames::searchable(names)
        && derives_safely(configuration, x, names, 0)
}

/// The message about a missing column, with what polars says of it.
pub open spec fn missing_message(name: Seq<char>, said: Seq<char>) -> Seq<char> {
    "ExpandingAggregator.transform: column '"@ + name + "' not found. "@ + said
}

/// Whether a message says that a frame lacks a column, and what polars says of
/// the failed lookup.
pub open spec fn is_missing_message(x: DataFrame, name: Seq<char>, text: Seq<char>) -> bool {
    exists|said: Seq<char>| #[trigger]
        frames::is_missing_text(x, name, said) && text == missing_message(name, said)
}

/// Whether an error reports why `x` is refused. Of a missing column it also
/// gives what polars says of the failed lookup, and of a derived column that
/// does not fit the frame it gives what polars says alone.
pub open spec fn reports(x: DataFrame, error: Error, refusal: Refusal) -> bool {
    match refusal {
        Refusal::NotFitted => error matches Error::NotFitted(text) && text@
            == "ExpandingAggregator"@,
        Refusal::Missing(name) => error matches Error::InvalidInput(text) && is_missing_message(
            x,
            name,
            text@,
        ),
        Refusal::NotFloat64 => error matches Error::InvalidInput(text) && text@
            == "column must be f64"@,
        Refusal::Uneven => error matches Error::Computation(text) && frames::is_error_text(text@),
    }
}

/// Whether `cells` are the expanding statistic of `source`, spread over a frame
/// of a height.
pub open spec fn expands_over<A: Arithmetic>(
    arithmetic: &A,
    configuration: Configuration,
    source: Seq<Option<u64>>,
    height: nat,
    cells: Seq<Option<u64>>,
) -> bool {
    exists|values: Seq<Option<u64>>| #[trigger]
        window::expands(
            arithmetic,
            configuration.function,
            configuration.min_periods,
            source,
            values,
        ) && cells == frames::spread(values, height)
}

/// Whether a column is the expanding statistic of the column of a name: it has
/// the generated name, is `Float64`, and its cells are the statistic. Where that
/// column has the height of the frame there is one value for each row of it.
pub open spec fn derives<A: Arithmetic>(
    arithmetic: &A,
    configuration: Configuration,
    x: DataFrame,
    name: Seq<char>,
    column: Column,
) -> bool {
    &&& frames::find(x, name) is Some
    &&& frames::fits(
        frames::column_cells(frames::find(x, name)->0).len(),
        frames::frame_height(x),
    )
    &&& frames::holds(
        column,
        output_name(name, configuration.function),
        frames::column_cells(column),
    )
    &&& expands_over(
        arithmetic,
        configuration,
        frames::column_cells(frames::find(x, name)->0),
        frames::frame_height(x),
        frames::column_cells(column),
    )
}

/// The columns of a frame after some were put in, one after the other. The
/// first goes where the frame finds its name; after that no column is passed
/// over.
pub open spec fn put_all(x: DataFrame, added: Seq<Column>) -> Seq<Column>
    decreases added.len(),
{
    if added.len() == 0 {
        frames::frame_columns(x)
    } else {
        let columns = put_all(x, added.drop_last());
        let name = frames::column_name(added.last());
        let place = if added.len() == 1 {
            frames::place(x, name)
        } else {
            frames::position(columns, name)
        };
        frames::put_at(columns, place, added.last())
    }
}

/// Whether `added` holds, for each configured column in order, the column that
/// is derived from it. All are derived from the columns of the input, whatever
/// their generated names are.
pub open spec fn derives_all<A: Arithmetic>(
    arithmetic: &A,
    configuration: Configuration,
    x: DataFrame,
    added: Seq<Column>,
) -> bool {
    &&& added.len() == configuration.columns.len()
    &&& forall|k: int|
        0 <= k < added.len() ==> derives(
            arithmetic,
            configuration,
            x,
            configuration.columns[k],
            #[trigger] added[k],
        )
}

/// Whether `result` is a transformed frame: the derived columns were put into
/// the input, and its height was kept. It passes over no column, unless nothing
/// was put in and the input does.
pub open spec fn transforms<A: Arithmetic>(
    arithmetic: &A,
    configuration: Configuration,
    x: DataFrame,
    result: DataFrame,
) -> bool {
    &&& frames::frame_height(result) == frames::frame_height(x)
    &&& exists|added: Seq<Column>|
        #[trigger] derives_all(arithmetic, configuration, x, added)
            && frames::frame_columns(result) == put_all(x, added)
    &&& configuration.columns.len() > 0 || frames::orderly(x) ==> frames::orderly(result)
}

/// What [`ExpandingAggregator::transform`] returns: the transformed frame
/// exactly where nothing speaks against it, and else the error that says what
/// does.
pub open spec fn transform_outcome<A: Arithmetic>(
    arithmetic: &A,
    configuration: Configuration,
    x: DataFrame,
    result: Result<DataFrame, Error>,
) -> bool {
    match transform_refusal(configuration, x) {
        None => result is Ok && transforms(arithmetic, configuration, x, result->Ok_0),
        Some(refusal) => result is Err && reports(x, result->Err_0, refusal),
    }
}

/// Nothing is refused where every configured column can be read and fits.
proof fn lemma_nothing_refused(x: DataFrame, names: Seq<Seq<char>>, from: int)
    requires
        0 <= from <= names.len(),
        forall|k: int|
            from <= k < names.len() ==> is_even(x, #[trigger] names[k])
                && frames::series_is_float64(frames::column_series(frames::find(x, names[k])->0)),
    ensures
        first_refusal(x, names, from) is None,
    decreases names.len() - from,
{
    if from < names.len() {
        assert(is_even(x, names[from]));
        lemma_nothing_refused(x, names, from + 1);
    }
}

/// The name of the column that is generated from a column.
pub fn generated_name(column: &str, function: ExpandingFn) -> (name: String)
    ensures
        name@ == output_name(column@, function),
{
    let fn_name: &str = match function {
        ExpandingFn::Mean => "mean",
        ExpandingFn::Sum => "sum",
        ExpandingFn::Min => "min",
        ExpandingFn::Max => "max",
        ExpandingFn::Std => "std",
    };
    let mut name = column.to_string();
    name.append("_expanding_");
    name.append(fn_name);
    name
}

impl ExpandingAggregator {
    /// Create a new expanding aggregator for `columns`, applying `function`
    /// (e.g. [`ExpandingFn::Mean`]) over the growing window.
    pub fn new(columns: &[&str], function: ExpandingFn) -> (result: Self)
        ensures
            result@ == (Configuration {
                fitted: false,
                columns: columns@.map_values(|column: &str| column@),
                function,
                min_periods: 1,
            }),
    {
        let mut names: Vec<String> = Vec::new();
        for i in 0..columns.len()
            invariant
                names@.len() == i,
                forall|j: int| 0 <= j < i ==> (#[trigger] names@[j])@ == columns@[j]@,
        {
            names.push(columns[i].to_string());
        }
        let result = ExpandingAggregator { fitted: false, columns: names, function, min_periods: 1 };
        assert(result@.columns =~= columns@.map_values(|column: &str| column@));
        result
    }

    /// Set the minimum number of non-null observations required before a
    /// non-null value is produced (default: `1`).
    pub fn min_periods(self, p: usize) -> (result: Self)
        ensures
            result@ == (Configuration { min_periods: p, ..self@ }),
    {
        ExpandingAggregator { min_periods: p, ..self }
    }

    /// The expanding statistic of a series, as a new series without a name.
    /// Fails on a series that is not `Float64`.
    pub fn expanding_series<A: Arithmetic>(&self, s: &Series, arithmetic: &A) -> (result: Result<
        Series,
        Error,
    >)
        requires
            frames::series_is_float64(*s) ==> frames::series_cells(*s).len() < ROW_LIMIT,
        ensures
            result is Ok <==> frames::series_is_float64(*s),
            result matches Ok(series) ==> {
                &&& frames::series_name(series) == Seq::<char>::empty()
                &&& frames::series_is_float64(series)
                &&& window::expands(
                    arithmetic,
                    self@.function,
                    self@.min_periods,
                    frames::series_cells(*s),
                    frames::series_cells(series),
                )
            },
            result matches Err(error) ==> (error matches Error::InvalidInput(text) && text@
                == "column must be f64"@),
    {
        let cells: Vec<Option<u64>> = match float64_cells(s) {
            Ok(cells) => cells,
            Err(_) => return Err(Error::InvalidInput("column must be f64".to_string())),
        };
        let values = expand(arithmetic, self.function, self.min_periods, &cells);
        Ok(float64_series(values))
    }

    /// Check that the configuration can be applied to `x`, and remember that it
    /// can. The frame needs at least one row, at least one column must be
    /// configured, `min_periods` must not be 0, and each configured column must
    /// be there and be `Float64`.
    pub fn fit(&mut self, x: DataFrame) -> (result: Result<(), Error>)
        requires
            fit_is_safe(old(self)@, x),
        ensures
            fit_outcome(old(self)@, x, result, final(self)@),
    {
        if x.height() == 0 {
            return Err(
                Error::InvalidInput(
                    "ExpandingAggregator.fit received a DataFrame with 0 rows. Provide at least one row.".to_string(),
                ),
            );
        }
        if self.columns.len() == 0 {
            return Err(
                Error::InvalidInput(
                    "ExpandingAggregator: at least one column is required.".to_string(),
                ),
            );
        }
        if self.min_periods == 0 {
            return Err(
                Error::InvalidInput(
                    "ExpandingAggregator: min_periods must be >= 1, got 0".to_string(),
                ),
            );
        }
        let ghost configuration = self@;
        for i in 0..self.columns.len()
            invariant
                self@ == configuration,
                configuration == old(self)@,
                fit_searches(configuration, x),
                fit_is_safe(configuration, x),
                fit_problem(configuration, x) == first_problem(
                    x,
                    configuration.columns,
                    i as int,
                ),
                forall|k: int|
                    0 <= k < i && is_even(x, #[trigger] configuration.columns[k])
                        ==> frames::series_is_float64(
                        frames::column_series(frames::find(x, configuration.columns[k])->0),
                    ),
        {
            let name: &str = self.columns[i].as_str();
            assert(configuration.columns[i as int] == name@);
            match x.column(name) {
                Err(_) => {
                    let mut text = "ExpandingAggregator: column '".to_string();
                    text.append(name);
                    text.append("' not found.");
                    return Err(Error::InvalidInput(text));
                },
                Ok(column) => {
                    if !has_float64(column) {
                        let mut text = "ExpandingAggregator: column '".to_string();
                        text.append(name);
                        text.append("' has dtype ");
                        text.append(displayed_type(column).as_str());
                        text.append("; expected Float64.");
                        return Err(Error::InvalidInput(text));
                    }
                },
            }
        }
        self.fitted = true;
        proof {
            let names = self@.columns;
            assert(names == configuration.columns);
            if forall|k: int| 0 <= k < names.len() ==> is_even(x, #[trigger] names[k]) {
                lemma_nothing_refused(x, names, 0);
            }
        }
        Ok(())
    }

    /// Does what [`ExpandingAggregator::fit`] does, on any frame; gives nothing,
    /// and leaves the aggregator as it is, where polars would panic.
    pub fn checked_fit(&mut self, x: DataFrame) -> (result: Option<Result<(), Error>>)
        ensures
            result is None <==> !fit_is_safe(old(self)@, x),
            result is None ==> final(self)@ == old(self)@,
            result matches Some(fitted) ==> fit_outcome(old(self)@, x, fitted, final(self)@),
    {
        if x.height() > 0 && self.columns.len() > 0 && self.min_periods > 0 && !is_searchable(
            &names_of(&x),
        ) {
            return None;
        }
        Some(self.fit(x))
    }

    /// Append the expanding statistic of each configured column to `x`. The
    /// aggregator must have been fitted.
    ///
    /// Every source is read from the input `x`, not from the growing output: a
    /// generated name can coincide with a configured column, and reading it
    /// from the output would then aggregate derived values.
    pub fn transform<A: Arithmetic>(&self, x: DataFrame, arithmetic: &A) -> (result: Result<
        DataFrame,
        Error,
    >)
        requires
            transform_is_safe(self@, x),
        ensures
            transform_outcome(arithmetic, self@, x, result),
    {
        if !self.fitted {
            return Err(Error::NotFitted("ExpandingAggregator".to_string()));
        }
        let mut out = x.clone();
        let ghost height = frames::frame_height(x);
        let ghost mut added: Seq<Column> = Seq::empty();
        for i in 0..self.columns.len()
            invariant
                self@.fitted,
                height == frames::frame_height(x),
                transform_is_safe(self@, x),
                derives_safely(
                    self@,
                    x,
                    frames::column_names(frames::frame_columns(out)),
                    i as int,
                ),
                transform_refusal(self@, x) == first_refusal(x, self@.columns, i as int),
                added.len() == i,
                forall|k: int|
                    0 <= k < added.len() ==> derives(
                        arithmetic,
                        self@,
                        x,
                        self@.columns[k],
                        #[trigger] added[k],
                    ),
                frames::frame_columns(out) == put_all(x, added),
                frames::frame_height(out) == height,
                frames::frame_columns(out).len() >= frames::frame_columns(x).len(),
                i == 0 ==> forall|j: int| #[trigger]
                    frames::frame_hides(out, j) == frames::frame_hides(x, j),
                i > 0 ==> frames::orderly(out),
        {
            let name: &str = self.columns[i].as_str();
            assert(self@.columns[i as int] == name@);
            let s: &Series = match find_column(&x, name) {
                Ok(column) => column.as_materialized_series(),
                Err(said) => {
                    let mut text = "ExpandingAggregator.transform: column '".to_string();
                    text.append(name);
                    text.append("' not found. ");
                    text.append(said.as_str());
                    assert(frames::is_missing_text(x, name@, said@));
                    assert(text@ == missing_message(name@, said@));
                    assert(is_missing_message(x, name@, text@));
                    return Err(Error::InvalidInput(text));
                },
            };
            let expanded: Series = match self.expanding_series(s, arithmetic) {
                Ok(series) => series,
                Err(error) => return Err(error),
            };
            let expanded_name = generated_name(name, self.function);
            let ghost source = frames::series_cells(*s);
            let ghost values = frames::series_cells(expanded);
            let ghost before = out;
            proof {
                frames::lemma_place(x, name@);
            }
            match put_series(&mut out, renamed(expanded, expanded_name.as_str())) {
                Ok(_) => {},
                Err(error) => return Err(Error::Computation(said(&error))),
            }
            proof {
                let wanted = expanded_name@;
                let place = frames::place(before, wanted);
                let column = choose|column: Column| #[trigger]
                    frames::holds(column, wanted, frames::spread(values, height))
                        && frames::frame_columns(out) == frames::put_at(
                        frames::frame_columns(before),
                        place,
                        column,
                    );
                assert(expands_over(
                    arithmetic,
                    self@,
                    source,
                    height,
                    frames::column_cells(column),
                ));
                assert(derives(arithmetic, self@, x, self@.columns[i as int], column));
                frames::lemma_place(before, wanted);
                frames::lemma_put_at_names(frames::frame_columns(before), place, column);
                if i == 0 {
                    assert(frames::visible_names(before) =~= frames::visible_names(x));
                } else {
                    let names = frames::column_names(frames::frame_columns(before));
                    names.index_of_first_ensures(wanted);
                }
                let grown = added.push(column);
                assert(grown.drop_last() =~= added);
                added = grown;
            }
        }
        assert(derives_all(arithmetic, self@, x, added));
        Ok(out)
    }

    /// Whether polars can do what [`ExpandingAggregator::transform`] asks of it
    /// on `x`.
    fn is_safe_on(&self, x: &DataFrame) -> (result: bool)
        ensures
            result == transform_is_safe(self@, *x),
    {
        if !self.fitted || self.columns.len() == 0 {
            return true;
        }
        let mut names: Vec<String> = names_of(x);
        if !is_searchable(&names) {
            return false;
        }
        let height = x.height();
        for i in 0..self.columns.len()
            invariant
                self@.fitted,
                self.columns.len() > 0,
                height == frames::frame_height(*x),
                frames::searchable(frames::column_names(frames::frame_columns(*x))),
                transform_is_safe(self@, *x) == derives_safely(
                    self@,
                    *x,
                    names@.map_values(|name: String| name@),
                    i as int,
                ),
        {
            let ghost known = names@.map_values(|name: String| name@);
            let name: &str = self.columns[i].as_str();
            assert(self@.columns[i as int] == name@);
            let column: &Column = match x.column(name) {
                Ok(column) => column,
                Err(_) => return true,
            };
            if !materializes(column) || column.len() >= ROW_LIMIT {
                return false;
            }
            let len: usize = column.len();
            if !is_float64(column.as_materialized_series()) || !(len == height || len == 1) {
                return true;
            }
            if !is_searchable(&names) {
                return false;
            }
            let wanted: String = generated_name(name, self.function);
            let there: bool = if i == 0 {
                x.column(wanted.as_str()).is_ok()
            } else {
                is_among(&names, &wanted)
            };
            if !there {
                names.push(wanted);
                assert(names@.map_values(|name: String| name@) =~= known.push(wanted@));
            }
        }
        true
    }

    /// Does what [`ExpandingAggregator::transform`] does, on any frame; gives
    /// nothing where polars would panic.
    pub fn checked_transform<A: Arithmetic>(&self, x: DataFrame, arithmetic: &A) -> (result: Option<
        Result<DataFrame, Error>,
    >)
        ensures
            result is None <==> !transform_is_safe(self@, x),
            result is Some ==> transform_outcome(arithmetic, self@, x, result->0),
    {
        if self.is_safe_on(&x) {
            Some(self.transform(x, arithmetic))
        } else {
            None
        }
    }
}

impl Default for ExpandingAggregator {
    /// An aggregator of no columns.
    fn default() -> (result: Self)
        ensures
            result@ == (Configuration {
                fitted: false,
                columns: Seq::empty(),
                function: ExpandingFn::Mean,
                min_periods: 1,
            }),
    {
        let result = ExpandingAggregator::new(&[], ExpandingFn::Mean);
        assert(result@.columns =~= Seq::<Seq<char>>::empty());
        result
    }
}

} // verus!

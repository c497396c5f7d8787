//! What building, fitting and applying an aggregator does.

use crate::arithmetic::Arithmetic;
use crate::error::Error;
use crate::frames::{self, is_orderly};
use crate::time_series::expanding::{
    self, generated_name, Configuration, ExpandingAggregator, ExpandingFn,
};
use crate::time_series::frame_laws::{self, fittable, readable};
use crate::time_series::window;
use polars::prelude::{Column, DataFrame};
use vstd::prelude::*;

verus! {

/// A new aggregator has the columns and the function that it was given. It was
/// not fitted, and one observation is enough for it.
pub proof fn law_new(columns: &[&str], function: ExpandingFn, aggregator: ExpandingAggregator)
    requires
        call_ensures(ExpandingAggregator::new, (columns, function), aggregator),
    ensures
        !aggregator@.fitted,
        aggregator@.columns.len() == columns@.len(),
        forall|k: int|
            0 <= k < columns@.len() ==> #[trigger] aggregator@.columns[k] == columns@[k]@,
        aggregator@.function == function,
        aggregator@.min_periods == 1,
{
}

/// The default is an aggregator of no columns, for the mean.
pub proof fn law_default(aggregator: ExpandingAggregator)
    requires
        call_ensures(<ExpandingAggregator as Default>::default, (), aggregator),
    ensures
        !aggregator@.fitted,
        aggregator@.columns.len() == 0,
        aggregator@.function is Mean,
        aggregator@.min_periods == 1,
{
}

/// Setting the number of observations changes that number and nothing else.
pub proof fn law_min_periods(before: ExpandingAggregator, p: usize, after: ExpandingAggregator)
    requires
        call_ensures(ExpandingAggregator::min_periods, (before, p), after),
    ensures
        after@.min_periods == p,
        after@.fitted == before@.fitted,
        after@.columns == before@.columns,
        after@.function == before@.function,
{
}

/// Any columns, any function and any number of observations can be configured;
/// any column has a generated name; and the checked functions take any frame.
pub proof fn law_any_configuration_is_taken<A: Arithmetic>(
    columns: &[&str],
    column: &str,
    function: ExpandingFn,
    aggregator: ExpandingAggregator,
    changed: &mut ExpandingAggregator,
    p: usize,
    x: DataFrame,
    arithmetic: &A,
)
    ensures
        call_requires(ExpandingAggregator::new, (columns, function)),
        call_requires(ExpandingAggregator::min_periods, (aggregator, p)),
        call_requires(generated_name, (column, function)),
        call_requires(is_orderly, (&x,)),
        call_requires(ExpandingAggregator::checked_fit, (changed, x)),
        call_requires(
            ExpandingAggregator::checked_transform::<A>,
            (&aggregator, x, arithmetic),
        ),
{
}

/// What fitting returns and leaves behind. It succeeds on a frame with rows in
/// which every configured column is there and `Float64`, where a column is
/// configured and at least one observation is asked for, and on no other. After
/// that the aggregator is fitted. A failure is an invalid input, and leaves the
/// aggregator as it was.
pub proof fn law_fitting(
    before: Configuration,
    x: DataFrame,
    result: Result<(), Error>,
    after: Configuration,
)
    requires
        expanding::fit_outcome(before, x, result, after),
    ensures
        result is Ok <==> {
            &&& frames::frame_height(x) > 0
            &&& before.columns.len() > 0
            &&& before.min_periods >= 1
            &&& forall|k: int|
                0 <= k < before.columns.len() ==> #[trigger] fittable(x, before.columns[k])
        },
        result is Ok ==> after.fitted,
        result is Err ==> after == before,
        after.columns == before.columns,
        after.function == before.function,
        after.min_periods == before.min_periods,
        result matches Err(error) ==> error is InvalidInput,
        frames::frame_height(x) == 0 ==> (result matches Err(Error::InvalidInput(text)) && text@
            == "ExpandingAggregator.fit received a DataFrame with 0 rows. Provide at least one row."@),
        frames::frame_height(x) > 0 && before.columns.len() == 0 ==> (result matches Err(
            Error::InvalidInput(text),
        ) && text@ == "ExpandingAggregator: at least one column is required."@),
        frames::frame_height(x) > 0 && before.columns.len() > 0 && before.min_periods == 0 ==> (
        result matches Err(Error::InvalidInput(text)) && text@
            == "ExpandingAggregator: min_periods must be >= 1, got 0"@),
{
    frame_laws::law_fit_succeeds(before, x);
}

proof fn lemma_problems_until(x: DataFrame, names: Seq<Seq<char>>, from: int, k: int)
    requires
        0 <= from <= k <= names.len(),
        forall|j: int| from <= j < k ==> #[trigger] fittable(x, names[j]),
    ensures
        expanding::first_problem(x, names, from) == expanding::first_problem(x, names, k),
    decreases k - from,
{
    if from < k {
        assert(fittable(x, names[from]));
        lemma_problems_until(x, names, from + 1, k);
    }
}

proof fn lemma_refusals_until(x: DataFrame, names: Seq<Seq<char>>, from: int, k: int)
    requires
        0 <= from <= k <= names.len(),
        forall|j: int| from <= j < k ==> #[trigger] readable(x, names[j]),
    ensures
        expanding::first_refusal(x, names, from) == expanding::first_refusal(x, names, k),
    decreases k - from,
{
    if from < k {
        assert(readable(x, names[from]));
        lemma_refusals_until(x, names, from + 1, k);
    }
}

/// Where fitting fails for a configured column, the message names the first one
/// that is not there or not `Float64`, and says which it is.
pub proof fn law_fitting_names_the_first_problem(
    before: Configuration,
    x: DataFrame,
    result: Result<(), Error>,
    after: Configuration,
    k: int,
)
    requires
        expanding::fit_outcome(before, x, result, after),
        frames::frame_height(x) > 0,
        before.min_periods >= 1,
        0 <= k < before.columns.len(),
        forall|j: int| 0 <= j < k ==> #[trigger] fittable(x, before.columns[j]),
        !fittable(x, before.columns[k]),
    ensures
        result is Err && result->Err_0 is InvalidInput,
        frames::find(x, before.columns[k]) is None ==> (result->Err_0->InvalidInput_0)@
            == "ExpandingAggregator: column '"@ + before.columns[k] + "' not found."@,
        frames::find(x, before.columns[k]) matches Some(column) ==> (
        result->Err_0->InvalidInput_0)@ == "ExpandingAggregator: column '"@ + before.columns[k]
            + "' has dtype "@ + frames::column_type_name(column) + "; expected Float64."@,
{
    lemma_problems_until(x, before.columns, 0, k);
}

/// Fitting an aggregator is fitting its configuration.
pub proof fn law_fit(
    aggregator: &mut ExpandingAggregator,
    x: DataFrame,
    result: Result<(), Error>,
)
    requires
        call_ensures(ExpandingAggregator::fit, (aggregator, x), result),
    ensures
        expanding::fit_outcome(old(aggregator)@, x, result, final(aggregator)@),
        result is Ok ==> final(aggregator)@.fitted,
{
}

/// The checked fit does what fitting does, or nothing. It does nothing only
/// where more than four columns would have to be searched that do not have
/// distinct names.
pub proof fn law_checked_fit(
    aggregator: &mut ExpandingAggregator,
    x: DataFrame,
    result: Option<Result<(), Error>>,
)
    requires
        call_ensures(ExpandingAggregator::checked_fit, (aggregator, x), result),
    ensures
        result matches Some(fitted) ==> expanding::fit_outcome(
            old(aggregator)@,
            x,
            fitted,
            final(aggregator)@,
        ),
        result is None ==> final(aggregator)@ == old(aggregator)@,
        result is None ==> {
            &&& frames::frame_height(x) > 0
            &&& old(aggregator)@.columns.len() > 0
            &&& old(aggregator)@.min_periods > 0
            &&& frames::frame_columns(x).len() > 4
            &&& !frames::column_names(frames::frame_columns(x)).no_duplicates()
        },
{
}

/// Any frame can be fitted whose columns have distinct names or are at most
/// four, and any at all where no column is looked for.
pub proof fn law_frames_that_can_be_fitted(aggregator: &mut ExpandingAggregator, x: DataFrame)
    requires
        frames::frame_height(x) == 0 || old(aggregator)@.columns.len() == 0 || old(
            aggregator,
        )@.min_periods == 0 || frames::frame_columns(x).len() <= 4 || frames::column_names(
            frames::frame_columns(x),
        ).no_duplicates(),
    ensures
        call_requires(ExpandingAggregator::fit, (aggregator, x)),
{
}

/// Any frame of distinct names can be transformed that passes over no column, if
/// the configured columns in it can be materialized; and any at all where the
/// aggregator was not fitted.
pub proof fn law_frames_that_can_be_transformed<A: Arithmetic>(
    aggregator: ExpandingAggregator,
    arithmetic: &A,
    x: DataFrame,
)
    requires
        !aggregator@.fitted || aggregator@.columns.len() == 0 || {
            &&& frames::orderly(x)
            &&& frames::column_names(frames::frame_columns(x)).no_duplicates()
            &&& forall|k: int|
                0 <= k < aggregator@.columns.len() ==> frame_laws::materializable(
                    x,
                    #[trigger] aggregator@.columns[k],
                )
        },
    ensures
        call_requires(ExpandingAggregator::transform::<A>, (&aggregator, x, arithmetic)),
{
    if aggregator@.fitted && aggregator@.columns.len() > 0 {
        frame_laws::law_distinct_names_are_safe(aggregator@, x);
    }
}

/// What transforming returns. It succeeds where the aggregator was fitted and
/// something can be derived from every configured column, and nowhere else. The
/// result has the height of the input.
pub proof fn law_transforming<A: Arithmetic>(
    arithmetic: &A,
    configuration: Configuration,
    x: DataFrame,
    result: Result<DataFrame, Error>,
)
    requires
        expanding::transform_outcome(arithmetic, configuration, x, result),
    ensures
        result is Ok <==> configuration.fitted && forall|k: int|
            0 <= k < configuration.columns.len() ==> #[trigger] readable(
                x,
                configuration.columns[k],
            ),
        !configuration.fitted ==> (result matches Err(Error::NotFitted(text)) && text@
            == "ExpandingAggregator"@),
        result matches Ok(y) ==> frames::frame_height(y) == frames::frame_height(x)
            && expanding::transforms(arithmetic, configuration, x, y),
{
    frame_laws::law_transform_succeeds(configuration, x);
}

/// Where transforming fails for a configured column, the error is that of the
/// first one from which nothing can be derived: an invalid input that names it
/// and gives what polars says where it is not there, an invalid input where its
/// series is not `Float64`, and a failed computation, with what polars says of
/// it, where its length does not fit.
pub proof fn law_transforming_reports_the_first_problem<A: Arithmetic>(
    arithmetic: &A,
    configuration: Configuration,
    x: DataFrame,
    result: Result<DataFrame, Error>,
    k: int,
)
    requires
        expanding::transform_outcome(arithmetic, configuration, x, result),
        configuration.fitted,
        0 <= k < configuration.columns.len(),
        forall|j: int| 0 <= j < k ==> #[trigger] readable(x, configuration.columns[j]),
        !readable(x, configuration.columns[k]),
    ensures
        result is Err,
        match frames::find(x, configuration.columns[k]) {
            None => result->Err_0 is InvalidInput && exists|said: Seq<char>| #[trigger]
                frames::is_missing_text(x, configuration.columns[k], said) && (
                result->Err_0->InvalidInput_0)@ == "ExpandingAggregator.transform: column '"@
                    + configuration.columns[k] + "' not found. "@ + said,
            Some(column) => if !frames::series_is_float64(frames::column_series(column)) {
                result->Err_0 is InvalidInput && (result->Err_0->InvalidInput_0)@
                    == "column must be f64"@
            } else {
                result->Err_0 is Computation && frames::is_error_text(
                    (result->Err_0->Computation_0)@,
                )
            },
        },
{
    lemma_refusals_until(x, configuration.columns, 0, k);
    if frames::find(x, configuration.columns[k]) is None {
        let text = (result->Err_0->InvalidInput_0)@;
        let name = configuration.columns[k];
        assert(expanding::is_missing_message(x, name, text));
        let said = choose|said: Seq<char>| #[trigger]
            frames::is_missing_text(x, name, said) && text == expanding::missing_message(
                name,
                said,
            );
        assert(frames::is_missing_text(x, name, said) && text
            == "ExpandingAggregator.transform: column '"@ + name + "' not found. "@ + said);
    }
}

/// Transforming with an aggregator is transforming with its configuration.
pub proof fn law_transform<A: Arithmetic>(
    aggregator: ExpandingAggregator,
    arithmetic: &A,
    x: DataFrame,
    result: Result<DataFrame, Error>,
)
    requires
        call_ensures(ExpandingAggregator::transform::<A>, (&aggregator, x, arithmetic), result),
    ensures
        expanding::transform_outcome(arithmetic, aggregator@, x, result),
{
}

/// The checked transform does what transforming does, or nothing. On a frame of
/// distinct names that passes over no column it does nothing only where a
/// configured column cannot be materialized.
pub proof fn law_checked_transform<A: Arithmetic>(
    aggregator: ExpandingAggregator,
    arithmetic: &A,
    x: DataFrame,
    result: Option<Result<DataFrame, Error>>,
)
    requires
        call_ensures(
            ExpandingAggregator::checked_transform::<A>,
            (&aggregator, x, arithmetic),
            result,
        ),
    ensures
        result matches Some(transformed) ==> expanding::transform_outcome(
            arithmetic,
            aggregator@,
            x,
            transformed,
        ),
        !aggregator@.fitted || aggregator@.columns.len() == 0 ==> result is Some,
        frames::orderly(x) && frames::column_names(frames::frame_columns(x)).no_duplicates() && (
        forall|k: int|
            0 <= k < aggregator@.columns.len() ==> frame_laws::materializable(
                x,
                #[trigger] aggregator@.columns[k],
            )) ==> result is Some,
        frames::frame_columns(x).len() + aggregator@.columns.len() <= 5 && (forall|k: int|
            0 <= k < aggregator@.columns.len() ==> frame_laws::materializable(
                x,
                #[trigger] aggregator@.columns[k],
            )) ==> result is Some,
{
    if frames::orderly(x) && frames::column_names(frames::frame_columns(x)).no_duplicates() {
        frame_laws::law_distinct_names_are_safe(aggregator@, x);
    }
    if frames::frame_columns(x).len() + aggregator@.columns.len() <= 5 && aggregator@.columns.len()
        > 0 && (forall|k: int|
        0 <= k < aggregator@.columns.len() ==> frame_laws::materializable(
            x,
            #[trigger] aggregator@.columns[k],
        )) {
        lemma_few_names_are_safe(
            aggregator@,
            x,
            frames::column_names(frames::frame_columns(x)),
            0,
        );
    }
}

proof fn lemma_few_names_are_safe(
    configuration: Configuration,
    x: DataFrame,
    names: Seq<Seq<char>>,
    from: int,
)
    requires
        0 <= from <= configuration.columns.len(),
        names.len() + configuration.columns.len() - from <= 5,
        forall|k: int|
            0 <= k < configuration.columns.len() ==> frame_laws::materializable(
                x,
                #[trigger] configuration.columns[k],
            ),
    ensures
        expanding::derives_safely(configuration, x, names, from),
    decreases configuration.columns.len() - from,
{
    if from < configuration.columns.len() {
        let name = expanding::output_name(configuration.columns[from], configuration.function);
        assert(frame_laws::materializable(x, configuration.columns[from]));
        lemma_few_names_are_safe(
            configuration,
            x,
            expanding::names_with(x, names, from, name),
            from + 1,
        );
    }
}

/// A frame counts as orderly exactly where its columns have distinct names and
/// it passes over none of them.
pub proof fn law_orderly_is_told(x: DataFrame, answer: bool)
    requires
        call_ensures(is_orderly, (&x,), answer),
    ensures
        answer <==> {
            &&& forall|i: int, j: int|
                0 <= i < j < frames::frame_columns(x).len() ==> frames::column_name(
                    #[trigger] frames::frame_columns(x)[i],
                ) != frames::column_name(#[trigger] frames::frame_columns(x)[j])
            &&& forall|i: int|
                0 <= i < frames::frame_columns(x).len() ==> !#[trigger] frames::frame_hides(x, i)
        },
{
    let columns = frames::frame_columns(x);
    let names = frames::column_names(columns);
    assert forall|i: int| 0 <= i < columns.len() implies frames::column_name(#[trigger] columns[i])
        == names[i] by {}
    if forall|i: int, j: int|
        0 <= i < j < columns.len() ==> frames::column_name(#[trigger] columns[i])
            != frames::column_name(#[trigger] columns[j]) {
        assert forall|i: int, j: int|
            0 <= i < names.len() && 0 <= j < names.len() && i != j implies names[i]
            != names[j] by {
            assert(names[i] == frames::column_name(columns[i]));
            assert(names[j] == frames::column_name(columns[j]));
        }
    }
}

/// The column that a transformed frame has under the generated name of a
/// configured column holds the expanding statistic of that column of the input,
/// by the configured function and with the configured number of observations:
/// one value for each row, where the column has the height of the frame.
pub proof fn law_derived_cells<A: Arithmetic>(
    arithmetic: &A,
    configuration: Configuration,
    x: DataFrame,
    result: DataFrame,
    k: int,
) -> (values: Seq<Option<u64>>)
    requires
        expanding::transforms(arithmetic, configuration, x, result),
        frames::orderly(x),
        0 <= k < configuration.columns.len(),
    ensures
        frames::find(x, configuration.columns[k]) is Some,
        frames::find(
            result,
            expanding::output_name(configuration.columns[k], configuration.function),
        ) is Some,
        window::expands(
            arithmetic,
            configuration.function,
            configuration.min_periods,
            frame_laws::cells_of(x, configuration.columns[k]),
            values,
        ),
        frame_laws::cells_of(x, configuration.columns[k]).len() == frames::frame_height(x)
            ==> frame_laws::cells_of(
            result,
            expanding::output_name(configuration.columns[k], configuration.function),
        ) == values,
        frame_laws::cells_of(x, configuration.columns[k]).len() != frames::frame_height(x) ==> {
            let cells = frame_laws::cells_of(
                result,
                expanding::output_name(configuration.columns[k], configuration.function),
            );
            &&& values.len() == 1
            &&& cells.len() == frames::frame_height(x)
            &&& forall|i: int| 0 <= i < cells.len() ==> #[trigger] cells[i] == values[0]
        },
{
    frame_laws::law_derived_columns_are_there(arithmetic, configuration, x, result, k);
    let name = expanding::output_name(configuration.columns[k], configuration.function);
    let values = choose|values: Seq<Option<u64>>| #[trigger]
        window::expands(
            arithmetic,
            configuration.function,
            configuration.min_periods,
            frame_laws::cells_of(x, configuration.columns[k]),
            values,
        ) && frame_laws::cells_of(result, name) == frames::spread(
            values,
            frames::frame_height(x),
        );
    values
}

/// For each configured column a transformed frame has, at the place returned, a
/// column of the generated name that holds the expanding statistic of the column
/// of the input, whatever index of names the input keeps.
pub proof fn law_derived_column_is_somewhere<A: Arithmetic>(
    arithmetic: &A,
    configuration: Configuration,
    x: DataFrame,
    result: DataFrame,
    k: int,
) -> (found: (int, Seq<Option<u64>>))
    requires
        expanding::transforms(arithmetic, configuration, x, result),
        0 <= k < configuration.columns.len(),
    ensures
        frames::find(x, configuration.columns[k]) is Some,
        0 <= found.0 < frames::frame_columns(result).len(),
        frames::column_name(frames::frame_columns(result)[found.0]) == expanding::output_name(
            configuration.columns[k],
            configuration.function,
        ),
        frames::column_is_float64(frames::frame_columns(result)[found.0]),
        window::expands(
            arithmetic,
            configuration.function,
            configuration.min_periods,
            frame_laws::cells_of(x, configuration.columns[k]),
            found.1,
        ),
        frame_laws::cells_of(x, configuration.columns[k]).len() == frames::frame_height(x)
            ==> frames::column_cells(frames::frame_columns(result)[found.0]) == found.1,
        frame_laws::cells_of(x, configuration.columns[k]).len() != frames::frame_height(x) ==> {
            let cells = frames::column_cells(frames::frame_columns(result)[found.0]);
            &&& found.1.len() == 1
            &&& cells.len() == frames::frame_height(x)
            &&& forall|i: int| 0 <= i < cells.len() ==> #[trigger] cells[i] == found.1[0]
        },
{
    let added = choose|added: Seq<Column>| #[trigger]
        expanding::derives_all(arithmetic, configuration, x, added)
            && frames::frame_columns(result) == expanding::put_all(x, added);
    let names = configuration.columns;
    let (i, j) = frame_laws::lemma_put_all_has(x, added, k);
    assert(expanding::derives(arithmetic, configuration, x, names[k], added[k]));
    assert(expanding::derives(arithmetic, configuration, x, names[j], added[j]));
    frame_laws::law_name_tells_column_and_function(
        names[j],
        configuration.function,
        names[k],
        configuration.function,
    );
    let values = choose|values: Seq<Option<u64>>| #[trigger]
        window::expands(
            arithmetic,
            configuration.function,
            configuration.min_periods,
            frame_laws::cells_of(x, names[k]),
            values,
        ) && frames::column_cells(added[j]) == frames::spread(values, frames::frame_height(x));
    (i, values)
}

} // verus!

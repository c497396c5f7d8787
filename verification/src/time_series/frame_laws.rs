//! What holds of fitting and transforming data frames.

use crate::arithmetic::Arithmetic;
use crate::frames;
use crate::time_series::expanding::{
    self, generated_name, Configuration, ExpandingFn, Refusal,
};
use crate::time_series::{laws, window};
use polars::prelude::{Column, DataFrame};
use vstd::prelude::*;

verus! {

/// Whether a frame has a column of a name, of the type `Float64`.
pub open spec fn fittable(x: DataFrame, name: Seq<char>) -> bool {
    frames::find(x, name) matches Some(column) && frames::column_is_float64(column)
}

/// Whether something can be derived from the column of a name: it is there, its
/// series is `Float64`, and its length fits the frame.
pub open spec fn readable(x: DataFrame, name: Seq<char>) -> bool {
    frames::find(x, name) matches Some(column) && frames::series_is_float64(
        frames::column_series(column),
    ) && frames::fits(frames::column_cells(column).len(), frames::frame_height(x))
}

/// Whether a name is generated for some configured column.
pub open spec fn is_generated(configuration: Configuration, name: Seq<char>) -> bool {
    exists|k: int|
        0 <= k < configuration.columns.len() && #[trigger] expanding::output_name(
            configuration.columns[k],
            configuration.function,
        ) == name
}

proof fn lemma_first_problem(x: DataFrame, names: Seq<Seq<char>>, from: int)
    requires
        0 <= from <= names.len(),
    ensures
        expanding::first_problem(x, names, from) is None <==> forall|k: int|
            from <= k < names.len() ==> #[trigger] fittable(x, names[k]),
        expanding::first_refusal(x, names, from) is None <==> forall|k: int|
            from <= k < names.len() ==> #[trigger] readable(x, names[k]),
    decreases names.len() - from,
{
    if from < names.len() {
        lemma_first_problem(x, names, from + 1);
        assert(fittable(x, names[from]) <==> expanding::column_problem(x, names[from]) is None);
        assert(!readable(x, names[from]) ==> expanding::first_refusal(x, names, from) is Some);
    }
}

/// Fitting succeeds exactly on a frame with rows, in which every configured
/// column is there and `Float64`, for a configuration that names a column and
/// asks for at least one observation.
pub proof fn law_fit_succeeds(configuration: Configuration, x: DataFrame)
    ensures
        expanding::fit_problem(configuration, x) is None <==> {
            &&& frames::frame_height(x) > 0
            &&& configuration.columns.len() > 0
            &&& configuration.min_periods >= 1
            &&& forall|k: int|
                0 <= k < configuration.columns.len() ==> #[trigger] fittable(
                    x,
                    configuration.columns[k],
                )
        },
{
    lemma_first_problem(x, configuration.columns, 0);
}

/// Transforming succeeds exactly where the aggregator was fitted and something
/// can be derived from every configured column.
pub proof fn law_transform_succeeds(configuration: Configuration, x: DataFrame)
    ensures
        expanding::transform_refusal(configuration, x) is None <==> {
            &&& configuration.fitted
            &&& forall|k: int|
                0 <= k < configuration.columns.len() ==> #[trigger] readable(
                    x,
                    configuration.columns[k],
                )
        },
{
    lemma_first_problem(x, configuration.columns, 0);
}

/// Without a fit there is no transform, whatever the frame.
pub proof fn law_transform_needs_fit(configuration: Configuration, x: DataFrame)
    requires
        !configuration.fitted,
    ensures
        expanding::transform_refusal(configuration, x) == Some(Refusal::NotFitted),
{
}

/// The names generated for different columns differ.
pub proof fn law_generated_names_differ(first: Seq<char>, second: Seq<char>, function: ExpandingFn)
    requires
        first != second,
    ensures
        expanding::output_name(first, function) != expanding::output_name(second, function),
{
    let (a, b) = (
        expanding::output_name(first, function),
        expanding::output_name(second, function),
    );
    if a == b {
        let suffix = "_expanding_"@.len() + expanding::function_name(function).len();
        assert(a.len() == first.len() + suffix && b.len() == second.len() + suffix);
        assert(a.take(first.len() as int) =~= first);
        assert(b.take(second.len() as int) =~= second);
    }
}

/// A generated name is the name of the column, whatever it is, followed by
/// `_expanding_` and the word of the function: mean, sum, min, max or std.
pub proof fn law_generated_name(column: &str, function: ExpandingFn, name: String)
    requires
        call_ensures(generated_name, (column, function), name),
    ensures
        name@ == column@ + match function {
            ExpandingFn::Mean => "_expanding_mean"@,
            ExpandingFn::Sum => "_expanding_sum"@,
            ExpandingFn::Min => "_expanding_min"@,
            ExpandingFn::Max => "_expanding_max"@,
            ExpandingFn::Std => "_expanding_std"@,
        },
        name@ == expanding::output_name(column@, function),
{
    law_output_name(column@, function);
}

/// The name under which the statistic of a column is filed is the name of the
/// column followed by a word that depends on the function alone.
pub proof fn law_output_name(column: Seq<char>, function: ExpandingFn)
    ensures
        expanding::output_name(column, function) == column + match function {
            ExpandingFn::Mean => "_expanding_mean"@,
            ExpandingFn::Sum => "_expanding_sum"@,
            ExpandingFn::Min => "_expanding_min"@,
            ExpandingFn::Max => "_expanding_max"@,
            ExpandingFn::Std => "_expanding_std"@,
        },
        expanding::output_name(column, function).take(column.len() as int) == column,
{
    reveal_strlit("_expanding_");
    reveal_strlit("mean");
    reveal_strlit("sum");
    reveal_strlit("min");
    reveal_strlit("max");
    reveal_strlit("std");
    reveal_strlit("_expanding_mean");
    reveal_strlit("_expanding_sum");
    reveal_strlit("_expanding_min");
    reveal_strlit("_expanding_max");
    reveal_strlit("_expanding_std");
    let name = expanding::output_name(column, function);
    match function {
        ExpandingFn::Mean => assert(name =~= column + "_expanding_mean"@),
        ExpandingFn::Sum => assert(name =~= column + "_expanding_sum"@),
        ExpandingFn::Min => assert(name =~= column + "_expanding_min"@),
        ExpandingFn::Max => assert(name =~= column + "_expanding_max"@),
        ExpandingFn::Std => assert(name =~= column + "_expanding_std"@),
    }
    assert(name.take(column.len() as int) =~= column);
}

/// A generated name tells which column and which function it was generated for:
/// two different ones never share a name. In particular the statistics of one
/// column by different functions are filed under different names.
pub proof fn law_name_tells_column_and_function(
    first: Seq<char>,
    function: ExpandingFn,
    second: Seq<char>,
    other: ExpandingFn,
)
    ensures
        expanding::output_name(first, function) == expanding::output_name(second, other) <==> first
            == second && function == other,
{
    reveal_strlit("_expanding_mean");
    reveal_strlit("_expanding_sum");
    reveal_strlit("_expanding_min");
    reveal_strlit("_expanding_max");
    reveal_strlit("_expanding_std");
    law_output_name(first, function);
    law_output_name(second, other);
    let (a, b) = (
        expanding::output_name(first, function),
        expanding::output_name(second, other),
    );
    if a == b {
        assert(a[a.len() - 1] == b[b.len() - 1] && a[a.len() - 2] == b[b.len() - 2]);
        assert(function == other);
        if first != second {
            law_generated_names_differ(first, second, function);
        }
    }
}

proof fn lemma_position(columns: Seq<Column>, name: Seq<char>)
    ensures
        match frames::position(columns, name) {
            Some(i) => 0 <= i < columns.len() && frames::column_name(columns[i]) == name && forall|
                j: int,
            |
                0 <= j < i ==> frames::column_name(#[trigger] columns[j]) != name,
            None => forall|j: int|
                0 <= j < columns.len() ==> frames::column_name(#[trigger] columns[j]) != name,
        },
{
    let names = frames::column_names(columns);
    names.index_of_first_ensures(name);
    assert forall|j: int| 0 <= j < columns.len() implies frames::column_name(#[trigger] columns[j])
        == names[j] by {}
    if frames::position(columns, name) is None {
        assert forall|j: int| 0 <= j < columns.len() implies frames::column_name(
            #[trigger] columns[j],
        ) != name by {
            assert(names[j] == frames::column_name(columns[j]));
        }
    }
}

proof fn lemma_position_is(columns: Seq<Column>, name: Seq<char>, i: int)
    requires
        0 <= i < columns.len(),
        frames::column_name(columns[i]) == name,
        forall|j: int| 0 <= j < i ==> frames::column_name(#[trigger] columns[j]) != name,
    ensures
        frames::position(columns, name) == Some(i),
{
    lemma_position(columns, name);
}

proof fn lemma_put(columns: Seq<Column>, column: Column, name: Seq<char>)
    ensures
        ({
            let result = frames::put(columns, column);
            &&& columns.len() <= result.len() <= columns.len() + 1
            &&& forall|i: int|
                0 <= i < columns.len() ==> frames::column_name(#[trigger] result[i])
                    == frames::column_name(columns[i])
            &&& forall|i: int|
                0 <= i < columns.len() ==> #[trigger] result[i] == columns[i] || result[i] == column
            &&& result.len() > columns.len() ==> result.last() == column && frames::lookup(
                columns,
                frames::column_name(column),
            ) is None
            &&& frames::lookup(result, name) == if name == frames::column_name(column) {
                Some(column)
            } else {
                frames::lookup(columns, name)
            }
        }),
{
    let result = frames::put(columns, column);
    lemma_position(columns, frames::column_name(column));
    lemma_position(columns, name);
    lemma_position(result, name);
    match frames::position(columns, name) {
        Some(i) => {
            assert forall|j: int| 0 <= j < i implies frames::column_name(#[trigger] result[j])
                != name by {
                assert(frames::column_name(columns[j]) != name);
            }
            lemma_position_is(result, name, i);
        },
        None => {
            if name == frames::column_name(column) {
                assert forall|j: int| 0 <= j < columns.len() implies frames::column_name(
                    #[trigger] result[j],
                ) != name by {
                    assert(frames::column_name(columns[j]) != name);
                }
                lemma_position_is(result, name, columns.len() as int);
            } else if frames::position(result, name) is Some {
                let i = frames::position(result, name)->0;
                if i < columns.len() {
                    assert(frames::column_name(columns[i]) != name);
                }
            }
        },
    }
}

/// The place at which the last of several columns goes in.
proof fn lemma_last_place(x: DataFrame, added: Seq<Column>)
    requires
        added.len() > 0,
    ensures
        exists|place: Option<int>|
            {
                &&& expanding::put_all(x, added) == #[trigger] frames::put_at(
                    expanding::put_all(x, added.drop_last()),
                    place,
                    added.last(),
                )
                &&& place matches Some(i) ==> {
                    &&& 0 <= i < expanding::put_all(x, added.drop_last()).len()
                    &&& frames::column_name(expanding::put_all(x, added.drop_last())[i])
                        == frames::column_name(added.last())
                }
            },
{
    let before = expanding::put_all(x, added.drop_last());
    let name = frames::column_name(added.last());
    frames::lemma_place(x, name);
    lemma_position(before, name);
    let place = if added.len() == 1 {
        frames::place(x, name)
    } else {
        frames::position(before, name)
    };
    assert(expanding::put_all(x, added) == frames::put_at(before, place, added.last()));
}

/// Putting several columns in: the places of the old columns are kept.
proof fn lemma_put_all_places(x: DataFrame, added: Seq<Column>, i: int)
    requires
        0 <= i < expanding::put_all(x, added).len(),
    ensures
        i < frames::frame_columns(x).len() ==> frames::column_name(expanding::put_all(x, added)[i])
            == frames::column_name(frames::frame_columns(x)[i]),
        (i < frames::frame_columns(x).len() && expanding::put_all(x, added)[i]
            == frames::frame_columns(x)[i]) || exists|k: int|
            0 <= k < added.len() && #[trigger] added[k] == expanding::put_all(x, added)[i],
    decreases added.len(),
{
    if added.len() > 0 {
        let columns = frames::frame_columns(x);
        let before = expanding::put_all(x, added.drop_last());
        let result = expanding::put_all(x, added);
        lemma_put_all_grows(x, added.drop_last());
        lemma_last_place(x, added);
        if i < before.len() {
            lemma_put_all_places(x, added.drop_last(), i);
            assert(result[i] == before[i] || result[i] == added.last());
            if result[i] == added.last() {
                assert(added[added.len() - 1] == result[i]);
            } else if !(i < columns.len() && before[i] == columns[i]) {
                let k = choose|k: int|
                    0 <= k < added.drop_last().len() && #[trigger] added.drop_last()[k]
                        == before[i];
                assert(added[k] == result[i]);
            }
        } else {
            assert(added[added.len() - 1] == result[i]);
        }
    }
}

proof fn lemma_put_all_grows(x: DataFrame, added: Seq<Column>)
    ensures
        frames::frame_columns(x).len() <= expanding::put_all(x, added).len(),
    decreases added.len(),
{
    if added.len() > 0 {
        lemma_put_all_grows(x, added.drop_last());
        lemma_last_place(x, added);
    }
}

/// Putting several columns in: for each of them one of its name is there after
/// all, at the first place returned; it is the one of the second number.
pub(crate) proof fn lemma_put_all_has(x: DataFrame, added: Seq<Column>, k: int) -> (found: (
    int,
    int,
))
    requires
        0 <= k < added.len(),
    ensures
        0 <= found.0 < expanding::put_all(x, added).len(),
        0 <= found.1 < added.len(),
        expanding::put_all(x, added)[found.0] == added[found.1],
        frames::column_name(added[found.1]) == frames::column_name(added[k]),
    decreases added.len(),
{
    let n = added.len() - 1;
    let before = expanding::put_all(x, added.drop_last());
    lemma_last_place(x, added);
    let place = choose|place: Option<int>|
        {
            &&& expanding::put_all(x, added) == #[trigger] frames::put_at(
                before,
                place,
                added.last(),
            )
            &&& place matches Some(i) ==> {
                &&& 0 <= i < before.len()
                &&& frames::column_name(before[i]) == frames::column_name(added.last())
            }
        };
    if k == n {
        match place {
            Some(i) => (i, n),
            None => (before.len() as int, n),
        }
    } else {
        let (i, j) = lemma_put_all_has(x, added.drop_last(), k);
        if place == Some(i) {
            (i, n)
        } else {
            (i, j)
        }
    }
}

/// Into a frame that passes over no column, each column goes where the first of
/// its name stands.
proof fn lemma_put_all_last(x: DataFrame, added: Seq<Column>)
    requires
        frames::orderly(x),
        added.len() > 0,
    ensures
        expanding::put_all(x, added) == frames::put(
            expanding::put_all(x, added.drop_last()),
            added.last(),
        ),
{
    frames::lemma_place(x, frames::column_name(added.last()));
    if added.len() == 1 {
        assert(expanding::put_all(x, added.drop_last()) == frames::frame_columns(x));
    }
}

/// Putting several columns in: each name leads to the last one of that name, or
/// to the old column where none of them has it.
proof fn lemma_put_all_lookup(x: DataFrame, added: Seq<Column>, name: Seq<char>)
    requires
        frames::orderly(x),
    ensures
        if exists|k: int|
            0 <= k < added.len() && frames::column_name(#[trigger] added[k]) == name {
            exists|k: int|
                0 <= k < added.len() && frames::column_name(#[trigger] added[k]) == name
                    && frames::lookup(expanding::put_all(x, added), name) == Some(added[k])
        } else {
            frames::lookup(expanding::put_all(x, added), name) == frames::find(x, name)
        },
    decreases added.len(),
{
    frames::lemma_place(x, name);
    if added.len() > 0 {
        lemma_put_all_last(x, added);
        let fewer = added.drop_last();
        let n = added.len() - 1;
        lemma_put(expanding::put_all(x, fewer), added.last(), name);
        lemma_put_all_lookup(x, fewer, name);
        if frames::column_name(added.last()) == name {
            assert(added[n] == added.last());
        } else if exists|k: int|
            0 <= k < added.len() && frames::column_name(#[trigger] added[k]) == name {
            let k = choose|k: int|
                0 <= k < added.len() && frames::column_name(#[trigger] added[k]) == name;
            assert(frames::column_name(fewer[k]) == name);
            let last = choose|k: int|
                0 <= k < fewer.len() && frames::column_name(#[trigger] fewer[k]) == name
                    && frames::lookup(expanding::put_all(x, fewer), name) == Some(fewer[k]);
            assert(added[last] == fewer[last]);
        } else {
            assert forall|k: int| 0 <= k < fewer.len() implies frames::column_name(
                #[trigger] fewer[k],
            ) != name by {
                assert(frames::column_name(added[k]) != name);
            }
        }
    }
}

/// Existing columns pass through unchanged and in their places, but for those
/// whose name is generated, which are replaced.
pub proof fn law_columns_pass_through<A: Arithmetic>(
    arithmetic: &A,
    configuration: Configuration,
    x: DataFrame,
    result: DataFrame,
    i: int,
)
    requires
        expanding::transforms(arithmetic, configuration, x, result),
        0 <= i < frames::frame_columns(x).len(),
    ensures
        i < frames::frame_columns(result).len(),
        frames::column_name(frames::frame_columns(result)[i]) == frames::column_name(
            frames::frame_columns(x)[i],
        ),
        !is_generated(configuration, frames::column_name(frames::frame_columns(x)[i]))
            ==> frames::frame_columns(result)[i] == frames::frame_columns(x)[i],
{
    let columns = frames::frame_columns(x);
    let added = choose|added: Seq<Column>| #[trigger]
        expanding::derives_all(arithmetic, configuration, x, added)
            && frames::frame_columns(result) == expanding::put_all(x, added);
    lemma_put_all_grows(x, added);
    lemma_put_all_places(x, added, i);
    if frames::frame_columns(result)[i] != columns[i] {
        let k = choose|k: int|
            0 <= k < added.len() && #[trigger] added[k] == expanding::put_all(x, added)[i];
        assert(expanding::derives(
            arithmetic,
            configuration,
            x,
            configuration.columns[k],
            added[k],
        ));
    }
}

/// No other columns come in: one that stands behind those of the input is
/// derived from a configured column.
pub proof fn law_only_derived_columns_are_added<A: Arithmetic>(
    arithmetic: &A,
    configuration: Configuration,
    x: DataFrame,
    result: DataFrame,
    i: int,
)
    requires
        expanding::transforms(arithmetic, configuration, x, result),
        frames::frame_columns(x).len() <= i < frames::frame_columns(result).len(),
    ensures
        exists|k: int|
            0 <= k < configuration.columns.len() && expanding::derives(
                arithmetic,
                configuration,
                x,
                #[trigger] configuration.columns[k],
                frames::frame_columns(result)[i],
            ),
{
    let added = choose|added: Seq<Column>| #[trigger]
        expanding::derives_all(arithmetic, configuration, x, added)
            && frames::frame_columns(result) == expanding::put_all(x, added);
    lemma_put_all_places(x, added, i);
    let k = choose|k: int|
        0 <= k < added.len() && #[trigger] added[k] == expanding::put_all(x, added)[i];
    assert(expanding::derives(arithmetic, configuration, x, configuration.columns[k], added[k]));
}

/// For each configured column the result has a column of the generated name,
/// derived from the column of the input. This holds too where the generated
/// name of one configured column is the name of another. The input may not pass
/// over columns of its own: one of the generated name would stand before the
/// derived one.
pub proof fn law_derived_columns_are_there<A: Arithmetic>(
    arithmetic: &A,
    configuration: Configuration,
    x: DataFrame,
    result: DataFrame,
    k: int,
)
    requires
        expanding::transforms(arithmetic, configuration, x, result),
        frames::orderly(x),
        0 <= k < configuration.columns.len(),
    ensures
        frames::find(
            result,
            expanding::output_name(configuration.columns[k], configuration.function),
        ) is Some,
        expanding::derives(
            arithmetic,
            configuration,
            x,
            configuration.columns[k],
            frames::find(
                result,
                expanding::output_name(configuration.columns[k], configuration.function),
            )->0,
        ),
{
    let added = choose|added: Seq<Column>| #[trigger]
        expanding::derives_all(arithmetic, configuration, x, added)
            && frames::frame_columns(result) == expanding::put_all(x, added);
    let name = expanding::output_name(configuration.columns[k], configuration.function);
    frames::lemma_place(result, name);
    assert(expanding::derives(arithmetic, configuration, x, configuration.columns[k], added[k]));
    assert(frames::column_name(added[k]) == name);
    lemma_put_all_lookup(x, added, name);
    let j = choose|j: int|
        0 <= j < added.len() && frames::column_name(#[trigger] added[j]) == name && frames::lookup(
            expanding::put_all(x, added),
            name,
        ) == Some(added[j]);
    assert(expanding::derives(arithmetic, configuration, x, configuration.columns[j], added[j]));
    if configuration.columns[j] != configuration.columns[k] {
        law_generated_names_differ(
            configuration.columns[j],
            configuration.columns[k],
            configuration.function,
        );
    }
}

/// A name that is not generated leads to the same column as before, in a frame
/// that passes over none.
pub proof fn law_other_names_lead_where_they_did<A: Arithmetic>(
    arithmetic: &A,
    configuration: Configuration,
    x: DataFrame,
    result: DataFrame,
    name: Seq<char>,
)
    requires
        expanding::transforms(arithmetic, configuration, x, result),
        frames::orderly(x),
        !is_generated(configuration, name),
    ensures
        frames::find(result, name) == frames::find(x, name),
{
    let added = choose|added: Seq<Column>| #[trigger]
        expanding::derives_all(arithmetic, configuration, x, added)
            && frames::frame_columns(result) == expanding::put_all(x, added);
    frames::lemma_place(result, name);
    lemma_put_all_lookup(x, added, name);
    assert forall|k: int| 0 <= k < added.len() implies frames::column_name(#[trigger] added[k])
        != name by {
        assert(expanding::derives(
            arithmetic,
            configuration,
            x,
            configuration.columns[k],
            added[k],
        ));
    }
}

/// Columns whose names are new and differ are appended.
proof fn lemma_put_all_appends(x: DataFrame, added: Seq<Column>)
    requires
        forall|k: int|
            0 <= k < added.len() ==> !frames::column_names(frames::frame_columns(x)).contains(
                frames::column_name(#[trigger] added[k]),
            ),
        forall|j: int, k: int|
            0 <= j < k < added.len() ==> frames::column_name(#[trigger] added[j])
                != frames::column_name(#[trigger] added[k]),
    ensures
        expanding::put_all(x, added) == frames::frame_columns(x) + added,
    decreases added.len(),
{
    let columns = frames::frame_columns(x);
    if added.len() > 0 {
        let fewer = added.drop_last();
        let column = added.last();
        assert forall|k: int| 0 <= k < fewer.len() implies !frames::column_names(columns).contains(
            frames::column_name(#[trigger] fewer[k]),
        ) by {
            assert(fewer[k] == added[k]);
        }
        assert forall|j: int, k: int| 0 <= j < k < fewer.len() implies frames::column_name(
            #[trigger] fewer[j],
        ) != frames::column_name(#[trigger] fewer[k]) by {
            assert(fewer[j] == added[j] && fewer[k] == added[k]);
        }
        lemma_put_all_appends(x, fewer);
        let name = frames::column_name(column);
        assert(added[added.len() - 1] == column);
        assert forall|j: int| 0 <= j < columns.len() implies frames::column_name(
            #[trigger] columns[j],
        ) != name by {
            assert(frames::column_names(columns)[j] == frames::column_name(columns[j]));
        }
        frames::lemma_place(x, name);
        let before = columns + fewer;
        lemma_position(before, name);
        if frames::position(before, name) is Some {
            let i = frames::position(before, name)->0;
            if i < columns.len() {
                assert(before[i] == columns[i]);
            } else {
                assert(before[i] == added[i - columns.len()]);
            }
        }
        assert((columns + fewer).push(column) =~= columns + added);
    } else {
        assert(columns + added =~= columns);
    }
}

/// Where the configured columns differ and none of the generated names occurs
/// in the input, the derived columns are appended in the configured order.
pub proof fn law_new_columns_are_appended<A: Arithmetic>(
    arithmetic: &A,
    configuration: Configuration,
    x: DataFrame,
    result: DataFrame,
)
    requires
        expanding::transforms(arithmetic, configuration, x, result),
        configuration.columns.no_duplicates(),
        forall|k: int|
            0 <= k < configuration.columns.len() ==> !frames::column_names(
                frames::frame_columns(x),
            ).contains(
                #[trigger] expanding::output_name(
                    configuration.columns[k],
                    configuration.function,
                ),
            ),
    ensures
        exists|added: Seq<Column>| #[trigger]
            expanding::derives_all(arithmetic, configuration, x, added)
                && frames::frame_columns(result) == frames::frame_columns(x) + added,
        frames::frame_columns(result).len() == frames::frame_columns(x).len()
            + configuration.columns.len(),
        forall|k: int|
            0 <= k < configuration.columns.len() ==> frames::column_name(
                frames::frame_columns(result)[frames::frame_columns(x).len() + k],
            ) == expanding::output_name(
                #[trigger] configuration.columns[k],
                configuration.function,
            ),
{
    let added = choose|added: Seq<Column>| #[trigger]
        expanding::derives_all(arithmetic, configuration, x, added)
            && frames::frame_columns(result) == expanding::put_all(x, added);
    let names = configuration.columns;
    assert forall|k: int| 0 <= k < added.len() implies frames::column_name(#[trigger] added[k])
        == expanding::output_name(names[k], configuration.function) by {
        assert(expanding::derives(arithmetic, configuration, x, names[k], added[k]));
    }
    assert forall|j: int, k: int| 0 <= j < k < added.len() implies frames::column_name(
        #[trigger] added[j],
    ) != frames::column_name(#[trigger] added[k]) by {
        law_generated_names_differ(names[j], names[k], configuration.function);
    }
    lemma_put_all_appends(x, added);
    assert forall|k: int| 0 <= k < names.len() implies frames::column_name(
        frames::frame_columns(result)[frames::frame_columns(x).len() + k],
    ) == expanding::output_name(#[trigger] names[k], configuration.function) by {
        assert(frames::frame_columns(result)[frames::frame_columns(x).len() + k] == added[k]);
    }
}

/// The cells of the column of a name.
pub open spec fn cells_of(x: DataFrame, name: Seq<char>) -> Seq<Option<u64>> {
    frames::column_cells(frames::find(x, name)->0)
}

proof fn lemma_alike_spread(first: Seq<Option<u64>>, second: Seq<Option<u64>>, height: nat)
    requires
        laws::alike_rows(first, second),
        frames::fits(first.len(), height),
    ensures
        laws::alike_rows(frames::spread(first, height), frames::spread(second, height)),
{
    if first.len() != height {
        assert(laws::alike_cells(first[0], second[0]));
    }
}

/// What is derived twice from a column is alike.
proof fn lemma_alike_expansions<A: Arithmetic>(
    arithmetic: &A,
    configuration: Configuration,
    source: Seq<Option<u64>>,
    height: nat,
    first: Seq<Option<u64>>,
    second: Seq<Option<u64>>,
)
    requires
        expanding::expands_over(arithmetic, configuration, source, height, first),
        expanding::expands_over(arithmetic, configuration, source, height, second),
        frames::fits(source.len(), height),
    ensures
        laws::repeatable_up_to_nan(arithmetic) ==> laws::alike_rows(first, second),
        laws::repeatable(arithmetic) ==> first == second,
{
    let (function, min_periods) = (configuration.function, configuration.min_periods);
    let a = choose|values: Seq<Option<u64>>| #[trigger]
        window::expands(arithmetic, function, min_periods, source, values) && first
            == frames::spread(values, height);
    let b = choose|values: Seq<Option<u64>>| #[trigger]
        window::expands(arithmetic, function, min_periods, source, values) && second
            == frames::spread(values, height);
    if laws::repeatable_up_to_nan(arithmetic) {
        laws::law_alike_columns_alike_values(
            arithmetic,
            function,
            min_periods,
            source,
            a,
            source,
            b,
        );
        lemma_alike_spread(a, b, height);
    }
    if laws::repeatable(arithmetic) {
        laws::law_same_column_same_values(arithmetic, function, min_periods, source, a, b);
    }
}

/// A generated column holds what computing the statistic of the input column
/// gives, NaN counting as equal to NaN. Where the input column has a single cell
/// and the frame another height, the one value is repeated.
pub proof fn law_generated_column_is_the_statistic<A: Arithmetic>(
    arithmetic: &A,
    configuration: Configuration,
    x: DataFrame,
    result: DataFrame,
    k: int,
    values: Seq<Option<u64>>,
)
    requires
        expanding::transforms(arithmetic, configuration, x, result),
        frames::orderly(x),
        0 <= k < configuration.columns.len(),
        window::expands(
            arithmetic,
            configuration.function,
            configuration.min_periods,
            cells_of(x, configuration.columns[k]),
            values,
        ),
        laws::repeatable_up_to_nan(arithmetic),
    ensures
        laws::alike_rows(
            cells_of(
                result,
                expanding::output_name(configuration.columns[k], configuration.function),
            ),
            frames::spread(values, frames::frame_height(x)),
        ),
        cells_of(x, configuration.columns[k]).len() == frames::frame_height(x) ==> frames::spread(
            values,
            frames::frame_height(x),
        ) == values,
{
    law_derived_columns_are_there(arithmetic, configuration, x, result, k);
    let height = frames::frame_height(x);
    assert(expanding::expands_over(
        arithmetic,
        configuration,
        cells_of(x, configuration.columns[k]),
        height,
        frames::spread(values, height),
    ));
    lemma_alike_expansions(
        arithmetic,
        configuration,
        cells_of(x, configuration.columns[k]),
        height,
        cells_of(
            result,
            expanding::output_name(configuration.columns[k], configuration.function),
        ),
        frames::spread(values, height),
    );
}

/// What is generated from a column depends neither on the order of the
/// configured columns nor on which others there are, NaN counting as equal to
/// NaN.
pub proof fn law_other_configured_columns_do_not_matter<A: Arithmetic>(
    arithmetic: &A,
    configuration: Configuration,
    result: DataFrame,
    k: int,
    other: Configuration,
    other_result: DataFrame,
    j: int,
    x: DataFrame,
)
    requires
        expanding::transforms(arithmetic, configuration, x, result),
        expanding::transforms(arithmetic, other, x, other_result),
        frames::orderly(x),
        configuration.function == other.function,
        configuration.min_periods == other.min_periods,
        0 <= k < configuration.columns.len(),
        0 <= j < other.columns.len(),
        configuration.columns[k] == other.columns[j],
        laws::repeatable_up_to_nan(arithmetic),
    ensures
        laws::alike_rows(
            cells_of(
                result,
                expanding::output_name(configuration.columns[k], configuration.function),
            ),
            cells_of(
                other_result,
                expanding::output_name(configuration.columns[k], configuration.function),
            ),
        ),
{
    let name = expanding::output_name(configuration.columns[k], configuration.function);
    law_derived_columns_are_there(arithmetic, configuration, x, result, k);
    law_derived_columns_are_there(arithmetic, other, x, other_result, j);
    let values = choose|values: Seq<Option<u64>>| #[trigger]
        window::expands(
            arithmetic,
            other.function,
            other.min_periods,
            cells_of(x, other.columns[j]),
            values,
        ) && cells_of(other_result, name) == frames::spread(values, frames::frame_height(x));
    law_generated_column_is_the_statistic(arithmetic, configuration, x, result, k, values);
}

/// A column that changes when several are put in is the one that its name leads
/// to.
proof fn lemma_put_all_changes(x: DataFrame, added: Seq<Column>, i: int)
    requires
        frames::orderly(x),
        0 <= i < frames::frame_columns(x).len(),
        i < expanding::put_all(x, added).len(),
        expanding::put_all(x, added)[i] != frames::frame_columns(x)[i],
    ensures
        frames::find(x, frames::column_name(frames::frame_columns(x)[i])) == Some(
            frames::frame_columns(x)[i],
        ),
    decreases added.len(),
{
    let columns = frames::frame_columns(x);
    if added.len() > 0 {
        let before = expanding::put_all(x, added.drop_last());
        lemma_put_all_last(x, added);
        lemma_put_all_grows(x, added.drop_last());
        if before[i] != columns[i] {
            lemma_put_all_changes(x, added.drop_last(), i);
        } else {
            let name = frames::column_name(columns[i]);
            lemma_position(before, frames::column_name(added.last()));
            assert forall|j: int| 0 <= j < i implies frames::column_name(#[trigger] columns[j])
                != name by {
                lemma_put_all_places(x, added.drop_last(), j);
                assert(frames::column_name(before[j]) == frames::column_name(columns[j]));
            }
            lemma_position_is(columns, name, i);
            frames::lemma_place(x, name);
        }
    }
}

/// Columns whose names are all there already only replace.
proof fn lemma_put_all_replaces(x: DataFrame, added: Seq<Column>)
    requires
        frames::orderly(x),
        forall|k: int|
            0 <= k < added.len() ==> frames::find(
                x,
                frames::column_name(#[trigger] added[k]),
            ) is Some,
    ensures
        expanding::put_all(x, added).len() == frames::frame_columns(x).len(),
    decreases added.len(),
{
    if added.len() > 0 {
        let fewer = added.drop_last();
        assert forall|k: int| 0 <= k < fewer.len() implies frames::find(
            x,
            frames::column_name(#[trigger] fewer[k]),
        ) is Some by {
            assert(fewer[k] == added[k]);
        }
        lemma_put_all_replaces(x, fewer);
        let name = frames::column_name(added.last());
        assert(added[added.len() - 1] == added.last());
        lemma_put_all_last(x, added);
        lemma_put_all_lookup(x, fewer, name);
        lemma_position(expanding::put_all(x, fewer), name);
    }
}

/// A frame that was transformed can be transformed again, if it passed over no
/// column.
pub proof fn law_transformed_frame_transforms<A: Arithmetic>(
    arithmetic: &A,
    configuration: Configuration,
    x: DataFrame,
    y: DataFrame,
)
    requires
        frames::orderly(x),
        expanding::transform_refusal(configuration, x) is None,
        expanding::transforms(arithmetic, configuration, x, y),
    ensures
        expanding::transform_refusal(configuration, y) is None,
{
    law_transform_succeeds(configuration, x);
    law_transform_succeeds(configuration, y);
    assert forall|k: int| 0 <= k < configuration.columns.len() implies #[trigger] readable(
        y,
        configuration.columns[k],
    ) by {
        let name = configuration.columns[k];
        assert(readable(x, name));
        if is_generated(configuration, name) {
            let j = choose|j: int|
                0 <= j < configuration.columns.len() && #[trigger] expanding::output_name(
                    configuration.columns[j],
                    configuration.function,
                ) == name;
            law_derived_columns_are_there(arithmetic, configuration, x, y, j);
        } else {
            law_other_names_lead_where_they_did(arithmetic, configuration, x, y, name);
        }
    }
}

/// Distinct names stay distinct, in a frame that passes over no column.
pub proof fn law_names_stay_distinct<A: Arithmetic>(
    arithmetic: &A,
    configuration: Configuration,
    x: DataFrame,
    result: DataFrame,
)
    requires
        frames::orderly(x),
        frames::column_names(frames::frame_columns(x)).no_duplicates(),
        expanding::transforms(arithmetic, configuration, x, result),
    ensures
        frames::column_names(frames::frame_columns(result)).no_duplicates(),
{
    let added = choose|added: Seq<Column>| #[trigger]
        expanding::derives_all(arithmetic, configuration, x, added)
            && frames::frame_columns(result) == expanding::put_all(x, added);
    lemma_put_all_distinct(x, added);
}

proof fn lemma_put_all_distinct(x: DataFrame, added: Seq<Column>)
    requires
        frames::orderly(x),
        frames::column_names(frames::frame_columns(x)).no_duplicates(),
    ensures
        frames::column_names(expanding::put_all(x, added)).no_duplicates(),
    decreases added.len(),
{
    if added.len() > 0 {
        let before = expanding::put_all(x, added.drop_last());
        let name = frames::column_name(added.last());
        lemma_put_all_distinct(x, added.drop_last());
        lemma_put_all_last(x, added);
        lemma_position(before, name);
        frames::lemma_put_at_names(before, frames::position(before, name), added.last());
        frames::column_names(before).index_of_first_ensures(name);
    }
}

/// On a frame of distinct names that passes over no column, polars can do what
/// fitting asks of it, and what transforming asks if the configured columns that
/// are there can be materialized.
pub proof fn law_distinct_names_are_safe(configuration: Configuration, x: DataFrame)
    requires
        frames::orderly(x),
        frames::column_names(frames::frame_columns(x)).no_duplicates(),
    ensures
        expanding::fit_is_safe(configuration, x),
        (forall|k: int|
            0 <= k < configuration.columns.len() ==> materializable(
                x,
                #[trigger] configuration.columns[k],
            )) ==> expanding::transform_is_safe(configuration, x),
{
    if forall|k: int|
        0 <= k < configuration.columns.len() ==> materializable(
            x,
            #[trigger] configuration.columns[k],
        ) {
        lemma_derives_safely(
            configuration,
            x,
            frames::column_names(frames::frame_columns(x)),
            0,
        );
    }
}

/// Whether the column of a name, if there is one, can be materialized.
pub open spec fn materializable(x: DataFrame, name: Seq<char>) -> bool {
    frames::find(x, name) matches Some(column) ==> frames::column_materializes(column)
        && frames::column_cells(column).len() < 0xffff_ffff
}

proof fn lemma_derives_safely(
    configuration: Configuration,
    x: DataFrame,
    names: Seq<Seq<char>>,
    from: int,
)
    requires
        frames::orderly(x),
        names.no_duplicates(),
        from == 0 ==> names == frames::column_names(frames::frame_columns(x)),
        0 <= from <= configuration.columns.len(),
        forall|k: int|
            0 <= k < configuration.columns.len() ==> materializable(
                x,
                #[trigger] configuration.columns[k],
            ),
    ensures
        expanding::derives_safely(configuration, x, names, from),
    decreases configuration.columns.len() - from,
{
    if from < configuration.columns.len() {
        let name = expanding::output_name(configuration.columns[from], configuration.function);
        assert(materializable(x, configuration.columns[from]));
        frames::lemma_place(x, name);
        names.index_of_first_ensures(name);
        lemma_derives_safely(
            configuration,
            x,
            expanding::names_with(x, names, from, name),
            from + 1,
        );
    }
}

/// What transforming a transformed frame again does to a column: it stays, or
/// both it and what takes its place are derived from the same input column.
proof fn lemma_transformed_again<A: Arithmetic>(
    arithmetic: &A,
    configuration: Configuration,
    x: DataFrame,
    y: DataFrame,
    z: DataFrame,
    i: int,
)
    requires
        frames::orderly(x),
        expanding::transforms(arithmetic, configuration, x, y),
        expanding::transforms(arithmetic, configuration, y, z),
        forall|k: int|
            0 <= k < configuration.columns.len() ==> !is_generated(
                configuration,
                #[trigger] configuration.columns[k],
            ),
    ensures
        frames::frame_columns(z).len() == frames::frame_columns(y).len(),
        0 <= i < frames::frame_columns(y).len() ==> {
            let (before, after) = (frames::frame_columns(y)[i], frames::frame_columns(z)[i]);
            &&& frames::column_name(after) == frames::column_name(before)
            &&& !is_generated(configuration, frames::column_name(before)) ==> after == before
            &&& after != before ==> exists|k: int|
                {
                    &&& 0 <= k < configuration.columns.len()
                    &&& expanding::derives(
                        arithmetic,
                        configuration,
                        x,
                        #[trigger] configuration.columns[k],
                        before,
                    )
                    &&& expanding::derives(
                        arithmetic,
                        configuration,
                        x,
                        configuration.columns[k],
                        after,
                    )
                }
        },
{
    let columns = frames::frame_columns(y);
    let names = configuration.columns;
    let added = choose|added: Seq<Column>| #[trigger]
        expanding::derives_all(arithmetic, configuration, y, added)
            && frames::frame_columns(z) == expanding::put_all(y, added);
    assert forall|k: int| 0 <= k < added.len() implies frames::find(
        y,
        frames::column_name(#[trigger] added[k]),
    ) is Some by {
        assert(expanding::derives(arithmetic, configuration, y, names[k], added[k]));
        law_derived_columns_are_there(arithmetic, configuration, x, y, k);
    }
    lemma_put_all_replaces(y, added);
    if 0 <= i < columns.len() {
        let (before, after) = (columns[i], frames::frame_columns(z)[i]);
        law_columns_pass_through(arithmetic, configuration, y, z, i);
        if after != before {
            lemma_put_all_places(y, added, i);
            lemma_put_all_changes(y, added, i);
            let k = choose|k: int|
                0 <= k < added.len() && #[trigger] added[k] == expanding::put_all(y, added)[i];
            assert(expanding::derives(arithmetic, configuration, y, names[k], added[k]));
            law_derived_columns_are_there(arithmetic, configuration, x, y, k);
            assert(!is_generated(configuration, names[k]));
            law_other_names_lead_where_they_did(arithmetic, configuration, x, y, names[k]);
            assert(expanding::derives(arithmetic, configuration, x, names[k], before));
            assert(expanding::derives(arithmetic, configuration, x, names[k], after));
        }
    }
}

/// Whether two frames agree: as many rows, equal names in order, and in each
/// column cells that agree up to which NaN they hold. Columns that are not
/// `Float64` are the same.
pub open spec fn alike_frames(first: DataFrame, second: DataFrame) -> bool {
    let (a, b) = (frames::frame_columns(first), frames::frame_columns(second));
    &&& frames::frame_height(first) == frames::frame_height(second)
    &&& frames::column_names(a) == frames::column_names(b)
    &&& forall|i: int|
        0 <= i < a.len() ==> #[trigger] a[i] == b[i] || {
            let (s, t) = (frames::column_series(a[i]), frames::column_series(b[i]));
            &&& frames::series_is_float64(s) && frames::series_is_float64(t)
            &&& laws::alike_rows(frames::series_cells(s), frames::series_cells(t))
        }
}

/// Whether two frames agree to the bit: as many rows, equal names in order, and
/// in each column the same cells. Columns that are not `Float64` are the same.
pub open spec fn same_frames(first: DataFrame, second: DataFrame) -> bool {
    let (a, b) = (frames::frame_columns(first), frames::frame_columns(second));
    &&& frames::frame_height(first) == frames::frame_height(second)
    &&& frames::column_names(a) == frames::column_names(b)
    &&& forall|i: int|
        0 <= i < a.len() ==> #[trigger] a[i] == b[i] || {
            let (s, t) = (frames::column_series(a[i]), frames::column_series(b[i]));
            &&& frames::series_is_float64(s) && frames::series_is_float64(t)
            &&& frames::series_cells(s) == frames::series_cells(t)
        }
}

/// Transforming a transformed frame again changes nothing: the same columns in
/// the same order with the same cells. No configured column may have a
/// generated name, the frame passes over no column, and operations give the
/// same results again.
pub proof fn law_transform_again<A: Arithmetic>(
    arithmetic: &A,
    configuration: Configuration,
    x: DataFrame,
    y: DataFrame,
    z: DataFrame,
)
    requires
        frames::orderly(x),
        expanding::transforms(arithmetic, configuration, x, y),
        expanding::transforms(arithmetic, configuration, y, z),
        forall|k: int|
            0 <= k < configuration.columns.len() ==> !is_generated(
                configuration,
                #[trigger] configuration.columns[k],
            ),
        laws::repeatable(arithmetic),
    ensures
        same_frames(y, z),
{
    let (a, b) = (frames::frame_columns(y), frames::frame_columns(z));
    lemma_transformed_again(arithmetic, configuration, x, y, z, 0);
    assert forall|i: int| 0 <= i < a.len() implies frames::column_name(#[trigger] a[i])
        == frames::column_name(b[i]) && (a[i] == b[i] || {
        let (s, t) = (frames::column_series(a[i]), frames::column_series(b[i]));
        &&& frames::series_is_float64(s) && frames::series_is_float64(t)
        &&& frames::series_cells(s) == frames::series_cells(t)
    }) by {
        lemma_transformed_again(arithmetic, configuration, x, y, z, i);
        if a[i] != b[i] {
            let k = choose|k: int|
                {
                    &&& 0 <= k < configuration.columns.len()
                    &&& expanding::derives(
                        arithmetic,
                        configuration,
                        x,
                        #[trigger] configuration.columns[k],
                        a[i],
                    )
                    &&& expanding::derives(
                        arithmetic,
                        configuration,
                        x,
                        configuration.columns[k],
                        b[i],
                    )
                };
            lemma_alike_expansions(
                arithmetic,
                configuration,
                cells_of(x, configuration.columns[k]),
                frames::frame_height(x),
                frames::column_cells(a[i]),
                frames::column_cells(b[i]),
            );
        }
    }
    assert(frames::column_names(a) =~= frames::column_names(b));
}

/// Transforming a transformed frame again changes nothing, NaN counting as
/// equal to NaN. No configured column may have a generated name, the frame
/// passes over no column, and operations give results that agree again up to
/// which NaN they are.
pub proof fn law_transform_again_up_to_nan<A: Arithmetic>(
    arithmetic: &A,
    configuration: Configuration,
    x: DataFrame,
    y: DataFrame,
    z: DataFrame,
)
    requires
        frames::orderly(x),
        expanding::transforms(arithmetic, configuration, x, y),
        expanding::transforms(arithmetic, configuration, y, z),
        forall|k: int|
            0 <= k < configuration.columns.len() ==> !is_generated(
                configuration,
                #[trigger] configuration.columns[k],
            ),
        laws::repeatable_up_to_nan(arithmetic),
    ensures
        alike_frames(y, z),
{
    let (a, b) = (frames::frame_columns(y), frames::frame_columns(z));
    lemma_transformed_again(arithmetic, configuration, x, y, z, 0);
    assert forall|i: int| 0 <= i < a.len() implies frames::column_name(#[trigger] a[i])
        == frames::column_name(b[i]) && (a[i] == b[i] || {
        let (s, t) = (frames::column_series(a[i]), frames::column_series(b[i]));
        &&& frames::series_is_float64(s) && frames::series_is_float64(t)
        &&& laws::alike_rows(frames::series_cells(s), frames::series_cells(t))
    }) by {
        lemma_transformed_again(arithmetic, configuration, x, y, z, i);
        if a[i] != b[i] {
            let k = choose|k: int|
                {
                    &&& 0 <= k < configuration.columns.len()
                    &&& expanding::derives(
                        arithmetic,
                        configuration,
                        x,
                        #[trigger] configuration.columns[k],
                        a[i],
                    )
                    &&& expanding::derives(
                        arithmetic,
                        configuration,
                        x,
                        configuration.columns[k],
                        b[i],
                    )
                };
            lemma_alike_expansions(
                arithmetic,
                configuration,
                cells_of(x, configuration.columns[k]),
                frames::frame_height(x),
                frames::column_cells(a[i]),
                frames::column_cells(b[i]),
            );
        }
    }
    assert(frames::column_names(a) =~= frames::column_names(b));
}

} // verus!

//! Data frames: what is relied on of polars.
//!
//! A frame has a height and a sequence of columns, found by name. Mostly every
//! column has one cell for each row, but not always: a `DataFrame::vstack_mut`
//! that fails midway leaves columns of different lengths. Of a column the
//! statistics read its name, its type, and the cells of the series that it
//! materializes to. The functions that call polars are not proved: each contract
//! states what the polars function does.
//!
//! Polars can be told, through an environment variable, to panic wherever it
//! would build an error. The contracts speak of its normal setting, in which
//! errors are returned.

use polars::prelude::{
    reinterpret, Column, DataFrame, DataType, Float64Type, IntoSeries, PolarsError, Series,
    UInt64Chunked,
};
use vstd::prelude::*;

verus! {

/// A polars data frame.
#[verifier::external_type_specification]
#[verifier::external_body]
pub struct ExDataFrame(DataFrame);

/// A column of a polars data frame.
#[verifier::external_type_specification]
#[verifier::external_body]
pub struct ExColumn(Column);

/// A polars series: a name, a type and the cells.
#[verifier::external_type_specification]
#[verifier::external_body]
pub struct ExSeries(Series);

/// An error of polars.
#[verifier::external_type_specification]
#[verifier::external_body]
pub struct ExPolarsError(PolarsError);

/// Polars arrays are shorter than this; building one that is not panics.
pub const ROW_LIMIT: usize = 0xffff_ffff;

/// Among this many columns polars looks for a name one by one. Among more it
/// builds an index of the names, and panics where one of them occurs twice.
pub const SEARCH_LIMIT: usize = 4;

/// The columns of a frame, in order.
pub uninterp spec fn frame_columns(frame: DataFrame) -> Seq<Column>;

/// The number of rows of a frame.
pub uninterp spec fn frame_height(frame: DataFrame) -> nat;

/// Whether a frame passes over the column at a place when it looks for a name.
/// It does so only where it keeps an index of names and the index does not lead
/// to that place: `DataFrame::rename_many` leaves such an index behind.
pub uninterp spec fn frame_hides(frame: DataFrame, place: int) -> bool;

/// The name of a column.
pub uninterp spec fn column_name(column: Column) -> Seq<char>;

/// Whether the type of a column is `Float64`.
pub uninterp spec fn column_is_float64(column: Column) -> bool;

/// The type of a column as polars displays it.
pub uninterp spec fn column_type_name(column: Column) -> Seq<char>;

/// Whether a column holds its series, or repeats a scalar that is no list and
/// of which `Series::from_any_values_and_dtype` makes a series of its type.
/// Any other column may make polars panic when it is materialized.
pub uninterp spec fn column_materializes(column: Column) -> bool;

/// The series that a column materializes to, the limit on its length aside.
pub uninterp spec fn column_series(column: Column) -> Series;

/// The name of a series.
pub uninterp spec fn series_name(series: Series) -> Seq<char>;

/// Whether the type of a series is `Float64`.
pub uninterp spec fn series_is_float64(series: Series) -> bool;

/// The cells of a series, one for each row: for a `Float64` series the bit
/// patterns, with nothing for a null. What the entries are for a series of
/// another type is left open; there are as many as rows all the same.
pub uninterp spec fn series_cells(series: Series) -> Seq<Option<u64>>;

/// The cells of the series that a column materializes to.
pub open spec fn column_cells(column: Column) -> Seq<Option<u64>> {
    series_cells(column_series(column))
}

/// The names of some columns.
pub open spec fn column_names(columns: Seq<Column>) -> Seq<Seq<char>> {
    columns.map_values(|column: Column| column_name(column))
}

/// Whether polars can look for a name among columns of these names.
pub open spec fn searchable(names: Seq<Seq<char>>) -> bool {
    names.len() <= SEARCH_LIMIT || names.no_duplicates()
}

/// The names under which a frame finds its columns, nothing for those that it
/// passes over.
pub open spec fn visible_names(frame: DataFrame) -> Seq<Option<Seq<char>>> {
    Seq::new(
        frame_columns(frame).len(),
        |i: int|
            if frame_hides(frame, i) {
                None
            } else {
                Some(column_name(frame_columns(frame)[i]))
            },
    )
}

/// Where a frame finds a name, if it does: the first such place.
pub open spec fn place(frame: DataFrame, name: Seq<char>) -> Option<int> {
    visible_names(frame).index_of_first(Some(name))
}

/// The column that a frame finds under a name, if it finds one.
pub open spec fn find(frame: DataFrame, name: Seq<char>) -> Option<Column> {
    match place(frame, name) {
        Some(i) => Some(frame_columns(frame)[i]),
        None => None,
    }
}

/// Whether a frame passes over none of its columns.
pub open spec fn orderly(frame: DataFrame) -> bool {
    forall|i: int| 0 <= i < frame_columns(frame).len() ==> !#[trigger] frame_hides(frame, i)
}

/// Where the first column of a name stands, if there is one.
pub open spec fn position(columns: Seq<Column>, name: Seq<char>) -> Option<int> {
    column_names(columns).index_of_first(name)
}

/// The first column of a name, if there is one.
pub open spec fn lookup(columns: Seq<Column>, name: Seq<char>) -> Option<Column> {
    match position(columns, name) {
        Some(i) => Some(columns[i]),
        None => None,
    }
}

/// The columns with one more, at the place given or else at the end.
pub open spec fn put_at(columns: Seq<Column>, place: Option<int>, column: Column) -> Seq<Column> {
    match place {
        Some(i) => columns.update(i, column),
        None => columns.push(column),
    }
}

/// The columns with one more: it takes the place of the first column of its
/// name, or comes last where there is none.
pub open spec fn put(columns: Seq<Column>, column: Column) -> Seq<Column> {
    put_at(columns, position(columns, column_name(column)), column)
}

/// Whether a column of this many cells can be put into a frame: it has the
/// height of the frame, or one cell, which is repeated.
pub open spec fn fits(len: nat, height: nat) -> bool {
    len == height || len == 1
}

/// The cells of a column that fits, once it was put into a frame.
pub open spec fn spread(cells: Seq<Option<u64>>, height: nat) -> Seq<Option<u64>> {
    if cells.len() == height {
        cells
    } else {
        Seq::new(height, |i: int| cells[0])
    }
}

/// Whether a column is `Float64` and has this name and these cells.
pub open spec fn holds(column: Column, name: Seq<char>, cells: Seq<Option<u64>>) -> bool {
    &&& column_name(column) == name
    &&& column_is_float64(column)
    &&& column_materializes(column)
    &&& series_is_float64(column_series(column))
    &&& column_cells(column) == cells
}

/// A name is found at the first place that has it and is not passed over.
pub proof fn lemma_place(frame: DataFrame, name: Seq<char>)
    ensures
        match place(frame, name) {
            Some(i) => {
                &&& 0 <= i < frame_columns(frame).len()
                &&& column_name(frame_columns(frame)[i]) == name
                &&& !frame_hides(frame, i)
            },
            None => forall|i: int|
                0 <= i < frame_columns(frame).len() && column_name(frame_columns(frame)[i]) == name
                    ==> #[trigger] frame_hides(frame, i),
        },
        orderly(frame) ==> place(frame, name) == position(frame_columns(frame), name) && find(
            frame,
            name,
        ) == lookup(frame_columns(frame), name),
{
    let columns = frame_columns(frame);
    let (visible, names) = (visible_names(frame), column_names(columns));
    visible.index_of_first_ensures(Some(name));
    names.index_of_first_ensures(name);
    if place(frame, name) is None {
        assert forall|i: int|
            0 <= i < columns.len() && column_name(columns[i]) == name implies #[trigger] frame_hides(
            frame,
            i,
        ) by {
            assert(visible[i] != Some(name));
        }
    }
    if orderly(frame) {
        assert forall|i: int| 0 <= i < columns.len() implies #[trigger] visible[i] == Some(
            names[i],
        ) by {
            assert(!frame_hides(frame, i));
        }
        match (place(frame, name), position(columns, name)) {
            (Some(i), Some(j)) => {
                assert(visible[j] == Some(names[j]) && visible[i] == Some(names[i]));
            },
            (Some(i), None) => {
                assert(names[i] == name);
            },
            (None, Some(j)) => {
                assert(visible[j] == Some(name));
            },
            (None, None) => {},
        }
    }
}

/// Putting a column in keeps the names and their order; one is added where the
/// column comes last.
pub proof fn lemma_put_at_names(columns: Seq<Column>, place: Option<int>, column: Column)
    requires
        place matches Some(i) ==> 0 <= i < columns.len() && column_name(columns[i]) == column_name(
            column,
        ),
    ensures
        column_names(put_at(columns, place, column)) == match place {
            Some(_) => column_names(columns),
            None => column_names(columns).push(column_name(column)),
        },
{
    let names = column_names(put_at(columns, place, column));
    match place {
        Some(_) => assert(names =~= column_names(columns)),
        None => assert(names =~= column_names(columns).push(column_name(column))),
    }
}

/// `DataFrame::height` returns the number of rows.
pub assume_specification[ DataFrame::height ](frame: &DataFrame) -> (height: usize)
    ensures
        height == frame_height(*frame),
;

/// `DataFrame::clone` returns a frame of the same height with the same columns
/// and the same index of names.
pub assume_specification[ <DataFrame as Clone>::clone ](frame: &DataFrame) -> (copy: DataFrame)
    ensures
        frame_columns(copy) == frame_columns(*frame),
        frame_height(copy) == frame_height(*frame),
        forall|i: int| #[trigger] frame_hides(copy, i) == frame_hides(*frame, i),
;

/// `DataFrame::column` finds a column by its name and fails where it does not.
/// It panics where it has to build an index of names that are not distinct.
pub assume_specification<'a>[ DataFrame::column ](frame: &'a DataFrame, name: &str) -> (result:
    Result<&'a Column, PolarsError>)
    requires
        searchable(column_names(frame_columns(*frame))),
    ensures
        match result {
            Ok(column) => find(*frame, name@) == Some(*column),
            Err(_) => find(*frame, name@) is None,
        },
;

/// `DataFrame::get_column_names_owned` returns the names of the columns, in
/// order; they are made strings here.
#[verifier::external_body]
pub(crate) fn names_of(frame: &DataFrame) -> (names: Vec<String>)
    ensures
        names@.map_values(|name: String| name@) == column_names(frame_columns(*frame)),
{
    frame.get_column_names_owned().into_iter().map(|name| name.to_string()).collect()
}

/// Whether materializing a column is known not to panic, its length aside. A
/// column that repeats a scalar is asked for the series that it may hold
/// already (`ScalarColumn::lazy_as_materialized_series`); else
/// `Series::from_any_values_and_dtype`, which materializing unwraps, is tried on
/// the scalar. On a list that could itself panic, so lists are not tried.
#[verifier::external_body]
pub(crate) fn materializes(column: &Column) -> (result: bool)
    ensures
        result == column_materializes(*column),
{
    match column {
        Column::Series(_) => true,
        Column::Scalar(repeated) => {
            let value = [repeated.scalar().as_any_value()];
            let (name, dtype) = (repeated.name().clone(), repeated.dtype());
            repeated.lazy_as_materialized_series().is_some()
                || !dtype.is_nested()
                    && Series::from_any_values_and_dtype(name, &value, dtype, true).is_ok()
        },
    }
}

/// `Column::len` returns the number of cells of a column.
pub assume_specification[ Column::len ](column: &Column) -> (len: usize)
    ensures
        column_materializes(*column) ==> len == column_cells(*column).len(),
;

/// `Column::as_materialized_series` returns the series of a column, under the
/// name of the column. Of a `Float64` column it is a `Float64` series. It panics
/// where the series would reach the limit of polars, and where the scalar that
/// a column repeats does not go with its type.
pub assume_specification[ Column::as_materialized_series ](column: &Column) -> (series: &Series)
    requires
        column_materializes(*column),
        column_cells(*column).len() < ROW_LIMIT,
    ensures
        *series == column_series(*column),
        series_name(*series) == column_name(*column),
        column_is_float64(*column) ==> series_is_float64(*series),
;

/// `Column::dtype` returns the type of a column; this compares it with
/// `Float64`. The series of a `Float64` column is `Float64`. The converse is not
/// stated: an empty column of an unknown type may have a `Float64` series.
#[verifier::external_body]
pub(crate) fn has_float64(column: &Column) -> (result: bool)
    ensures
        result == column_is_float64(*column),
        result && column_materializes(*column) ==> series_is_float64(column_series(*column)),
{
    column.dtype() == &DataType::Float64
}

/// The type that `Column::dtype` returns, as its `Display` writes it.
#[verifier::external_body]
pub(crate) fn displayed_type(column: &Column) -> (name: String)
    ensures
        name@ == column_type_name(*column),
{
    column.dtype().to_string()
}

/// `Series::dtype` returns the type of a series; this compares it with
/// `Float64`.
#[verifier::external_body]
pub(crate) fn is_float64(series: &Series) -> (result: bool)
    ensures
        result == series_is_float64(*series),
{
    series.dtype() == &DataType::Float64
}

/// The text of an error, as the `Display` of `PolarsError` writes it. What it
/// says is left open: it may hold a backtrace. That a text is what this wrote
/// of an error can be said all the same, as in [`is_error_text`].
#[verifier::external_body]
pub(crate) fn error_text(error: &PolarsError) -> String {
    error.to_string()
}

/// `Series::unpack` fails on a series that is not `Float64`; of one that is,
/// `reinterpret` gives the bit patterns, which are copied out in order, nulls
/// as nulls. Reinterpreting panics at the limit of polars.
#[verifier::external_body]
pub(crate) fn float64_cells(series: &Series) -> (result: Result<Vec<Option<u64>>, PolarsError>)
    requires
        series_is_float64(*series) ==> series_cells(*series).len() < ROW_LIMIT,
    ensures
        match result {
            Ok(cells) => series_is_float64(*series) && cells@ == series_cells(*series),
            Err(_) => !series_is_float64(*series),
        },
{
    series.unpack::<Float64Type>()?;
    let patterns = reinterpret(series, &DataType::UInt64)?;
    Ok(patterns.u64()?.iter().collect())
}

/// The bit patterns are collected into an array of integers, nulls as nulls,
/// and `UInt64Chunked::_reinterpret_float` makes a `Float64` array of it, which
/// becomes a series without a name. Collecting panics at the limit of polars.
#[verifier::external_body]
pub(crate) fn float64_series(cells: Vec<Option<u64>>) -> (series: Series)
    requires
        cells@.len() < ROW_LIMIT,
    ensures
        series_name(series) == Seq::<char>::empty(),
        series_is_float64(series),
        series_cells(series) == cells@,
{
    let patterns: UInt64Chunked = cells.into_iter().collect();
    patterns._reinterpret_float().into_series()
}

/// `Series::with_name` changes the name of a series and nothing else.
#[verifier::external_body]
pub(crate) fn renamed(series: Series, name: &str) -> (result: Series)
    ensures
        series_name(result) == name@,
        series_is_float64(result) == series_is_float64(series),
        series_cells(result) == series_cells(series),
{
    series.with_name(name.into())
}

/// `DataFrame::with_column`, on the column that `Column::from` makes of a
/// series, replaces the column that the frame finds under that name, or adds the
/// column at the end. The single cell of a series of length 1 is repeated to the
/// height of the frame; a series of any other length that is not this height is
/// refused, and the frame stays as it was. Afterwards the frame keeps no index
/// of names. Like `DataFrame::column` it panics where it has to build an index
/// of names that are not distinct. A frame without rows and columns, which would
/// take its height from the column, is left out.
#[verifier::external_body]
pub(crate) fn put_series(frame: &mut DataFrame, series: Series) -> (result: Result<
    (),
    PolarsError,
>)
    requires
        series_is_float64(series),
        frame_columns(*old(frame)).len() > 0,
        fits(series_cells(series).len(), frame_height(*old(frame))) ==> searchable(
            column_names(frame_columns(*old(frame))),
        ),
    ensures
        frame_height(*final(frame)) == frame_height(*old(frame)),
        result is Ok <==> fits(series_cells(series).len(), frame_height(*old(frame))),
        result is Err ==> frame_columns(*final(frame)) == frame_columns(*old(frame)),
        result is Ok ==> orderly(*final(frame)) && exists|column: Column| #[trigger]
            holds(
                column,
                series_name(series),
                spread(series_cells(series), frame_height(*old(frame))),
            ) && frame_columns(*final(frame)) == put_at(
                frame_columns(*old(frame)),
                place(*old(frame), series_name(series)),
                column,
            ),
{
    frame.with_column(Column::from(series))?;
    Ok(())
}

/// Whether a text is what polars says of some error.
pub closed spec fn is_error_text(text: Seq<char>) -> bool {
    exists|error: PolarsError, written: String| #[trigger]
        call_ensures(error_text, (&error,), written) && written@ == text
}

/// Whether a text is what polars says of the error with which looking up a name
/// in a frame fails.
pub closed spec fn is_missing_text(frame: DataFrame, name: Seq<char>, text: Seq<char>) -> bool {
    exists|key: &str, error: PolarsError, written: String|
        {
            &&& key@ == name
            &&& #[trigger] call_ensures(
                DataFrame::column,
                (&frame, key),
                Err::<&Column, PolarsError>(error),
            )
            &&& #[trigger] call_ensures(error_text, (&error,), written)
            &&& written@ == text
        }
}

/// What counts as a text of polars is what its error displays, whole and with
/// nothing added; of a failed lookup it is the error of that very lookup.
pub(crate) proof fn law_texts_are_those_of_polars(
    frame: DataFrame,
    name: Seq<char>,
    text: Seq<char>,
)
    ensures
        is_error_text(text) ==> exists|error: PolarsError, written: String| #[trigger]
            call_ensures(error_text, (&error,), written) && written@ == text,
        is_missing_text(frame, name, text) ==> exists|
            key: &str,
            error: PolarsError,
            written: String,
        |
            {
                &&& key@ == name
                &&& #[trigger] call_ensures(
                    DataFrame::column,
                    (&frame, key),
                    Err::<&Column, PolarsError>(error),
                )
                &&& #[trigger] call_ensures(error_text, (&error,), written)
                &&& written@ == text
            },
{
}

/// The text of an error that polars returned.
pub(crate) fn said(error: &PolarsError) -> (text: String)
    ensures
        is_error_text(text@),
{
    error_text(error)
}

/// Finds a column by its name, or says in the words of polars that it is not
/// there.
pub(crate) fn find_column<'a>(frame: &'a DataFrame, name: &str) -> (result: Result<
    &'a Column,
    String,
>)
    requires
        searchable(column_names(frame_columns(*frame))),
    ensures
        match result {
            Ok(column) => find(*frame, name@) == Some(*column),
            Err(text) => find(*frame, name@) is None && is_missing_text(*frame, name@, text@),
        },
{
    match frame.column(name) {
        Ok(column) => Ok(column),
        Err(error) => Err(error_text(&error)),
    }
}

/// Whether a name is among others.
pub(crate) fn is_among(names: &Vec<String>, name: &String) -> (result: bool)
    ensures
        result == names@.map_values(|name: String| name@).contains(name@),
{
    let ghost known = names@.map_values(|name: String| name@);
    for i in 0..names.len()
        invariant
            known == names@.map_values(|name: String| name@),
            forall|j: int| 0 <= j < i ==> #[trigger] known[j] != name@,
    {
        assert(known[i as int] == names@[i as int]@);
        if names[i] == *name {
            return true;
        }
    }
    false
}

/// Whether no name occurs twice.
fn are_distinct(names: &Vec<String>) -> (result: bool)
    ensures
        result == names@.map_values(|name: String| name@).no_duplicates(),
{
    let ghost known = names@.map_values(|name: String| name@);
    for i in 0..names.len()
        invariant
            known == names@.map_values(|name: String| name@),
            forall|j: int, k: int| 0 <= j < k < i ==> #[trigger] known[j] != #[trigger] known[k],
    {
        for j in 0..i
            invariant
                known == names@.map_values(|name: String| name@),
                i < names.len(),
                forall|l: int| 0 <= l < j ==> #[trigger] known[l] != known[i as int],
        {
            assert(known[i as int] == names@[i as int]@ && known[j as int] == names@[j as int]@);
            if names[i] == names[j] {
                return false;
            }
        }
    }
    true
}

/// Whether polars can look for a name among columns of these names.
pub(crate) fn is_searchable(names: &Vec<String>) -> (result: bool)
    ensures
        result == searchable(names@.map_values(|name: String| name@)),
{
    names.len() <= SEARCH_LIMIT || are_distinct(names)
}

/// Whether the columns of a frame have distinct names and it passes over none
/// of them, as is the rule.
pub fn is_orderly(frame: &DataFrame) -> (result: bool)
    ensures
        result == (orderly(*frame) && column_names(frame_columns(*frame)).no_duplicates()),
{
    let names = names_of(frame);
    let ghost columns = frame_columns(*frame);
    let ghost known = column_names(columns);
    if !are_distinct(&names) {
        return false;
    }
    assert(known.len() == names@.len() && known.len() == columns.len());
    for i in 0..names.len()
        invariant
            columns == frame_columns(*frame),
            known == column_names(columns),
            known == names@.map_values(|name: String| name@),
            names@.len() == columns.len(),
            known.no_duplicates(),
            forall|j: int| 0 <= j < i ==> !#[trigger] frame_hides(*frame, j),
    {
        let name: &str = names[i].as_str();
        proof {
            assert(known[i as int] == name@);
            assert(column_names(columns)[i as int] == column_name(columns[i as int]));
            lemma_place(*frame, name@);
            assert forall|j: int| 0 <= j < columns.len() && column_name(columns[j]) == name@ implies j
                == i by {
                assert(known[j] == column_name(columns[j]));
            }
        }
        if frame.column(name).is_err() {
            assert(frame_hides(*frame, i as int));
            return false;
        }
    }
    true
}

} // verus!

use approx::Relative;
use featrs::arithmetic::Arithmetic;
use featrs::error::Error;
use featrs::frames::is_orderly;
use featrs::time_series::expanding::{generated_name, ExpandingAggregator, ExpandingFn};
use polars::prelude::{
    AnyValue, Column, DataFrame, DataType, Float64Chunked, NamedFrom, Scalar, Series, UnknownKind,
};

struct Hardware;

impl Arithmetic for Hardware {
    fn sum(&self, first: u64, second: u64) -> u64 {
        (f64::from_bits(first) + f64::from_bits(second)).to_bits()
    }

    fn difference(&self, first: u64, second: u64) -> u64 {
        (f64::from_bits(first) - f64::from_bits(second)).to_bits()
    }

    fn product(&self, first: u64, second: u64) -> u64 {
        (f64::from_bits(first) * f64::from_bits(second)).to_bits()
    }

    fn quotient(&self, first: u64, second: u64) -> u64 {
        (f64::from_bits(first) / f64::from_bits(second)).to_bits()
    }

    fn root(&self, number: u64) -> u64 {
        f64::from_bits(number).sqrt().to_bits()
    }

    fn of_count(&self, count: usize) -> u64 {
        (count as f64).to_bits()
    }
}

fn assert_close(value: f64, want: f64) {
    assert!(
        Relative::default().epsilon(1e-9).eq(&value, &want),
        "{} is not close to {}",
        value,
        want
    );
}

fn make_df(vals: &[f64]) -> DataFrame {
    let col = Column::from(Series::new("x".into(), vals));
    DataFrame::new(vals.len(), vec![col]).unwrap()
}

fn column<'a>(df: &'a DataFrame, name: &str) -> &'a Float64Chunked {
    df.column(name).unwrap().f64().unwrap()
}

fn message(error: Error) -> String {
    match error {
        Error::InvalidInput(text) => text,
        Error::NotFitted(text) => text,
        Error::Computation(text) => text,
    }
}

fn names(df: &DataFrame) -> Vec<String> {
    df.columns().iter().map(|c| c.name().to_string()).collect()
}

#[test]
fn test_expanding_mean() {
    let df = make_df(&[1.0, 2.0, 3.0, 4.0, 5.0]);
    let mut e = ExpandingAggregator::new(&["x"], ExpandingFn::Mean);
    e.fit(df.clone()).unwrap();
    let result = e.transform(df, &Hardware).unwrap();

    assert_eq!(result.width(), 2);
    let expanded = result.column("x_expanding_mean").unwrap().f64().unwrap();
    let expected = [1.0, 1.5, 2.0, 2.5, 3.0];
    for (i, want) in expected.iter().enumerate() {
        assert_close(expanded.get(i).unwrap(), *want);
    }
}

#[test]
fn test_expanding_sum() {
    let df = make_df(&[1.0, 2.0, 3.0]);
    let mut e = ExpandingAggregator::new(&["x"], ExpandingFn::Sum);
    e.fit(df.clone()).unwrap();
    let result = e.transform(df, &Hardware).unwrap();

    let expanded = result.column("x_expanding_sum").unwrap().f64().unwrap();
    assert_eq!(expanded.get(0), Some(1.0));
    assert_eq!(expanded.get(1), Some(3.0));
    assert_eq!(expanded.get(2), Some(6.0));
}

#[test]
fn test_expanding_min() {
    let df = make_df(&[3.0, 1.0, 2.0]);
    let mut e = ExpandingAggregator::new(&["x"], ExpandingFn::Min);
    e.fit(df.clone()).unwrap();
    let result = e.transform(df, &Hardware).unwrap();

    let expanded = result.column("x_expanding_min").unwrap().f64().unwrap();
    assert_eq!(expanded.get(0), Some(3.0));
    assert_eq!(expanded.get(1), Some(1.0));
    assert_eq!(expanded.get(2), Some(1.0));
}

#[test]
fn test_expanding_max() {
    let df = make_df(&[3.0, 1.0, 2.0]);
    let mut e = ExpandingAggregator::new(&["x"], ExpandingFn::Max);
    e.fit(df.clone()).unwrap();
    let result = e.transform(df, &Hardware).unwrap();

    let expanded = result.column("x_expanding_max").unwrap().f64().unwrap();
    assert_eq!(expanded.get(0), Some(3.0));
    assert_eq!(expanded.get(1), Some(3.0));
    assert_eq!(expanded.get(2), Some(3.0));
}

#[test]
fn test_expanding_std() {
    let df = make_df(&[1.0, 2.0, 3.0]);
    let mut e = ExpandingAggregator::new(&["x"], ExpandingFn::Std);
    e.fit(df.clone()).unwrap();
    let result = e.transform(df, &Hardware).unwrap();

    let expanded = result.column("x_expanding_std").unwrap().f64().unwrap();
    assert_close(expanded.get(0).unwrap(), 0.0);
    assert_close(expanded.get(1).unwrap(), 0.5);
    // Population variance of [1, 2, 3] is 2/3.
    assert_close(expanded.get(2).unwrap(), (2.0_f64 / 3.0).sqrt());
}

#[test]
fn test_min_periods_builder() {
    let df = make_df(&[1.0, 2.0, 3.0]);
    let mut e = ExpandingAggregator::new(&["x"], ExpandingFn::Mean).min_periods(2);
    e.fit(df.clone()).unwrap();
    let result = e.transform(df, &Hardware).unwrap();

    let expanded = result.column("x_expanding_mean").unwrap().f64().unwrap();
    assert!(expanded.get(0).is_none());
    assert_close(expanded.get(1).unwrap(), 1.5);
    assert_close(expanded.get(2).unwrap(), 2.0);
}

#[test]
fn test_nulls_skipped_in_accumulator_and_preserved_in_output() {
    let col = Column::from(Series::new(
        "x".into(),
        &[Some(1.0_f64), None, Some(3.0), None, Some(5.0)],
    ));
    let df = DataFrame::new(5, vec![col]).unwrap();
    let mut e = ExpandingAggregator::new(&["x"], ExpandingFn::Mean);
    e.fit(df.clone()).unwrap();
    let result = e.transform(df, &Hardware).unwrap();

    let expanded = result.column("x_expanding_mean").unwrap().f64().unwrap();
    assert_eq!(expanded.get(0), Some(1.0));
    assert!(expanded.get(1).is_none());
    assert_eq!(expanded.get(2), Some(2.0));
    assert!(expanded.get(3).is_none());
    assert_eq!(expanded.get(4), Some(3.0));
    assert_eq!(result.height(), 5);
}

#[test]
fn test_input_columns_pass_through() {
    let a = Column::from(Series::new("a".into(), &[1.0_f64, 2.0]));
    let b = Column::from(Series::new("b".into(), &[10.0_f64, 20.0]));
    let df = DataFrame::new(2, vec![a, b]).unwrap();
    let mut e = ExpandingAggregator::new(&["b"], ExpandingFn::Sum);
    e.fit(df.clone()).unwrap();
    let result = e.transform(df, &Hardware).unwrap();

    assert_eq!(result.width(), 3);
    assert_eq!(
        result.column("b").unwrap().f64().unwrap().get(0),
        Some(10.0)
    );
    assert_eq!(
        result
            .column("b_expanding_sum")
            .unwrap()
            .f64()
            .unwrap()
            .get(1),
        Some(30.0)
    );
}

#[test]
fn test_transform_before_fit_errors() {
    let df = make_df(&[1.0, 2.0]);
    let e = ExpandingAggregator::new(&["x"], ExpandingFn::Mean);
    let err = e.transform(df, &Hardware).unwrap_err();
    assert!(matches!(err, Error::NotFitted(_)));
}

#[test]
fn test_fit_empty_columns_errors() {
    let df = make_df(&[1.0, 2.0]);
    let mut e = ExpandingAggregator::new(&[], ExpandingFn::Mean);
    let err = e.fit(df).unwrap_err();
    assert!(matches!(err, Error::InvalidInput(_)));
}

#[test]
fn test_fit_empty_input_errors() {
    let col = Column::from(Series::new("x".into(), Vec::<f64>::new()));
    let df = DataFrame::new(0, vec![col]).unwrap();
    let mut e = ExpandingAggregator::new(&["x"], ExpandingFn::Mean);
    let err = e.fit(df).unwrap_err();
    assert!(matches!(err, Error::InvalidInput(_)));
}

#[test]
fn test_fit_missing_column_errors() {
    let df = make_df(&[1.0, 2.0]);
    let mut e = ExpandingAggregator::new(&["nope"], ExpandingFn::Mean);
    let err = e.fit(df).unwrap_err();
    assert!(matches!(err, Error::InvalidInput(_)));
}

#[test]
fn test_min_periods_zero_errors() {
    let df = make_df(&[1.0, 2.0]);
    let mut e = ExpandingAggregator::new(&["x"], ExpandingFn::Mean).min_periods(0);
    let err = e.fit(df).unwrap_err();
    assert!(matches!(err, Error::InvalidInput(_)));
}

#[test]
fn test_fit_non_f64_column_errors() {
    let col = Column::from(Series::new("x".into(), &["a", "b"]));
    let df = DataFrame::new(2, vec![col]).unwrap();
    let mut e = ExpandingAggregator::new(&["x"], ExpandingFn::Mean);
    let err = e.fit(df).unwrap_err();
    assert!(matches!(err, Error::InvalidInput(_)));
}

#[test]
fn test_generated_name_collision_uses_original_input() {
    // Configured column names can coincide with generated names: with
    // `["x", "x_expanding_mean"]`, processing "x" first appends
    // `x_expanding_mean` (replacing the input column of that name). The
    // second configured column must then aggregate the values that
    // `x_expanding_mean` has in the input, not those just derived from "x":
    // reading sources from the growing output frame would yield
    // [1, 1.25, 1.5] here instead of [10, 15, 20].
    let a = Column::from(Series::new("x".into(), &[1.0_f64, 2.0, 3.0]));
    let b = Column::from(Series::new(
        "x_expanding_mean".into(),
        &[10.0_f64, 20.0, 30.0],
    ));
    let df = DataFrame::new(3, vec![a, b]).unwrap();
    let mut e = ExpandingAggregator::new(&["x", "x_expanding_mean"], ExpandingFn::Mean);
    e.fit(df.clone()).unwrap();
    let result = e.transform(df, &Hardware).unwrap();

    let derived = result.column("x_expanding_mean").unwrap().f64().unwrap();
    assert_close(derived.get(0).unwrap(), 1.0);
    assert_close(derived.get(1).unwrap(), 1.5);
    assert_close(derived.get(2).unwrap(), 2.0);

    let from_original = result
        .column("x_expanding_mean_expanding_mean")
        .unwrap()
        .f64()
        .unwrap();
    assert_close(from_original.get(0).unwrap(), 10.0);
    assert_close(from_original.get(1).unwrap(), 15.0);
    assert_close(from_original.get(2).unwrap(), 20.0);
}

fn run_on_nulled(vals: &[Option<f64>], function: ExpandingFn) -> DataFrame {
    let col = Column::from(Series::new("x".into(), vals));
    let df = DataFrame::new(vals.len(), vec![col]).unwrap();
    let mut e = ExpandingAggregator::new(&["x"], function);
    e.fit(df.clone()).unwrap();
    e.transform(df, &Hardware).unwrap()
}

#[test]
fn test_min_with_nulls() {
    let result = run_on_nulled(
        &[Some(3.0), None, Some(1.0), None, Some(2.0)],
        ExpandingFn::Min,
    );
    let expanded = result.column("x_expanding_min").unwrap().f64().unwrap();
    assert_eq!(expanded.get(0), Some(3.0));
    assert!(expanded.get(1).is_none());
    assert_eq!(expanded.get(2), Some(1.0));
    assert!(expanded.get(3).is_none());
    assert_eq!(expanded.get(4), Some(1.0));
}

#[test]
fn test_max_with_nulls() {
    let result = run_on_nulled(
        &[Some(3.0), None, Some(1.0), None, Some(2.0)],
        ExpandingFn::Max,
    );
    let expanded = result.column("x_expanding_max").unwrap().f64().unwrap();
    assert_eq!(expanded.get(0), Some(3.0));
    assert!(expanded.get(1).is_none());
    assert_eq!(expanded.get(2), Some(3.0));
    assert!(expanded.get(3).is_none());
    assert_eq!(expanded.get(4), Some(3.0));
}

#[test]
fn test_std_with_nulls() {
    let result = run_on_nulled(
        &[Some(3.0), None, Some(1.0), None, Some(2.0)],
        ExpandingFn::Std,
    );
    let expanded = result.column("x_expanding_std").unwrap().f64().unwrap();
    assert_close(expanded.get(0).unwrap(), 0.0);
    assert!(expanded.get(1).is_none());
    assert_close(expanded.get(2).unwrap(), 1.0);
    assert!(expanded.get(3).is_none());
    // Population std of [3, 1, 2] = sqrt(2/3).
    assert_close(expanded.get(4).unwrap(), (2.0_f64 / 3.0).sqrt());
}

#[test]
fn test_null_rows_stay_none_with_min_periods_above_one() {
    let col = Column::from(Series::new("x".into(), &[Some(1.0_f64), None, Some(3.0)]));
    let df = DataFrame::new(3, vec![col]).unwrap();
    let mut e = ExpandingAggregator::new(&["x"], ExpandingFn::Mean).min_periods(2);
    e.fit(df.clone()).unwrap();
    let result = e.transform(df, &Hardware).unwrap();

    let expanded = result.column("x_expanding_mean").unwrap().f64().unwrap();
    assert!(expanded.get(0).is_none());
    assert!(expanded.get(1).is_none());
    assert_close(expanded.get(2).unwrap(), 2.0);
}

#[test]
fn test_min_periods_beyond_length_all_none() {
    let df = make_df(&[1.0, 2.0]);
    let mut e = ExpandingAggregator::new(&["x"], ExpandingFn::Mean).min_periods(5);
    e.fit(df.clone()).unwrap();
    let result = e.transform(df, &Hardware).unwrap();

    let expanded = result.column("x_expanding_mean").unwrap().f64().unwrap();
    assert!(expanded.get(0).is_none());
    assert!(expanded.get(1).is_none());
}

#[test]
fn test_nan_propagates_in_mean() {
    let col = Column::from(Series::new(
        "x".into(),
        &[Some(1.0_f64), Some(f64::NAN), Some(3.0)],
    ));
    let df = DataFrame::new(3, vec![col]).unwrap();
    let mut e = ExpandingAggregator::new(&["x"], ExpandingFn::Mean);
    e.fit(df.clone()).unwrap();
    let result = e.transform(df, &Hardware).unwrap();

    let expanded = result.column("x_expanding_mean").unwrap().f64().unwrap();
    assert_close(expanded.get(0).unwrap(), 1.0);
    assert!(expanded.get(1).unwrap().is_nan());
    assert!(expanded.get(2).unwrap().is_nan());
}

#[test]
fn nan_propagates_in_sum_and_deviation() {
    let vals = [Some(1.0), Some(f64::NAN), None, Some(3.0)];
    for function in [ExpandingFn::Sum, ExpandingFn::Std] {
        let result = run_on_nulled(&vals, function);
        let expanded = column(&result, &generated_name("x", function));
        assert!(!expanded.get(0).unwrap().is_nan());
        assert!(expanded.get(1).unwrap().is_nan());
        assert_eq!(expanded.get(2), None);
        assert!(expanded.get(3).unwrap().is_nan());
    }
}

#[test]
fn nan_is_ignored_by_the_extremes() {
    let vals = [Some(f64::NAN), Some(2.0), Some(f64::NAN), Some(1.0), Some(5.0)];
    let low = run_on_nulled(&vals, ExpandingFn::Min);
    let low = column(&low, "x_expanding_min");
    assert!(low.get(0).unwrap().is_nan());
    assert_eq!(low.get(1), Some(2.0));
    assert_eq!(low.get(2), Some(2.0));
    assert_eq!(low.get(3), Some(1.0));
    assert_eq!(low.get(4), Some(1.0));

    let high = run_on_nulled(&vals, ExpandingFn::Max);
    let high = column(&high, "x_expanding_max");
    assert!(high.get(0).unwrap().is_nan());
    assert_eq!(high.get(1), Some(2.0));
    assert_eq!(high.get(2), Some(2.0));
    assert_eq!(high.get(3), Some(2.0));
    assert_eq!(high.get(4), Some(5.0));
}

#[test]
fn extremes_handle_signs_and_infinities() {
    let vals = [
        Some(-1.5),
        Some(2.5e-310),
        Some(f64::NEG_INFINITY),
        Some(f64::INFINITY),
    ];
    let low = run_on_nulled(&vals, ExpandingFn::Min);
    let low = column(&low, "x_expanding_min");
    assert_eq!(low.get(1), Some(-1.5));
    assert_eq!(low.get(3), Some(f64::NEG_INFINITY));
    let high = run_on_nulled(&vals, ExpandingFn::Max);
    let high = column(&high, "x_expanding_max");
    assert_eq!(high.get(0), Some(-1.5));
    assert_eq!(high.get(2), Some(2.5e-310));
    assert_eq!(high.get(3), Some(f64::INFINITY));
}

#[test]
fn sum_with_nulls_is_the_sum_without_them() {
    let with_nulls = run_on_nulled(
        &[None, Some(0.1), None, Some(0.2), Some(0.3)],
        ExpandingFn::Sum,
    );
    let without = run_on_nulled(&[Some(0.1), Some(0.2), Some(0.3)], ExpandingFn::Sum);
    let with_nulls = column(&with_nulls, "x_expanding_sum");
    let without = column(&without, "x_expanding_sum");
    assert_eq!(with_nulls.get(0), None);
    assert_eq!(with_nulls.get(1), without.get(0));
    assert_eq!(with_nulls.get(2), None);
    assert_eq!(with_nulls.get(3), without.get(1));
    assert_eq!(with_nulls.get(4), without.get(2));
    assert_eq!(without.get(2), Some(0.1 + 0.2 + 0.3));
}

#[test]
fn later_rows_do_not_change_earlier_ones() {
    let all = [4.0, -7.25, 0.1, 3.5, 11.0];
    for function in [
        ExpandingFn::Mean,
        ExpandingFn::Sum,
        ExpandingFn::Min,
        ExpandingFn::Max,
        ExpandingFn::Std,
    ] {
        let name = generated_name("x", function);
        let mut e = ExpandingAggregator::new(&["x"], function);
        e.fit(make_df(&all)).unwrap();
        let whole = e.transform(make_df(&all), &Hardware).unwrap();
        let part = e.transform(make_df(&all[..3]), &Hardware).unwrap();
        for i in 0..3 {
            assert_eq!(column(&whole, &name).get(i), column(&part, &name).get(i));
        }
        assert_eq!(part.height(), 3);
    }
}

#[test]
fn deviation_is_exact_where_nothing_is_rounded() {
    let result = run_on_nulled(&[Some(2.0), Some(4.0), Some(6.0), Some(4.0)], ExpandingFn::Std);
    let expanded = column(&result, "x_expanding_std");
    assert_eq!(expanded.get(0), Some(0.0));
    assert_eq!(expanded.get(1), Some(1.0));
    assert_eq!(expanded.get(3), Some(2.0_f64.sqrt()));
}

#[test]
fn mean_and_sum_are_exact_where_nothing_is_rounded() {
    let vals = [Some(1.0), Some(2.0), Some(3.0), Some(4.0), Some(5.0)];
    let mean = run_on_nulled(&vals, ExpandingFn::Mean);
    let sum = run_on_nulled(&vals, ExpandingFn::Sum);
    for (i, want) in [1.0, 1.5, 2.0, 2.5, 3.0].iter().enumerate() {
        assert_eq!(column(&mean, "x_expanding_mean").get(i), Some(*want));
        let count = (i + 1) as f64;
        assert_eq!(column(&sum, "x_expanding_sum").get(i), Some(*want * count));
    }
}

#[test]
fn the_same_frame_gives_the_same_result_again() {
    let df = make_df(&[0.1, 0.7, -3.3, 1e300]);
    for function in [ExpandingFn::Mean, ExpandingFn::Sum, ExpandingFn::Std] {
        let mut e = ExpandingAggregator::new(&["x"], function);
        e.fit(df.clone()).unwrap();
        let first = e.transform(df.clone(), &Hardware).unwrap();
        let second = e.transform(df.clone(), &Hardware).unwrap();
        assert!(first.equals(&second));
    }
}

/// Agreement of cells where NaN counts as equal to NaN.
fn alike(first: &Float64Chunked, second: &Float64Chunked) -> bool {
    first.len() == second.len()
        && (0..first.len()).all(|i| match (first.get(i), second.get(i)) {
            (Some(a), Some(b)) => a.to_bits() == b.to_bits() || a.is_nan() && b.is_nan(),
            (a, b) => a.is_none() && b.is_none(),
        })
}

const EVERY_FUNCTION: [ExpandingFn; 5] = [
    ExpandingFn::Mean,
    ExpandingFn::Sum,
    ExpandingFn::Min,
    ExpandingFn::Max,
    ExpandingFn::Std,
];

#[test]
fn columns_with_nan_give_the_same_values_again() {
    let vals = [Some(0.3), None, Some(f64::NAN), Some(-2.0), None, Some(7.25)];
    let packed: Vec<Option<f64>> = vals.iter().copied().filter(|v| v.is_some()).collect();
    for function in EVERY_FUNCTION {
        let name = generated_name("x", function);
        let whole = run_on_nulled(&vals, function);
        let again = run_on_nulled(&vals, function);
        assert!(alike(column(&whole, &name), column(&again, &name)));

        let part = run_on_nulled(&vals[..4], function);
        assert!(alike(column(&part, &name), &column(&whole, &name).slice(0, 4)));

        let fewer = run_on_nulled(&packed, function);
        let mut k = 0;
        for (i, v) in vals.iter().enumerate() {
            if v.is_none() {
                assert_eq!(column(&whole, &name).get(i), None);
            } else {
                let row = column(&whole, &name).slice(i as i64, 1);
                assert!(alike(&row, &column(&fewer, &name).slice(k, 1)));
                k += 1;
            }
        }
    }
}

#[test]
fn transforming_again_changes_nothing() {
    let x = Column::from(Series::new("x".into(), &[Some(1.5), None, Some(f64::NAN), Some(2.0)]));
    let t = Column::from(Series::new("t".into(), &["a", "b", "c", "d"]));
    let df = DataFrame::new(4, vec![x, t]).unwrap();
    for function in EVERY_FUNCTION {
        let mut e = ExpandingAggregator::new(&["x"], function);
        e.fit(df.clone()).unwrap();
        let once = e.transform(df.clone(), &Hardware).unwrap();
        let twice = e.transform(once.clone(), &Hardware).unwrap();
        assert_eq!(names(&once), names(&twice));
        assert_eq!(once.height(), twice.height());
        let name = generated_name("x", function);
        assert!(alike(column(&once, &name), column(&twice, &name)));
        assert!(alike(column(&once, "x"), column(&twice, "x")));
        assert!(once.column("t").unwrap().equals(twice.column("t").unwrap()));
    }
}

#[test]
fn the_order_of_configured_columns_does_not_change_values() {
    let a = Column::from(Series::new("x".into(), &[1.0_f64, f64::NAN, 3.0]));
    let b = Column::from(Series::new("x_expanding_mean".into(), &[10.0_f64, 20.0, 30.0]));
    let df = DataFrame::new(3, vec![a, b]).unwrap();
    let mut forth = ExpandingAggregator::new(&["x", "x_expanding_mean"], ExpandingFn::Mean);
    let mut back = ExpandingAggregator::new(&["x_expanding_mean", "x"], ExpandingFn::Mean);
    forth.fit(df.clone()).unwrap();
    back.fit(df.clone()).unwrap();
    let forth = forth.transform(df.clone(), &Hardware).unwrap();
    let back = back.transform(df, &Hardware).unwrap();
    for name in ["x_expanding_mean", "x_expanding_mean_expanding_mean"] {
        assert!(alike(column(&forth, name), column(&back, name)));
    }
    assert_eq!(column(&back, "x_expanding_mean_expanding_mean").get(2), Some(20.0));
}

#[test]
fn welford_keeps_small_deviations_of_large_values() {
    let result = run_on_nulled(&[Some(1e9), Some(1e9 + 1.0), Some(1e9 + 2.0)], ExpandingFn::Std);
    assert_close(
        column(&result, "x_expanding_std").get(2).unwrap(),
        (2.0_f64 / 3.0).sqrt(),
    );
}

#[test]
fn a_single_row_is_enough() {
    let result = run_on_nulled(&[Some(7.5)], ExpandingFn::Mean);
    assert_eq!(result.height(), 1);
    assert_eq!(column(&result, "x_expanding_mean").get(0), Some(7.5));
    assert_eq!(column(&result, "x").get(0), Some(7.5));
}

#[test]
fn a_fitted_aggregator_transforms_a_frame_without_rows() {
    let mut e = ExpandingAggregator::new(&["x"], ExpandingFn::Max);
    e.fit(make_df(&[1.0])).unwrap();
    let result = e.transform(make_df(&[]), &Hardware).unwrap();
    assert_eq!(result.shape(), (0, 2));
}

#[test]
fn several_columns_are_appended_in_order() {
    let mut columns = Vec::new();
    for (i, name) in ["a", "b", "c", "d", "e", "f"].iter().enumerate() {
        let values = [i as f64, 10.0 * i as f64];
        columns.push(Column::from(Series::new((*name).into(), &values)));
    }
    columns.push(Column::from(Series::new("text".into(), &["u", "v"])));
    let df = DataFrame::new(2, columns).unwrap();
    let mut e = ExpandingAggregator::new(&["f", "b"], ExpandingFn::Sum);
    e.fit(df.clone()).unwrap();
    let result = e.transform(df.clone(), &Hardware).unwrap();
    assert_eq!(
        names(&result),
        vec![
            "a", "b", "c", "d", "e", "f", "text", "f_expanding_sum", "b_expanding_sum"
        ]
    );
    assert_eq!(column(&result, "f_expanding_sum").get(1), Some(55.0));
    assert_eq!(column(&result, "b_expanding_sum").get(1), Some(11.0));
    assert!(result.column("text").unwrap().equals(df.column("text").unwrap()));
    assert!(result.column("e").unwrap().equals(df.column("e").unwrap()));
}

#[test]
fn a_column_of_a_generated_name_is_replaced_in_place() {
    let old = Column::from(Series::new("x_expanding_max".into(), &["u", "v"]));
    let x = Column::from(Series::new("x".into(), &[1.0_f64, 2.0]));
    let df = DataFrame::new(2, vec![old, x]).unwrap();
    let mut e = ExpandingAggregator::new(&["x"], ExpandingFn::Max);
    e.fit(df.clone()).unwrap();
    let result = e.transform(df, &Hardware).unwrap();
    assert_eq!(names(&result), vec!["x_expanding_max", "x"]);
    assert_eq!(column(&result, "x_expanding_max").get(1), Some(2.0));
}

#[test]
fn a_column_configured_twice_is_derived_once() {
    let df = make_df(&[1.0, 2.0]);
    let mut e = ExpandingAggregator::new(&["x", "x"], ExpandingFn::Sum);
    e.fit(df.clone()).unwrap();
    let result = e.transform(df, &Hardware).unwrap();
    assert_eq!(names(&result), vec!["x", "x_expanding_sum"]);
    assert_eq!(column(&result, "x_expanding_sum").get(1), Some(3.0));
}

#[test]
fn fit_errors_say_what_is_wrong() {
    let mut e = ExpandingAggregator::new(&["x"], ExpandingFn::Mean);
    assert_eq!(
        message(e.fit(make_df(&[])).unwrap_err()),
        "ExpandingAggregator.fit received a DataFrame with 0 rows. Provide at least one row."
    );
    let mut e = ExpandingAggregator::default();
    assert_eq!(
        message(e.fit(make_df(&[1.0])).unwrap_err()),
        "ExpandingAggregator: at least one column is required."
    );
    let mut e = ExpandingAggregator::new(&["x"], ExpandingFn::Mean).min_periods(0);
    assert_eq!(
        message(e.fit(make_df(&[1.0])).unwrap_err()),
        "ExpandingAggregator: min_periods must be >= 1, got 0"
    );
    let mut e = ExpandingAggregator::new(&["x", "nope"], ExpandingFn::Mean);
    assert_eq!(
        message(e.fit(make_df(&[1.0])).unwrap_err()),
        "ExpandingAggregator: column 'nope' not found."
    );
    let text = Column::from(Series::new("t".into(), &["a", "b"]));
    let df = DataFrame::new(2, vec![text]).unwrap();
    let mut e = ExpandingAggregator::new(&["t"], ExpandingFn::Mean);
    assert_eq!(
        message(e.fit(df).unwrap_err()),
        "ExpandingAggregator: column 't' has dtype str; expected Float64."
    );
}

#[test]
fn the_first_problem_is_reported() {
    let text = Column::from(Series::new("t".into(), &["a", "b"]));
    let df = DataFrame::new(2, vec![text]).unwrap();
    let mut e = ExpandingAggregator::new(&["t", "nope"], ExpandingFn::Mean);
    assert!(message(e.fit(df.clone()).unwrap_err()).contains("has dtype str"));
    let mut e = ExpandingAggregator::new(&["nope", "t"], ExpandingFn::Mean);
    assert!(message(e.fit(df).unwrap_err()).contains("'nope' not found"));
}

#[test]
fn transform_errors_say_what_is_wrong() {
    let e = ExpandingAggregator::new(&["x"], ExpandingFn::Mean);
    let err = e.transform(make_df(&[1.0]), &Hardware).unwrap_err();
    assert!(matches!(err, Error::NotFitted(_)));
    assert_eq!(message(err), "ExpandingAggregator");

    let mut e = ExpandingAggregator::new(&["x"], ExpandingFn::Mean);
    e.fit(make_df(&[1.0])).unwrap();
    let y = Column::from(Series::new("y".into(), &[1.0_f64]));
    let df = DataFrame::new(1, vec![y]).unwrap();
    let err = e.transform(df, &Hardware).unwrap_err();
    assert!(matches!(err, Error::InvalidInput(_)));
    let text = message(err);
    let prefix = "ExpandingAggregator.transform: column 'x' not found. ";
    assert!(text.starts_with(prefix));
    assert!(text.len() > prefix.len());

    let x = Column::from(Series::new("x".into(), &[1_i64, 2]));
    let df = DataFrame::new(2, vec![x]).unwrap();
    let err = e.transform(df, &Hardware).unwrap_err();
    assert!(matches!(err, Error::InvalidInput(_)));
    assert_eq!(message(err), "column must be f64");
}

#[test]
fn a_failed_fit_leaves_the_aggregator_as_it_was() {
    let mut e = ExpandingAggregator::new(&["x"], ExpandingFn::Sum);
    assert!(e.fit(make_df(&[])).is_err());
    assert!(matches!(
        e.transform(make_df(&[1.0]), &Hardware),
        Err(Error::NotFitted(_))
    ));
    e.fit(make_df(&[1.0])).unwrap();
    assert!(e.fit(make_df(&[])).is_err());
    assert!(e.transform(make_df(&[1.0]), &Hardware).is_ok());
}

#[test]
fn series_keep_their_bit_patterns() {
    let payload = f64::from_bits(0x7ff8_0000_0000_0abc);
    let s = Series::new("x".into(), &[Some(-0.0_f64), None, Some(payload), Some(5e-324)]);
    let e = ExpandingAggregator::new(&["x"], ExpandingFn::Min);
    let result = e.expanding_series(&s, &Hardware).unwrap();
    assert_eq!(result.name().as_str(), "");
    let cells = result.f64().unwrap();
    assert_eq!(cells.get(0).unwrap().to_bits(), (-0.0_f64).to_bits());
    assert_eq!(cells.get(1), None);
    assert_eq!(cells.get(2).unwrap().to_bits(), (-0.0_f64).to_bits());
    assert_eq!(cells.get(3).unwrap().to_bits(), (-0.0_f64).to_bits());

    let s = Series::new("x".into(), &[payload]);
    let result = e.expanding_series(&s, &Hardware).unwrap();
    let cells = result.f64().unwrap();
    assert_eq!(cells.get(0).unwrap().to_bits(), payload.to_bits());

    let s = Series::new("x".into(), &[1_u64, 2]);
    assert_eq!(
        message(e.expanding_series(&s, &Hardware).unwrap_err()),
        "column must be f64"
    );
}

#[test]
fn checked_transform_agrees_with_transform() {
    let df = make_df(&[1.0, 2.0]);
    let mut e = ExpandingAggregator::new(&["x"], ExpandingFn::Mean);
    assert!(matches!(
        e.checked_transform(df.clone(), &Hardware),
        Some(Err(Error::NotFitted(_)))
    ));
    e.fit(df.clone()).unwrap();
    let checked = e.checked_transform(df.clone(), &Hardware).unwrap().unwrap();
    let plain = e.transform(df, &Hardware).unwrap();
    assert!(checked.equals(&plain));
}

#[test]
fn checked_transform_gives_nothing_on_a_frame_too_high() {
    let mut e = ExpandingAggregator::new(&["x"], ExpandingFn::Sum);
    let high = |name: &str| {
        let scalar = Scalar::new(DataType::Float64, AnyValue::Float64(1.0));
        let col = Column::new_scalar(name.into(), scalar, 0xffff_ffff);
        DataFrame::new(0xffff_ffff, vec![col]).unwrap()
    };
    assert!(matches!(
        e.checked_transform(high("x"), &Hardware),
        Some(Err(Error::NotFitted(_)))
    ));
    e.fit(high("x")).unwrap();
    assert!(e.checked_transform(high("x"), &Hardware).is_none());
    assert!(matches!(
        e.checked_transform(high("y"), &Hardware),
        Some(Err(Error::InvalidInput(_)))
    ));
}

#[test]
fn names_are_generated_from_column_and_function() {
    assert_eq!(generated_name("x", ExpandingFn::Mean), "x_expanding_mean");
    assert_eq!(generated_name("x", ExpandingFn::Sum), "x_expanding_sum");
    assert_eq!(generated_name("x", ExpandingFn::Min), "x_expanding_min");
    assert_ne!(
        generated_name("x", ExpandingFn::Sum),
        generated_name("y", ExpandingFn::Sum)
    );
    assert_eq!(generated_name("", ExpandingFn::Max), "_expanding_max");
    assert_eq!(generated_name("ä b", ExpandingFn::Std), "ä b_expanding_std");
}

fn numbers(name: &str, values: &[f64]) -> Column {
    Column::from(Series::new(name.into(), values))
}

fn fitted(columns: &[&str], function: ExpandingFn) -> ExpandingAggregator {
    let mut own = Vec::new();
    for (i, name) in columns.iter().enumerate() {
        if !columns[..i].contains(name) {
            own.push(numbers(name, &[1.0]));
        }
    }
    let mut e = ExpandingAggregator::new(columns, function);
    e.fit(DataFrame::new(1, own).unwrap()).unwrap();
    e
}

/// A frame of two rows in which the first column got a third cell: appending
/// failed at the second column.
fn uneven() -> DataFrame {
    let mut df = DataFrame::new(2, vec![numbers("x", &[1.0, 2.0]), numbers("y", &[1.0, 2.0])])
        .unwrap();
    let text = Column::from(Series::new("y".into(), &["a"]));
    let more = DataFrame::new(1, vec![numbers("x", &[3.0]), text]).unwrap();
    assert!(df.vstack_mut(&more).is_err());
    assert_eq!(df.height(), 2);
    assert_eq!(df.column("x").unwrap().len(), 3);
    df
}

#[test]
fn a_column_that_does_not_fit_the_frame_is_a_computation_error() {
    let mut e = ExpandingAggregator::new(&["x"], ExpandingFn::Sum);
    e.fit(uneven()).unwrap();
    let err = e.transform(uneven(), &Hardware).unwrap_err();
    assert!(matches!(err, Error::Computation(_)));
    assert!(message(err)
        .contains("unable to add a column of length 3 to a DataFrame of height 2"));

    let e = fitted(&["y"], ExpandingFn::Sum);
    let result = e.checked_transform(uneven(), &Hardware).unwrap().unwrap();
    assert_eq!(column(&result, "y_expanding_sum").get(1), Some(3.0));
    assert_eq!(result.height(), 2);
}

#[test]
fn a_misfit_is_reported_after_what_comes_before_it() {
    let e = fitted(&["y", "x", "nope"], ExpandingFn::Sum);
    assert!(matches!(e.transform(uneven(), &Hardware), Err(Error::Computation(_))));
    let e = fitted(&["nope", "x"], ExpandingFn::Sum);
    assert!(matches!(e.transform(uneven(), &Hardware), Err(Error::InvalidInput(_))));
}

#[test]
fn a_single_cell_is_spread_over_the_frame() {
    let mut df = DataFrame::new(2, vec![numbers("a", &[1.0, 2.0]), numbers("b", &[5.0, 6.0])])
        .unwrap();
    let text = Column::from(Series::new("b".into(), &["u", "v"]));
    let more = DataFrame::new(2, vec![numbers("a", &[3.0, 4.0]), text]).unwrap();
    assert!(df.vstack_mut(&more).is_err());
    let df = df.slice(1, 3);
    assert_eq!(df.height(), 3);
    assert_eq!(df.column("b").unwrap().len(), 1);
    let result = fitted(&["b", "a"], ExpandingFn::Sum).transform(df, &Hardware).unwrap();
    assert_eq!(names(&result), vec!["a", "b", "b_expanding_sum", "a_expanding_sum"]);
    for (i, want) in [2.0, 5.0, 9.0].iter().enumerate() {
        assert_eq!(column(&result, "b_expanding_sum").get(i), Some(6.0));
        assert_eq!(column(&result, "a_expanding_sum").get(i), Some(*want));
    }
    assert_eq!(column(&result, "b_expanding_sum").len(), 3);

    let mut df = DataFrame::new(0, vec![numbers("x", &[]), numbers("y", &[])]).unwrap();
    let text = Column::from(Series::new("y".into(), &["a"]));
    let more = DataFrame::new(1, vec![numbers("x", &[3.0]), text]).unwrap();
    assert!(df.vstack_mut(&more).is_err());
    assert_eq!(df.column("x").unwrap().len(), 1);
    let result = fitted(&["x"], ExpandingFn::Sum).transform(df, &Hardware).unwrap();
    assert_eq!(names(&result), vec!["x", "y", "x_expanding_sum"]);
    assert_eq!(column(&result, "x_expanding_sum").len(), 0);
    assert_eq!(result.height(), 0);
}

/// A frame whose last column has the name of the first.
fn repeated_name(width: usize) -> DataFrame {
    let mut columns = Vec::new();
    for i in 0..width {
        columns.push(numbers(&format!("c{}", i), &[i as f64, 1.0]));
    }
    let mut df = DataFrame::new(2, columns).unwrap();
    df.replace_column(width - 1, numbers("c0", &[7.0, 8.0])).unwrap();
    df
}

#[test]
fn names_that_cannot_be_told_apart_give_nothing() {
    let mut e = ExpandingAggregator::new(&["c1"], ExpandingFn::Sum);
    assert!(matches!(
        e.checked_transform(repeated_name(5), &Hardware),
        Some(Err(Error::NotFitted(_)))
    ));
    assert!(e.checked_fit(repeated_name(5)).is_none());
    assert!(matches!(
        e.checked_transform(make_df(&[1.0]), &Hardware),
        Some(Err(Error::NotFitted(_)))
    ));
    let e = fitted(&["c1"], ExpandingFn::Sum);
    assert!(e.checked_transform(repeated_name(5), &Hardware).is_none());
    let mut e = ExpandingAggregator::default();
    assert!(matches!(e.checked_fit(repeated_name(5)), Some(Err(Error::InvalidInput(_)))));
}

#[test]
fn among_few_columns_the_first_of_a_name_is_found() {
    let mut e = ExpandingAggregator::new(&["c0"], ExpandingFn::Sum);
    e.checked_fit(repeated_name(4)).unwrap().unwrap();
    let result = e.checked_transform(repeated_name(4), &Hardware).unwrap().unwrap();
    assert_eq!(names(&result), vec!["c0", "c1", "c2", "c0", "c0_expanding_sum"]);
    let sums = result.columns()[4].f64().unwrap();
    assert_eq!(sums.get(0), Some(0.0));
    assert_eq!(sums.get(1), Some(1.0));

    let e = fitted(&["c0", "c1"], ExpandingFn::Sum);
    assert!(e.checked_transform(repeated_name(4), &Hardware).is_none());
    let result = e.checked_transform(repeated_name(3), &Hardware).unwrap().unwrap();
    assert_eq!(result.width(), 5);
}

#[test]
fn checked_fit_agrees_with_fit() {
    let mut e = ExpandingAggregator::new(&["x"], ExpandingFn::Sum);
    assert!(matches!(e.checked_fit(make_df(&[])), Some(Err(Error::InvalidInput(_)))));
    assert!(matches!(e.checked_fit(make_df(&[1.0])), Some(Ok(()))));
    assert!(e.transform(make_df(&[1.0]), &Hardware).is_ok());
    let mut columns = Vec::new();
    for name in ["a", "b", "c", "d", "e", "f"] {
        columns.push(numbers(name, &[1.0]));
    }
    let df = DataFrame::new(1, columns).unwrap();
    let mut e = ExpandingAggregator::new(&["f", "a"], ExpandingFn::Max);
    assert!(matches!(e.checked_fit(df.clone()), Some(Ok(()))));
    assert_eq!(e.checked_transform(df, &Hardware).unwrap().unwrap().width(), 8);
}

fn repeated(dtype: DataType, value: AnyValue<'static>, len: usize) -> DataFrame {
    let col = Column::new_scalar("x".into(), Scalar::new(dtype, value), len);
    DataFrame::new(len, vec![col]).unwrap()
}

#[test]
fn a_repeated_scalar_is_read_like_any_column() {
    let df = repeated(DataType::Float64, AnyValue::Float64(2.5), 3);
    let mut e = ExpandingAggregator::new(&["x"], ExpandingFn::Sum);
    e.checked_fit(df.clone()).unwrap().unwrap();
    let result = e.checked_transform(df, &Hardware).unwrap().unwrap();
    assert_eq!(column(&result, "x_expanding_sum").get(2), Some(7.5));

    let nulls = repeated(DataType::Float64, AnyValue::Null, 3);
    let result = e.checked_transform(nulls, &Hardware).unwrap().unwrap();
    assert_eq!(column(&result, "x_expanding_sum").null_count(), 3);

    let whole = repeated(DataType::Int64, AnyValue::Int64(1), 3);
    let err = e.checked_transform(whole, &Hardware).unwrap().unwrap_err();
    assert_eq!(message(err), "column must be f64");
}

#[test]
fn a_scalar_that_does_not_go_with_its_type_gives_nothing() {
    let df = repeated(DataType::Float64, AnyValue::Int64(1), 3);
    let mut e = ExpandingAggregator::new(&["x"], ExpandingFn::Sum);
    e.checked_fit(df.clone()).unwrap().unwrap();
    assert!(e.checked_transform(df, &Hardware).is_none());
    let small = repeated(DataType::Int8, AnyValue::Null, 3);
    assert!(e.checked_transform(small, &Hardware).is_none());
    let absent = fitted(&["y"], ExpandingFn::Sum);
    let df = repeated(DataType::Float64, AnyValue::Int64(1), 3);
    assert!(matches!(
        absent.checked_transform(df, &Hardware),
        Some(Err(Error::InvalidInput(_)))
    ));
}

#[test]
fn an_empty_column_of_unknown_type_can_hold_numbers() {
    let df = repeated(DataType::Unknown(UnknownKind::Float), AnyValue::Null, 0);
    assert_ne!(df.column("x").unwrap().dtype(), &DataType::Float64);
    assert_eq!(
        df.column("x").unwrap().as_materialized_series().dtype(),
        &DataType::Float64
    );
    let e = fitted(&["x"], ExpandingFn::Sum);
    let result = e.checked_transform(df, &Hardware).unwrap().unwrap();
    assert_eq!(result.shape(), (0, 2));
}

#[test]
fn a_column_of_one_list_is_not_float64() {
    let inner = Series::new("".into(), &[1.0_f64, 2.0]);
    let x = Column::from(Series::new("x".into(), &[inner]));
    let df = DataFrame::new(1, vec![x]).unwrap();
    let err = fitted(&["x"], ExpandingFn::Sum)
        .checked_transform(df, &Hardware)
        .unwrap()
        .unwrap_err();
    assert_eq!(message(err), "column must be f64");
}

#[test]
fn a_renamed_column_is_found_where_the_frame_finds_it() {
    let mut df = DataFrame::new(1, vec![numbers("a", &[1.0]), numbers("b", &[2.0])]).unwrap();
    df.rename_many([("a", "x".into())].into_iter()).unwrap();
    assert_eq!(names(&df), vec!["x", "b"]);
    let found = df.column("x").is_ok();
    let mut e = ExpandingAggregator::new(&["x"], ExpandingFn::Sum);
    assert_eq!(e.checked_fit(df.clone()).unwrap().is_ok(), found);
    let e = fitted(&["x"], ExpandingFn::Sum);
    assert_eq!(e.checked_transform(df.clone(), &Hardware).unwrap().is_ok(), found);
    let e = fitted(&["b"], ExpandingFn::Sum);
    let result = e.checked_transform(df, &Hardware).unwrap().unwrap();
    assert_eq!(names(&result), vec!["x", "b", "b_expanding_sum"]);
    assert_eq!(column(&result, "x").get(0), Some(1.0));
}

#[test]
fn orderly_frames_have_distinct_names_that_are_all_found() {
    assert!(is_orderly(&make_df(&[1.0])));
    assert!(is_orderly(&uneven()));
    assert!(is_orderly(&DataFrame::empty()));
    for width in 2..7 {
        assert!(!is_orderly(&repeated_name(width)));
    }
    let mut df = DataFrame::new(1, vec![numbers("a", &[1.0]), numbers("b", &[2.0])]).unwrap();
    df.rename_many([("a", "x".into())].into_iter()).unwrap();
    assert_eq!(is_orderly(&df), df.column("x").is_ok());
    df.rename("b", "y".into()).unwrap();
    assert!(is_orderly(&df));

    let e = fitted(&["y"], ExpandingFn::Sum);
    assert!(is_orderly(&e.transform(df, &Hardware).unwrap()));
}

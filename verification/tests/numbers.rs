use featrs::arithmetic::Arithmetic;
use featrs::binary64::{below, nan, take_greater, take_lesser};
use featrs::time_series::expanding::ExpandingFn;
use featrs::time_series::window::{expand, Accumulator};

/// Numbers that show every operation: results name their operands.
struct Digits;

impl Arithmetic for Digits {
    fn sum(&self, first: u64, second: u64) -> u64 {
        first + second
    }

    fn difference(&self, first: u64, second: u64) -> u64 {
        first.wrapping_sub(second)
    }

    fn product(&self, first: u64, second: u64) -> u64 {
        first.wrapping_mul(second)
    }

    fn quotient(&self, first: u64, second: u64) -> u64 {
        first / second
    }

    fn root(&self, number: u64) -> u64 {
        number + 1000
    }

    fn of_count(&self, count: usize) -> u64 {
        count as u64
    }
}

const SAMPLES: [f64; 16] = [
    0.0,
    -0.0,
    1.0,
    -1.0,
    1.5,
    -2.5,
    5e-324,
    -5e-324,
    2.2250738585072014e-308,
    2.225073858507201e-308,
    1.7976931348623157e308,
    -1.7976931348623157e308,
    f64::INFINITY,
    f64::NEG_INFINITY,
    f64::NAN,
    -f64::NAN,
];

#[test]
fn patterns_are_ordered_as_numbers() {
    for a in SAMPLES {
        assert_eq!(nan(a.to_bits()), a.is_nan());
        for b in SAMPLES {
            if !a.is_nan() && !b.is_nan() {
                assert_eq!(below(a.to_bits(), b.to_bits()), a < b);
            }
        }
    }
}

#[test]
fn extremes_agree_with_the_standard_library() {
    for a in SAMPLES {
        for b in SAMPLES {
            let low = f64::from_bits(take_lesser(a.to_bits(), b.to_bits()));
            let high = f64::from_bits(take_greater(a.to_bits(), b.to_bits()));
            assert!(low == a.min(b) || low.is_nan() && a.min(b).is_nan());
            assert!(high == a.max(b) || high.is_nan() && a.max(b).is_nan());
        }
    }
}

#[test]
fn equal_numbers_keep_the_first() {
    let (plus, minus) = (0.0_f64.to_bits(), (-0.0_f64).to_bits());
    assert_eq!(take_lesser(plus, minus), plus);
    assert_eq!(take_lesser(minus, plus), minus);
    assert_eq!(take_greater(plus, minus), plus);
    assert_eq!(take_greater(minus, plus), minus);
}

#[test]
fn an_accumulator_follows_welford() {
    let start = Accumulator::new();
    assert_eq!((start.seen, start.sum, start.mean, start.m2), (0, 0, 0, 0));
    assert_eq!((start.min, start.max), (None, None));
    let one = start.observe(&Digits, ExpandingFn::Std, 4);
    assert_eq!((one.seen, one.sum, one.mean, one.m2), (1, 4, 4, 0));
    let two = one.observe(&Digits, ExpandingFn::Std, 10);
    // delta 6, shift 6 / 2, rest 10 - 7, so 6 * 3 is added.
    assert_eq!((two.seen, two.sum, two.mean, two.m2), (2, 14, 7, 18));
    assert_eq!((two.min, two.max), (None, None));
    assert_eq!(two.statistic(&Digits, ExpandingFn::Sum), Some(14));
    assert_eq!(two.statistic(&Digits, ExpandingFn::Mean), Some(7));
    assert_eq!(two.statistic(&Digits, ExpandingFn::Std), Some(1009));
    assert_eq!(two.statistic(&Digits, ExpandingFn::Min), None);
}

#[test]
fn an_accumulator_of_extremes_leaves_the_rest_alone() {
    let low = Accumulator::new()
        .observe(&Digits, ExpandingFn::Min, 9)
        .observe(&Digits, ExpandingFn::Min, 3)
        .observe(&Digits, ExpandingFn::Min, 5);
    assert_eq!((low.seen, low.min, low.max), (3, Some(3), None));
    assert_eq!((low.sum, low.mean, low.m2), (0, 0, 0));
    let high = Accumulator::new()
        .observe(&Digits, ExpandingFn::Max, 3)
        .observe(&Digits, ExpandingFn::Max, 9)
        .observe(&Digits, ExpandingFn::Max, 5);
    assert_eq!((high.seen, high.min, high.max), (3, None, Some(9)));
}

#[test]
fn rows_keep_their_positions() {
    let cells = vec![None, Some(4), None, Some(10), Some(1)];
    assert_eq!(
        expand(&Digits, ExpandingFn::Sum, 1, &cells),
        vec![None, Some(4), None, Some(14), Some(15)]
    );
    assert_eq!(
        expand(&Digits, ExpandingFn::Sum, 2, &cells),
        vec![None, None, None, Some(14), Some(15)]
    );
    assert_eq!(
        expand(&Digits, ExpandingFn::Min, 0, &cells),
        vec![None, Some(4), None, Some(4), Some(1)]
    );
    assert_eq!(expand(&Digits, ExpandingFn::Max, 9, &cells), vec![None; 5]);
    assert_eq!(expand(&Digits, ExpandingFn::Std, 1, &Vec::new()), Vec::new());
}

#[test]
fn extremes_move_in_one_direction() {
    let values = [3.5, -1.0, 8.0, -1.0, -9.5, 2.0, 8.5];
    let cells: Vec<Option<u64>> = values.iter().map(|v: &f64| Some(v.to_bits())).collect();
    let low = expand(&Digits, ExpandingFn::Min, 1, &cells);
    let high = expand(&Digits, ExpandingFn::Max, 1, &cells);
    for i in 1..values.len() {
        let (earlier, later) = (f64::from_bits(low[i - 1].unwrap()), f64::from_bits(low[i].unwrap()));
        assert!(later <= earlier);
        assert!(values[..=i].contains(&later));
        let (earlier, later) = (f64::from_bits(high[i - 1].unwrap()), f64::from_bits(high[i].unwrap()));
        assert!(later >= earlier);
        assert!(values[..=i].contains(&later));
    }
    assert_eq!(f64::from_bits(low[6].unwrap()), -9.5);
    assert_eq!(f64::from_bits(high[6].unwrap()), 8.5);
}

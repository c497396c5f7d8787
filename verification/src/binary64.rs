//! Bit patterns of IEEE 754 binary64 numbers: what they stand for, and how
//! they are ordered.
//!
//! A cell of a `Float64` column is handled here as its 64-bit pattern. Every
//! finite number of the format is a whole multiple of the least positive one,
//! so [`units`] can say exactly, as an integer, which number a pattern is.

use vstd::arithmetic::power2::{
    lemma2_to64, lemma2_to64_rest, lemma_pow2_adds, lemma_pow2_pos, lemma_pow2_unfold, pow2,
};
use vstd::prelude::*;

verus! {

/// The pattern of negative zero: the sign bit alone.
pub const SIGN: u64 = 0x8000_0000_0000_0000;

/// The pattern of positive infinity: no magnitude of a number is above it.
pub const INFINITY: u64 = 0x7ff0_0000_0000_0000;

/// How many magnitudes share one exponent.
pub const BINADE: u64 = 0x0010_0000_0000_0000;

/// The pattern without its sign bit.
pub open spec fn magnitude(bits: u64) -> int {
    if bits < SIGN {
        bits as int
    } else {
        bits - SIGN
    }
}

/// Whether the pattern is a NaN.
pub open spec fn is_nan(bits: u64) -> bool {
    magnitude(bits) > INFINITY
}

/// Whether the pattern is a number other than an infinity.
pub open spec fn is_finite(bits: u64) -> bool {
    magnitude(bits) < INFINITY
}

/// The absolute value that a magnitude stands for, counted in the least
/// positive number of the format. The lowest exponent holds the subnormal
/// numbers; each exponent after it doubles the step between neighbours.
pub open spec fn absolute_units(magnitude: int) -> int {
    let exponent = magnitude / (BINADE as int);
    let fraction = magnitude % (BINADE as int);
    if exponent == 0 {
        fraction
    } else {
        (BINADE + fraction) * pow2((exponent - 1) as nat)
    }
}

/// The number that a pattern stands for, counted in the least positive number
/// of the format, which is two to the power of minus 1074. Both zeros are 0;
/// an infinity lies beyond every finite number. Of a NaN it says nothing.
pub open spec fn units(bits: u64) -> int {
    if bits < SIGN {
        absolute_units(magnitude(bits))
    } else {
        -absolute_units(magnitude(bits))
    }
}

/// How many units the number one is.
pub open spec fn one() -> int {
    pow2(1074) as int
}

/// The smaller of two numbers. A NaN counts as missing: the other argument is
/// taken. Of two equal numbers, such as the two zeros, the first is kept.
pub open spec fn lesser(first: u64, second: u64) -> u64 {
    if is_nan(first) {
        second
    } else if is_nan(second) {
        first
    } else if units(second) < units(first) {
        second
    } else {
        first
    }
}

/// The larger of two numbers, with the same rule for a NaN and for equal
/// numbers as [`lesser`].
pub open spec fn greater(first: u64, second: u64) -> u64 {
    if is_nan(first) {
        second
    } else if is_nan(second) {
        first
    } else if units(first) < units(second) {
        second
    } else {
        first
    }
}

proof fn lemma_absolute_units_step(magnitude: int)
    requires
        0 <= magnitude,
    ensures
        absolute_units(magnitude) < absolute_units(magnitude + 1),
{
    let exponent = magnitude / (BINADE as int);
    let fraction = magnitude % (BINADE as int);
    let next_exponent = (magnitude + 1) / (BINADE as int);
    let next_fraction = (magnitude + 1) % (BINADE as int);
    if exponent > 0 {
        let step = pow2((exponent - 1) as nat) as int;
        lemma_pow2_pos((exponent - 1) as nat);
        if next_exponent == exponent {
            assert(next_fraction == fraction + 1);
            assert(absolute_units(magnitude + 1) == (BINADE + fraction + 1) * step);
            assert((BINADE + fraction) * step < (BINADE + fraction + 1) * step) by (nonlinear_arith)
                requires
                    step > 0,
            ;
        } else {
            assert(fraction == BINADE - 1 && next_fraction == 0 && next_exponent == exponent + 1);
            lemma_pow2_unfold(exponent as nat);
            assert((BINADE + BINADE - 1) * step < BINADE * (2 * step)) by (nonlinear_arith)
                requires
                    step > 0,
            ;
        }
    } else {
        lemma2_to64();
        assert(fraction == magnitude && magnitude < BINADE);
        if magnitude + 1 == BINADE {
            assert(next_exponent == 1 && next_fraction == 0);
            assert((BINADE + 0) * pow2(0) == BINADE) by (nonlinear_arith)
                requires
                    pow2(0) == 1,
            ;
        } else {
            assert(next_exponent == 0 && next_fraction == magnitude + 1);
        }
    }
}

/// A larger magnitude stands for a larger absolute value.
pub proof fn lemma_absolute_units_increases(low: int, high: int)
    requires
        0 <= low < high,
    ensures
        absolute_units(low) < absolute_units(high),
    decreases high - low,
{
    lemma_absolute_units_step(high - 1);
    if low < high - 1 {
        lemma_absolute_units_increases(low, high - 1);
    }
}

/// The order of the patterns is that of the numbers: of two patterns without
/// the sign bit the larger stands for the larger number, of two with it the
/// smaller does, and one with it never exceeds one without.
pub proof fn lemma_pattern_order(first: u64, second: u64)
    ensures
        first < SIGN && second < SIGN ==> (units(first) < units(second) <==> first < second),
        first >= SIGN && second >= SIGN ==> (units(first) < units(second) <==> first > second),
        first >= SIGN && second < SIGN ==> units(first) <= units(second) && (units(first)
            < units(second) <==> !(first == SIGN && second == 0)),
{
    let (a, b) = (magnitude(first), magnitude(second));
    assert(absolute_units(0) == 0);
    if a < b {
        lemma_absolute_units_increases(a, b);
    }
    if b < a {
        lemma_absolute_units_increases(b, a);
    }
    if a > 0 {
        lemma_absolute_units_increases(0, a);
    }
    if b > 0 {
        lemma_absolute_units_increases(0, b);
    }
}

/// Tells whether a pattern is a NaN.
pub fn nan(bits: u64) -> (result: bool)
    ensures
        result == is_nan(bits),
{
    let magnitude: u64 = if bits < SIGN {
        bits
    } else {
        bits - SIGN
    };
    magnitude > INFINITY
}

/// Tells whether the first number is below the second.
pub fn below(first: u64, second: u64) -> (result: bool)
    ensures
        result == (units(first) < units(second)),
{
    proof {
        lemma_pattern_order(first, second);
        lemma_pattern_order(second, first);
    }
    if first < SIGN {
        second < SIGN && first < second
    } else if second < SIGN {
        !(first == SIGN && second == 0)
    } else {
        first > second
    }
}

/// The smaller of two numbers, ignoring a NaN: what the floating-point
/// minimum of the standard library gives. Where that leaves open which of two
/// equal numbers it takes, this takes the first.
pub fn take_lesser(first: u64, second: u64) -> (result: u64)
    ensures
        result == lesser(first, second),
{
    if nan(first) {
        second
    } else if nan(second) {
        first
    } else if below(second, first) {
        second
    } else {
        first
    }
}

/// The larger of two numbers, ignoring a NaN: what the floating-point maximum
/// of the standard library gives. Where that leaves open which of two equal
/// numbers it takes, this takes the first.
pub fn take_greater(first: u64, second: u64) -> (result: u64)
    ensures
        result == greater(first, second),
{
    if nan(first) {
        second
    } else if nan(second) {
        first
    } else if below(first, second) {
        second
    } else {
        first
    }
}

/// A pattern is a NaN exactly where its eleven exponent bits are all ones and
/// its fraction is not zero. It is finite exactly where the exponent bits are
/// not all ones. So no finite pattern is a NaN, and neither infinity is.
pub proof fn law_nan_pattern(bits: u64)
    ensures
        is_nan(bits) <==> bits & 0x7ff0_0000_0000_0000 == 0x7ff0_0000_0000_0000 && bits
            & 0x000f_ffff_ffff_ffff != 0,
        is_finite(bits) <==> bits & 0x7ff0_0000_0000_0000 != 0x7ff0_0000_0000_0000,
        is_nan(bits) <==> bits & 0x7fff_ffff_ffff_ffff > 0x7ff0_0000_0000_0000,
        is_finite(bits) ==> !is_nan(bits),
        !is_nan(0x7ff0_0000_0000_0000) && !is_nan(0xfff0_0000_0000_0000),
{
    assert(bits < 0x8000_0000_0000_0000 ==> (bits > 0x7ff0_0000_0000_0000 <==> bits
        & 0x7ff0_0000_0000_0000 == 0x7ff0_0000_0000_0000 && bits & 0x000f_ffff_ffff_ffff != 0))
        by (bit_vector);
    assert(bits >= 0x8000_0000_0000_0000 ==> (bits > 0xfff0_0000_0000_0000 <==> bits
        & 0x7ff0_0000_0000_0000 == 0x7ff0_0000_0000_0000 && bits & 0x000f_ffff_ffff_ffff != 0))
        by (bit_vector);
    assert(bits < 0x8000_0000_0000_0000 ==> (bits < 0x7ff0_0000_0000_0000 <==> bits
        & 0x7ff0_0000_0000_0000 != 0x7ff0_0000_0000_0000)) by (bit_vector);
    assert(bits >= 0x8000_0000_0000_0000 ==> (bits < 0xfff0_0000_0000_0000 <==> bits
        & 0x7ff0_0000_0000_0000 != 0x7ff0_0000_0000_0000)) by (bit_vector);
    assert(bits & 0x7fff_ffff_ffff_ffff > 0x7ff0_0000_0000_0000 <==> bits
        & 0x7ff0_0000_0000_0000 == 0x7ff0_0000_0000_0000 && bits & 0x000f_ffff_ffff_ffff != 0)
        by (bit_vector);
}

/// What [`nan`] answers is whether the pattern is a NaN.
pub proof fn law_nan_is_told(bits: u64, answer: bool)
    requires
        call_ensures(nan, (bits,), answer),
    ensures
        answer <==> bits & 0x7fff_ffff_ffff_ffff > 0x7ff0_0000_0000_0000,
{
    law_nan_pattern(bits);
}

/// The number that a pattern stands for. Below two to the power of 53 a pattern
/// counts its units itself. From the first normal number on, the next exponent
/// doubles the number. The sign bit negates it. This determines the number of
/// every pattern; that of one is the unit of the format times two to the power
/// of 1074.
pub proof fn law_units(bits: u64)
    ensures
        bits < 0x0020_0000_0000_0000 ==> units(bits) == bits,
        0x0010_0000_0000_0000 <= bits < 0x7ff0_0000_0000_0000 ==> units(
            (bits + 0x0010_0000_0000_0000) as u64,
        ) == 2 * units(bits),
        bits < 0x8000_0000_0000_0000 ==> units((bits + 0x8000_0000_0000_0000) as u64) == -units(
            bits,
        ),
        units(0x3ff0_0000_0000_0000) == pow2(1074),
        one() == pow2(1074),
{
    lemma2_to64();
    lemma2_to64_rest();
    if bits < 0x0020_0000_0000_0000 {
        if bits >= BINADE {
            assert(bits as int / (BINADE as int) == 1);
            assert(bits as int % (BINADE as int) == bits - BINADE);
            assert((BINADE + (bits - BINADE)) * pow2(0) == bits) by (nonlinear_arith)
                requires
                    pow2(0) == 1,
            ;
        } else {
            assert(bits as int / (BINADE as int) == 0 && bits as int % (BINADE as int) == bits);
        }
    }
    if 0x0010_0000_0000_0000 <= bits < 0x7ff0_0000_0000_0000 {
        let exponent = bits as int / (BINADE as int);
        let fraction = bits as int % (BINADE as int);
        let next = bits as int + BINADE;
        assert(next / (BINADE as int) == exponent + 1 && next % (BINADE as int) == fraction);
        lemma_pow2_unfold(exponent as nat);
        let step = pow2((exponent - 1) as nat) as int;
        assert((BINADE + fraction) * (2 * step) == 2 * ((BINADE + fraction) * step))
            by (nonlinear_arith);
    }
    lemma_pow2_adds(52, 1022);
    let one = 0x3ff0_0000_0000_0000u64;
    assert(one as int / (BINADE as int) == 1023 && one as int % (BINADE as int) == 0);
    assert(pow2(52) == BINADE);
    assert((BINADE + 0) * pow2(1022) == pow2(52) * pow2(1022));
}

/// Of two patterns without the sign bit the larger stands for the larger
/// number; with it the smaller does, and it never exceeds one without.
/// [`below`] compares the numbers.
pub proof fn law_order(first: u64, second: u64, answer: bool)
    requires
        call_ensures(below, (first, second), answer),
    ensures
        first < 0x8000_0000_0000_0000 && second < 0x8000_0000_0000_0000 ==> (answer <==> first
            < second),
        first >= 0x8000_0000_0000_0000 && second >= 0x8000_0000_0000_0000 ==> (answer <==> first
            > second),
        first < 0x8000_0000_0000_0000 && second >= 0x8000_0000_0000_0000 ==> !answer,
        first >= 0x8000_0000_0000_0000 && second < 0x8000_0000_0000_0000 ==> (answer <==> !(first
            == 0x8000_0000_0000_0000 && second == 0)),
{
    lemma_pattern_order(first, second);
    lemma_pattern_order(second, first);
}

/// [`take_lesser`] and [`take_greater`] return one of their arguments. A NaN is
/// returned only where both are one; else no argument that is a number is
/// beyond the result.
pub proof fn law_extremes_of_two(first: u64, second: u64, low: u64, high: u64)
    requires
        call_ensures(take_lesser, (first, second), low),
        call_ensures(take_greater, (first, second), high),
    ensures
        low == first || low == second,
        high == first || high == second,
        forall|x: u64|
            (x == first || x == second) && #[trigger] (x & 0x7fff_ffff_ffff_ffff)
                <= 0x7ff0_0000_0000_0000 ==> {
                &&& low & 0x7fff_ffff_ffff_ffff <= 0x7ff0_0000_0000_0000
                &&& high & 0x7fff_ffff_ffff_ffff <= 0x7ff0_0000_0000_0000
                &&& units(low) <= units(x) <= units(high)
            },
{
    law_nan_pattern(first);
    law_nan_pattern(second);
}

} // verus!

//! How far the statistics are from the exact ones.
//!
//! Nothing is assumed of the numbers here but a bound on their size: whether
//! intermediate numbers can be represented does not matter. Every operation may
//! be off by half a unit in the last place. Numbers are real numbers. There may
//! be up to two to the power of 48 observations, far more than a frame can hold.
//! The bound may be any that no observation exceeds; it is at least the least
//! normal number, so that what is too small for full precision is covered, and
//! leaves room below the largest number for intermediate results.

use crate::arithmetic::Arithmetic;
use crate::binary64;
use crate::time_series::expanding::ExpandingFn;
use crate::time_series::outcomes::{self, Trace};
use crate::time_series::window;
use vstd::arithmetic::power2::{
    lemma2_to64, lemma2_to64_rest, lemma_pow2_adds, lemma_pow2_pos,
};
use vstd::prelude::*;

verus! {

/// The real number that a finite pattern stands for.
pub open spec fn number(bits: u64) -> real {
    binary64::units(bits) as real / binary64::one() as real
}

/// The absolute value of a number.
pub open spec fn size(x: real) -> real {
    if x >= 0real {
        x
    } else {
        -x
    }
}

/// The largest relative error of a rounded number: two to the power of -53.
pub open spec fn roundoff() -> real {
    1real / 9007199254740992real
}

/// Half the least positive number of the format: the largest error of a rounded
/// number that is too small for full precision.
pub open spec fn half_unit() -> real {
    1real / (2real * binary64::one() as real)
}

/// The least number of the format that has full precision.
pub open spec fn least_normal() -> real {
    number(0x0010_0000_0000_0000)
}

/// The largest finite number of the format.
pub open spec fn largest() -> real {
    number(0x7fef_ffff_ffff_ffff)
}

/// Whether a pattern is a number as near to an exact one as rounding to the
/// nearest brings it.
pub open spec fn close(bits: u64, exact: real) -> bool {
    binary64::is_finite(bits) && size(number(bits) - exact) <= roundoff() * size(exact)
        + half_unit()
}

/// Whether every operation on finite numbers is as near to the exact result as
/// rounding to the nearest brings it, wherever that result is not too large.
/// The square of a root is compared with its operand; a negative number has no
/// root.
pub open spec fn rounds_closely<A: Arithmetic>(arithmetic: &A) -> bool {
    &&& forall|a: u64, b: u64, r: u64| #[trigger]
        call_ensures(A::sum, (arithmetic, a, b), r) && binary64::is_finite(a)
            && binary64::is_finite(b) && size(number(a) + number(b)) <= largest() ==> close(
            r,
            number(a) + number(b),
        )
    &&& forall|a: u64, b: u64, r: u64| #[trigger]
        call_ensures(A::difference, (arithmetic, a, b), r) && binary64::is_finite(a)
            && binary64::is_finite(b) && size(number(a) - number(b)) <= largest() ==> close(
            r,
            number(a) - number(b),
        )
    &&& forall|a: u64, b: u64, r: u64| #[trigger]
        call_ensures(A::product, (arithmetic, a, b), r) && binary64::is_finite(a)
            && binary64::is_finite(b) && size(number(a) * number(b)) <= largest() ==> close(
            r,
            number(a) * number(b),
        )
    &&& forall|a: u64, b: u64, r: u64| #[trigger]
        call_ensures(A::quotient, (arithmetic, a, b), r) && binary64::is_finite(a)
            && binary64::is_finite(b) && number(b) != 0real && size(number(a) / number(b))
            <= largest() ==> close(r, number(a) / number(b))
    &&& forall|a: u64, r: u64| #[trigger]
        call_ensures(A::root, (arithmetic, a), r) && binary64::is_finite(a) ==> {
            &&& binary64::is_finite(r) <==> number(a) >= 0real
            &&& number(a) >= 0real ==> number(r) >= 0real && size(
                number(r) * number(r) - number(a),
            ) <= 3real * roundoff() * number(a)
        }
    &&& forall|n: usize, r: u64| #[trigger]
        call_ensures(A::of_count, (arithmetic, n), r) ==> close(r, n as real)
}

/// The sum of the numbers that patterns stand for.
pub open spec fn total(patterns: Seq<u64>) -> real
    decreases patterns.len(),
{
    if patterns.len() == 0 {
        0real
    } else {
        total(patterns.drop_last()) + number(patterns.last())
    }
}

/// The mean of the numbers that patterns stand for.
pub open spec fn mean(patterns: Seq<u64>) -> real {
    total(patterns) / patterns.len() as real
}

/// Whether all patterns are finite and no number exceeds a bound in size.
pub open spec fn bounded(patterns: Seq<u64>, bound: real) -> bool {
    forall|k: int|
        0 <= k < patterns.len() ==> binary64::is_finite(#[trigger] patterns[k]) && size(
            number(patterns[k]),
        ) <= bound
}

proof fn lemma_half_unit(bound: real)
    requires
        least_normal() <= bound,
    ensures
        half_unit() <= roundoff() * bound,
        0real < half_unit() <= roundoff(),
        bound > 0real,
{
    let one = binary64::one() as real;
    lemma_pow2_pos(1074);
    lemma2_to64();
    lemma2_to64_rest();
    binary64::law_units(0x0010_0000_0000_0000);
    lemma_pow2_adds(53, 1021);
    lemma_pow2_pos(1021);
    assert(binary64::one() >= 9007199254740992) by (nonlinear_arith)
        requires
            binary64::one() == 9007199254740992 * vstd::arithmetic::power2::pow2(1021),
            vstd::arithmetic::power2::pow2(1021) >= 1,
    ;
    let least = least_normal();
    assert(least == 4503599627370496real / one);
    assert(half_unit() == roundoff() * least && least > 0real) by (nonlinear_arith)
        requires
            least == 4503599627370496real / one,
            half_unit() == 1real / (2real * one),
            roundoff() == 1real / 9007199254740992real,
            one > 0real,
    ;
    assert(roundoff() * least <= roundoff() * bound) by (nonlinear_arith)
        requires
            least <= bound,
            roundoff() == 1real / 9007199254740992real,
    ;
    assert(0real < half_unit() <= roundoff()) by (nonlinear_arith)
        requires
            half_unit() == 1real / (2real * one),
            roundoff() == 1real / 9007199254740992real,
            one >= 9007199254740992real,
    ;
}

/// What it means to be close, where the exact number is bounded too.
proof fn lemma_close(bits: u64, exact: real, limit: real, bound: real)
    requires
        close(bits, exact),
        size(exact) <= limit,
        half_unit() <= roundoff() * bound,
    ensures
        size(number(bits) - exact) <= roundoff() * (limit + bound),
{
    let u = roundoff();
    assert(u * size(exact) + u * bound <= u * (limit + bound)) by (nonlinear_arith)
        requires
            size(exact) <= limit,
            u == 1real / 9007199254740992real,
    ;
}

/// Adding up two errors.
proof fn lemma_two_errors(whole: real, first: real, second: real, a: real, b: real)
    requires
        whole == first + second,
        size(first) <= a,
        size(second) <= b,
    ensures
        size(whole) <= a + b,
{
}

/// The roundoff of a bound is small against it, also a great many times over.
proof fn lemma_small(n: real, u: real, b: real, e: real)
    requires
        1real <= n <= 281474976710656real,
        b > 0real,
        u == 1real / 9007199254740992real,
        e == u * b,
    ensures
        0real < 1024real * e <= b,
        0real <= n * e <= b / 16real,
{
    assert(0real < 1024real * e <= b) by (nonlinear_arith)
        requires
            e == u * b,
            u == 1real / 9007199254740992real,
            b > 0real,
    ;
    assert(n * e <= b / 16real && n * e >= 0real) by (nonlinear_arith)
        requires
            e == u * b,
            u == 1real / 9007199254740992real,
            b > 0real,
            1real <= n <= 281474976710656real,
    ;
}

/// A size times a positive number.
proof fn lemma_scaled(n: real, x: real, limit: real)
    requires
        n >= 1real,
        size(x) <= limit,
    ensures
        size(n * x) <= n * limit,
        size(n * x) == n * size(x),
        size(x) <= size(n * x),
{
    assert(size(n * x) == n * size(x)) by (nonlinear_arith)
        requires
            n >= 1real,
    ;
    assert(n * size(x) <= n * limit && size(x) <= n * size(x)) by (nonlinear_arith)
        requires
            n >= 1real,
            size(x) <= limit,
            size(x) >= 0real,
    ;
}

/// The share `s` of a deviation `d`: `q` is the quotient by the rounded count
/// `c`. How far `n` times the share is from the deviation.
proof fn lemma_share(
    n: real,
    d: real,
    c: real,
    q: real,
    s: real,
    u: real,
    b: real,
    e: real,
)
    requires
        1real <= n <= 281474976710656real,
        b > 0real,
        u == 1real / 9007199254740992real,
        e == u * b,
        size(d) <= 4real * b,
        size(c - n) <= 2real * u * n,
        n / 2real <= c,
        q * c == d,
        size(s - q) <= u * size(q) + e,
    ensures
        size(n * s - d) <= 24real * e + n * e,
        size(n * s) <= 5real * b,
        size(q) <= 8real * b,
{
    lemma_small(n, u, b, e);
    let reach = n * size(q);
    assert(reach <= 8real * b && size(q) <= reach) by (nonlinear_arith)
        requires
            reach == n * size(q),
            q * c == d,
            n / 2real <= c,
            n >= 1real,
            size(d) <= 4real * b,
    ;
    assert(u * reach <= 8real * e) by (nonlinear_arith)
        requires
            reach <= 8real * b,
            e == u * b,
            u == 1real / 9007199254740992real,
    ;
    let gap = s - q;
    lemma_scaled(n, gap, u * size(q) + e);
    assert(n * (u * size(q) + e) == u * reach + n * e) by (nonlinear_arith)
        requires
            reach == n * size(q),
    ;
    let drift = q * (n - c);
    assert(size(drift) <= 2real * (u * reach)) by {
        assert(size(drift) == size(q) * size(n - c)) by (nonlinear_arith)
            requires
                drift == q * (n - c),
        ;
        assert(size(q) * size(n - c) <= size(q) * (2real * u * n)) by (nonlinear_arith)
            requires
                size(n - c) <= 2real * u * n,
                size(q) >= 0real,
        ;
        assert(size(q) * (2real * u * n) == 2real * (u * reach)) by (nonlinear_arith)
            requires
                reach == n * size(q),
        ;
    }
    assert(n * s - d == n * gap + drift) by (nonlinear_arith)
        requires
            gap == s - q,
            drift == q * (n - c),
            q * c == d,
    ;
    lemma_two_errors(n * s - d, n * gap, drift, 8real * e + n * e, 16real * e);
    lemma_two_errors(n * s, n * s - d, d, 24real * e + n * e, 4real * b);
}

/// Rounding the new mean: how far that is, `n` times over.
proof fn lemma_new_mean(
    n: real,
    m: real,
    s: real,
    next: real,
    u: real,
    b: real,
    e: real,
)
    requires
        1real <= n <= 281474976710656real,
        b > 0real,
        u == 1real / 9007199254740992real,
        e == u * b,
        size(m) <= 2real * b,
        size(n * s) <= 5real * b,
        size(next - (m + s)) <= u * size(m + s) + e,
    ensures
        size(n * (next - (m + s))) <= 3real * (n * e) + 5real * e,
{
    lemma_scaled(n, m, 2real * b);
    let sum = m + s;
    assert(n * sum == n * m + n * s) by (nonlinear_arith)
        requires
            sum == m + s,
    ;
    lemma_two_errors(n * sum, n * m, n * s, n * (2real * b), 5real * b);
    lemma_scaled(n, sum, size(sum));
    lemma_scaled(n, next - sum, u * size(sum) + e);
    let reach = n * size(sum);
    assert(n * (u * size(sum) + e) == u * reach + n * e) by (nonlinear_arith)
        requires
            reach == n * size(sum),
    ;
    assert(u * reach <= 2real * (n * e) + 5real * e) by (nonlinear_arith)
        requires
            reach <= n * (2real * b) + 5real * b,
            e == u * b,
            u == 1real / 9007199254740992real,
    ;
}

/// One step of the running mean, on real numbers: how far `n` times its move is
/// from the deviation `x - m`. `e` is the roundoff of the bound `b`.
proof fn lemma_mean_step(
    n: real,
    x: real,
    m: real,
    d: real,
    s: real,
    next: real,
    u: real,
    b: real,
    e: real,
)
    requires
        1real <= n <= 281474976710656real,
        b > 0real,
        u == 1real / 9007199254740992real,
        e == u * b,
        size(m) <= 2real * b,
        size(d - (x - m)) <= 4real * e,
        size(n * s - d) <= 24real * e + n * e,
        size(n * s) <= 5real * b,
        size(next - (m + s)) <= u * size(m + s) + e,
    ensures
        size(n * (next - m) - (x - m)) <= 4real * (n * e) + 33real * e,
{
    lemma_new_mean(n, m, s, next, u, b, e);
    let off = n * (next - (m + s));
    let ns = n * s;
    assert(n * (next - m) == off + ns) by (nonlinear_arith)
        requires
            off == n * (next - (m + s)),
            ns == n * s,
    ;
    lemma_two_errors(
        ns - (x - m),
        ns - d,
        d - (x - m),
        24real * e + n * e,
        4real * e,
    );
    lemma_two_errors(
        n * (next - m) - (x - m),
        off,
        ns - (x - m),
        3real * (n * e) + 5real * e,
        28real * e + n * e,
    );
}

proof fn lemma_zero()
    ensures
        number(0) == 0real,
        binary64::is_finite(0),
{
    lemma_pow2_pos(1074);
    binary64::law_units(0);
    let one = binary64::one() as real;
    assert(0real / one == 0real) by (nonlinear_arith)
        requires
            one > 0real,
    ;
}

proof fn lemma_take(patterns: Seq<u64>, k: int)
    requires
        0 < k <= patterns.len(),
    ensures
        patterns.take(k).drop_last() == patterns.take(k - 1),
        patterns.take(k).last() == patterns[k - 1],
        total(patterns.take(k)) == total(patterns.take(k - 1)) + number(patterns[k - 1]),
{
    assert(patterns.take(k).drop_last() =~= patterns.take(k - 1));
}

proof fn lemma_total_bounded(patterns: Seq<u64>, bound: real, k: int)
    requires
        0 <= k <= patterns.len(),
        bounded(patterns, bound),
    ensures
        size(total(patterns.take(k))) <= k as real * bound,
    decreases k,
{
    if k > 0 {
        lemma_total_bounded(patterns, bound, k - 1);
        lemma_take(patterns, k);
        assert(size(number(patterns[k - 1])) <= bound);
        assert((k - 1) as real * bound + bound == k as real * bound) by (nonlinear_arith);
    } else {
        assert(0real * bound == 0real) by (nonlinear_arith);
    }
}

/// Whether the means of a trace move with every observation.
spec fn means_move<A: Arithmetic>(arithmetic: &A, observations: Seq<u64>, trace: Trace) -> bool {
    &&& outcomes::covers(trace, observations)
    &&& trace.means[0] == 0
    &&& observations.len() <= usize::MAX
    &&& forall|k: int|
        0 <= k < observations.len() ==> {
            &&& call_ensures(
                A::difference,
                (arithmetic, observations[k], trace.means[k]),
                #[trigger] trace.deltas[k],
            )
            &&& call_ensures(A::of_count, (arithmetic, (k + 1) as usize), trace.counts[k])
            &&& call_ensures(
                A::quotient,
                (arithmetic, trace.deltas[k], trace.counts[k]),
                trace.shifts[k],
            )
            &&& call_ensures(
                A::sum,
                (arithmetic, trace.means[k], trace.shifts[k]),
                trace.means[k + 1],
            )
        }
}

/// A rounded count.
proof fn lemma_count<A: Arithmetic>(arithmetic: &A, n: usize, count: u64)
    requires
        rounds_closely(arithmetic),
        n >= 1,
        call_ensures(A::of_count, (arithmetic, n), count),
        0real < half_unit() <= roundoff(),
    ensures
        binary64::is_finite(count),
        size(number(count) - n as real) <= 2real * roundoff() * n as real,
        number(count) >= n as real / 2real,
{
    let (u, n, c) = (roundoff(), n as real, number(count));
    assert(u <= u * n) by (nonlinear_arith)
        requires
            n >= 1real,
            u == 1real / 9007199254740992real,
    ;
    assert(size(c - n) <= u * n + half_unit());
    assert(u * n + u * n == 2real * u * n) by (nonlinear_arith);
    assert(2real * u * n <= n / 2real) by (nonlinear_arith)
        requires
            n >= 1real,
            u == 1real / 9007199254740992real,
    ;
}

/// A quotient by a rounded count is bounded.
proof fn lemma_quotient_bounded(d: real, c: real, n: real, limit: real)
    requires
        n >= 1real,
        c >= n / 2real,
        size(d) <= limit,
    ensures
        c != 0real,
        (d / c) * c == d,
        size(d / c) * n <= 2real * limit,
        size(d / c) <= 2real * limit,
{
    let q = d / c;
    assert(q * c == d) by (nonlinear_arith)
        requires
            q == d / c,
            c > 0real,
    ;
    assert(size(q) * n <= 2real * size(d)) by (nonlinear_arith)
        requires
            q * c == d,
            n / 2real <= c,
            n >= 1real,
    ;
    assert(size(q) <= size(q) * n) by (nonlinear_arith)
        requires
            n >= 1real,
            size(q) >= 0real,
    ;
}

/// The mean of the first `k` observations: it is finite, and `k` times it is
/// near their sum.
proof fn lemma_mean_error<A: Arithmetic>(
    arithmetic: &A,
    observations: Seq<u64>,
    trace: Trace,
    bound: real,
    k: int,
)
    requires
        rounds_closely(arithmetic),
        means_move(arithmetic, observations, trace),
        bounded(observations, bound),
        least_normal() <= bound,
        8real * bound <= largest(),
        0 <= k <= observations.len(),
        k <= 281474976710656,
    ensures
        binary64::is_finite(trace.means[k]),
        size(number(trace.means[k])) <= 2real * bound,
        size(k as real * number(trace.means[k]) - total(observations.take(k))) <= (2real * (
        k as real * k as real) + 35real * k as real) * (roundoff() * bound),
        k > 0 ==> {
            &&& binary64::is_finite(trace.deltas[k - 1])
            &&& size(
                number(trace.deltas[k - 1]) - (number(observations[k - 1]) - number(
                    trace.means[k - 1],
                )),
            ) <= 4real * (roundoff() * bound)
        },
    decreases k,
{
    lemma_half_unit(bound);
    let u = roundoff();
    let b = bound;
    let e = u * b;
    if k == 0 {
        lemma_zero();
        assert(0real * number(0) == 0real && (2real * (0real * 0real) + 35real * 0real) * e
            == 0real) by (nonlinear_arith);
    } else {
        let j = k - 1;
        lemma_mean_error(arithmetic, observations, trace, bound, j);
        lemma_take(observations, k);
        lemma_total_bounded(observations, bound, k);
        let n = k as real;
        let p = j as real;
        assert(n == p + 1real);
        let (x, m) = (number(observations[j]), number(trace.means[j]));
        assert(binary64::is_finite(observations[j]) && size(x) <= b);
        let (d, c, s, next) = (
            number(trace.deltas[j]),
            number(trace.counts[j]),
            number(trace.shifts[j]),
            number(trace.means[k]),
        );
        assert(close(trace.deltas[j], x - m));
        lemma_close(trace.deltas[j], x - m, 3real * b, b);
        assert(u * (3real * b + b) == 4real * e) by (nonlinear_arith)
            requires
                e == u * b,
        ;
        lemma_small(n, u, b, e);
        assert((j + 1) as usize == k as usize);
        lemma_count(arithmetic, k as usize, trace.counts[j]);
        lemma_quotient_bounded(d, c, n, 4real * b);
        let q = d / c;
        assert(close(trace.shifts[j], q));
        lemma_share(n, d, c, q, s, u, b, e);
        lemma_scaled(n, s, size(s));
        assert(size(m + s) <= 7real * b);
        assert(close(trace.means[k], m + s));
        lemma_mean_step(n, x, m, d, s, next, u, b, e);
        let (t, before) = (total(observations.take(k)), total(observations.take(j)));
        let step = n * (next - m) - (x - m);
        assert(n * next - t == (p * m - before) + step) by (nonlinear_arith)
            requires
                n == p + 1real,
                t == before + x,
                step == n * (next - m) - (x - m),
        ;
        assert((2real * (p * p) + 35real * p) * e + 4real * (n * e) + 33real * e == (2real * (n * n)
            + 35real * n) * e) by (nonlinear_arith)
            requires
                n == p + 1real,
        ;
        let error = (2real * (n * n) + 35real * n) * e;
        assert(size(n * next - t) <= error);
        assert(error <= n * b) by (nonlinear_arith)
            requires
                error == (2real * (n * n) + 35real * n) * e,
                e == u * b,
                u == 1real / 9007199254740992real,
                b > 0real,
                1real <= n <= 281474976710656real,
        ;
        assert(size(n * next) <= 2real * (n * b));
        assert(size(next) <= 2real * b) by (nonlinear_arith)
            requires
                size(n * next) <= 2real * (n * b),
                n >= 1real,
        ;
    }
}

/// The expanding mean is near the mean of the observations so far: of `n` of
/// them it is off by no more than `2 n + 35` times the roundoff of the bound on
/// their size. Nothing is asked of running means or differences.
pub proof fn law_mean_is_accurate<A: Arithmetic>(
    arithmetic: &A,
    min_periods: usize,
    cells: Seq<Option<u64>>,
    values: Seq<Option<u64>>,
    i: int,
    bound: real,
)
    requires
        window::expands(arithmetic, ExpandingFn::Mean, min_periods, cells, values),
        rounds_closely(arithmetic),
        0 <= i < cells.len(),
        values[i] is Some,
        bounded(window::observed(cells.take(i + 1)), bound),
        least_normal() <= bound,
        8real * bound <= largest(),
        window::observed(cells.take(i + 1)).len() <= 281474976710656,
    ensures
        binary64::is_finite(values[i]->0),
        size(number(values[i]->0) - mean(window::observed(cells.take(i + 1)))) <= (2real
            * window::observed(cells.take(i + 1)).len() as real + 35real) * (roundoff() * bound),
{
    let observations = window::observed(cells.take(i + 1));
    let trace = outcomes::law_mean_moves_with_every_observation(
        arithmetic,
        min_periods,
        cells,
        values,
        i,
    );
    let k = observations.len() as int;
    outcomes::lemma_value_observed(arithmetic, ExpandingFn::Mean, min_periods, cells, values, i);
    assert(means_move(arithmetic, observations, trace));
    lemma_mean_error(arithmetic, observations, trace, bound, k);
    assert(observations.take(k) =~= observations);
    let (n, e) = (k as real, roundoff() * bound);
    assert((2real * (n * n) + 35real * n) * e == (n * (2real * n + 35real)) * e)
        by (nonlinear_arith);
    lemma_divided_error(
        n,
        number(trace.means[k]),
        total(observations),
        2real * n + 35real,
        e,
    );
}

proof fn lemma_divided_error(n: real, value: real, sum: real, factor: real, e: real)
    requires
        n >= 1real,
        size(n * value - sum) <= (n * factor) * e,
    ensures
        size(value - sum / n) <= factor * e,
{
    let exact = sum / n;
    assert(exact * n == sum) by (nonlinear_arith)
        requires
            exact == sum / n,
            n >= 1real,
    ;
    assert(size(value - exact) <= factor * e) by (nonlinear_arith)
        requires
            exact * n == sum,
            n >= 1real,
            size(n * value - sum) <= (n * factor) * e,
    ;
}

/// The sum of the first `k` observations.
proof fn lemma_sum_error<A: Arithmetic>(
    arithmetic: &A,
    observations: Seq<u64>,
    sums: Seq<u64>,
    bound: real,
    k: int,
)
    requires
        rounds_closely(arithmetic),
        sums.len() == observations.len() + 1,
        sums[0] == 0,
        forall|k: int|
            0 <= k < observations.len() ==> call_ensures(
                A::sum,
                (arithmetic, sums[k], #[trigger] observations[k]),
                sums[k + 1],
            ),
        bounded(observations, bound),
        least_normal() <= bound,
        2real * k as real * bound <= largest(),
        0 <= k <= observations.len(),
        k <= 281474976710656,
    ensures
        binary64::is_finite(sums[k]),
        size(number(sums[k])) <= 2real * k as real * bound,
        size(number(sums[k]) - total(observations.take(k))) <= (k as real * k as real + k as real)
            * (roundoff() * bound),
    decreases k,
{
    lemma_half_unit(bound);
    let u = roundoff();
    let b = bound;
    let e = u * b;
    let n = k as real;
    if k == 0 {
        lemma_zero();
        assert(2real * 0real * b == 0real && (0real * 0real + 0real) * e == 0real)
            by (nonlinear_arith);
    } else {
        let j = k - 1;
        let p = j as real;
        assert(n == p + 1real);
        assert(2real * p * b + 2real * b == 2real * n * b) by (nonlinear_arith)
            requires
                n == p + 1real,
        ;
        lemma_sum_error(arithmetic, observations, sums, bound, j);
        lemma_take(observations, k);
        lemma_total_bounded(observations, bound, k);
        let (x, s) = (number(observations[j]), number(sums[j]));
        assert(binary64::is_finite(observations[j]) && size(x) <= b);
        let limit = 2real * p * b + b;
        assert(size(s + x) <= limit);
        assert(close(sums[k], s + x));
        lemma_close(sums[k], s + x, limit, b);
        assert(u * (limit + b) == 2real * (n * e)) by (nonlinear_arith)
            requires
                limit == 2real * p * b + b,
                n == p + 1real,
                e == u * b,
        ;
        assert((p * p + p) * e + 2real * (n * e) == (n * n + n) * e) by (nonlinear_arith)
            requires
                n == p + 1real,
        ;
        assert((n * n + n) * e <= n * b) by (nonlinear_arith)
            requires
                e == u * b,
                u == 1real / 9007199254740992real,
                b > 0real,
                1real <= n <= 281474976710656real,
        ;
        assert(n * b + n * b == 2real * n * b) by (nonlinear_arith);
    }
}

/// The expanding sum is near the sum of the observations so far: of `n` of them
/// it is off by no more than `n n + n` times the roundoff of the bound on their
/// size.
pub proof fn law_sum_is_accurate<A: Arithmetic>(
    arithmetic: &A,
    min_periods: usize,
    cells: Seq<Option<u64>>,
    values: Seq<Option<u64>>,
    i: int,
    bound: real,
)
    requires
        window::expands(arithmetic, ExpandingFn::Sum, min_periods, cells, values),
        rounds_closely(arithmetic),
        0 <= i < cells.len(),
        values[i] is Some,
        bounded(window::observed(cells.take(i + 1)), bound),
        least_normal() <= bound,
        2real * window::observed(cells.take(i + 1)).len() as real * bound <= largest(),
        window::observed(cells.take(i + 1)).len() <= 281474976710656,
    ensures
        binary64::is_finite(values[i]->0),
        size(number(values[i]->0) - total(window::observed(cells.take(i + 1)))) <= (
        window::observed(cells.take(i + 1)).len() as real * window::observed(
            cells.take(i + 1),
        ).len() as real + window::observed(cells.take(i + 1)).len() as real) * (roundoff() * bound),
{
    let observations = window::observed(cells.take(i + 1));
    let sums = outcomes::law_sum_adds_every_observation(
        arithmetic,
        min_periods,
        cells,
        values,
        i,
    );
    let k = observations.len() as int;
    lemma_sum_error(arithmetic, observations, sums, bound, k);
    assert(observations.take(k) =~= observations);
}

/// The sum of the squared deviations of the numbers from a centre.
pub open spec fn squares(patterns: Seq<u64>, centre: real) -> real
    decreases patterns.len(),
{
    if patterns.len() == 0 {
        0real
    } else {
        squares(patterns.drop_last(), centre) + (number(patterns.last()) - centre) * (number(
            patterns.last(),
        ) - centre)
    }
}

/// The variance of the numbers, taken as the whole population.
pub open spec fn variance(patterns: Seq<u64>) -> real {
    squares(patterns, mean(patterns)) / patterns.len() as real
}

proof fn lemma_moved_centre(patterns: Seq<u64>, centre: real, shift: real)
    ensures
        squares(patterns, centre + shift) == squares(patterns, centre) - 2real * shift * (total(
            patterns,
        ) - patterns.len() as real * centre) + patterns.len() as real * (shift * shift),
    decreases patterns.len(),
{
    if patterns.len() > 0 {
        let before = patterns.drop_last();
        let n = before.len() as real;
        let (t, x) = (total(before), number(patterns.last()));
        lemma_moved_centre(before, centre, shift);
        assert(patterns.len() as real == n + 1real);
        assert((x - (centre + shift)) * (x - (centre + shift)) == (x - centre) * (x - centre)
            - 2real * shift * (x - centre) + shift * shift) by (nonlinear_arith);
        assert(2real * shift * (t + x - (n + 1real) * centre) == 2real * shift * (t - n * centre)
            + 2real * shift * (x - centre)) by (nonlinear_arith);
        assert((n + 1real) * (shift * shift) == n * (shift * shift) + shift * shift)
            by (nonlinear_arith);
    } else {
        assert(2real * shift * (0real - 0real * centre) == 0real && 0real * (shift * shift)
            == 0real) by (nonlinear_arith);
    }
}

/// The centre of the first `k` observations: their mean, or zero for none.
spec fn centre(observations: Seq<u64>, k: int) -> real {
    if k == 0 {
        0real
    } else {
        mean(observations.take(k))
    }
}

proof fn lemma_centre(observations: Seq<u64>, bound: real, k: int)
    requires
        0 <= k <= observations.len(),
        bounded(observations, bound),
        bound > 0real,
    ensures
        k as real * centre(observations, k) == total(observations.take(k)),
        size(centre(observations, k)) <= bound,
{
    let (n, c, t) = (k as real, centre(observations, k), total(observations.take(k)));
    if k == 0 {
        assert(0real * c == 0real) by (nonlinear_arith);
    } else {
        lemma_total_bounded(observations, bound, k);
        assert(n * c == t) by (nonlinear_arith)
            requires
                c == t / n,
                n >= 1real,
        ;
        assert(size(c) <= bound) by (nonlinear_arith)
            requires
                n * c == t,
                n >= 1real,
                size(t) <= n * bound,
        ;
    }
}

/// What an observation adds to the squared deviations is its deviation from the
/// old mean times its deviation from the new one.
proof fn lemma_welford(observations: Seq<u64>, bound: real, k: int)
    requires
        0 < k <= observations.len(),
        bounded(observations, bound),
        bound > 0real,
    ensures
        squares(observations.take(k), centre(observations, k)) == squares(
            observations.take(k - 1),
            centre(observations, k - 1),
        ) + (number(observations[k - 1]) - centre(observations, k - 1)) * (number(
            observations[k - 1],
        ) - centre(observations, k)),
{
    let j = k - 1;
    lemma_take(observations, k);
    lemma_centre(observations, bound, j);
    lemma_centre(observations, bound, k);
    let before = observations.take(j);
    let p = j as real;
    let n = k as real;
    let (a, c) = (centre(observations, j), centre(observations, k));
    let shift = c - a;
    let (t, x) = (total(before), number(observations[j]));
    lemma_moved_centre(before, a, shift);
    assert(a + shift == c);
    assert(before.len() as real == p);
    assert(n == p + 1real);
    assert(2real * shift * (t - p * a) == 0real) by (nonlinear_arith)
        requires
            p * a == t,
    ;
    assert(x - c == p * shift && x - a == (p + 1real) * shift) by (nonlinear_arith)
        requires
            (p + 1real) * c == t + x,
            p * a == t,
            shift == c - a,
    ;
    assert(p * (shift * shift) + (p * shift) * (p * shift) == ((p + 1real) * shift) * (p * shift))
        by (nonlinear_arith);
}

proof fn lemma_squares_bounded(patterns: Seq<u64>, centre: real, bound: real, k: int)
    requires
        0 <= k <= patterns.len(),
        bounded(patterns, bound),
        size(centre) <= bound,
    ensures
        0real <= squares(patterns.take(k), centre) <= 4real * (k as real * (bound * bound)),
    decreases k,
{
    let square = bound * bound;
    if k > 0 {
        lemma_squares_bounded(patterns, centre, bound, k - 1);
        lemma_take(patterns, k);
        let x = number(patterns[k - 1]);
        assert(size(x) <= bound);
        assert(0real <= (x - centre) * (x - centre) <= 4real * square) by (nonlinear_arith)
            requires
                size(x) <= bound,
                size(centre) <= bound,
                square == bound * bound,
        ;
        assert((k - 1) as real * square + square == k as real * square) by (nonlinear_arith);
    } else {
        assert(0real * square == 0real) by (nonlinear_arith);
    }
}

/// Whether the spreads of a trace grow with every observation.
spec fn spreads_grow<A: Arithmetic>(arithmetic: &A, observations: Seq<u64>, trace: Trace) -> bool {
    &&& means_move(arithmetic, observations, trace)
    &&& trace.spreads[0] == 0
    &&& forall|k: int|
        0 <= k < observations.len() ==> {
            &&& call_ensures(
                A::difference,
                (arithmetic, observations[k], trace.means[k + 1]),
                #[trigger] trace.rests[k],
            )
            &&& call_ensures(
                A::product,
                (arithmetic, trace.deltas[k], trace.rests[k]),
                trace.products[k],
            )
            &&& call_ensures(
                A::sum,
                (arithmetic, trace.spreads[k], trace.products[k]),
                trace.spreads[k + 1],
            )
        }
}

/// A product of two numbers that are near two others.
proof fn lemma_product_error(
    d: real,
    r: real,
    a: real,
    c: real,
    n: real,
    b: real,
    u: real,
    e: real,
    f: real,
)
    requires
        n >= 1real,
        b > 0real,
        u == 1real / 9007199254740992real,
        e == u * b,
        f == u * (b * b),
        size(d) <= 4real * b,
        size(r) <= 4real * b,
        size(c) <= 2real * b,
        size(d - a) <= (2real * n + 37real) * e,
        size(r - c) <= (2real * n + 39real) * e,
    ensures
        size(d * r - a * c) <= (12real * n + 230real) * f,
        size(d * r) <= 16real * (b * b),
{
    let (g, h) = ((2real * n + 37real) * e, (2real * n + 39real) * e);
    assert(d * r - a * c == d * (r - c) + c * (d - a)) by (nonlinear_arith);
    assert(size(d * (r - c)) <= (4real * b) * h) by (nonlinear_arith)
        requires
            size(d) <= 4real * b,
            size(r - c) <= h,
    ;
    assert(size(c * (d - a)) <= (2real * b) * g) by (nonlinear_arith)
        requires
            size(c) <= 2real * b,
            size(d - a) <= g,
    ;
    assert((4real * b) * h + (2real * b) * g == (12real * n + 230real) * f) by (nonlinear_arith)
        requires
            g == (2real * n + 37real) * e,
            h == (2real * n + 39real) * e,
            e == u * b,
            f == u * (b * b),
    ;
    assert(size(d * r) <= 16real * (b * b)) by (nonlinear_arith)
        requires
            size(d) <= 4real * b,
            size(r) <= 4real * b,
    ;
}

/// The mean of the first `k` observations, divided.
proof fn lemma_mean_near<A: Arithmetic>(
    arithmetic: &A,
    observations: Seq<u64>,
    trace: Trace,
    bound: real,
    k: int,
)
    requires
        rounds_closely(arithmetic),
        means_move(arithmetic, observations, trace),
        bounded(observations, bound),
        least_normal() <= bound,
        8real * bound <= largest(),
        0 <= k <= observations.len(),
        k <= 281474976710656,
    ensures
        binary64::is_finite(trace.means[k]),
        size(number(trace.means[k])) <= 2real * bound,
        size(number(trace.means[k]) - centre(observations, k)) <= (2real * k as real + 35real) * (
        roundoff() * bound),
{
    lemma_half_unit(bound);
    lemma_mean_error(arithmetic, observations, trace, bound, k);
    let (n, e) = (k as real, roundoff() * bound);
    assert(e > 0real) by (nonlinear_arith)
        requires
            e == roundoff() * bound,
            roundoff() == 1real / 9007199254740992real,
            bound > 0real,
    ;
    if k == 0 {
        lemma_zero();
        assert((2real * 0real + 35real) * e >= 0real) by (nonlinear_arith)
            requires
                e > 0real,
        ;
    } else {
        assert((2real * (n * n) + 35real * n) * e == (n * (2real * n + 35real)) * e)
            by (nonlinear_arith);
        lemma_divided_error(
            n,
            number(trace.means[k]),
            total(observations.take(k)),
            2real * n + 35real,
            e,
        );
    }
}

/// One step of the sum of squared deviations, on real numbers: `d` and `r` are
/// the rounded deviations from the old and the new mean, `a` and `c` the exact
/// ones, `q` is the rounded product, `next` the rounded new sum.
proof fn lemma_spread_step(
    n: real,
    d: real,
    r: real,
    a: real,
    c: real,
    q: real,
    s: real,
    exact: real,
    b: real,
    u: real,
    e: real,
    w: real,
    f: real,
)
    requires
        1real <= n <= 281474976710656real,
        b > 0real,
        w == b * b,
        w > 0real,
        u == 1real / 9007199254740992real,
        e == u * b,
        f == u * w,
        size(d) <= 4real * b,
        size(r) <= 4real * b,
        size(a) <= 2real * b,
        size(c) <= 2real * b,
        size(d - a) <= (2real * n + 37real) * e,
        size(r - c) <= (2real * n + 39real) * e,
        size(q - d * r) <= 17real * f,
        size(s) <= 5real * ((n - 1real) * w),
        size(s - exact) <= (9real * ((n - 1real) * (n - 1real)) + 257real * (n - 1real)) * f,
    ensures
        size(s + q) <= 5real * (n * w),
        size(s + q - (exact + a * c)) <= (9real * (n * n) + 252real * n - 1real) * f,
{
    lemma_product_error(d, r, a, c, n, b, u, e, f);
    let (dr, ac) = (d * r, a * c);
    let near = (12real * n + 230real) * f + 17real * f;
    lemma_two_errors(q - ac, dr - ac, q - dr, (12real * n + 230real) * f, 17real * f);
    assert(near <= w) by (nonlinear_arith)
        requires
            near == (12real * n + 230real) * f + 17real * f,
            f == u * w,
            u == 1real / 9007199254740992real,
            w > 0real,
            1real <= n <= 281474976710656real,
    ;
    assert(size(ac) <= 4real * w) by (nonlinear_arith)
        requires
            ac == a * c,
            size(a) <= 2real * b,
            size(c) <= 2real * b,
            w == b * b,
    ;
    lemma_two_errors(q, ac, q - ac, 4real * w, w);
    lemma_two_errors(s + q, s, q, 5real * ((n - 1real) * w), 5real * w);
    assert(5real * ((n - 1real) * w) + 5real * w == 5real * (n * w)) by (nonlinear_arith);
    let old = (9real * ((n - 1real) * (n - 1real)) + 257real * (n - 1real)) * f;
    lemma_two_errors(s + q - (exact + ac), s - exact, q - ac, old, near);
    assert(old + near <= (9real * (n * n) + 252real * n - 1real) * f) by (nonlinear_arith)
        requires
            near == (12real * n + 230real) * f + 17real * f,
            old == (9real * ((n - 1real) * (n - 1real)) + 257real * (n - 1real)) * f,
            n >= 1real,
            f == u * w,
            u == 1real / 9007199254740992real,
            w > 0real,
    ;
}

/// The rounded deviations of an observation from the means without it and with
/// it.
proof fn lemma_deviations<A: Arithmetic>(
    arithmetic: &A,
    observations: Seq<u64>,
    trace: Trace,
    bound: real,
    k: int,
)
    requires
        rounds_closely(arithmetic),
        spreads_grow(arithmetic, observations, trace),
        bounded(observations, bound),
        least_normal() <= bound,
        8real * bound <= largest(),
        0 < k <= observations.len(),
        k <= 281474976710656,
    ensures
        binary64::is_finite(trace.deltas[k - 1]),
        binary64::is_finite(trace.rests[k - 1]),
        size(number(trace.deltas[k - 1])) <= 4real * bound,
        size(number(trace.rests[k - 1])) <= 4real * bound,
        size(number(observations[k - 1])) <= bound,
        size(
            number(trace.deltas[k - 1]) - (number(observations[k - 1]) - centre(
                observations,
                k - 1,
            )),
        ) <= (2real * k as real + 37real) * (roundoff() * bound),
        size(
            number(trace.rests[k - 1]) - (number(observations[k - 1]) - centre(observations, k)),
        ) <= (2real * k as real + 39real) * (roundoff() * bound),
{
    let j = k - 1;
    let (b, u) = (bound, roundoff());
    let e = u * b;
    let n = k as real;
    let p = j as real;
    lemma_half_unit(b);
    lemma_small(n, u, b, e);
    lemma_mean_near(arithmetic, observations, trace, bound, j);
    lemma_mean_near(arithmetic, observations, trace, bound, k);
    lemma_mean_error(arithmetic, observations, trace, bound, k);
    let (x, m, next) = (
        number(observations[j]),
        number(trace.means[j]),
        number(trace.means[k]),
    );
    assert(binary64::is_finite(observations[j]) && size(x) <= b);
    let (d, r) = (number(trace.deltas[j]), number(trace.rests[j]));
    assert(call_ensures(
        A::difference,
        (arithmetic, observations[j], trace.means[j + 1]),
        trace.rests[j],
    ));
    assert(size(x - next) <= 3real * b);
    assert(close(trace.rests[j], x - next));
    lemma_close(trace.rests[j], x - next, 3real * b, b);
    assert(u * (3real * b + b) == 4real * e) by (nonlinear_arith)
        requires
            e == u * b,
    ;
    let (old, new) = (centre(observations, j), centre(observations, k));
    let (g, h) = ((2real * p + 35real) * e, (2real * n + 35real) * e);
    lemma_two_errors(d - (x - old), d - (x - m), old - m, 4real * e, g);
    lemma_two_errors(r - (x - new), r - (x - next), new - next, 4real * e, h);
    assert(4real * e + g == (2real * n + 37real) * e) by (nonlinear_arith)
        requires
            g == (2real * p + 35real) * e,
            n == p + 1real,
    ;
    assert(4real * e + h == (2real * n + 39real) * e) by (nonlinear_arith)
        requires
            h == (2real * n + 35real) * e,
    ;
}

/// The sum of squared deviations of the first `k` observations.
proof fn lemma_spread_error<A: Arithmetic>(
    arithmetic: &A,
    observations: Seq<u64>,
    trace: Trace,
    bound: real,
    k: int,
)
    requires
        rounds_closely(arithmetic),
        spreads_grow(arithmetic, observations, trace),
        bounded(observations, bound),
        least_normal() <= bound,
        least_normal() <= bound * bound,
        8real * bound <= largest(),
        16real * (bound * bound) <= largest(),
        5real * (k as real * (bound * bound)) <= largest(),
        0 <= k <= observations.len(),
        k <= 281474976710656,
    ensures
        binary64::is_finite(trace.spreads[k]),
        size(number(trace.spreads[k])) <= 5real * (k as real * (bound * bound)),
        size(
            number(trace.spreads[k]) - squares(observations.take(k), centre(observations, k)),
        ) <= (9real * (k as real * k as real) + 257real * k as real) * (roundoff() * (bound
            * bound)),
    decreases k,
{
    let b = bound;
    let w = b * b;
    lemma_half_unit(b);
    lemma_half_unit(w);
    let u = roundoff();
    let e = u * b;
    let f = u * w;
    let n = k as real;
    if k == 0 {
        lemma_zero();
        assert(5real * (0real * w) == 0real && (9real * (0real * 0real) + 257real * 0real) * f
            == 0real) by (nonlinear_arith);
    } else {
        let j = k - 1;
        assert(j as real == n - 1real);
        assert(5real * ((n - 1real) * w) <= 5real * (n * w)) by (nonlinear_arith)
            requires
                w > 0real,
        ;
        lemma_spread_error(arithmetic, observations, trace, bound, j);
        lemma_deviations(arithmetic, observations, trace, bound, k);
        lemma_centre(observations, bound, j);
        lemma_centre(observations, bound, k);
        lemma_welford(observations, bound, k);
        lemma_squares_bounded(observations, centre(observations, k), bound, k);
        let x = number(observations[j]);
        let (d, r, q) = (
            number(trace.deltas[j]),
            number(trace.rests[j]),
            number(trace.products[j]),
        );
        let (a, c) = (x - centre(observations, j), x - centre(observations, k));
        let before = squares(observations.take(j), centre(observations, j));
        let exact = squares(observations.take(k), centre(observations, k));
        assert(exact == before + a * c);
        assert(size(d * r) <= 16real * w) by (nonlinear_arith)
            requires
                size(d) <= 4real * b,
                size(r) <= 4real * b,
                w == b * b,
        ;
        assert(trace.rests[j] == trace.rests[j]);
        assert(close(trace.products[j], d * r));
        lemma_close(trace.products[j], d * r, 16real * w, w);
        assert(u * (16real * w + w) == 17real * f) by (nonlinear_arith)
            requires
                f == u * w,
        ;
        let s = number(trace.spreads[j]);
        lemma_spread_step(n, d, r, a, c, q, s, before, b, u, e, w, f);
        assert(close(trace.spreads[k], s + q));
        lemma_close(trace.spreads[k], s + q, 5real * (n * w), w);
        assert(u * (5real * (n * w) + w) == (5real * n + 1real) * f) by (nonlinear_arith)
            requires
                f == u * w,
        ;
        let next = number(trace.spreads[k]);
        let (g, h) = ((9real * (n * n) + 252real * n - 1real) * f, (5real * n + 1real) * f);
        lemma_two_errors(next - exact, s + q - exact, next - (s + q), g, h);
        let error = (9real * (n * n) + 257real * n) * f;
        assert(g + h == error) by (nonlinear_arith)
            requires
                g == (9real * (n * n) + 252real * n - 1real) * f,
                h == (5real * n + 1real) * f,
                error == (9real * (n * n) + 257real * n) * f,
        ;
        assert(error <= n * w) by (nonlinear_arith)
            requires
                error == (9real * (n * n) + 257real * n) * f,
                f == u * w,
                u == 1real / 9007199254740992real,
                w > 0real,
                1real <= n <= 281474976710656real,
        ;
        lemma_two_errors(next, exact, next - exact, 4real * (n * w), n * w);
        assert(4real * (n * w) + n * w == 5real * (n * w));
    }
}

/// The last steps of the standard deviation, on real numbers: `s` is near the
/// exact sum of squared deviations, `y` is its quotient by the rounded count.
proof fn lemma_variance_error(
    n: real,
    s: real,
    exact: real,
    c: real,
    y: real,
    v: real,
    u: real,
    w: real,
    f: real,
)
    requires
        1real <= n <= 281474976710656real,
        w > 0real,
        u == 1real / 9007199254740992real,
        f == u * w,
        size(c - n) <= 2real * u * n,
        y * c == s,
        size(y) <= 10real * w,
        size(s - exact) <= (9real * (n * n) + 257real * n) * f,
        size(v - y) <= 11real * f,
    ensures
        size(v - exact / n) <= (9real * n + 288real) * f,
{
    let z = exact / n;
    assert(z * n == exact) by (nonlinear_arith)
        requires
            z == exact / n,
            n >= 1real,
    ;
    assert(size(y * (n - c)) <= 20real * (n * f)) by {
        assert(size(y * (n - c)) == size(y) * size(n - c)) by (nonlinear_arith);
        assert(size(y) * size(n - c) <= (10real * w) * (2real * u * n)) by (nonlinear_arith)
            requires
                size(n - c) <= 2real * u * n,
                size(y) <= 10real * w,
                size(y) >= 0real,
                size(n - c) >= 0real,
        ;
        assert((10real * w) * (2real * u * n) == 20real * (n * f)) by (nonlinear_arith)
            requires
                f == u * w,
        ;
    }
    assert(n * (y - z) == y * (n - c) + (s - exact)) by (nonlinear_arith)
        requires
            y * c == s,
            z * n == exact,
    ;
    assert((9real * (n * n) + 257real * n) * f + 20real * (n * f) == n * ((9real * n + 277real)
        * f)) by (nonlinear_arith);
    let g = (9real * n + 277real) * f;
    assert(size(n * (y - z)) <= n * g);
    assert(size(y - z) <= g) by (nonlinear_arith)
        requires
            size(n * (y - z)) <= n * g,
            n >= 1real,
    ;
    assert(g + 11real * f == (9real * n + 288real) * f) by (nonlinear_arith)
        requires
            g == (9real * n + 277real) * f,
    ;
}

/// The expanding standard deviation is near that of the observations so far,
/// taken as the whole population: of `n` of them its square is off their
/// variance by no more than `9 n + 303` times the roundoff of the square of the
/// bound on their size. Where the variance exceeds that error there is such a
/// number; where it does not, rounding may have left a negative number, which
/// has no root.
pub proof fn law_deviation_is_accurate<A: Arithmetic>(
    arithmetic: &A,
    min_periods: usize,
    cells: Seq<Option<u64>>,
    values: Seq<Option<u64>>,
    i: int,
    bound: real,
)
    requires
        window::expands(arithmetic, ExpandingFn::Std, min_periods, cells, values),
        rounds_closely(arithmetic),
        0 <= i < cells.len(),
        values[i] is Some,
        bounded(window::observed(cells.take(i + 1)), bound),
        least_normal() <= bound,
        least_normal() <= bound * bound,
        8real * bound <= largest(),
        16real * (bound * bound) <= largest(),
        5real * (window::observed(cells.take(i + 1)).len() as real * (bound * bound)) <= largest(),
        window::observed(cells.take(i + 1)).len() <= 281474976710656,
    ensures
        binary64::is_finite(values[i]->0) ==> number(values[i]->0) >= 0real && size(
            number(values[i]->0) * number(values[i]->0) - variance(
                window::observed(cells.take(i + 1)),
            ),
        ) <= (9real * window::observed(cells.take(i + 1)).len() as real + 303real) * (roundoff() * (
        bound * bound)),
        variance(window::observed(cells.take(i + 1))) >= (9real * window::observed(
            cells.take(i + 1),
        ).len() as real + 288real) * (roundoff() * (bound * bound)) ==> binary64::is_finite(
            values[i]->0,
        ),
{
    let observations = window::observed(cells.take(i + 1));
    let (trace, count, quotient) = outcomes::law_deviation_grows_with_every_observation(
        arithmetic,
        min_periods,
        cells,
        values,
        i,
    );
    let k = observations.len() as int;
    outcomes::lemma_value_observed(arithmetic, ExpandingFn::Std, min_periods, cells, values, i);
    assert(means_move(arithmetic, observations, trace));
    assert forall|k: int| 0 <= k < observations.len() implies {
        &&& call_ensures(
            A::difference,
            (arithmetic, observations[k], trace.means[k + 1]),
            #[trigger] trace.rests[k],
        )
        &&& call_ensures(
            A::product,
            (arithmetic, trace.deltas[k], trace.rests[k]),
            trace.products[k],
        )
        &&& call_ensures(
            A::sum,
            (arithmetic, trace.spreads[k], trace.products[k]),
            trace.spreads[k + 1],
        )
    } by {
        assert(trace.deltas[k] == trace.deltas[k]);
    }
    assert(spreads_grow(arithmetic, observations, trace));
    lemma_spread_error(arithmetic, observations, trace, bound, k);
    assert(observations.take(k) =~= observations);
    let b = bound;
    let w = b * b;
    lemma_half_unit(b);
    lemma_half_unit(w);
    let u = roundoff();
    let f = u * w;
    let n = k as real;
    let s = number(trace.spreads[k]);
    let exact = squares(observations, mean(observations));
    assert(centre(observations, k) == mean(observations));
    lemma_centre(observations, b, k);
    lemma_squares_bounded(observations, mean(observations), b, k);
    lemma_count(arithmetic, k as usize, count);
    let c = number(count);
    lemma_quotient_bounded(s, c, n, 5real * (n * w));
    let y = s / c;
    assert(size(y) <= 10real * w) by (nonlinear_arith)
        requires
            size(y) * n <= 2real * (5real * (n * w)),
            n >= 1real,
    ;
    assert(close(quotient, y));
    lemma_close(quotient, y, 10real * w, w);
    assert(u * (10real * w + w) == 11real * f) by (nonlinear_arith)
        requires
            f == u * w,
    ;
    let v = number(quotient);
    lemma_variance_error(n, s, exact, c, y, v, u, w, f);
    let error = (9real * n + 288real) * f;
    let result = number(values[i]->0);
    if v >= 0real {
        assert(v <= 11real * w) by (nonlinear_arith)
            requires
                size(v - y) <= 11real * f,
                size(y) <= 10real * w,
                f == u * w,
                u == 1real / 9007199254740992real,
                w > 0real,
        ;
        let z = exact / n;
        assert(z <= 4real * w) by (nonlinear_arith)
            requires
                z == exact / n,
                n >= 1real,
                exact <= 4real * (n * w),
        ;
        assert(error <= w) by (nonlinear_arith)
            requires
                error == (9real * n + 288real) * f,
                f == u * w,
                u == 1real / 9007199254740992real,
                w > 0real,
                1real <= n <= 281474976710656real,
        ;
        assert(v <= 5real * w);
        assert(3real * u * v <= 15real * f) by (nonlinear_arith)
            requires
                v <= 5real * w,
                f == u * w,
                u == 1real / 9007199254740992real,
        ;
        assert(error + 15real * f == (9real * n + 303real) * f) by (nonlinear_arith)
            requires
                error == (9real * n + 288real) * f,
        ;
    }
}

} // verus!

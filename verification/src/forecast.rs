//! Load forecasting: the statistical baseline model (last observed level
//! plus a least-squares linear trend plus a period-24 mean-of-residuals
//! seasonal decomposition over the recent window, clipped to [0, 100]
//! percent) and the variance-derived prediction confidence.

use vstd::prelude::*;
use crate::timeseries::{div_floor, spec_sum, spec_centered_sq_sum, TimeSeriesData, SAMPLE_CAP_MILLI,
    STORE_CAP};

verus! {

/// Number of future steps every forecast covers.
pub const FORECAST_HORIZON: usize = 24;

/// Length of the seasonal cycle, in samples.
pub const SEASON_PERIOD: usize = 24;

/// Confidence reported for windows too short to estimate variance, in
/// thousandths.
pub const DEFAULT_CONFIDENCE_MILLI: u64 = 500;

/// Lower clamp of the confidence range, in thousandths.
pub const MIN_CONFIDENCE_MILLI: u64 = 100;

/// Upper clamp of the confidence range, in thousandths.
pub const MAX_CONFIDENCE_MILLI: u64 = 950;

/// `clamp(1 / (1 + variance), 0.1, 0.95)` in thousandths, where `variance`
/// is the population variance of the window in (percent)^2. With `n` the
/// window length, `s` its sum and `t` the scaled centered square sum
/// (variance is `t / n^3` in (milli-percent)^2, or `t / (n^3 * 10^6)` in
/// (percent)^2), the unclamped value is `10^9 * n^3 / (n^3 * 10^6 + t)`.
pub open spec fn spec_confidence(w: Seq<u64>) -> u64 {
    if w.len() < 2 {
        DEFAULT_CONFIDENCE_MILLI
    } else {
        let n = w.len() as int;
        let t = spec_centered_sq_sum(w, n, spec_sum(w));
        let cube_scaled = n * n * n * 1_000_000;
        let raw = 1000 * cube_scaled / (cube_scaled + t);
        if raw < MIN_CONFIDENCE_MILLI {
            MIN_CONFIDENCE_MILLI
        } else if raw > MAX_CONFIDENCE_MILLI {
            MAX_CONFIDENCE_MILLI
        } else {
            raw as u64
        }
    }
}

/// Derives prediction confidence from the recent window: higher variance
/// gives lower confidence, clamped to [0.1, 0.95]; windows shorter than two
/// samples get the fixed default 0.5.
pub fn calculate_confidence(window: &Vec<u64>) -> (confidence: u64)
    requires
        window@.len() <= STORE_CAP,
        forall|i: int| 0 <= i < window@.len() ==> #[trigger] window@[i] <= SAMPLE_CAP_MILLI,
    ensures
        confidence == spec_confidence(window@),
        window@.len() < 2 ==> confidence == DEFAULT_CONFIDENCE_MILLI,
        window@.len() >= 2 ==> MIN_CONFIDENCE_MILLI <= confidence <= MAX_CONFIDENCE_MILLI,
{
    let n = window.len();
    if n < 2 {
        return DEFAULT_CONFIDENCE_MILLI;
    }
    let mut total: u64 = 0;
    let mut i: usize = 0;
    while i < n
        invariant
            n == window@.len(),
            2 <= n <= STORE_CAP,
            forall|k: int| 0 <= k < window@.len() ==> #[trigger] window@[k] <= SAMPLE_CAP_MILLI,
            i <= n,
            total == spec_sum(window@.take(i as int)),
            total <= (i as int) * (SAMPLE_CAP_MILLI as int),
        decreases n - i,
    {
        assert(window@.take(i + 1 as int).drop_last() =~= window@.take(i as int));
        total = total + window[i];
        i += 1;
    }
    assert(window@.take(n as int) =~= window@);
    let mut centered: u128 = 0;
    let mut j: usize = 0;
    while j < n
        invariant
            n == window@.len(),
            2 <= n <= STORE_CAP,
            forall|k: int| 0 <= k < window@.len() ==> #[trigger] window@[k] <= SAMPLE_CAP_MILLI,
            j <= n,
            total == spec_sum(window@),
            total <= (n as int) * (SAMPLE_CAP_MILLI as int),
            centered == spec_centered_sq_sum(window@.take(j as int), n as int, total as int),
            centered <= (j as int) * 10_000_000_000_000_000,
        decreases n - j,
    {
        let v = window[j];
        assert(window@.take(j + 1 as int).drop_last() =~= window@.take(j as int));
        proof {
            assert(0 <= (n as int) * (v as int) <= 100_000_000) by (nonlinear_arith)
                requires
                    0 <= v <= SAMPLE_CAP_MILLI,
                    0 <= n <= STORE_CAP,
            ;
            assert(0 <= (n as int) * (SAMPLE_CAP_MILLI as int) <= 100_000_000) by (nonlinear_arith)
                requires
                    0 <= n <= STORE_CAP,
            ;
        }
        let scaled: i128 = (n as i128) * (v as i128) - (total as i128);
        proof {
            assert(0 <= scaled * scaled <= 10_000_000_000_000_000) by (nonlinear_arith)
                requires
                    -100_000_000 <= scaled <= 100_000_000,
            ;
        }
        centered = centered + (scaled * scaled) as u128;
        j += 1;
    }
    assert(window@.take(n as int) =~= window@);
    let n128: u128 = n as u128;
    proof {
        assert((n128 as int) * (n128 as int) <= 1_000_000 && 1 <= (n128 as int) * (n128 as int) * (
        n128 as int) <= 1_000_000_000) by (nonlinear_arith)
            requires
                1 <= n128 <= 1000,
        ;
    }
    let cube_scaled: u128 = n128 * n128 * n128 * 1_000_000;
    let raw: u128 = 1000 * cube_scaled / (cube_scaled + centered);
    proof {
        assert(1000 * (cube_scaled as int) / ((cube_scaled as int) + (centered as int)) <= 1000) by (
        nonlinear_arith)
            requires
                1_000_000 <= cube_scaled,
                0 <= centered,
        ;
    }
    if raw < (MIN_CONFIDENCE_MILLI as u128) {
        MIN_CONFIDENCE_MILLI
    } else if raw > (MAX_CONFIDENCE_MILLI as u128) {
        MAX_CONFIDENCE_MILLI
    } else {
        raw as u64
    }
}

/// Confidence never rises with variance: of two windows of one length, the
/// one with the larger centered square sum (the scaled population variance)
/// gets the smaller or equal confidence.
pub proof fn lemma_confidence_antitone(w1: Seq<u64>, w2: Seq<u64>)
    requires
        w1.len() == w2.len(),
        w1.len() >= 2,
        spec_centered_sq_sum(w1, w1.len() as int, spec_sum(w1)) <= spec_centered_sq_sum(
            w2,
            w2.len() as int,
            spec_sum(w2),
        ),
        spec_centered_sq_sum(w1, w1.len() as int, spec_sum(w1)) >= 0,
    ensures
        spec_confidence(w1) >= spec_confidence(w2),
{
    let n = w1.len() as int;
    let t1 = spec_centered_sq_sum(w1, n, spec_sum(w1));
    let t2 = spec_centered_sq_sum(w2, n, spec_sum(w2));
    let cube_scaled = n * n * n * 1_000_000;
    assert(n * n * n * 1_000_000 >= 1) by (nonlinear_arith)
        requires
            n >= 2,
    ;
    vstd::arithmetic::div_mod::lemma_div_is_ordered_by_denominator(
        1000 * cube_scaled,
        cube_scaled + t1,
        cube_scaled + t2,
    );
}

/// Sum of the sample positions `0 + 1 + ... + (n-1)`.
pub open spec fn spec_idx_sum(n: int) -> int
    decreases n,
{
    if n <= 0 {
        0
    } else {
        spec_idx_sum(n - 1) + (n - 1)
    }
}

/// Numerator of the least-squares slope, scaled by `n^2`: the sum over the
/// window of `(n*i - sx) * (n*s[i] - sy)`, where `sx`/`sy` are the sums of
/// positions and samples.
pub open spec fn spec_trend_num(s: Seq<u64>, n: int, sx: int, sy: int) -> int
    decreases s.len(),
{
    if s.len() == 0 {
        0
    } else {
        spec_trend_num(s.drop_last(), n, sx, sy) + (n * (s.len() - 1) - sx) * (n * s.last() - sy)
    }
}

/// Denominator of the least-squares slope, scaled by `n^2`: the sum over the
/// first `k` positions of `(n*i - sx)^2`.
pub open spec fn spec_trend_den(k: int, n: int, sx: int) -> int
    decreases k,
{
    if k <= 0 {
        0
    } else {
        spec_trend_den(k - 1, n, sx) + (n * (k - 1) - sx) * (n * (k - 1) - sx)
    }
}

/// The least-squares slope of the window in milli-percent per step,
/// floor-rounded; zero for windows shorter than two samples.
pub open spec fn spec_trend(s: Seq<u64>) -> int {
    if s.len() < 2 {
        0
    } else {
        let n = s.len() as int;
        let sx = spec_idx_sum(n);
        let sy = spec_sum(s);
        spec_trend_num(s, n, sx, sy) / spec_trend_den(n, n, sx)
    }
}

proof fn lemma_idx_sum_closed(n: int)
    requires
        n >= 0,
    ensures
        2 * spec_idx_sum(n) == n * (n - 1),
    decreases n,
{
    if n > 0 {
        lemma_idx_sum_closed(n - 1);
        assert(spec_idx_sum(n) == spec_idx_sum(n - 1) + (n - 1));
        assert(2 * spec_idx_sum(n) == n * (n - 1)) by (nonlinear_arith)
            requires
                spec_idx_sum(n) == spec_idx_sum(n - 1) + (n - 1),
                2 * spec_idx_sum(n - 1) == (n - 1) * (n - 2),
        ;
    } else {
        assert(2 * spec_idx_sum(n) == n * (n - 1)) by (nonlinear_arith)
            requires
                n == 0,
                spec_idx_sum(n) == 0,
        ;
    }
}

proof fn lemma_idx_sum_bounds(n: int)
    requires
        n >= 0,
    ensures
        0 <= spec_idx_sum(n) <= n * n,
        n >= 2 ==> spec_idx_sum(n) >= 1,
    decreases n,
{
    if n > 0 {
        lemma_idx_sum_bounds(n - 1);
        assert((n - 1) * (n - 1) + (n - 1) <= n * n) by (nonlinear_arith)
            requires
                n >= 1,
        ;
    }
}

/// Fits a linear trend to the window by least squares over the sample
/// positions. The slope comes back in milli-percent per step.
pub fn calculate_linear_trend(data: &Vec<u64>) -> (slope: i64)
    requires
        data@.len() <= STORE_CAP,
        forall|i: int| 0 <= i < data@.len() ==> #[trigger] data@[i] <= SAMPLE_CAP_MILLI,
    ensures
        slope == spec_trend(data@),
        -2_000_000 <= slope <= 2_000_000,
{
    let n = data.len();
    if n < 2 {
        return 0;
    }
    let mut sx: u64 = 0;
    let mut i: usize = 0;
    while i < n
        invariant
            2 <= n <= STORE_CAP,
            i <= n,
            sx == spec_idx_sum(i as int),
            sx <= (i as int) * (i as int),
        decreases n - i,
    {
        proof {
            lemma_idx_sum_bounds(i + 1 as int);
            assert((i as int) * (i as int) <= 1_000_000 && (i + 1 as int) * (i + 1 as int)
                <= 1_000_000) by (nonlinear_arith)
                requires
                    0 <= i < 1000,
            ;
        }
        sx = sx + (i as u64);
        i += 1;
    }
    let mut sy: u64 = 0;
    let mut j: usize = 0;
    while j < n
        invariant
            n == data@.len(),
            2 <= n <= STORE_CAP,
            forall|k: int| 0 <= k < data@.len() ==> #[trigger] data@[k] <= SAMPLE_CAP_MILLI,
            j <= n,
            sy == spec_sum(data@.take(j as int)),
            sy <= (j as int) * (SAMPLE_CAP_MILLI as int),
        decreases n - j,
    {
        assert(data@.take(j + 1 as int).drop_last() =~= data@.take(j as int));
        sy = sy + data[j];
        j += 1;
    }
    assert(data@.take(n as int) =~= data@);
    proof {
        lemma_idx_sum_bounds(n as int);
    }
    let mut num: i128 = 0;
    let mut den: u128 = 0;
    let mut k: usize = 0;
    let ghost cterm: int = (n as int) * (n as int) * (n as int) * 100_000;
    proof {
        assert(0 <= cterm <= 100_000_000_000_000) by (nonlinear_arith)
            requires
                cterm == (n as int) * (n as int) * (n as int) * 100_000,
                2 <= n <= 1000,
        ;
    }
    while k < n
        invariant
            n == data@.len(),
            2 <= n <= STORE_CAP,
            forall|m: int| 0 <= m < data@.len() ==> #[trigger] data@[m] <= SAMPLE_CAP_MILLI,
            k <= n,
            sx == spec_idx_sum(n as int),
            0 <= sx <= (n as int) * (n as int),
            1 <= sx,
            sy == spec_sum(data@),
            sy <= (n as int) * (SAMPLE_CAP_MILLI as int),
            num == spec_trend_num(data@.take(k as int), n as int, sx as int, sy as int),
            cterm == (n as int) * (n as int) * (n as int) * 100_000,
            0 <= cterm <= 100_000_000_000_000,
            -(k as int) * cterm <= num <= (k as int) * cterm,
            -100_000_000_000_000_000 <= num <= 100_000_000_000_000_000,
            den == spec_trend_den(k as int, n as int, sx as int),
            den <= (k as int) * 1_000_000_000_000,
            k >= 1 ==> den >= (sx as int) * (sx as int),
        decreases n - k,
    {
        let v = data[k];
        assert(data@.take(k + 1 as int).drop_last() =~= data@.take(k as int));
        proof {
            assert(0 <= (n as int) * (k as int) <= 1_000_000 && 0 <= (n as int) * (v as int)
                <= 100_000_000 && 0 <= (n as int) * (SAMPLE_CAP_MILLI as int) <= 100_000_000 && 0
                <= (n as int) * (n as int) <= 1_000_000) by (nonlinear_arith)
                requires
                    0 <= k < n <= STORE_CAP,
                    0 <= v <= SAMPLE_CAP_MILLI,
            ;
            assert((n as int) * (k as int) <= (n as int) * (n as int) && (n as int) * (v as int)
                <= (n as int) * 100_000 && (sy as int) <= (n as int) * 100_000) by (
            nonlinear_arith)
                requires
                    0 <= k < n,
                    0 <= v <= 100_000,
                    sy <= (n as int) * (SAMPLE_CAP_MILLI as int),
                    SAMPLE_CAP_MILLI == 100_000,
            ;
        }
        let xterm: i128 = (n as i128) * (k as i128) - (sx as i128);
        let yterm: i128 = (n as i128) * (v as i128) - (sy as i128);
        proof {
            let ni = n as int;
            assert(-(ni * ni) <= xterm <= ni * ni);
            assert(-(ni * 100_000) <= yterm <= ni * 100_000);
            assert(-(ni * ni) * (ni * 100_000) <= xterm * yterm <= (ni * ni) * (ni * 100_000)) by (
            nonlinear_arith)
                requires
                    -(ni * ni) <= xterm <= ni * ni,
                    -(ni * 100_000) <= yterm <= ni * 100_000,
                    ni >= 0,
            ;
            assert(-cterm <= xterm * yterm <= cterm) by (nonlinear_arith)
                requires
                    -(ni * ni) <= xterm <= ni * ni,
                    -(ni * 100_000) <= yterm <= ni * 100_000,
                    cterm == ni * ni * ni * 100_000,
                    ni >= 0,
            ;
            assert(((k as int) + 1) * cterm == (k as int) * cterm + cterm) by (nonlinear_arith);
            assert(-(k as int) * cterm == -((k as int) * cterm)) by (nonlinear_arith);
            assert(-((k as int) + 1) * cterm == -(((k as int) + 1) * cterm)) by (nonlinear_arith);
            assert(0 <= ((k as int) + 1) * cterm <= 100_000_000_000_000_000) by (nonlinear_arith)
                requires
                    0 <= (k as int) + 1 <= 1000,
                    0 <= cterm <= 100_000_000_000_000,
            ;
            assert(0 <= xterm * xterm <= 1_000_000_000_000) by (nonlinear_arith)
                requires
                    -1_000_000 <= xterm <= 1_000_000,
            ;
            if k == 0 {
                assert(xterm == -(sx as int));
                assert(xterm * xterm == (sx as int) * (sx as int)) by (nonlinear_arith)
                    requires
                        xterm == -(sx as int),
                ;
            }
        }
        num = num + xterm * yterm;
        den = den + (xterm * xterm) as u128;
        k += 1;
    }
    assert(data@.take(n as int) =~= data@);
    proof {
        let ni = n as int;
        let sxi = sx as int;
        let deni0 = den as int;
        assert(1 <= sxi && 2 <= ni <= 1000 && sxi * sxi <= deni0);
        assert(sxi * sxi >= 1) by (nonlinear_arith)
            requires
                sxi >= 1,
        ;
        lemma_idx_sum_closed(ni);
        assert(2 * sxi == ni * (ni - 1));
        assert(4 * (sxi * sxi) == (ni * (ni - 1)) * (ni * (ni - 1))) by (nonlinear_arith)
            requires
                2 * sxi == ni * (ni - 1),
        ;
        assert(ni * ni <= 4 * ((ni - 1) * (ni - 1))) by (nonlinear_arith)
            requires
                ni >= 2,
        ;
        assert(ni * cterm <= 1_600_000 * (sxi * sxi)) by (nonlinear_arith)
            requires
                cterm == ni * ni * ni * 100_000,
                4 * (sxi * sxi) == (ni * (ni - 1)) * (ni * (ni - 1)),
                ni * ni <= 4 * ((ni - 1) * (ni - 1)),
                2 <= ni,
        ;
        assert((k as int) * cterm == ni * cterm) by (nonlinear_arith)
            requires
                k == ni,
        ;
        assert(-(k as int) * cterm == -((k as int) * cterm)) by (nonlinear_arith);
        assert(1_600_000 * (sxi * sxi) <= 1_600_000 * deni0) by (nonlinear_arith)
            requires
                sxi * sxi <= deni0,
        ;
        assert(num <= 1_600_000 * (den as int) && -(1_600_000 * (den as int)) <= num);
    }
    let deni: i128 = den as i128;
    if num >= 0 {
        let q: i128 = num / deni;
        proof {
            let numi = num as int;
            let di = deni as int;
            vstd::arithmetic::div_mod::lemma_div_pos_is_pos(numi, di);
            vstd::arithmetic::div_mod::lemma_remainder_lower(numi, di);
            assert(numi / di <= 1_600_000) by (nonlinear_arith)
                requires
                    numi >= 0,
                    di >= 1,
                    numi <= 1_600_000 * di,
                    numi / di >= 0,
                    numi / di * di <= numi,
            ;
        }
        q as i64
    } else {
        let m: i128 = -num;
        let q1: i128 = (m + deni - 1) / deni;
        proof {
            let mi = m as int;
            let di = deni as int;
            let c = (mi + di - 1) / di;
            vstd::arithmetic::div_mod::lemma_div_pos_is_pos(mi + di - 1, di);
            vstd::arithmetic::div_mod::lemma_fundamental_div_mod(mi + di - 1, di);
            let r0 = (mi + di - 1) % di;
            assert(mi + di - 1 == di * c + r0);
            let r = di - 1 - r0;
            assert((-mi) == (-c) * di + r) by (nonlinear_arith)
                requires
                    mi + di - 1 == di * c + r0,
                    r == di - 1 - r0,
            ;
            vstd::arithmetic::div_mod::lemma_fundamental_div_mod_converse_div(-mi, di, -c, r);
            assert(di * c <= mi + di - 1);
            assert(c <= 1_600_000) by (nonlinear_arith)
                requires
                    c >= 0,
                    di >= 1,
                    di * c <= mi + di - 1,
                    mi <= 1_600_000 * di,
            ;
        }
        let q: i128 = -q1;
        q as i64
    }
}

/// How many sample positions `start, start + period, ...` lie in the window.
pub open spec fn spec_stride_count(s: Seq<u64>, start: int, period: int) -> int
    decreases
            if start <= s.len() {
                s.len() - start
            } else {
                0
            }
        when period >= 1 && start >= 0
{
    if period < 1 || start < 0 || start >= s.len() {
        0
    } else {
        1 + spec_stride_count(s, start + period, period)
    }
}

/// Deviation of one sample from the window's fitted trend line, anchored at
/// the last observation: the sample minus `last + trend * (t - (len - 1))`.
pub open spec fn spec_residual_at(s: Seq<u64>, t: int) -> int
    recommends
        0 <= t < s.len(),
{
    s[t] - s.last() - spec_trend(s) * (t - (s.len() - 1))
}

/// Sum of the residuals at positions `start, start + period, ...`.
pub open spec fn spec_residual_stride_sum(s: Seq<u64>, start: int, period: int) -> int
    decreases
            if start <= s.len() {
                s.len() - start
            } else {
                0
            }
        when period >= 1 && start >= 0
{
    if period < 1 || start < 0 || start >= s.len() {
        0
    } else {
        spec_residual_at(s, start) + spec_residual_stride_sum(s, start + period, period)
    }
}

/// The seasonal coefficient at cycle position `i`: the floor-rounded mean
/// residual of the samples one period apart starting at `i`, once the
/// window's level and trend are removed; zero when the window is shorter
/// than one full period. A flat or purely trending window decomposes into
/// all-zero coefficients.
pub open spec fn spec_seasonal_at(s: Seq<u64>, i: int) -> int {
    if s.len() < SEASON_PERIOD {
        0
    } else {
        let cnt = spec_stride_count(s, i, SEASON_PERIOD as int);
        if cnt == 0 {
            0
        } else {
            spec_residual_stride_sum(s, i, SEASON_PERIOD as int) / cnt
        }
    }
}

/// Magnitude bound of one residual and of its stride sums: a sample, the
/// last level and the bounded trend over at most a window's length.
pub const RESIDUAL_BOUND_MILLI: i64 = 2_100_000_000;

pub proof fn lemma_stride_bounds(s: Seq<u64>, start: int, period: int)
    requires
        period >= 1,
        start >= 0,
    ensures
        0 <= spec_stride_count(s, start, period),
        start < s.len() ==> spec_stride_count(s, start, period) >= 1,
        start <= s.len() ==> spec_stride_count(s, start, period) <= s.len() - start,
        start > s.len() ==> spec_stride_count(s, start, period) == 0,
    decreases
            if start <= s.len() {
                s.len() - start
            } else {
                0
            },
{
    if start < s.len() {
        if start + period <= s.len() {
            lemma_stride_bounds(s, start + period, period);
        } else {
            assert(spec_stride_count(s, start + period, period) == 0);
        }
    }
}

proof fn lemma_residual_stride_bounds(s: Seq<u64>, start: int, period: int)
    requires
        period >= 1,
        start >= 0,
        1 <= s.len() <= STORE_CAP,
        forall|k: int| 0 <= k < s.len() ==> #[trigger] s[k] <= SAMPLE_CAP_MILLI,
        -2_000_000 <= spec_trend(s) <= 2_000_000,
    ensures
        -spec_stride_count(s, start, period) * (RESIDUAL_BOUND_MILLI as int)
            <= spec_residual_stride_sum(s, start, period) <= spec_stride_count(s, start, period)
            * (RESIDUAL_BOUND_MILLI as int),
    decreases
            if start <= s.len() {
                s.len() - start
            } else {
                0
            },
{
    lemma_stride_bounds(s, start, period);
    if start < s.len() {
        if start + period <= s.len() {
            lemma_residual_stride_bounds(s, start + period, period);
        } else {
            assert(spec_residual_stride_sum(s, start + period, period) == 0);
            assert(spec_stride_count(s, start + period, period) == 0);
        }
        let tr = spec_trend(s);
        assert(-2_000_000_000 <= tr * (start - (s.len() - 1)) <= 2_000_000_000) by (
        nonlinear_arith)
            requires
                -2_000_000 <= tr <= 2_000_000,
                -1000 <= start - (s.len() - 1) <= 0,
        ;
        let c = spec_stride_count(s, start + period, period);
        assert(c * (RESIDUAL_BOUND_MILLI as int) + (RESIDUAL_BOUND_MILLI as int) == (c + 1) * (
        RESIDUAL_BOUND_MILLI as int) && -(c * (RESIDUAL_BOUND_MILLI as int)) - (
        RESIDUAL_BOUND_MILLI as int) == -((c + 1) * (RESIDUAL_BOUND_MILLI as int)) && -(c + 1)
            * (RESIDUAL_BOUND_MILLI as int) == -((c + 1) * (RESIDUAL_BOUND_MILLI as int)) && -c
            * (RESIDUAL_BOUND_MILLI as int) == -(c * (RESIDUAL_BOUND_MILLI as int))) by (
        nonlinear_arith);
    }
}

/// Period-24 seasonal decomposition of the window: one mean residual per
/// cycle position after the window's level and trend are removed, or the
/// all-zero pattern when the window is shorter than one period.
pub fn calculate_seasonal_pattern(data: &Vec<u64>) -> (seasonal: Vec<i64>)
    requires
        data@.len() <= STORE_CAP,
        forall|i: int| 0 <= i < data@.len() ==> #[trigger] data@[i] <= SAMPLE_CAP_MILLI,
    ensures
        seasonal@.len() == SEASON_PERIOD,
        forall|i: int| 0 <= i < SEASON_PERIOD ==> #[trigger] seasonal@[i] == spec_seasonal_at(
            data@,
            i,
        ),
        forall|i: int|
            0 <= i < SEASON_PERIOD ==> -RESIDUAL_BOUND_MILLI <= #[trigger] seasonal@[i]
                <= RESIDUAL_BOUND_MILLI,
{
    let mut seasonal: Vec<i64> = Vec::new();
    let n = data.len();
    if n < SEASON_PERIOD {
        let mut i: usize = 0;
        while i < SEASON_PERIOD
            invariant
                n == data@.len(),
                n < SEASON_PERIOD,
                i <= SEASON_PERIOD,
                seasonal@.len() == i,
                forall|k: int| 0 <= k < i ==> #[trigger] seasonal@[k] == 0,
            decreases SEASON_PERIOD - i,
        {
            seasonal.push(0);
            i += 1;
        }
        return seasonal;
    }
    let slope = calculate_linear_trend(data);
    let last = data[n - 1];
    let mut i: usize = 0;
    while i < SEASON_PERIOD
        invariant
            n == data@.len(),
            SEASON_PERIOD <= n <= STORE_CAP,
            forall|k: int| 0 <= k < data@.len() ==> #[trigger] data@[k] <= SAMPLE_CAP_MILLI,
            slope == spec_trend(data@),
            -2_000_000 <= slope <= 2_000_000,
            last == data@.last(),
            last <= SAMPLE_CAP_MILLI,
            i <= SEASON_PERIOD,
            seasonal@.len() == i,
            forall|k: int| 0 <= k < i ==> #[trigger] seasonal@[k] == spec_seasonal_at(data@, k),
            forall|k: int|
                0 <= k < i ==> -RESIDUAL_BOUND_MILLI <= #[trigger] seasonal@[k]
                    <= RESIDUAL_BOUND_MILLI,
        decreases SEASON_PERIOD - i,
    {
        let mut sum: i64 = 0;
        let mut cnt: u64 = 0;
        let mut j: usize = i;
        proof {
            lemma_stride_bounds(data@, i as int, SEASON_PERIOD as int);
            lemma_residual_stride_bounds(data@, i as int, SEASON_PERIOD as int);
        }
        while j < n
            invariant
                n == data@.len(),
                SEASON_PERIOD <= n <= STORE_CAP,
                forall|k: int| 0 <= k < data@.len() ==> #[trigger] data@[k] <= SAMPLE_CAP_MILLI,
                slope == spec_trend(data@),
                -2_000_000 <= slope <= 2_000_000,
                last == data@.last(),
                last <= SAMPLE_CAP_MILLI,
                0 <= i < SEASON_PERIOD,
                i <= j,
                sum == spec_residual_stride_sum(data@, i as int, SEASON_PERIOD as int)
                    - spec_residual_stride_sum(data@, j as int, SEASON_PERIOD as int),
                cnt == spec_stride_count(data@, i as int, SEASON_PERIOD as int)
                    - spec_stride_count(data@, j as int, SEASON_PERIOD as int),
                -(cnt as int) * (RESIDUAL_BOUND_MILLI as int) <= sum <= (cnt as int) * (
                RESIDUAL_BOUND_MILLI as int),
                cnt <= n,
            decreases n - j,
        {
            proof {
                lemma_stride_bounds(data@, i as int, SEASON_PERIOD as int);
                lemma_stride_bounds(data@, j as int, SEASON_PERIOD as int);
                lemma_stride_bounds(data@, j + SEASON_PERIOD as int, SEASON_PERIOD as int);
                lemma_residual_stride_bounds(data@, j as int, SEASON_PERIOD as int);
                lemma_residual_stride_bounds(data@, j + SEASON_PERIOD as int, SEASON_PERIOD as int);
                assert((cnt as int + 1) * (RESIDUAL_BOUND_MILLI as int) == (cnt as int) * (
                RESIDUAL_BOUND_MILLI as int) + (RESIDUAL_BOUND_MILLI as int) && -(cnt as int + 1)
                    * (RESIDUAL_BOUND_MILLI as int) == -((cnt as int) * (
                RESIDUAL_BOUND_MILLI as int)) - (RESIDUAL_BOUND_MILLI as int) && -(cnt as int) * (
                RESIDUAL_BOUND_MILLI as int) == -((cnt as int) * (RESIDUAL_BOUND_MILLI as int)))
                    by (nonlinear_arith);
                assert((cnt as int) * (RESIDUAL_BOUND_MILLI as int) <= (n as int) * (
                RESIDUAL_BOUND_MILLI as int) && -((cnt as int) * (RESIDUAL_BOUND_MILLI as int))
                    >= -((n as int) * (RESIDUAL_BOUND_MILLI as int)) && (n as int) * (
                RESIDUAL_BOUND_MILLI as int) <= 2_100_000_000_000) by (nonlinear_arith)
                    requires
                        0 <= cnt <= n <= 1000,
                ;
            }
            let value = data[j];
            let offset: i64 = (j as i64) - ((n - 1) as i64);
            proof {
                assert(-2_000_000_000 <= (slope as int) * (offset as int) <= 2_000_000_000) by (
                nonlinear_arith)
                    requires
                        -2_000_000 <= slope <= 2_000_000,
                        -1000 <= offset <= 0,
                ;
            }
            let residual: i64 = (value as i64) - (last as i64) - slope * offset;
            proof {
                assert(residual == spec_residual_at(data@, j as int));
            }
            sum = sum + residual;
            cnt = cnt + 1;
            if j >= n - SEASON_PERIOD {
                j = n;
                proof {
                    assert(spec_residual_stride_sum(data@, j as int, SEASON_PERIOD as int) == 0);
                }
            } else {
                j = j + SEASON_PERIOD;
            }
        }
        proof {
            lemma_stride_bounds(data@, i as int, SEASON_PERIOD as int);
        }
        assert(cnt > 0);
        let mean_i128 = div_floor(sum as i128, cnt as i128);
        proof {
            let si = sum as int;
            let ci = cnt as int;
            let bi = RESIDUAL_BOUND_MILLI as int;
            vstd::arithmetic::div_mod::lemma_div_multiples_vanish(bi, ci);
            vstd::arithmetic::div_mod::lemma_div_multiples_vanish(-bi, ci);
            assert(ci * bi == bi * ci && ci * (-bi) == (-bi) * ci && (-bi) * ci == -(bi * ci))
                by (nonlinear_arith);
            vstd::arithmetic::div_mod::lemma_div_is_ordered(si, ci * bi, ci);
            vstd::arithmetic::div_mod::lemma_div_is_ordered(ci * (-bi), si, ci);
            assert(-bi <= si / ci <= bi);
        }
        let mean: i64 = mean_i128 as i64;
        seasonal.push(mean);
        i += 1;
    }
    seasonal
}

/// The baseline forecasting model: hyperparameters of the reference
/// statistical strategy. The forecast combines the last observed level, a
/// least-squares linear trend and a period-24 seasonal component, clipped to
/// [0, 100] percent.
pub struct LSTMModel {
    pub model_version: String,
    pub input_size: usize,
    pub hidden_size: usize,
    pub num_layers: usize,
    pub sequence_length: usize,
}

/// Level assumed when the recent window is empty, in milli-percent.
pub const DEFAULT_LEVEL_MILLI: u64 = 50_000;

/// The forecast for `step` steps ahead of the recent window: last observed
/// level plus `trend * (step + 1)` plus the seasonal coefficient at the
/// step's cycle position, clipped to [0, 100] percent.
pub open spec fn spec_forecast_at(recent: Seq<u64>, step: int) -> u64 {
    let base: int = if recent.len() == 0 {
        DEFAULT_LEVEL_MILLI as int
    } else {
        recent.last() as int
    };
    let raw = base + spec_trend(recent) * (step + 1) + spec_seasonal_at(
        recent,
        step % (SEASON_PERIOD as int),
    );
    if raw < 0 {
        0u64
    } else if raw > SAMPLE_CAP_MILLI {
        SAMPLE_CAP_MILLI
    } else {
        raw as u64
    }
}

impl LSTMModel {
    /// A model with the reference hyperparameters under the given version
    /// tag: sequence length 24, two layers.
    pub fn new(model_version: String) -> (model: LSTMModel)
        ensures
            model.model_version@ == model_version@,
            model.input_size == 10,
            model.hidden_size == 128,
            model.num_layers == 2,
            model.sequence_length == FORECAST_HORIZON,
    {
        LSTMModel {
            model_version,
            input_size: 10,
            hidden_size: 128,
            num_layers: 2,
            sequence_length: FORECAST_HORIZON,
        }
    }

    /// Forecasts the next `FORECAST_HORIZON` steps from the series. A series
    /// shorter than `sequence_length` yields the flat zero forecast ("no
    /// signal"); otherwise each step follows the baseline formula over the
    /// most recent `sequence_length` samples.
    pub fn predict(&self, input: &TimeSeriesData) -> (out: Vec<u64>)
        requires
            input.wf(),
        ensures
            out@.len() == FORECAST_HORIZON,
            input.values@.len() < self.sequence_length ==> forall|i: int|
                0 <= i < out@.len() ==> out@[i] == 0,
            input.values@.len() >= self.sequence_length ==> forall|i: int|
                0 <= i < out@.len() ==> out@[i] == spec_forecast_at(
                    input.values@.skip(input.values@.len() - self.sequence_length),
                    i,
                ),
            forall|i: int| 0 <= i < out@.len() ==> #[trigger] out@[i] <= SAMPLE_CAP_MILLI,
    {
        match input.get_recent_window(self.sequence_length) {
            None => {
                let mut out: Vec<u64> = Vec::new();
                let mut i: usize = 0;
                while i < FORECAST_HORIZON
                    invariant
                        i <= FORECAST_HORIZON,
                        out@.len() == i,
                        forall|k: int| 0 <= k < i ==> #[trigger] out@[k] == 0,
                    decreases FORECAST_HORIZON - i,
                {
                    out.push(0);
                    i += 1;
                }
                out
            },
            Some(recent) => {
                let ghost off = input.values@.len() - self.sequence_length as int;
                proof {
                    assert forall|k: int| 0 <= k < recent@.len() implies #[trigger] recent@[k]
                        <= SAMPLE_CAP_MILLI by {
                        assert(recent@[k] == input.values@[off + k]);
                    }
                }
                let trend = calculate_linear_trend(&recent);
                let seasonal = calculate_seasonal_pattern(&recent);
                let base: u64 = if recent.len() == 0 {
                    DEFAULT_LEVEL_MILLI
                } else {
                    recent[recent.len() - 1]
                };
                let mut out: Vec<u64> = Vec::new();
                let mut i: usize = 0;
                while i < FORECAST_HORIZON
                    invariant
                        i <= FORECAST_HORIZON,
                        out@.len() == i,
                        base == (if recent@.len() == 0 {
                            DEFAULT_LEVEL_MILLI
                        } else {
                            recent@.last()
                        }),
                        base <= SAMPLE_CAP_MILLI,
                        trend == spec_trend(recent@),
                        -2_000_000 <= trend <= 2_000_000,
                        seasonal@.len() == SEASON_PERIOD,
                        forall|k: int| 0 <= k < SEASON_PERIOD ==> #[trigger] seasonal@[k]
                            == spec_seasonal_at(recent@, k),
                        forall|k: int|
                            0 <= k < SEASON_PERIOD ==> -RESIDUAL_BOUND_MILLI <= #[trigger] seasonal@[k]
                                <= RESIDUAL_BOUND_MILLI,
                        forall|k: int| 0 <= k < i ==> #[trigger] out@[k] == spec_forecast_at(
                            recent@,
                            k,
                        ),
                        forall|k: int| 0 <= k < i ==> #[trigger] out@[k] <= SAMPLE_CAP_MILLI,
                    decreases FORECAST_HORIZON - i,
                {
                    let sidx = i % SEASON_PERIOD;
                    proof {
                        assert(-48_000_000 <= (trend as int) * (i + 1 as int) <= 48_000_000) by (
                        nonlinear_arith)
                            requires
                                -2_000_000 <= trend <= 2_000_000,
                                0 <= i < 24,
                        ;
                    }
                    let raw: i128 = (base as i128) + (trend as i128) * ((i + 1) as i128) + (
                    seasonal[sidx] as i128);
                    let clipped: u64 = if raw < 0 {
                        0
                    } else if raw > (SAMPLE_CAP_MILLI as i128) {
                        SAMPLE_CAP_MILLI
                    } else {
                        raw as u64
                    };
                    out.push(clipped);
                    i += 1;
                }
                out
            },
        }
    }

    /// A freshly fitted model under a new version tag, with the
    /// hyperparameters of this one. The whole replacement value is built
    /// before any caller swaps it in, so readers see either the old or the
    /// new model in full.
    pub fn retrain(&self, model_version: String) -> (model: LSTMModel)
        ensures
            model.model_version@ == model_version@,
            model.input_size == self.input_size,
            model.hidden_size == self.hidden_size,
            model.num_layers == self.num_layers,
            model.sequence_length == self.sequence_length,
    {
        LSTMModel {
            model_version,
            input_size: self.input_size,
            hidden_size: self.hidden_size,
            num_layers: self.num_layers,
            sequence_length: self.sequence_length,
        }
    }
}

} // verus!

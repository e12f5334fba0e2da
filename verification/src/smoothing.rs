//! Holt-Winters triple exponential smoothing in fixed point: level and
//! trend in milli-percent, seasonal coefficients as ratios in thousandths
//! (1000 is a flat season). Fitting needs at least two full seasons of
//! samples to initialize level, trend and the seasonal pattern; anything
//! less is a typed insufficient-data failure, never a silent default.
//!
//! Where the floating-point formulation would divide by a vanishing level
//! or seasonal coefficient, the fixed-point one substitutes the neutral
//! ratio instead of overflowing, and every smoothed quantity saturates at
//! `HW_STATE_BOUND`; both guards are part of the stated contract.

use vstd::prelude::*;
use crate::errors::MLError;
use crate::forecast::{spec_stride_count, lemma_stride_bounds};
use crate::timeseries::{div_floor, SAMPLE_CAP_MILLI, STORE_CAP};

verus! {

/// Saturation bound of the smoothed state, in milli-units.
pub const HW_STATE_BOUND: i64 = 1_000_000_000_000_000;

/// Longest forecast the smoother will produce in one call.
pub const HW_MAX_FORECAST_STEPS: usize = 100_000;

/// Saturates a smoothed quantity into the state bound.
pub open spec fn spec_clamp_state(x: int) -> i64 {
    if x < -HW_STATE_BOUND {
        (-HW_STATE_BOUND) as i64
    } else if x > HW_STATE_BOUND {
        HW_STATE_BOUND as i64
    } else {
        x as i64
    }
}

/// A sample divided by its seasonal ratio; a vanished (non-positive)
/// coefficient deseasonalizes neutrally.
pub open spec fn spec_deseasonalized(value: u64, s: i64) -> int {
    if s <= 0 {
        value as int
    } else {
        (value as int) * 1000 / (s as int)
    }
}

/// A sample as a ratio of the level, in thousandths; a non-positive level
/// reads as the neutral ratio.
pub open spec fn spec_level_ratio(value: u64, level: i64) -> int {
    if level <= 0 {
        1000
    } else {
        (value as int) * 1000 / (level as int)
    }
}

/// One smoothing step over the sample at cycle position `idx`.
pub open spec fn spec_hw_step(
    level: i64,
    trend: i64,
    seasonal: Seq<i64>,
    value: u64,
    idx: int,
    alpha: u64,
    beta: u64,
    gamma: u64,
) -> (i64, i64, Seq<i64>)
    recommends
        0 <= idx < seasonal.len(),
        alpha <= 1000,
        beta <= 1000,
        gamma <= 1000,
{
    let ds = spec_deseasonalized(value, seasonal[idx]);
    let new_level = spec_clamp_state(
        ((alpha as int) * ds + (1000 - alpha as int) * (level as int + trend as int)) / 1000,
    );
    let new_trend = spec_clamp_state(
        ((beta as int) * (new_level as int - level as int) + (1000 - beta as int) * (
        trend as int)) / 1000,
    );
    let ratio = spec_level_ratio(value, new_level);
    let new_season = spec_clamp_state(
        ((gamma as int) * ratio + (1000 - gamma as int) * (seasonal[idx] as int)) / 1000,
    );
    (new_level, new_trend, seasonal.update(idx, new_season))
}

/// Sum of the level ratios of the samples at positions
/// `start, start + period, ...`.
pub open spec fn spec_ratio_stride_sum(s: Seq<u64>, start: int, period: int, level: i64) -> int
    decreases
            if start <= s.len() {
                s.len() - start
            } else {
                0
            }
        when period >= 1 && start >= 0
{
    if period < 1 || start < 0 || start >= s.len() {
        0
    } else {
        spec_level_ratio(s[start], level) + spec_ratio_stride_sum(s, start + period, period, level)
    }
}

/// The initial level: the first sample.
pub open spec fn spec_hw_init_level(data: Seq<u64>) -> i64 {
    data[0] as i64
}

/// The initial trend: the rise over the first season, per step.
pub open spec fn spec_hw_init_trend(data: Seq<u64>, season: int) -> i64 {
    ((data[season] as int - data[0] as int) / season) as i64
}

/// The initial seasonal coefficient at cycle position `i`: the mean level
/// ratio of the samples one season apart starting at `i`.
pub open spec fn spec_hw_init_seasonal_at(data: Seq<u64>, season: int, i: int) -> i64 {
    let cnt = spec_stride_count(data, i, season);
    if cnt == 0 {
        1000i64
    } else {
        spec_clamp_state(
            spec_ratio_stride_sum(data, i, season, spec_hw_init_level(data)) / cnt,
        )
    }
}

/// The smoother's state after initialization and the smoothing passes over
/// samples `1 .. t`.
pub open spec fn spec_hw_after(
    data: Seq<u64>,
    season: int,
    alpha: u64,
    beta: u64,
    gamma: u64,
    t: int,
) -> (i64, i64, Seq<i64>)
    decreases t
        when t >= 1
{
    if t <= 1 {
        (
            spec_hw_init_level(data),
            spec_hw_init_trend(data, season),
            Seq::new(season as nat, |i: int| spec_hw_init_seasonal_at(data, season, i)),
        )
    } else {
        let prev = spec_hw_after(data, season, alpha, beta, gamma, t - 1);
        spec_hw_step(prev.0, prev.1, prev.2, data[t - 1], (t - 1) % season, alpha, beta, gamma)
    }
}

/// The forecast `h` steps ahead of the fitted state: the trend-projected
/// level scaled by the season's coefficient, floored at zero.
pub open spec fn spec_hw_forecast_at(
    level: i64,
    trend: i64,
    seasonal: Seq<i64>,
    season: int,
    h: int,
) -> u64
    recommends
        season >= 1,
        seasonal.len() == season,
        h >= 1,
{
    let raw = (level as int + h * (trend as int)) * (seasonal[(h - 1) % season] as int) / 1000;
    if raw < 0 {
        0u64
    } else if raw > u64::MAX {
        u64::MAX as u64
    } else {
        raw as u64
    }
}

/// Holt-Winters smoother state: smoothing factors in thousandths, level and
/// trend in milli-percent, one seasonal ratio per cycle position.
pub struct ExponentialSmoothing {
    pub alpha: u64,
    pub beta: u64,
    pub gamma: u64,
    pub level: i64,
    pub trend: i64,
    pub seasonal: Vec<i64>,
    pub season_length: usize,
}

impl ExponentialSmoothing {
    /// Factors are fractions of one, the seasonal pattern spans exactly one
    /// season, and every smoothed quantity sits inside the saturation bound.
    pub open spec fn wf(&self) -> bool {
        &&& self.alpha <= 1000
        &&& self.beta <= 1000
        &&& self.gamma <= 1000
        &&& 1 <= self.season_length
        &&& self.seasonal@.len() == self.season_length
        &&& -HW_STATE_BOUND <= self.level <= HW_STATE_BOUND
        &&& -HW_STATE_BOUND <= self.trend <= HW_STATE_BOUND
        &&& forall|i: int|
            0 <= i < self.seasonal@.len() ==> -HW_STATE_BOUND <= #[trigger] self.seasonal@[i]
                <= HW_STATE_BOUND
    }

    /// An unfitted smoother: zero level and trend, a flat seasonal pattern.
    pub fn new(alpha: u64, beta: u64, gamma: u64, season_length: usize) -> (model:
        ExponentialSmoothing)
        requires
            alpha <= 1000,
            beta <= 1000,
            gamma <= 1000,
            1 <= season_length,
        ensures
            model.wf(),
            model.alpha == alpha,
            model.beta == beta,
            model.gamma == gamma,
            model.season_length == season_length,
            model.level == 0,
            model.trend == 0,
            forall|i: int| 0 <= i < model.seasonal@.len() ==> #[trigger] model.seasonal@[i] == 1000,
    {
        let mut seasonal: Vec<i64> = Vec::new();
        let mut i: usize = 0;
        while i < season_length
            invariant
                i <= season_length,
                seasonal@.len() == i,
                forall|k: int| 0 <= k < i ==> #[trigger] seasonal@[k] == 1000,
            decreases season_length - i,
        {
            seasonal.push(1000);
            i += 1;
        }
        ExponentialSmoothing { alpha, beta, gamma, level: 0, trend: 0, seasonal, season_length }
    }
}


/// The ratio sums are nonnegative and bounded by the count of their terms.
proof fn lemma_ratio_stride_bounds(s: Seq<u64>, start: int, period: int, level: i64)
    requires
        period >= 1,
        start >= 0,
        forall|k: int| 0 <= k < s.len() ==> #[trigger] s[k] <= SAMPLE_CAP_MILLI,
    ensures
        0 <= spec_ratio_stride_sum(s, start, period, level) <= spec_stride_count(s, start, period)
            * 100_000_000,
    decreases
            if start <= s.len() {
                s.len() - start
            } else {
                0
            },
{
    lemma_stride_bounds(s, start, period);
    if start < s.len() {
        if start + period <= s.len() {
            lemma_ratio_stride_bounds(s, start + period, period, level);
        } else {
            assert(spec_ratio_stride_sum(s, start + period, period, level) == 0);
            assert(spec_stride_count(s, start + period, period) == 0);
        }
        let r = spec_level_ratio(s[start], level);
        if level >= 1 {
            vstd::arithmetic::div_mod::lemma_div_pos_is_pos(
                (s[start] as int) * 1000,
                level as int,
            );
            vstd::arithmetic::div_mod::lemma_div_nonincreasing(
                (s[start] as int) * 1000,
                level as int,
            );
        }
        assert(0 <= r <= 100_000_000);
        let c = spec_stride_count(s, start + period, period);
        assert(c * 100_000_000 + 100_000_000 == (c + 1) * 100_000_000) by (nonlinear_arith);
    }
}

impl ExponentialSmoothing {
    /// Fits the smoother to the series: the first sample seeds the level,
    /// the rise over the first season seeds the trend, mean level ratios
    /// seed the seasonal pattern, and one smoothing pass runs over every
    /// later sample. A series shorter than two full seasons is rejected
    /// with an insufficient-data error and the state is untouched.
    pub fn fit(&mut self, data: &Vec<u64>) -> (result: Result<(), MLError>)
        requires
            old(self).wf(),
            data@.len() <= STORE_CAP,
            forall|i: int| 0 <= i < data@.len() ==> #[trigger] data@[i] <= SAMPLE_CAP_MILLI,
        ensures
            final(self).wf(),
            final(self).alpha == old(self).alpha,
            final(self).beta == old(self).beta,
            final(self).gamma == old(self).gamma,
            final(self).season_length == old(self).season_length,
            (data@.len() < 2 * old(self).season_length) <==> (result is Err),
            result is Err ==> *final(self) == *old(self),
            result matches Err(e) ==> e matches MLError::TrainingError(_),
            result is Ok ==> ({
                let s = spec_hw_after(
                    data@,
                    old(self).season_length as int,
                    old(self).alpha,
                    old(self).beta,
                    old(self).gamma,
                    data@.len() as int,
                );
                &&& final(self).level == s.0
                &&& final(self).trend == s.1
                &&& final(self).seasonal@ == s.2
            }),
    {
        let season = self.season_length;
        let n = data.len();
        if (n as u128) < 2 * (season as u128) {
            let reason: &str = "insufficient data for seasonal decomposition";
            return Err(MLError::TrainingError(reason.to_owned()));
        }
        let a = self.alpha;
        let b = self.beta;
        let g = self.gamma;
        let level0: i64 = data[0] as i64;
        let diff: i128 = (data[season] as i128) - (data[0] as i128);
        let trend0: i64 = div_floor(diff, season as i128) as i64;

        let mut seasonal0: Vec<i64> = Vec::new();
        let mut i: usize = 0;
        while i < season
            invariant
                n == data@.len(),
                1 <= season,
                2 * season <= n <= STORE_CAP,
                forall|k: int| 0 <= k < data@.len() ==> #[trigger] data@[k] <= SAMPLE_CAP_MILLI,
                level0 == spec_hw_init_level(data@),
                0 <= level0 <= SAMPLE_CAP_MILLI,
                i <= season,
                seasonal0@.len() == i,
                forall|k: int|
                    0 <= k < i ==> #[trigger] seasonal0@[k] == spec_hw_init_seasonal_at(
                        data@,
                        season as int,
                        k,
                    ),
            decreases season - i,
        {
            let mut sum: u64 = 0;
            let mut cnt: u64 = 0;
            let mut j: usize = i;
            proof {
                lemma_stride_bounds(data@, i as int, season as int);
                lemma_ratio_stride_bounds(data@, i as int, season as int, level0);
            }
            while j < n
                invariant
                    n == data@.len(),
                    1 <= season,
                    2 * season <= n <= STORE_CAP,
                    forall|k: int| 0 <= k < data@.len() ==> #[trigger] data@[k]
                        <= SAMPLE_CAP_MILLI,
                    0 <= level0 <= SAMPLE_CAP_MILLI,
                    0 <= i < season,
                    i <= j,
                    sum == spec_ratio_stride_sum(data@, i as int, season as int, level0)
                        - spec_ratio_stride_sum(data@, j as int, season as int, level0),
                    cnt == spec_stride_count(data@, i as int, season as int)
                        - spec_stride_count(data@, j as int, season as int),
                    sum <= (cnt as int) * 100_000_000,
                    cnt <= n,
                decreases n - j,
            {
                proof {
                    lemma_stride_bounds(data@, i as int, season as int);
                    lemma_stride_bounds(data@, j as int, season as int);
                    lemma_stride_bounds(data@, j + season as int, season as int);
                    lemma_ratio_stride_bounds(data@, j as int, season as int, level0);
                    lemma_ratio_stride_bounds(data@, j + season as int, season as int, level0);
                    assert((cnt as int + 1) * 100_000_000 == (cnt as int) * 100_000_000
                        + 100_000_000) by (nonlinear_arith);
                    assert((cnt as int) * 100_000_000 <= (n as int) * 100_000_000) by (
                    nonlinear_arith)
                        requires
                            0 <= cnt <= n,
                    ;
                }
                let value = data[j];
                let ratio: u64 = if level0 <= 0 {
                    1000
                } else {
                    proof {
                        vstd::arithmetic::div_mod::lemma_div_pos_is_pos(
                            (value as int) * 1000,
                            level0 as int,
                        );
                        vstd::arithmetic::div_mod::lemma_div_nonincreasing(
                            (value as int) * 1000,
                            level0 as int,
                        );
                    }
                    value * 1000 / (level0 as u64)
                };
                sum = sum + ratio;
                cnt = cnt + 1;
                if j >= n - season {
                    j = n;
                    proof {
                        assert(spec_ratio_stride_sum(data@, j as int, season as int, level0)
                            == 0);
                        assert(spec_stride_count(data@, j as int, season as int) == 0);
                    }
                } else {
                    j = j + season;
                }
            }
            proof {
                lemma_stride_bounds(data@, i as int, season as int);
            }
            assert(cnt > 0);
            let mean: u64 = sum / cnt;
            proof {
                vstd::arithmetic::div_mod::lemma_div_pos_is_pos(sum as int, cnt as int);
                vstd::arithmetic::div_mod::lemma_remainder_lower(sum as int, cnt as int);
                assert(sum as int / (cnt as int) <= 100_000_000) by (nonlinear_arith)
                    requires
                        cnt >= 1,
                        0 <= sum <= (cnt as int) * 100_000_000,
                        sum as int / (cnt as int) >= 0,
                        sum as int / (cnt as int) * (cnt as int) <= sum as int,
                ;
                assert(spec_clamp_state(sum as int / (cnt as int)) == (sum as int / (
                cnt as int)) as i64);
            }
            seasonal0.push(mean as i64);
            i += 1;
        }

        let mut level: i64 = level0;
        let mut trend: i64 = trend0;
        let mut seasonal: Vec<i64> = seasonal0;
        proof {
            assert(seasonal@ =~= Seq::new(
                season as nat,
                |k: int| spec_hw_init_seasonal_at(data@, season as int, k),
            ));
            assert(spec_hw_after(data@, season as int, a, b, g, 1).0 == level);
            assert(spec_hw_after(data@, season as int, a, b, g, 1).1 == trend);
            assert(spec_hw_after(data@, season as int, a, b, g, 1).2 == seasonal@);
        }
        let mut t: usize = 1;
        while t < n
            invariant
                n == data@.len(),
                1 <= season,
                2 * season <= n <= STORE_CAP,
                forall|k: int| 0 <= k < data@.len() ==> #[trigger] data@[k] <= SAMPLE_CAP_MILLI,
                a <= 1000,
                b <= 1000,
                g <= 1000,
                1 <= t <= n,
                seasonal@.len() == season,
                -HW_STATE_BOUND <= level <= HW_STATE_BOUND,
                -HW_STATE_BOUND <= trend <= HW_STATE_BOUND,
                forall|k: int|
                    0 <= k < seasonal@.len() ==> -HW_STATE_BOUND <= #[trigger] seasonal@[k]
                        <= HW_STATE_BOUND,
                level == spec_hw_after(data@, season as int, a, b, g, t as int).0,
                trend == spec_hw_after(data@, season as int, a, b, g, t as int).1,
                seasonal@ == spec_hw_after(data@, season as int, a, b, g, t as int).2,
            decreases n - t,
        {
            let idx = t % season;
            let value = data[t];
            let s_at: i64 = seasonal[idx];
            let ds: i128 = if s_at <= 0 {
                value as i128
            } else {
                proof {
                    vstd::arithmetic::div_mod::lemma_div_pos_is_pos(
                        (value as int) * 1000,
                        s_at as int,
                    );
                    vstd::arithmetic::div_mod::lemma_div_nonincreasing(
                        (value as int) * 1000,
                        s_at as int,
                    );
                }
                ((value as i128) * 1000) / (s_at as i128)
            };
            proof {
                assert(0 <= ds <= 100_000_000);
                assert((a as int) * ds <= 100_000_000_000 && (a as int) * ds >= 0) by (
                nonlinear_arith)
                    requires
                        0 <= a <= 1000,
                        0 <= ds <= 100_000_000,
                ;
                assert((1000 - a as int) * ((level as int) + (trend as int))
                    <= 2_000_000_000_000_000_000 && (1000 - a as int) * ((level as int) + (
                trend as int)) >= -2_000_000_000_000_000_000) by (nonlinear_arith)
                    requires
                        0 <= a <= 1000,
                        -HW_STATE_BOUND <= level <= HW_STATE_BOUND,
                        -HW_STATE_BOUND <= trend <= HW_STATE_BOUND,
                ;
            }
            let lvl_num: i128 = (a as i128) * ds + (1000 - (a as i128)) * ((level as i128)
                + (trend as i128));
            let q1 = div_floor(lvl_num, 1000);
            let new_level: i64 = if q1 < -(HW_STATE_BOUND as i128) {
                -HW_STATE_BOUND
            } else if q1 > (HW_STATE_BOUND as i128) {
                HW_STATE_BOUND
            } else {
                q1 as i64
            };
            proof {
                assert((b as int) * ((new_level as int) - (level as int))
                    <= 2_000_000_000_000_000_000 && (b as int) * ((new_level as int) - (
                level as int)) >= -2_000_000_000_000_000_000) by (nonlinear_arith)
                    requires
                        0 <= b <= 1000,
                        -HW_STATE_BOUND <= new_level <= HW_STATE_BOUND,
                        -HW_STATE_BOUND <= level <= HW_STATE_BOUND,
                ;
                assert((1000 - b as int) * (trend as int) <= 1_000_000_000_000_000_000 && (1000
                    - b as int) * (trend as int) >= -1_000_000_000_000_000_000) by (
                nonlinear_arith)
                    requires
                        0 <= b <= 1000,
                        -HW_STATE_BOUND <= trend <= HW_STATE_BOUND,
                ;
            }
            let trd_num: i128 = (b as i128) * ((new_level as i128) - (level as i128)) + (1000 - (
            b as i128)) * (trend as i128);
            let q2 = div_floor(trd_num, 1000);
            let new_trend: i64 = if q2 < -(HW_STATE_BOUND as i128) {
                -HW_STATE_BOUND
            } else if q2 > (HW_STATE_BOUND as i128) {
                HW_STATE_BOUND
            } else {
                q2 as i64
            };
            let ratio: i128 = if new_level <= 0 {
                1000
            } else {
                proof {
                    vstd::arithmetic::div_mod::lemma_div_pos_is_pos(
                        (value as int) * 1000,
                        new_level as int,
                    );
                    vstd::arithmetic::div_mod::lemma_div_nonincreasing(
                        (value as int) * 1000,
                        new_level as int,
                    );
                }
                ((value as i128) * 1000) / (new_level as i128)
            };
            proof {
                assert(0 <= ratio <= 100_000_000);
                assert((g as int) * ratio <= 100_000_000_000 && (g as int) * ratio >= 0) by (
                nonlinear_arith)
                    requires
                        0 <= g <= 1000,
                        0 <= ratio <= 100_000_000,
                ;
                assert((1000 - g as int) * (s_at as int) <= 1_000_000_000_000_000_000 && (1000
                    - g as int) * (s_at as int) >= -1_000_000_000_000_000_000) by (
                nonlinear_arith)
                    requires
                        0 <= g <= 1000,
                        -HW_STATE_BOUND <= s_at <= HW_STATE_BOUND,
                ;
            }
            let ssn_num: i128 = (g as i128) * ratio + (1000 - (g as i128)) * (s_at as i128);
            let q3 = div_floor(ssn_num, 1000);
            let new_season: i64 = if q3 < -(HW_STATE_BOUND as i128) {
                -HW_STATE_BOUND
            } else if q3 > (HW_STATE_BOUND as i128) {
                HW_STATE_BOUND
            } else {
                q3 as i64
            };
            let slot = &mut seasonal[idx];
            *slot = new_season;
            level = new_level;
            trend = new_trend;
            t += 1;
        }
        self.level = level;
        self.trend = trend;
        self.seasonal = seasonal;
        Ok(())
    }

    /// Forecasts the given number of future steps from the fitted state:
    /// each step projects the level along the trend and scales it by its
    /// season's coefficient, floored at zero.
    pub fn forecast(&self, steps: usize) -> (out: Vec<u64>)
        requires
            self.wf(),
            steps <= HW_MAX_FORECAST_STEPS,
        ensures
            out@.len() == steps,
            forall|h: int|
                0 <= h < steps ==> #[trigger] out@[h] == spec_hw_forecast_at(
                    self.level,
                    self.trend,
                    self.seasonal@,
                    self.season_length as int,
                    h + 1,
                ),
    {
        let mut out: Vec<u64> = Vec::new();
        let mut h: usize = 1;
        while h <= steps
            invariant
                self.wf(),
                steps <= HW_MAX_FORECAST_STEPS,
                1 <= h <= steps + 1,
                out@.len() == h - 1,
                forall|k: int|
                    0 <= k < h - 1 ==> #[trigger] out@[k] == spec_hw_forecast_at(
                        self.level,
                        self.trend,
                        self.seasonal@,
                        self.season_length as int,
                        k + 1,
                    ),
            decreases steps + 1 - h,
        {
            let idx = (h - 1) % self.season_length;
            proof {
                assert((h as int) * (self.trend as int) <= 100_000_000_000_000_000_000 && (
                h as int) * (self.trend as int) >= -100_000_000_000_000_000_000) by (
                nonlinear_arith)
                    requires
                        1 <= h <= 100_000,
                        -HW_STATE_BOUND <= self.trend <= HW_STATE_BOUND,
                ;
            }
            let projected: i128 = (self.level as i128) + (h as i128) * (self.trend as i128);
            proof {
                assert(projected * (self.seasonal@[idx as int] as int)
                    <= 170_000_000_000_000_000_000_000_000_000_000_000_000 && projected * (
                self.seasonal@[idx as int] as int)
                    >= -170_000_000_000_000_000_000_000_000_000_000_000_000) by (nonlinear_arith)
                    requires
                        -101_000_000_000_000_000_000 <= projected
                            <= 101_000_000_000_000_000_000,
                        -HW_STATE_BOUND <= self.seasonal@[idx as int] <= HW_STATE_BOUND,
                ;
            }
            let scaled: i128 = projected * (self.seasonal[idx] as i128);
            let raw = div_floor(scaled, 1000);
            let value: u64 = if raw < 0 {
                0
            } else if raw > (u64::MAX as i128) {
                u64::MAX
            } else {
                raw as u64
            };
            out.push(value);
            h += 1;
        }
        out
    }
}

} // verus!

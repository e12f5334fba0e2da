//! Bounded per-resource telemetry buffer: an ordered sequence of
//! (timestamp, value) samples capped at `STORE_CAP` points. When an insertion
//! would exceed the cap, the oldest `EVICTION_BATCH` points are evicted as one
//! batch — an amortized trim, not a rolling window.

use vstd::prelude::*;

verus! {

/// Upper bound on the number of samples a series ever holds.
pub const STORE_CAP: usize = 1000;

/// How many of the oldest samples one overflow event evicts.
pub const EVICTION_BATCH: usize = 100;

/// Metric samples are utilization percentages in milli-percent, so no sample
/// exceeds this.
pub const SAMPLE_CAP_MILLI: u64 = 100_000;

/// Sum of a sequence of samples.
pub open spec fn spec_sum(s: Seq<u64>) -> int
    decreases s.len(),
{
    if s.len() == 0 {
        0
    } else {
        spec_sum(s.drop_last()) + s.last()
    }
}

/// Sum of the squared, mean-centered samples, scaled by the length to stay in
/// integers: with `n` the length and `total` the sum, each term is
/// `(n * s[i] - total)^2`, so the population variance is this sum over `n^3`.
pub open spec fn spec_centered_sq_sum(s: Seq<u64>, n: int, total: int) -> int
    decreases s.len(),
{
    if s.len() == 0 {
        0
    } else {
        spec_centered_sq_sum(s.drop_last(), n, total) + (n * s.last() - total) * (n * s.last()
            - total)
    }
}

/// Minimum of a non-empty sequence.
pub open spec fn spec_min_sample(s: Seq<u64>) -> u64
    decreases s.len(),
{
    if s.len() <= 1 {
        s[0]
    } else if s.last() < spec_min_sample(s.drop_last()) {
        s.last()
    } else {
        spec_min_sample(s.drop_last())
    }
}

/// Maximum of a non-empty sequence.
pub open spec fn spec_max_sample(s: Seq<u64>) -> u64
    decreases s.len(),
{
    if s.len() <= 1 {
        s[0]
    } else if s.last() > spec_max_sample(s.drop_last()) {
        s.last()
    } else {
        spec_max_sample(s.drop_last())
    }
}

/// The value column after appending `v`: a plain push, unless the cap would
/// be exceeded, in which case the oldest `EVICTION_BATCH` entries leave as
/// one batch.
pub open spec fn spec_after_add_values(vals: Seq<u64>, v: u64) -> Seq<u64> {
    if vals.len() + 1 > STORE_CAP {
        vals.push(v).skip(EVICTION_BATCH as int)
    } else {
        vals.push(v)
    }
}

/// The timestamp column after appending `t`, trimmed in step with the values.
pub open spec fn spec_after_add_timestamps(ts: Seq<i64>, t: i64) -> Seq<i64> {
    if ts.len() + 1 > STORE_CAP {
        ts.push(t).skip(EVICTION_BATCH as int)
    } else {
        ts.push(t)
    }
}

/// One resource's metric history: parallel timestamp/value columns.
///
/// Timestamps are Unix seconds; values are milli-percent.
pub struct TimeSeriesData {
    pub timestamps: Vec<i64>,
    pub values: Vec<u64>,
    pub resource_id: String,
    pub metric_type: String,
}

/// Summary statistics of a series, in milli-units: `mean` and `std_dev` are
/// milli-percent (floor-rounded), `min` and `max` exact samples.
pub struct TimeSeriesStats {
    pub mean: u64,
    pub std_dev: u64,
    pub min: u64,
    pub max: u64,
    pub count: usize,
}

impl Default for TimeSeriesStats {
    /// The all-zero summary, reported for an empty series.
    fn default() -> (stats: TimeSeriesStats)
        ensures
            stats.mean == 0 && stats.std_dev == 0 && stats.min == 0 && stats.max == 0
                && stats.count == 0,
    {
        TimeSeriesStats { mean: 0, std_dev: 0, min: 0, max: 0, count: 0 }
    }
}

impl TimeSeriesData {
    /// The store's invariant: the two columns stay aligned, the cap holds,
    /// and every sample is a percentage.
    pub open spec fn wf(&self) -> bool {
        &&& self.timestamps@.len() == self.values@.len()
        &&& self.values@.len() <= STORE_CAP
        &&& forall|i: int| 0 <= i < self.values@.len() ==> #[trigger] self.values@[i]
            <= SAMPLE_CAP_MILLI
    }

    /// An empty series for one resource and metric.
    pub fn new(resource_id: String, metric_type: String) -> (series: TimeSeriesData)
        ensures
            series.wf(),
            series.values@.len() == 0,
            series.timestamps@.len() == 0,
            series.resource_id@ == resource_id@,
            series.metric_type@ == metric_type@,
    {
        TimeSeriesData { timestamps: Vec::new(), values: Vec::new(), resource_id, metric_type }
    }

    /// Appends one sample. If the series would exceed `STORE_CAP`, the oldest
    /// `EVICTION_BATCH` samples are evicted as a single batch first-in-first-out.
    pub fn add_point(&mut self, timestamp: i64, value: u64)
        requires
            old(self).wf(),
            value <= SAMPLE_CAP_MILLI,
        ensures
            final(self).wf(),
            final(self).resource_id@ == old(self).resource_id@,
            final(self).metric_type@ == old(self).metric_type@,
            final(self).values@ == spec_after_add_values(old(self).values@, value),
            final(self).timestamps@ == spec_after_add_timestamps(old(self).timestamps@, timestamp),
    {
        self.timestamps.push(timestamp);
        self.values.push(value);
        if self.values.len() > STORE_CAP {
            let kept_timestamps = self.timestamps.split_off(EVICTION_BATCH);
            let kept_values = self.values.split_off(EVICTION_BATCH);
            self.timestamps = kept_timestamps;
            self.values = kept_values;
            assert(self.values@ =~= old(self).values@.push(value).skip(EVICTION_BATCH as int));
            assert(self.timestamps@ =~= old(self).timestamps@.push(timestamp).skip(
                EVICTION_BATCH as int,
            ));
        }
    }

    /// The most recent `window_size` values, or `None` if the series is
    /// shorter than that.
    pub fn get_recent_window(&self, window_size: usize) -> (window: Option<Vec<u64>>)
        ensures
            self.values@.len() < window_size ==> window is None,
            self.values@.len() >= window_size ==> (window matches Some(w) && w@
                == self.values@.skip(self.values@.len() - window_size)),
    {
        if self.values.len() < window_size {
            return None;
        }
        let start = self.values.len() - window_size;
        let mut out: Vec<u64> = Vec::new();
        let mut i: usize = start;
        while i < self.values.len()
            invariant
                start <= i <= self.values@.len(),
                start == self.values@.len() - window_size,
                out@ == self.values@.subrange(start as int, i as int),
            decreases self.values@.len() - i,
        {
            out.push(self.values[i]);
            assert(out@ =~= self.values@.subrange(start as int, i + 1 as int));
            i += 1;
        }
        assert(out@ =~= self.values@.skip(self.values@.len() - window_size));
        Some(out)
    }

    /// Summary statistics of the whole series; the all-zero summary when it
    /// is empty. `mean` is the floor of the true mean in milli-percent, and
    /// `std_dev` the floor of the population standard deviation, derived from
    /// the exact scaled variance `spec_centered_sq_sum / n^3`.
    pub fn calculate_statistics(&self) -> (stats: TimeSeriesStats)
        requires
            self.wf(),
        ensures
            stats.count == self.values@.len(),
            self.values@.len() == 0 ==> stats.mean == 0 && stats.std_dev == 0 && stats.min == 0
                && stats.max == 0,
            self.values@.len() > 0 ==> {
                let n = self.values@.len() as int;
                let total = spec_sum(self.values@);
                let variance = spec_centered_sq_sum(self.values@, n, total) / (n * n * n);
                &&& stats.mean == total / n
                &&& stats.min == spec_min_sample(self.values@)
                &&& stats.max == spec_max_sample(self.values@)
                &&& stats.std_dev * stats.std_dev <= variance
                &&& (stats.std_dev + 1) * (stats.std_dev + 1) > variance
            },
    {
        let n = self.values.len();
        if n == 0 {
            return TimeSeriesStats::default();
        }
        let mut total: u64 = 0;
        let mut min: u64 = self.values[0];
        let mut max: u64 = self.values[0];
        let mut i: usize = 0;
        while i < n
            invariant
                self.wf(),
                n == self.values@.len(),
                0 < n,
                i <= n,
                total == spec_sum(self.values@.take(i as int)),
                total <= i * SAMPLE_CAP_MILLI,
                i > 0 ==> min == spec_min_sample(self.values@.take(i as int)),
                i > 0 ==> max == spec_max_sample(self.values@.take(i as int)),
                i == 0 ==> min == self.values@[0] && max == self.values@[0],
            decreases n - i,
        {
            let v = self.values[i];
            assert(self.values@.take(i + 1 as int).drop_last() =~= self.values@.take(i as int));
            total = total + v;
            if v < min {
                min = v;
            }
            if v > max {
                max = v;
            }
            i += 1;
        }
        assert(self.values@.take(n as int) =~= self.values@);
        let mut centered: u128 = 0;
        let mut j: usize = 0;
        while j < n
            invariant
                self.wf(),
                n == self.values@.len(),
                0 < n <= STORE_CAP,
                j <= n,
                total == spec_sum(self.values@),
                total <= n * SAMPLE_CAP_MILLI,
                centered == spec_centered_sq_sum(
                    self.values@.take(j as int),
                    n as int,
                    total as int,
                ),
                centered <= (j as int) * 10_000_000_000_000_000,
            decreases n - j,
        {
            let v = self.values[j];
            assert(self.values@.take(j + 1 as int).drop_last() =~= self.values@.take(j as int));
            proof {
                assert((n as int) * (v as int) <= 100_000_000) by (nonlinear_arith)
                    requires
                        v <= SAMPLE_CAP_MILLI,
                        0 <= n <= STORE_CAP,
                ;
                assert((n as int) * (v as int) >= 0) by (nonlinear_arith)
                    requires
                        n >= 0,
                        v >= 0,
                ;
            }
            let scaled: i128 = (n as i128) * (v as i128) - (total as i128);
            proof {
                assert(scaled * scaled <= 10_000_000_000_000_000) by (nonlinear_arith)
                    requires
                        -100_000_000 <= scaled <= 100_000_000,
                ;
                assert(scaled * scaled >= 0) by (nonlinear_arith);
            }
            let sq: u128 = (scaled * scaled) as u128;
            centered = centered + sq;
            j += 1;
        }
        assert(self.values@.take(n as int) =~= self.values@);
        let n128: u128 = n as u128;
        proof {
            assert((n128 as int) * (n128 as int) <= 1_000_000 && (n128 as int) * (n128 as int) * (
            n128 as int) <= 1_000_000_000 && 1 <= (n128 as int) * (n128 as int) * (n128 as int)) by (
            nonlinear_arith)
                requires
                    1 <= n128 <= 1000,
            ;
        }
        let cube: u128 = n128 * n128 * n128;
        let variance: u128 = centered / cube;
        proof {
            assert(centered as int / (cube as int) <= centered as int) by (nonlinear_arith)
                requires
                    1 <= cube,
                    centered >= 0,
            ;
        }
        let std_dev = isqrt(variance as u64);
        TimeSeriesStats { mean: total / (n as u64), std_dev, min, max, count: n }
    }
}

/// Floor division of a possibly negative numerator by a positive
/// denominator, matching spec-level integer division.
pub fn div_floor(num: i128, den: i128) -> (q: i128)
    requires
        1 <= den <= 100_000_000_000,
        -170_000_000_000_000_000_000_000_000_000_000_000_000 <= num
            <= 170_000_000_000_000_000_000_000_000_000_000_000_000,
    ensures
        q == (num as int) / (den as int),
        num >= 0 ==> 0 <= q <= num,
        num < 0 ==> num - den < q <= 0,
{
    if num >= 0 {
        let q = num / den;
        proof {
            vstd::arithmetic::div_mod::lemma_div_pos_is_pos(num as int, den as int);
            vstd::arithmetic::div_mod::lemma_remainder_lower(num as int, den as int);
            assert((num as int) / (den as int) <= num as int) by (nonlinear_arith)
                requires
                    num >= 0,
                    den >= 1,
                    (num as int) / (den as int) >= 0,
                    (num as int) / (den as int) * (den as int) <= num as int,
            ;
        }
        q
    } else {
        let m = -num;
        let q1 = (m + den - 1) / den;
        proof {
            let mi = m as int;
            let di = den as int;
            let c = (mi + di - 1) / di;
            vstd::arithmetic::div_mod::lemma_div_pos_is_pos(mi + di - 1, di);
            vstd::arithmetic::div_mod::lemma_fundamental_div_mod(mi + di - 1, di);
            let r0 = (mi + di - 1) % di;
            assert(mi + di - 1 == di * c + r0);
            let r = di - 1 - r0;
            assert((-mi) == (-c) * di + r) by (nonlinear_arith)
                requires
                    mi + di - 1 == di * c + r0,
                    r == di - 1 - r0,
            ;
            vstd::arithmetic::div_mod::lemma_fundamental_div_mod_converse_div(-mi, di, -c, r);
            assert(di * c <= mi + di - 1);
            assert(c <= di * c) by (nonlinear_arith)
                requires
                    c >= 0,
                    di >= 1,
            ;
        }
        -q1
    }
}

/// Floor of the square root: the unique `r` with `r^2 <= x < (r+1)^2`,
/// found by binary search.
pub fn isqrt(x: u64) -> (r: u64)
    ensures
        r * r <= x,
        (r + 1) * (r + 1) > x,
{
    let mut lo: u64 = 0;
    let mut hi: u64 = 4_294_967_296;
    proof {
        assert((hi as int) * (hi as int) > x as int) by (nonlinear_arith)
            requires
                hi == 4_294_967_296,
                x < 18_446_744_073_709_551_616,
        ;
    }
    while hi - lo > 1
        invariant
            lo < hi,
            hi <= 4_294_967_296,
            (lo as int) * (lo as int) <= x as int,
            (hi as int) * (hi as int) > x as int,
        decreases hi - lo,
    {
        let mid = lo + (hi - lo) / 2;
        proof {
            assert((mid as int) * (mid as int) <= 0x1_0000_0000_0000_0000) by (nonlinear_arith)
                requires
                    mid <= 4_294_967_296,
            ;
        }
        if (mid as u128) * (mid as u128) <= x as u128 {
            lo = mid;
        } else {
            hi = mid;
        }
    }
    lo
}

} // verus!

//! The forecast engine: per-resource history keyed by resource id, the
//! hot-swappable baseline model, and inference across all tracked resources.
//!
//! The registry is an ownership-by-key arena (a vector with unique resource
//! ids) rather than a shared pointer graph; the surrounding process wraps it
//! in whatever lock its concurrency model needs and replaces the model
//! wholesale, never field by field.

use vstd::prelude::*;
use crate::clock::now_unix_seconds;
use crate::config::MLConfig;
use crate::forecast::{spec_confidence, spec_forecast_at, calculate_confidence, LSTMModel};
use crate::timeseries::{spec_after_add_values, spec_after_add_timestamps, TimeSeriesData,
    SAMPLE_CAP_MILLI};

verus! {

/// One forecast for one resource: the next-hour point forecast and its
/// confidence, both in thousandths, and the generation time in Unix seconds.
pub struct LoadPrediction {
    pub resource_id: String,
    pub predicted_load: u64,
    pub confidence: u64,
    pub prediction_horizon_minutes: u32,
    pub timestamp: i64,
}

/// The content of a prediction, as plain spec values: resource id, point
/// forecast, confidence, horizon in minutes, generation timestamp.
pub open spec fn spec_prediction_view(p: LoadPrediction) -> (Seq<char>, u64, u64, u32, i64) {
    (p.resource_id@, p.predicted_load, p.confidence, p.prediction_horizon_minutes, p.timestamp)
}

/// Index of the first series with the given resource id, or -1 if none.
pub open spec fn spec_find_series(s: Seq<TimeSeriesData>, id: Seq<char>) -> int
    decreases s.len(),
{
    if s.len() == 0 {
        -1
    } else if s[0].resource_id@ == id {
        0
    } else {
        let r = spec_find_series(s.skip(1), id);
        if r < 0 {
            -1
        } else {
            r + 1
        }
    }
}

pub proof fn lemma_find_series(s: Seq<TimeSeriesData>, id: Seq<char>)
    ensures
        spec_find_series(s, id) >= 0 ==> {
            &&& spec_find_series(s, id) < s.len()
            &&& s[spec_find_series(s, id)].resource_id@ == id
            &&& forall|k: int|
                0 <= k < spec_find_series(s, id) ==> (#[trigger] s[k]).resource_id@ != id
        },
        spec_find_series(s, id) < 0 ==> forall|k: int|
            0 <= k < s.len() ==> (#[trigger] s[k]).resource_id@ != id,
    decreases s.len(),
{
    if s.len() > 0 && s[0].resource_id@ != id {
        lemma_find_series(s.skip(1), id);
        let r = spec_find_series(s.skip(1), id);
        if r < 0 {
            assert forall|k: int| 0 <= k < s.len() implies (#[trigger] s[k]).resource_id@ != id by {
                if k >= 1 {
                    assert(s.skip(1)[k - 1] == s[k]);
                }
            }
        } else {
            assert(s.skip(1)[r] == s[r + 1]);
            assert forall|k: int| 0 <= k < r + 1 implies (#[trigger] s[k]).resource_id@ != id by {
                if k >= 1 {
                    assert(s.skip(1)[k - 1] == s[k]);
                }
            }
        }
    }
}

/// What one forecast over a series looks like: the point forecast and
/// confidence are both computed from the most recent `len_req` samples.
pub open spec fn spec_prediction_of(series: TimeSeriesData, len_req: int, now: i64) -> (
    Seq<char>,
    u64,
    u64,
    u32,
    i64,
) {
    let recent = series.values@.skip(series.values@.len() - len_req);
    (series.resource_id@, spec_forecast_at(recent, 0), spec_confidence(recent), 60u32, now)
}

/// The forecasts an inference pass produces: one per tracked series holding
/// at least `len_req` samples, in registry order.
pub open spec fn spec_predictions(s: Seq<TimeSeriesData>, len_req: int, now: i64) -> Seq<
    (Seq<char>, u64, u64, u32, i64),
>
    decreases s.len(),
{
    if s.len() == 0 {
        Seq::empty()
    } else {
        let rest = spec_predictions(s.drop_last(), len_req, now);
        if s.last().values@.len() >= len_req {
            rest.push(spec_prediction_of(s.last(), len_req, now))
        } else {
            rest
        }
    }
}

/// The per-resource history and the model that reads it.
pub struct LoadPredictor {
    pub model: LSTMModel,
    pub historical_data: Vec<TimeSeriesData>,
}

/// How one recorded sample changes the predictor: the matching series gets
/// the point appended (with batch eviction at the cap), or a fresh
/// single-point cpu-utilization series is registered for an unseen id.
pub open spec fn spec_recorded(
    pre: LoadPredictor,
    post: LoadPredictor,
    id: Seq<char>,
    value: u64,
    t: i64,
) -> bool {
    let j = spec_find_series(pre.historical_data@, id);
    &&& post.model == pre.model
    &&& if j < 0 {
        &&& post.historical_data@.len() == pre.historical_data@.len() + 1
        &&& forall|k: int|
            0 <= k < pre.historical_data@.len() ==> post.historical_data@[k]
                == pre.historical_data@[k]
        &&& post.historical_data@.last().resource_id@ == id
        &&& post.historical_data@.last().metric_type@ == "cpu_utilization"@
        &&& post.historical_data@.last().values@ == seq![value]
        &&& post.historical_data@.last().timestamps@ == seq![t]
    } else {
        &&& post.historical_data@.len() == pre.historical_data@.len()
        &&& forall|k: int|
            0 <= k < pre.historical_data@.len() && k != j ==> post.historical_data@[k]
                == pre.historical_data@[k]
        &&& post.historical_data@[j].resource_id@ == pre.historical_data@[j].resource_id@
        &&& post.historical_data@[j].metric_type@ == pre.historical_data@[j].metric_type@
        &&& post.historical_data@[j].values@ == spec_after_add_values(
            pre.historical_data@[j].values@,
            value,
        )
        &&& post.historical_data@[j].timestamps@ == spec_after_add_timestamps(
            pre.historical_data@[j].timestamps@,
            t,
        )
    }
}

impl LoadPredictor {
    /// Every series is well formed and resource ids are unique keys.
    pub open spec fn wf(&self) -> bool {
        &&& forall|i: int|
            0 <= i < self.historical_data@.len() ==> (#[trigger] self.historical_data@[i]).wf()
        &&& forall|i: int, j: int|
            0 <= i < j < self.historical_data@.len() ==> self.historical_data@[i].resource_id@
                != self.historical_data@[j].resource_id@
    }

    /// A predictor with no history yet.
    pub fn new(model: LSTMModel) -> (predictor: LoadPredictor)
        ensures
            predictor.wf(),
            predictor.model == model,
            predictor.historical_data@.len() == 0,
    {
        LoadPredictor { model, historical_data: Vec::new() }
    }

    /// Records one sample under the given timestamp.
    pub fn record_sample(&mut self, resource_id: String, value: u64, timestamp: i64)
        requires
            old(self).wf(),
            value <= SAMPLE_CAP_MILLI,
        ensures
            final(self).wf(),
            spec_recorded(*old(self), *final(self), resource_id@, value, timestamp),
    {
        proof {
            lemma_find_series(self.historical_data@, resource_id@);
        }
        let n = self.historical_data.len();
        let mut idx: usize = 0;
        let mut found: bool = false;
        while idx < n && !found
            invariant
                n == self.historical_data@.len(),
                idx <= n,
                !found ==> forall|k: int|
                    0 <= k < idx ==> (#[trigger] self.historical_data@[k]).resource_id@
                        != resource_id@,
                found ==> idx < n && self.historical_data@[idx as int].resource_id@
                    == resource_id@ && forall|k: int|
                    0 <= k < idx ==> (#[trigger] self.historical_data@[k]).resource_id@
                        != resource_id@,
            decreases n - idx + (if found {
                0int
            } else {
                1int
            }),
        {
            if self.historical_data[idx].resource_id == resource_id {
                found = true;
            } else {
                idx += 1;
            }
        }
        if found {
            proof {
                assert(spec_find_series(self.historical_data@, resource_id@) == idx);
            }
            let series = &mut self.historical_data[idx];
            series.add_point(timestamp, value);
        } else {
            proof {
                assert(spec_find_series(self.historical_data@, resource_id@) < 0);
            }
            let mut series = TimeSeriesData::new(resource_id, string_cpu_utilization());
            series.add_point(timestamp, value);
            assert(series.values@ =~= seq![value]);
            assert(series.timestamps@ =~= seq![timestamp]);
            self.historical_data.push(series);
        }
    }

    /// Records one sample at the current wall-clock time.
    pub fn update_historical_data(&mut self, resource_id: String, value: u64)
        requires
            old(self).wf(),
            value <= SAMPLE_CAP_MILLI,
        ensures
            final(self).wf(),
            exists|t: i64| spec_recorded(*old(self), *final(self), resource_id@, value, t),
    {
        let t = now_unix_seconds();
        self.record_sample(resource_id, value, t);
    }

    /// The next-hour point forecast for one resource, in milli-percent.
    /// An unknown resource, or one with too little history, reads as zero
    /// ("assume idle"), never as an error.
    pub fn predict_resource_load(&self, resource_id: &String) -> (load: u64)
        requires
            self.wf(),
        ensures
            ({
                let j = spec_find_series(self.historical_data@, resource_id@);
                &&& j < 0 ==> load == 0
                &&& (j >= 0 && self.historical_data@[j].values@.len()
                    < self.model.sequence_length) ==> load == 0
                &&& (j >= 0 && self.historical_data@[j].values@.len()
                    >= self.model.sequence_length) ==> load == spec_forecast_at(
                    self.historical_data@[j].values@.skip(
                        self.historical_data@[j].values@.len() - self.model.sequence_length,
                    ),
                    0,
                )
            }),
    {
        proof {
            lemma_find_series(self.historical_data@, resource_id@);
        }
        let n = self.historical_data.len();
        let mut idx: usize = 0;
        while idx < n
            invariant
                self.wf(),
                n == self.historical_data@.len(),
                idx <= n,
                forall|k: int|
                    0 <= k < idx ==> (#[trigger] self.historical_data@[k]).resource_id@
                        != resource_id@,
            decreases n - idx,
        {
            if self.historical_data[idx].resource_id == *resource_id {
                proof {
                    lemma_find_series(self.historical_data@, resource_id@);
                    assert(spec_find_series(self.historical_data@, resource_id@) == idx);
                }
                let out = self.model.predict(&self.historical_data[idx]);
                return out[0];
            }
            idx += 1;
        }
        proof {
            assert(spec_find_series(self.historical_data@, resource_id@) < 0);
        }
        0
    }

    /// One inference pass stamped with the current wall-clock time.
    pub fn predict_load_next_hour(&self) -> (predictions: Vec<LoadPrediction>)
        requires
            self.wf(),
        ensures
            exists|now: i64|
                predictions@.map_values(|p: LoadPrediction| spec_prediction_view(p))
                    == #[trigger] spec_predictions(
                    self.historical_data@,
                    self.model.sequence_length as int,
                    now,
                ),
    {
        let now = now_unix_seconds();
        self.predict_load_at(now)
    }

    /// One inference pass: a forecast for every tracked resource with enough
    /// history, stamped with the given generation time.
    pub fn predict_load_at(&self, now: i64) -> (predictions: Vec<LoadPrediction>)
        requires
            self.wf(),
        ensures
            predictions@.map_values(|p: LoadPrediction| spec_prediction_view(p))
                == spec_predictions(
                self.historical_data@,
                self.model.sequence_length as int,
                now,
            ),
    {
        let n = self.historical_data.len();
        let mut out: Vec<LoadPrediction> = Vec::new();
        let mut i: usize = 0;
        while i < n
            invariant
                self.wf(),
                n == self.historical_data@.len(),
                i <= n,
                out@.map_values(|p: LoadPrediction| spec_prediction_view(p)) == spec_predictions(
                    self.historical_data@.take(i as int),
                    self.model.sequence_length as int,
                    now,
                ),
            decreases n - i,
        {
            let series = &self.historical_data[i];
            assert(series.wf());
            match series.get_recent_window(self.model.sequence_length) {
                None => {
                    assert(self.historical_data@.take(i + 1 as int).drop_last()
                        =~= self.historical_data@.take(i as int));
                },
                Some(recent) => {
                    let ghost off = series.values@.len() - self.model.sequence_length as int;
                    proof {
                        assert forall|k: int| 0 <= k < recent@.len() implies #[trigger] recent@[k]
                            <= SAMPLE_CAP_MILLI by {
                            assert(recent@[k] == series.values@[off + k]);
                        }
                    }
                    let confidence = calculate_confidence(&recent);
                    let forecast = self.model.predict(series);
                    let prediction = LoadPrediction {
                        resource_id: series.resource_id.clone(),
                        predicted_load: forecast[0],
                        confidence,
                        prediction_horizon_minutes: 60,
                        timestamp: now,
                    };
                    out.push(prediction);
                    proof {
                        assert(self.historical_data@.take(i + 1 as int).drop_last()
                            =~= self.historical_data@.take(i as int));
                        assert(out@.map_values(|p: LoadPrediction| spec_prediction_view(p))
                            =~= spec_predictions(
                            self.historical_data@.take(i + 1 as int),
                            self.model.sequence_length as int,
                            now,
                        ));
                    }
                },
            }
            i += 1;
        }
        proof {
            assert(self.historical_data@.take(n as int) =~= self.historical_data@);
        }
        out
    }
}

/// Owns the string constant the predictor registers new series under.
fn string_cpu_utilization() -> (s: String)
    ensures
        s@ == "cpu_utilization"@,
{
    let s: &str = "cpu_utilization";
    s.to_owned()
}

/// The forecast engine: configuration, the predictor, and a monotonic
/// generation counter that ticks on every model swap.
pub struct MLEngine {
    pub config: MLConfig,
    pub predictor: LoadPredictor,
    pub model_generation: u64,
}

impl MLEngine {
    pub open spec fn wf(&self) -> bool {
        self.predictor.wf()
    }

    /// An engine around an already-built model; the history starts empty and
    /// the generation counter at zero.
    pub fn new(config: MLConfig, model: LSTMModel) -> (engine: MLEngine)
        ensures
            engine.wf(),
            engine.predictor.model == model,
            engine.predictor.historical_data@.len() == 0,
            engine.model_generation == 0,
            engine.config == config,
    {
        MLEngine { config, predictor: LoadPredictor::new(model), model_generation: 0 }
    }

    /// The reference retrain-trigger policy: never retrain. Accuracy-drift
    /// triggers are an extension point layered on the same contract.
    pub fn should_retrain_model(&self) -> (retrain: bool)
        ensures
            !retrain,
    {
        false
    }

    /// Builds the replacement model in full, then swaps it in as one value
    /// and ticks the generation counter: readers of the engine see either
    /// the old or the new model, never a mixture of the two.
    pub fn retrain_model(&mut self, model_version: String)
        requires
            old(self).wf(),
            old(self).model_generation < u64::MAX,
        ensures
            final(self).wf(),
            final(self).config == old(self).config,
            final(self).predictor.historical_data == old(self).predictor.historical_data,
            final(self).model_generation == old(self).model_generation + 1,
            final(self).predictor.model.model_version@ == model_version@,
            final(self).predictor.model.input_size == old(self).predictor.model.input_size,
            final(self).predictor.model.hidden_size == old(self).predictor.model.hidden_size,
            final(self).predictor.model.num_layers == old(self).predictor.model.num_layers,
            final(self).predictor.model.sequence_length == old(
                self,
            ).predictor.model.sequence_length,
    {
        let new_model = self.predictor.model.retrain(model_version);
        self.predictor.model = new_model;
        self.model_generation = self.model_generation + 1;
    }

    /// The next-hour forecast for one resource; zero when the engine has no
    /// signal for it.
    pub fn get_resource_prediction(&self, resource_id: &String) -> (load: u64)
        requires
            self.wf(),
        ensures
            ({
                let j = spec_find_series(self.predictor.historical_data@, resource_id@);
                &&& j < 0 ==> load == 0
                &&& (j >= 0 && self.predictor.historical_data@[j].values@.len()
                    < self.predictor.model.sequence_length) ==> load == 0
                &&& (j >= 0 && self.predictor.historical_data@[j].values@.len()
                    >= self.predictor.model.sequence_length) ==> load == spec_forecast_at(
                    self.predictor.historical_data@[j].values@.skip(
                        self.predictor.historical_data@[j].values@.len()
                            - self.predictor.model.sequence_length,
                    ),
                    0,
                )
            }),
    {
        self.predictor.predict_resource_load(resource_id)
    }

    /// One inference cycle: forecasts for every tracked resource, then the
    /// retrain check (a no-op under the reference policy, so the engine's
    /// state is unchanged).
    pub fn run_inference_cycle(&mut self, now: i64) -> (predictions: Vec<LoadPrediction>)
        requires
            old(self).wf(),
        ensures
            final(self).wf(),
            *final(self) == *old(self),
            predictions@.map_values(|p: LoadPrediction| spec_prediction_view(p))
                == spec_predictions(
                old(self).predictor.historical_data@,
                old(self).predictor.model.sequence_length as int,
                now,
            ),
    {
        let predictions = self.predictor.predict_load_at(now);
        if self.should_retrain_model() {
            let version = String::new();
            if self.model_generation < u64::MAX {
                self.retrain_model(version);
            }
        }
        predictions
    }
}

} // verus!

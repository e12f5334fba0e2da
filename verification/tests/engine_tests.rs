use autoscale_core::config::MLConfig;
use autoscale_core::engine::{LoadPredictor, MLEngine};
use autoscale_core::forecast::LSTMModel;

fn ml_config() -> MLConfig {
    MLConfig {
        model_path: "/var/lib/models/baseline".to_string(),
        inference_interval_seconds: 60,
        retrain_threshold_milli: 100,
    }
}

fn engine() -> MLEngine {
    MLEngine::new(ml_config(), LSTMModel::new("v1.0.0".to_string()))
}

#[test]
fn unknown_resource_predicts_idle() {
    let e = engine();
    assert_eq!(e.get_resource_prediction(&"vm-unknown".to_string()), 0);
}

#[test]
fn short_history_predicts_idle() {
    let mut e = engine();
    for t in 0..10i64 {
        e.predictor.record_sample("vm-1".to_string(), 50_000, t);
    }
    assert_eq!(e.get_resource_prediction(&"vm-1".to_string()), 0);
}

#[test]
fn constant_history_predicts_the_level() {
    let mut e = engine();
    for t in 0..24i64 {
        e.predictor.record_sample("vm-1".to_string(), 50_000, t);
    }
    // A flat history has zero trend and zero seasonal residuals.
    assert_eq!(e.get_resource_prediction(&"vm-1".to_string()), 50_000);
}

#[test]
fn inference_pass_covers_only_resources_with_signal() {
    let mut e = engine();
    for t in 0..24i64 {
        e.predictor.record_sample("vm-ready".to_string(), 50_000, t);
    }
    for t in 0..5i64 {
        e.predictor.record_sample("vm-new".to_string(), 50_000, t);
    }
    let predictions = e.run_inference_cycle(777);
    assert_eq!(predictions.len(), 1);
    let p = &predictions[0];
    assert_eq!(p.resource_id, "vm-ready");
    assert_eq!(p.predicted_load, 50_000);
    // A flat window has zero variance: confidence at the upper clamp.
    assert_eq!(p.confidence, 950);
    assert_eq!(p.prediction_horizon_minutes, 60);
    assert_eq!(p.timestamp, 777);
}

#[test]
fn sample_recording_keeps_one_series_per_resource() {
    let mut predictor = LoadPredictor::new(LSTMModel::new("v1.0.0".to_string()));
    predictor.record_sample("vm-1".to_string(), 10_000, 1);
    predictor.record_sample("vm-2".to_string(), 20_000, 1);
    predictor.record_sample("vm-1".to_string(), 30_000, 2);
    assert_eq!(predictor.historical_data.len(), 2);
    assert_eq!(predictor.historical_data[0].values, vec![10_000, 30_000]);
    assert_eq!(predictor.historical_data[0].metric_type, "cpu_utilization");
}

#[test]
fn wall_clock_recording_appends_like_any_sample() {
    let mut predictor = LoadPredictor::new(LSTMModel::new("v1.0.0".to_string()));
    predictor.update_historical_data("vm-1".to_string(), 42_000);
    assert_eq!(predictor.historical_data.len(), 1);
    assert_eq!(predictor.historical_data[0].values, vec![42_000]);
}

#[test]
fn retrain_swaps_a_whole_model_and_ticks_the_generation() {
    let mut e = engine();
    for t in 0..24i64 {
        e.predictor.record_sample("vm-1".to_string(), 50_000, t);
    }
    assert_eq!(e.model_generation, 0);
    assert!(!e.should_retrain_model());
    e.retrain_model("v1.0.1".to_string());
    assert_eq!(e.model_generation, 1);
    assert_eq!(e.predictor.model.model_version, "v1.0.1");
    assert_eq!(e.predictor.model.sequence_length, 24);
    // The history survives the swap, and predictions continue seamlessly.
    assert_eq!(e.predictor.historical_data.len(), 1);
    assert_eq!(e.get_resource_prediction(&"vm-1".to_string()), 50_000);
    e.retrain_model("v1.0.2".to_string());
    assert_eq!(e.model_generation, 2);
}

use autoscale_core::forecast::{
    calculate_confidence, calculate_linear_trend, calculate_seasonal_pattern, LSTMModel,
};
use autoscale_core::timeseries::TimeSeriesData;

fn series_with(values: &[u64]) -> TimeSeriesData {
    let mut s = TimeSeriesData::new("vm-001".to_string(), "cpu_utilization".to_string());
    for (t, v) in values.iter().enumerate() {
        s.add_point(t as i64, *v);
    }
    s
}

#[test]
fn confidence_of_short_window_is_the_fixed_default() {
    assert_eq!(calculate_confidence(&vec![]), 500);
    assert_eq!(calculate_confidence(&vec![77_000]), 500);
}

#[test]
fn confidence_of_flat_window_hits_upper_clamp() {
    // Zero variance gives 1/(1+0) = 1.0, clamped to 0.95.
    let w = vec![50_000u64; 24];
    assert_eq!(calculate_confidence(&w), 950);
}

#[test]
fn confidence_of_wild_window_hits_lower_clamp() {
    // Alternating 0 / 100 percent has variance 2500 percent^2:
    // 1/(1+2500) is far below the 0.1 clamp.
    let mut w = Vec::new();
    for i in 0..24u64 {
        w.push(if i % 2 == 0 { 0 } else { 100_000 });
    }
    assert_eq!(calculate_confidence(&w), 100);
}

#[test]
fn confidence_stays_in_range_and_falls_with_noise() {
    let flat = vec![40_000u64; 12];
    let mut noisy = Vec::new();
    for i in 0..12u64 {
        noisy.push(40_000 + (i % 3) * 5_000);
    }
    let cf = calculate_confidence(&flat);
    let cn = calculate_confidence(&noisy);
    assert!((100..=950).contains(&cf));
    assert!((100..=950).contains(&cn));
    assert!(cf >= cn);
}

#[test]
fn trend_of_steady_rise_is_exact() {
    assert_eq!(calculate_linear_trend(&vec![0, 1_000, 2_000, 3_000]), 1_000);
    assert_eq!(calculate_linear_trend(&vec![9_000, 9_000, 9_000]), 0);
    assert_eq!(calculate_linear_trend(&vec![3_000, 2_000, 1_000, 0]), -1_000);
    assert_eq!(calculate_linear_trend(&vec![50_000]), 0);
}

#[test]
fn seasonal_pattern_of_flat_or_trending_window_is_zero() {
    // A flat window and a purely linear window leave no residuals once the
    // level and trend are removed.
    let flat = vec![50_000u64; 24];
    assert_eq!(calculate_seasonal_pattern(&flat), vec![0i64; 24]);
    let mut rising = Vec::new();
    for i in 0..24u64 {
        rising.push(i * 1_000);
    }
    assert_eq!(calculate_seasonal_pattern(&rising), vec![0i64; 24]);
}

#[test]
fn seasonal_pattern_captures_per_phase_deviations() {
    // Deviations of equal sign at positions symmetric around the window's
    // middle leave the least-squares slope at zero, so the residuals are
    // exactly the deviations themselves.
    let mut w = vec![50_000u64; 24];
    w[5] = 60_000;
    w[18] = 60_000;
    let seasonal = calculate_seasonal_pattern(&w);
    for i in 0..24usize {
        let expected = if i == 5 || i == 18 { 10_000 } else { 0 };
        assert_eq!(seasonal[i], expected, "coefficient at {i}");
    }
}

#[test]
fn seasonal_pattern_of_short_window_is_flat_zero() {
    let seasonal = calculate_seasonal_pattern(&vec![1_000; 10]);
    assert_eq!(seasonal, vec![0i64; 24]);
}

#[test]
fn predict_without_enough_history_is_flat_zero() {
    let model = LSTMModel::new("v1.0.0".to_string());
    let s = series_with(&[50_000; 10]);
    let out = model.predict(&s);
    assert_eq!(out, vec![0; 24]);
}

#[test]
fn predict_on_constant_series_holds_the_level() {
    // A flat series has zero trend and zero seasonal residuals: the
    // forecast is the last observed level at every step.
    let model = LSTMModel::new("v1.0.0".to_string());
    let s = series_with(&[50_000; 24]);
    let out = model.predict(&s);
    assert_eq!(out, vec![50_000; 24]);
}

#[test]
fn predict_adds_the_seasonal_deviation_at_its_phase() {
    let model = LSTMModel::new("v1.0.0".to_string());
    let mut values = [50_000u64; 24];
    values[5] = 60_000;
    values[18] = 60_000;
    let s = series_with(&values);
    let out = model.predict(&s);
    // Step i reads the seasonal coefficient at cycle position i.
    assert_eq!(out[0], 50_000);
    assert_eq!(out[5], 60_000);
    assert_eq!(out[18], 60_000);
    assert_eq!(out[23], 50_000);
}

#[test]
fn predict_is_clipped_to_percent_range() {
    let model = LSTMModel::new("v1.0.0".to_string());
    let s = series_with(&[100_000; 24]);
    let out = model.predict(&s);
    assert_eq!(out.len(), 24);
    for v in out {
        assert!(v <= 100_000);
    }
}

#[test]
fn model_constructor_and_retrain_keep_hyperparameters() {
    let model = LSTMModel::new("v1.0.0".to_string());
    assert_eq!(model.sequence_length, 24);
    assert_eq!(model.input_size, 10);
    assert_eq!(model.hidden_size, 128);
    assert_eq!(model.num_layers, 2);
    let next = model.retrain("v1.0.1".to_string());
    assert_eq!(next.model_version, "v1.0.1");
    assert_eq!(next.sequence_length, 24);
}

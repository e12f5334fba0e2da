use autoscale_core::smoothing::ExponentialSmoothing;

/// Two periods of a period-24 series around a 50% level: positions 0..12
/// run at 80% of the level, positions 12..24 at 120%.
fn synthetic_seasonal_series() -> Vec<u64> {
    let mut data = Vec::new();
    for t in 0..48usize {
        let position = t % 24;
        data.push(if position < 12 { 40_000 } else { 60_000 });
    }
    data
}

#[test]
fn fit_rejects_less_than_two_seasons() {
    let mut model = ExponentialSmoothing::new(200, 100, 100, 24);
    let short = vec![50_000u64; 47];
    assert!(model.fit(&short).is_err());
    // The failed fit leaves the state untouched.
    assert_eq!(model.level, 0);
    assert_eq!(model.trend, 0);
    assert!(model.seasonal.iter().all(|&s| s == 1000));
}

#[test]
fn fit_accepts_exactly_two_seasons() {
    let mut model = ExponentialSmoothing::new(200, 100, 100, 24);
    let enough = vec![50_000u64; 48];
    assert!(model.fit(&enough).is_ok());
}

#[test]
fn fit_recovers_the_injected_seasonal_pattern() {
    // With all smoothing factors at zero the fitted state is exactly the
    // initialization: level ratios of the injected pattern.
    let mut model = ExponentialSmoothing::new(0, 0, 0, 24);
    model.fit(&synthetic_seasonal_series()).unwrap();
    assert_eq!(model.level, 40_000);
    assert_eq!(model.trend, 0);
    for i in 0..24usize {
        let expected = if i < 12 { 1000 } else { 1500 };
        assert_eq!(model.seasonal[i], expected);
    }
}

#[test]
fn fit_with_smoothing_stays_near_the_injected_pattern() {
    let mut model = ExponentialSmoothing::new(300, 100, 300, 24);
    model.fit(&synthetic_seasonal_series()).unwrap();
    for i in 0..24usize {
        let s = model.seasonal[i];
        if i < 12 {
            assert!((800..=1200).contains(&s), "low-half coefficient {s} at {i}");
        } else {
            assert!((1250..=1750).contains(&s), "high-half coefficient {s} at {i}");
        }
    }
}

#[test]
fn forecast_projects_level_trend_and_season() {
    let mut model = ExponentialSmoothing::new(0, 0, 0, 4);
    model.level = 50_000;
    model.trend = 1_000;
    model.seasonal = vec![1000, 2000, 500, 1000];
    let out = model.forecast(4);
    // step h: (level + h * trend) * seasonal[(h-1) % 4] / 1000
    assert_eq!(out, vec![51_000, 104_000, 26_500, 54_000]);
}

#[test]
fn forecast_floors_negative_projections_at_zero() {
    let mut model = ExponentialSmoothing::new(0, 0, 0, 2);
    model.level = 1_000;
    model.trend = -2_000;
    model.seasonal = vec![1000, 1000];
    let out = model.forecast(3);
    assert_eq!(out[0], 0);
    assert_eq!(out[1], 0);
    assert_eq!(out[2], 0);
}

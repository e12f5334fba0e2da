use autoscale_core::timeseries::{isqrt, TimeSeriesData};

fn series(id: &str) -> TimeSeriesData {
    TimeSeriesData::new(id.to_string(), "cpu_utilization".to_string())
}

#[test]
fn add_point_grows_until_cap() {
    let mut s = series("vm-001");
    for t in 0..1000i64 {
        s.add_point(t, 42_000);
        assert!(s.values.len() <= 1000);
    }
    assert_eq!(s.values.len(), 1000);
    assert_eq!(s.timestamps.len(), 1000);
}

#[test]
fn overflow_evicts_exactly_one_hundred_oldest() {
    let mut s = series("vm-002");
    for t in 0..1000i64 {
        s.add_point(t, t as u64);
    }
    s.add_point(1000, 1000);
    // 1001 points would exceed the cap: the 100 oldest leave as one batch.
    assert_eq!(s.values.len(), 901);
    assert_eq!(s.values[0], 100);
    assert_eq!(s.timestamps[0], 100);
    assert_eq!(*s.values.last().unwrap(), 1000);
    // The cap keeps holding on every later insertion.
    for t in 1001..1400i64 {
        s.add_point(t, 7);
        assert!(s.values.len() <= 1000);
    }
}

#[test]
fn recent_window_returns_last_values() {
    let mut s = series("vm-003");
    for t in 0..30i64 {
        s.add_point(t, 1000 * t as u64);
    }
    assert!(s.get_recent_window(31).is_none());
    let w = s.get_recent_window(5).unwrap();
    assert_eq!(w, vec![25_000, 26_000, 27_000, 28_000, 29_000]);
}

#[test]
fn statistics_of_empty_series_are_zero() {
    let s = series("vm-004");
    let stats = s.calculate_statistics();
    assert_eq!(stats.count, 0);
    assert_eq!(stats.mean, 0);
    assert_eq!(stats.std_dev, 0);
    assert_eq!(stats.min, 0);
    assert_eq!(stats.max, 0);
}

#[test]
fn statistics_exact_values() {
    let mut s = series("vm-005");
    s.add_point(0, 10_000);
    s.add_point(1, 20_000);
    s.add_point(2, 30_000);
    let stats = s.calculate_statistics();
    assert_eq!(stats.count, 3);
    assert_eq!(stats.mean, 20_000);
    assert_eq!(stats.min, 10_000);
    assert_eq!(stats.max, 30_000);
    // Population variance of 10/20/30 percent is 66.67 percent^2; the floor
    // square root in milli-percent is 8164.
    assert_eq!(stats.std_dev, 8164);
}

#[test]
fn isqrt_exact_values() {
    assert_eq!(isqrt(0), 0);
    assert_eq!(isqrt(1), 1);
    assert_eq!(isqrt(15), 3);
    assert_eq!(isqrt(16), 4);
    assert_eq!(isqrt(10_000_000_000), 100_000);
    assert_eq!(isqrt(u64::MAX), 4_294_967_295);
}

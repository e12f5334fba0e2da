use autoscale_core::alerts::{
    acknowledge_alert, determine_trend, needs_alert, prune_alerts, Alert, AlertSeverity,
};
use autoscale_core::errors::{MLError, MetricsError, OpenStackError, SchedulerError};
use autoscale_core::fabric::{Address, FlavorRef, ImageRef, Server, ServerMetrics, ServersResponse};
use std::collections::HashMap;

fn alert(id: &str, resource: &str, severity: AlertSeverity, at: i64) -> Alert {
    Alert {
        id: id.to_string(),
        severity,
        message: "utilization out of bounds".to_string(),
        resource_id: Some(resource.to_string()),
        timestamp: at,
        acknowledged: false,
    }
}

#[test]
fn trend_labels_follow_the_bands() {
    assert_eq!(determine_trend(85_000), "Increasing");
    assert_eq!(determine_trend(70_000), "Stable");
    assert_eq!(determine_trend(50_000), "Stable");
    assert_eq!(determine_trend(30_000), "Stable");
    assert_eq!(determine_trend(10_000), "Decreasing");
}

#[test]
fn duplicate_alerts_are_not_raised() {
    let alerts = vec![alert("a-1", "vm-1", AlertSeverity::Critical, 100)];
    assert!(!needs_alert(&alerts, &"vm-1".to_string(), AlertSeverity::Critical));
    // Another severity, or another resource, still warrants an alert.
    assert!(needs_alert(&alerts, &"vm-1".to_string(), AlertSeverity::Warning));
    assert!(needs_alert(&alerts, &"vm-2".to_string(), AlertSeverity::Critical));
    assert!(needs_alert(&vec![], &"vm-1".to_string(), AlertSeverity::Critical));
}

#[test]
fn pruning_drops_only_old_alerts() {
    let alerts = vec![
        alert("a-1", "vm-1", AlertSeverity::Critical, 100),
        alert("a-2", "vm-2", AlertSeverity::Warning, 4000),
        alert("a-3", "vm-3", AlertSeverity::Info, 50),
    ];
    let kept = prune_alerts(alerts, 100);
    assert_eq!(kept.len(), 1);
    assert_eq!(kept[0].id, "a-2");
}

#[test]
fn acknowledging_marks_exactly_one_alert() {
    let mut alerts = vec![
        alert("a-1", "vm-1", AlertSeverity::Critical, 100),
        alert("a-2", "vm-2", AlertSeverity::Warning, 200),
    ];
    assert!(acknowledge_alert(&mut alerts, &"a-2".to_string()));
    assert!(!alerts[0].acknowledged);
    assert!(alerts[1].acknowledged);
    assert!(!acknowledge_alert(&mut alerts, &"a-9".to_string()));
}

#[test]
fn memory_utilization_is_a_capped_ratio() {
    let mut m = ServerMetrics {
        server_id: "vm-1".to_string(),
        cpu_utilization: 45_200,
        memory_usage: 2048,
        memory_total: 4096,
        disk_read_bytes: 0,
        disk_write_bytes: 0,
        network_rx_bytes: 0,
        network_tx_bytes: 0,
        timestamp: 0,
    };
    assert_eq!(m.memory_utilization_milli(), 50_000);
    m.memory_usage = 5000;
    assert_eq!(m.memory_utilization_milli(), 100_000);
    m.memory_total = 0;
    assert_eq!(m.memory_utilization_milli(), 100_000);
    m.memory_total = 3;
    m.memory_usage = 1;
    assert_eq!(m.memory_utilization_milli(), 33_333);
}

#[test]
fn error_variants_carry_their_context() {
    let auth = OpenStackError::AuthError("token expired".to_string());
    assert!(matches!(auth, OpenStackError::AuthError(_)));
    let api = OpenStackError::ApiError { status: 503, message: "unavailable".to_string() };
    assert!(matches!(api, OpenStackError::ApiError { status: 503, .. }));
    let kafka = MetricsError::KafkaError("broker down".to_string());
    assert!(matches!(kafka, MetricsError::KafkaError(_)));
    let training = MLError::TrainingError("insufficient data".to_string());
    assert!(matches!(training, MLError::TrainingError(_)));
    let placement = SchedulerError::PlacementError("no feasible host".to_string());
    assert!(matches!(placement, SchedulerError::PlacementError(_)));
}

#[test]
fn server_listing_types_round_out_the_data_model() {
    let mut addresses = HashMap::new();
    addresses.insert(
        "private".to_string(),
        vec![Address { addr: "10.0.0.7".to_string(), ip_type: "fixed".to_string() }],
    );
    let server = Server {
        id: "vm-1".to_string(),
        name: "web-server-1".to_string(),
        status: "ACTIVE".to_string(),
        flavor: FlavorRef { id: "m1.small".to_string() },
        image: ImageRef { id: "ubuntu-22.04".to_string() },
        created: "2026-01-01T00:00:00Z".to_string(),
        updated: "2026-01-02T00:00:00Z".to_string(),
        addresses,
        metadata: HashMap::new(),
    };
    let listing = ServersResponse { servers: vec![server] };
    assert_eq!(listing.servers.len(), 1);
    assert_eq!(listing.servers[0].addresses["private"][0].addr, "10.0.0.7");
}

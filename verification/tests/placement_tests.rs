use autoscale_core::placement::{
    calculate_placement_score, calculate_utilization_score, can_host_resource, find_optimal_host,
    HostMetrics, PlacementEngine, ResourceRequirements,
};

fn host(id: &str, cpu: u64, mem: u64, net: u64, vms: u32, vcpus: u32, mem_mb: u64) -> HostMetrics {
    HostMetrics {
        host_id: id.to_string(),
        cpu_utilization: cpu,
        memory_utilization: mem,
        disk_utilization: 30_000,
        network_utilization: net,
        vm_count: vms,
        available_vcpus: vcpus,
        available_memory_mb: mem_mb,
        last_updated: 0,
    }
}

fn small_request() -> ResourceRequirements {
    ResourceRequirements { vcpus: 2, memory_mb: 4096, disk_gb: 20, network_bandwidth_mbps: 100 }
}

#[test]
fn utilization_score_peaks_at_target() {
    assert_eq!(calculate_utilization_score(65_000), 100_000);
    assert_eq!(calculate_utilization_score(45_000), 80_000);
    assert_eq!(calculate_utilization_score(85_000), 80_000);
    assert_eq!(calculate_utilization_score(0), 35_000);
    assert_eq!(calculate_utilization_score(100_000), 65_000);
    // Milli-percent differences are not rounded away.
    assert_eq!(calculate_utilization_score(45_200), 80_200);
    assert_ne!(calculate_utilization_score(45_001), calculate_utilization_score(45_002));
}

#[test]
fn feasibility_gate_checks_capacity_and_utilization() {
    let req = small_request();
    assert!(can_host_resource(&host("h", 45_000, 60_000, 25_000, 12, 16, 32_768), &req));
    // Too little spare capacity.
    assert!(!can_host_resource(&host("h", 45_000, 60_000, 25_000, 12, 1, 32_768), &req));
    assert!(!can_host_resource(&host("h", 45_000, 60_000, 25_000, 12, 16, 1_024), &req));
    // Utilization at the cap makes the host infeasible.
    assert!(!can_host_resource(&host("h", 90_000, 60_000, 25_000, 12, 16, 32_768), &req));
    assert!(!can_host_resource(&host("h", 45_000, 90_000, 25_000, 12, 16, 32_768), &req));
}

#[test]
fn placement_score_exact_breakdown() {
    let req = small_request();
    let s = calculate_placement_score(&host("compute-1", 45_000, 60_000, 25_000, 12, 16, 32_768), &req);
    assert_eq!(s.cpu_score, 80_000);
    assert_eq!(s.memory_score, 95_000);
    assert_eq!(s.network_score, 60_000);
    assert_eq!(s.consolidation_score, 60_000);
    assert_eq!(s.score, 765_000);
    // Consolidation rewards bin-packing only up to the cap of 20 guests.
    let busy = calculate_placement_score(&host("compute-3", 45_000, 60_000, 25_000, 40, 16, 32_768), &req);
    assert_eq!(busy.consolidation_score, 100_000);
}

#[test]
fn optimal_host_prefers_the_higher_score() {
    let req = small_request();
    let hosts = vec![
        host("compute-1", 45_000, 60_000, 25_000, 12, 16, 32_768),
        host("compute-2", 70_000, 80_000, 40_000, 18, 8, 16_384),
    ];
    // compute-2 scores 870_000 against compute-1's 765_000.
    assert_eq!(find_optimal_host(&req, &hosts).as_deref(), Some("compute-2"));
}

#[test]
fn optimal_host_skips_infeasible_hosts() {
    let req = small_request();
    let hosts = vec![
        host("hot", 95_000, 40_000, 10_000, 19, 64, 65_536),
        host("ok", 10_000, 10_000, 10_000, 0, 4, 8_192),
    ];
    assert_eq!(find_optimal_host(&req, &hosts).as_deref(), Some("ok"));
}

#[test]
fn no_feasible_host_yields_none() {
    let req = small_request();
    let hosts = vec![
        host("full", 95_000, 95_000, 10_000, 10, 64, 65_536),
        host("tiny", 10_000, 10_000, 10_000, 0, 1, 512),
    ];
    assert!(find_optimal_host(&req, &hosts).is_none());
    assert!(find_optimal_host(&req, &vec![]).is_none());
}

#[test]
fn score_ties_go_to_the_first_host() {
    let req = small_request();
    let hosts = vec![
        host("alpha", 65_000, 65_000, 65_000, 20, 16, 32_768),
        host("beta", 65_000, 65_000, 65_000, 20, 16, 32_768),
    ];
    assert_eq!(find_optimal_host(&req, &hosts).as_deref(), Some("alpha"));
}

#[test]
fn engine_tracks_hosts_by_id() {
    let req = small_request();
    let mut engine = PlacementEngine::new();
    assert!(engine.select_host(&req).is_none());
    engine.update_host(host("compute-1", 45_000, 60_000, 25_000, 12, 16, 32_768));
    engine.update_host(host("compute-2", 70_000, 80_000, 40_000, 18, 8, 16_384));
    assert_eq!(engine.select_host(&req).as_deref(), Some("compute-2"));
    // Refreshing compute-2 past the feasibility cap re-keys, not duplicates.
    engine.update_host(host("compute-2", 95_000, 80_000, 40_000, 18, 8, 16_384));
    assert_eq!(engine.host_metrics.len(), 2);
    assert_eq!(engine.select_host(&req).as_deref(), Some("compute-1"));
}

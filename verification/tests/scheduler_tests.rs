use autoscale_core::config::SchedulerConfig;
use autoscale_core::placement::{HostMetrics, ResourceRequirements};
use autoscale_core::scheduler::{
    order_decisions, ResourceEvaluation, ResourceScheduler, SchedulingAction, SchedulingDecision,
};
use autoscale_core::sla::SLAStatus;

fn config() -> SchedulerConfig {
    SchedulerConfig {
        scheduling_interval_seconds: 30,
        high_load_threshold_milli: 80_000,
        low_load_threshold_milli: 20_000,
        sla_check_interval_seconds: 60,
    }
}

fn status(critical: bool) -> SLAStatus {
    SLAStatus { is_critical: critical, impact_score: 100, deadline_minutes: 30 }
}

fn decision(id: &str, action: SchedulingAction, priority: u8) -> SchedulingDecision {
    SchedulingDecision {
        resource_id: id.to_string(),
        action,
        target_host: None,
        priority,
        sla_impact: 0,
    }
}

fn host(id: &str, cpu: u64, mem: u64) -> HostMetrics {
    HostMetrics {
        host_id: id.to_string(),
        cpu_utilization: cpu,
        memory_utilization: mem,
        disk_utilization: 10_000,
        network_utilization: 10_000,
        vm_count: 5,
        available_vcpus: 16,
        available_memory_mb: 32_768,
        last_updated: 0,
    }
}

fn request() -> ResourceRequirements {
    ResourceRequirements { vcpus: 2, memory_mb: 4096, disk_gb: 20, network_bandwidth_mbps: 100 }
}

#[test]
fn high_load_on_critical_resource_migrates_at_top_priority() {
    let scheduler = ResourceScheduler::new(config());
    let d = scheduler.make_scheduling_decision(&"vm-1".to_string(), 85_000, &status(true));
    assert_eq!(d.action, SchedulingAction::Migrate);
    assert_eq!(d.priority, 1);
    assert_eq!(d.resource_id, "vm-1");
    assert!(d.target_host.is_none());
}

#[test]
fn high_load_on_ordinary_resource_scales() {
    let scheduler = ResourceScheduler::new(config());
    let d = scheduler.make_scheduling_decision(&"vm-2".to_string(), 85_000, &status(false));
    assert_eq!(d.action, SchedulingAction::Scale);
    assert_eq!(d.priority, 5);
}

#[test]
fn low_load_consolidates() {
    let scheduler = ResourceScheduler::new(config());
    let d = scheduler.make_scheduling_decision(&"vm-3".to_string(), 10_000, &status(false));
    assert_eq!(d.action, SchedulingAction::Consolidate);
    assert_eq!(d.priority, 5);
}

#[test]
fn moderate_load_takes_no_action_and_is_excluded() {
    let scheduler = ResourceScheduler::new(config());
    let d = scheduler.make_scheduling_decision(&"vm-4".to_string(), 50_000, &status(true));
    assert_eq!(d.action, SchedulingAction::NoAction);
    let evals = vec![ResourceEvaluation {
        resource_id: "vm-4".to_string(),
        predicted_load: 50_000,
        status: status(true),
    }];
    assert!(scheduler.plan_scheduling_cycle(&evals).is_empty());
}

#[test]
fn threshold_boundaries_are_strict() {
    let scheduler = ResourceScheduler::new(config());
    // Exactly at a threshold neither rule fires.
    let at_high = scheduler.make_scheduling_decision(&"vm-5".to_string(), 80_000, &status(true));
    assert_eq!(at_high.action, SchedulingAction::NoAction);
    let at_low = scheduler.make_scheduling_decision(&"vm-5".to_string(), 20_000, &status(false));
    assert_eq!(at_low.action, SchedulingAction::NoAction);
}

#[test]
fn ordering_is_stable_and_ascending_by_priority() {
    let decisions = vec![
        decision("a", SchedulingAction::Scale, 5),
        decision("b", SchedulingAction::Migrate, 1),
        decision("c", SchedulingAction::Consolidate, 5),
        decision("d", SchedulingAction::Migrate, 1),
    ];
    let ordered = order_decisions(&decisions);
    let ids: Vec<&str> = ordered.iter().map(|d| d.resource_id.as_str()).collect();
    assert_eq!(ids, vec!["b", "d", "a", "c"]);
    assert!(ordered.windows(2).all(|w| w[0].priority <= w[1].priority));
}

#[test]
fn cycle_decides_filters_and_orders() {
    let scheduler = ResourceScheduler::new(config());
    let evals = vec![
        ResourceEvaluation {
            resource_id: "idle".to_string(),
            predicted_load: 5_000,
            status: status(false),
        },
        ResourceEvaluation {
            resource_id: "steady".to_string(),
            predicted_load: 50_000,
            status: status(false),
        },
        ResourceEvaluation {
            resource_id: "hot-critical".to_string(),
            predicted_load: 95_000,
            status: status(true),
        },
    ];
    let decisions = scheduler.plan_scheduling_cycle(&evals);
    assert_eq!(decisions.len(), 2);
    assert_eq!(decisions[0].resource_id, "idle");
    assert_eq!(decisions[1].resource_id, "hot-critical");
    let ordered = order_decisions(&decisions);
    assert_eq!(ordered[0].resource_id, "hot-critical");
    assert_eq!(ordered[1].resource_id, "idle");
}

#[test]
fn execution_plan_resolves_migration_targets() {
    let mut scheduler = ResourceScheduler::new(config());
    scheduler.placement_engine.update_host(host("target", 40_000, 40_000));
    let decisions = vec![
        decision("mover", SchedulingAction::Migrate, 1),
        decision("grower", SchedulingAction::Scale, 5),
    ];
    let plan = scheduler.plan_execution(&decisions, &request());
    assert_eq!(plan.len(), 2);
    assert_eq!(plan[0].resource_id, "mover");
    assert_eq!(plan[0].target_host.as_deref(), Some("target"));
    assert_eq!(plan[1].resource_id, "grower");
    assert!(plan[1].target_host.is_none());
}

#[test]
fn unplaceable_migration_is_dropped_for_the_cycle() {
    let mut scheduler = ResourceScheduler::new(config());
    scheduler.placement_engine.update_host(host("overloaded", 95_000, 95_000));
    let decisions = vec![
        decision("mover", SchedulingAction::Migrate, 1),
        decision("packer", SchedulingAction::Consolidate, 5),
    ];
    let plan = scheduler.plan_execution(&decisions, &request());
    assert_eq!(plan.len(), 1);
    assert_eq!(plan[0].resource_id, "packer");
}

#[test]
fn full_cycle_end_to_end() {
    let mut scheduler = ResourceScheduler::new(config());
    scheduler.placement_engine.update_host(host("roomy", 30_000, 30_000));
    let evals = vec![
        ResourceEvaluation {
            resource_id: "hot".to_string(),
            predicted_load: 90_000,
            status: status(true),
        },
        ResourceEvaluation {
            resource_id: "cold".to_string(),
            predicted_load: 1_000,
            status: status(false),
        },
    ];
    let plan = scheduler.run_scheduling_cycle(&evals, &request());
    assert_eq!(plan.len(), 2);
    assert_eq!(plan[0].resource_id, "hot");
    assert_eq!(plan[0].action, SchedulingAction::Migrate);
    assert_eq!(plan[0].target_host.as_deref(), Some("roomy"));
    assert_eq!(plan[1].resource_id, "cold");
    assert_eq!(plan[1].action, SchedulingAction::Consolidate);
}

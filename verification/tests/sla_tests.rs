use autoscale_core::sla::{
    calculate_impact_score, ResourceMetrics, SLAManager, SLAPolicy, SLAPriority, SLAStatus,
    SLAViolation, ViolationType,
};

fn policy(id: &str, cpu: u64, mem: u64, rt: u64, priority: SLAPriority) -> SLAPolicy {
    SLAPolicy {
        resource_id: id.to_string(),
        max_cpu_utilization: cpu,
        max_memory_utilization: mem,
        max_response_time_ms: rt,
        min_availability_percent: 99_000,
        priority,
        deadline_minutes: 30,
    }
}

fn metrics(cpu: u64, mem: u64, rt: u64) -> ResourceMetrics {
    ResourceMetrics {
        cpu_utilization: cpu,
        memory_utilization: mem,
        response_time_ms: rt,
        availability_percent: 99_500,
    }
}

fn violation(id: &str, at: i64) -> SLAViolation {
    SLAViolation {
        resource_id: id.to_string(),
        violation_type: ViolationType::CpuUtilization,
        severity: 500,
        timestamp: at,
        resolved: false,
    }
}

#[test]
fn impact_score_exact_value() {
    // A breach of 85% against an 80% threshold is a ratio of 62 thousandths
    // (floor of 62.5) at the Critical multiplier of 1.0.
    assert_eq!(calculate_impact_score(85_000, 80_000, SLAPriority::Critical), 62);
    assert_eq!(calculate_impact_score(85_000, 80_000, SLAPriority::High), 49);
    assert_eq!(calculate_impact_score(85_000, 80_000, SLAPriority::Medium), 37);
    assert_eq!(calculate_impact_score(85_000, 80_000, SLAPriority::Low), 24);
    assert_eq!(calculate_impact_score(80_000, 80_000, SLAPriority::Critical), 0);
}

#[test]
fn compliance_check_without_policy_is_permissive() {
    let manager = SLAManager::new();
    let status = manager.check_sla_compliance(&"vm-x".to_string(), &metrics(99_000, 99_000, 9_999));
    assert_eq!(
        status,
        SLAStatus { is_critical: false, impact_score: 0, deadline_minutes: 60 }
    );
}

#[test]
fn compliance_check_accumulates_breaches() {
    let mut manager = SLAManager::new();
    manager
        .add_sla_policy(policy("vm-1", 80_000, 80_000, 200, SLAPriority::Critical))
        .unwrap();
    // Only cpu breached: impact 62, critical because the tier is Critical.
    let s = manager.check_sla_compliance(&"vm-1".to_string(), &metrics(85_000, 50_000, 100));
    assert!(s.is_critical);
    assert_eq!(s.impact_score, 62);
    assert_eq!(s.deadline_minutes, 30);
    // Response time adds its fixed 0.3 regardless of magnitude.
    let s2 = manager.check_sla_compliance(&"vm-1".to_string(), &metrics(85_000, 50_000, 5_000));
    assert_eq!(s2.impact_score, 362);
    // No breach at all: not critical even under a Critical policy.
    let s3 = manager.check_sla_compliance(&"vm-1".to_string(), &metrics(10_000, 10_000, 100));
    assert!(!s3.is_critical);
    assert_eq!(s3.impact_score, 0);
}

#[test]
fn non_critical_tier_never_reports_critical() {
    let mut manager = SLAManager::new();
    manager
        .add_sla_policy(policy("vm-2", 80_000, 80_000, 200, SLAPriority::High))
        .unwrap();
    let s = manager.check_sla_compliance(&"vm-2".to_string(), &metrics(95_000, 95_000, 5_000));
    assert!(!s.is_critical);
    assert!(s.impact_score > 0);
}

#[test]
fn malformed_policy_is_rejected_at_registration() {
    let mut manager = SLAManager::new();
    assert!(manager.add_sla_policy(policy("vm-3", 0, 80_000, 200, SLAPriority::Low)).is_err());
    assert!(manager
        .add_sla_policy(policy("vm-3", 80_000, 150_000, 200, SLAPriority::Low))
        .is_err());
    let mut zero_deadline = policy("vm-3", 80_000, 80_000, 200, SLAPriority::Low);
    zero_deadline.deadline_minutes = 0;
    assert!(manager.add_sla_policy(zero_deadline).is_err());
    assert_eq!(manager.sla_policies.len(), 0);
    assert!(manager.add_sla_policy(policy("vm-3", 80_000, 80_000, 200, SLAPriority::Low)).is_ok());
    assert_eq!(manager.sla_policies.len(), 1);
}

#[test]
fn policy_replacement_keeps_one_entry_per_resource() {
    let mut manager = SLAManager::new();
    manager.add_sla_policy(policy("vm-4", 80_000, 80_000, 200, SLAPriority::Low)).unwrap();
    manager.add_sla_policy(policy("vm-4", 70_000, 70_000, 100, SLAPriority::Critical)).unwrap();
    assert_eq!(manager.sla_policies.len(), 1);
    assert_eq!(manager.sla_policies[0].max_cpu_utilization, 70_000);
}

#[test]
fn violation_ledger_is_append_only() {
    let mut manager = SLAManager::new();
    assert!(manager.get_violation_history(&"vm-5".to_string()).is_empty());
    manager.record_violation(violation("vm-5", 100));
    manager.record_violation(violation("vm-5", 200));
    manager.record_violation(violation("other", 150));
    let history = manager.get_violation_history(&"vm-5".to_string());
    assert_eq!(history.len(), 2);
    assert_eq!(history[0].timestamp, 100);
    assert_eq!(history[1].timestamp, 200);
}

#[test]
fn compliance_rate_is_full_for_empty_ledger() {
    let manager = SLAManager::new();
    assert_eq!(manager.compliance_rate_at(&"vm-6".to_string(), 24, 1_000_000), 100_000);
}

#[test]
fn compliance_rate_exact_with_one_recent_violation() {
    let mut manager = SLAManager::new();
    let now: i64 = 10_000;
    manager.record_violation(violation("vm-7", now - 60));
    // One violation costs 5 of the 60 window minutes: 55/60 of 100%.
    assert_eq!(manager.compliance_rate_at(&"vm-7".to_string(), 1, now), 91_666);
}

#[test]
fn compliance_rate_ignores_violations_outside_the_window() {
    let mut manager = SLAManager::new();
    let now: i64 = 1_000_000;
    manager.record_violation(violation("vm-8", now - 2 * 3600));
    assert_eq!(manager.compliance_rate_at(&"vm-8".to_string(), 1, now), 100_000);
    assert_eq!(manager.compliance_rate_at(&"vm-8".to_string(), 3, now), 97_222);
}

#[test]
fn compliance_rate_clamps_at_zero() {
    let mut manager = SLAManager::new();
    let now: i64 = 50_000;
    for k in 0..20 {
        manager.record_violation(violation("vm-9", now - k));
    }
    // 20 violations consume 100 minutes of a 60-minute window.
    assert_eq!(manager.compliance_rate_at(&"vm-9".to_string(), 1, now), 0);
}

#[test]
fn clock_based_compliance_rate_reports_its_evaluation_time() {
    let mut manager = SLAManager::new();
    manager.record_violation(violation("vm-10", 0));
    let (rate, evaluated_at) = manager.calculate_sla_compliance_rate(&"vm-10".to_string(), 24);
    assert!(rate <= 100_000);
    // The returned evaluation time pins the rate: recomputing at that time
    // gives the same answer.
    assert_eq!(rate, manager.compliance_rate_at(&"vm-10".to_string(), 24, evaluated_at));
}

#[test]
fn critical_resource_ids_lists_critical_policies_in_order() {
    let mut manager = SLAManager::new();
    manager.add_sla_policy(policy("vm-a", 80_000, 80_000, 200, SLAPriority::Low)).unwrap();
    manager.add_sla_policy(policy("vm-b", 80_000, 80_000, 200, SLAPriority::Critical)).unwrap();
    manager.add_sla_policy(policy("vm-c", 80_000, 80_000, 200, SLAPriority::High)).unwrap();
    manager.add_sla_policy(policy("vm-d", 80_000, 80_000, 200, SLAPriority::Critical)).unwrap();
    assert_eq!(manager.critical_resource_ids(), vec!["vm-b".to_string(), "vm-d".to_string()]);
}

use autoscale_core::registry::{id_lt, ResourceInfo, ResourceRegistry};

fn info(kind: &str, last: i64, every: u64) -> ResourceInfo {
    ResourceInfo {
        resource_type: kind.to_string(),
        last_collected: last,
        collection_interval_seconds: every,
    }
}

#[test]
fn id_order_is_lexicographic() {
    assert!(id_lt(&"a".to_string(), &"b".to_string()));
    assert!(!id_lt(&"b".to_string(), &"a".to_string()));
    assert!(id_lt(&"vm-1".to_string(), &"vm-10".to_string()));
    assert!(!id_lt(&"vm-2".to_string(), &"vm-2".to_string()));
    assert!(id_lt(&"".to_string(), &"a".to_string()));
}

#[test]
fn discovery_upserts_without_duplicates() {
    let mut registry = ResourceRegistry::new();
    registry.register("vm-1".to_string(), info("compute", 100, 30));
    registry.register("vm-2".to_string(), info("compute", 100, 30));
    registry.register("vm-1".to_string(), info("compute", 200, 60));
    assert_eq!(registry.resources.len(), 2);
    assert_eq!(registry.resources[0].info.last_collected, 200);
    assert_eq!(registry.resources[0].info.collection_interval_seconds, 60);
}

#[test]
fn due_resources_respects_intervals() {
    let mut registry = ResourceRegistry::new();
    registry.register("fresh".to_string(), info("compute", 95, 30));
    registry.register("stale".to_string(), info("compute", 10, 30));
    registry.register("network".to_string(), info("network", 40, 60));
    let due = registry.due_resources(100);
    assert_eq!(due, vec!["stale".to_string(), "network".to_string()]);
}

#[test]
fn collection_refreshes_the_deadline() {
    let mut registry = ResourceRegistry::new();
    registry.register("vm-1".to_string(), info("compute", 10, 30));
    assert_eq!(registry.due_resources(100), vec!["vm-1".to_string()]);
    registry.mark_collected(&"vm-1".to_string(), 100);
    assert!(registry.due_resources(100).is_empty());
    assert_eq!(registry.resources[0].info.last_collected, 100);
}

#[test]
fn deadline_queue_serves_the_nearest_deadline_first() {
    let mut registry = ResourceRegistry::new();
    assert!(registry.next_deadline().is_none());
    registry.register("relaxed".to_string(), info("compute", 100, 300));
    registry.register("urgent".to_string(), info("compute", 40, 30));
    // Deadlines are 400 and 70: the nearer one wins regardless of order.
    assert_eq!(registry.next_deadline().as_deref(), Some("urgent"));
}

#[test]
fn critical_deadline_queue_ignores_best_effort_resources() {
    let mut registry = ResourceRegistry::new();
    registry.register("best-effort".to_string(), info("compute", 0, 10));
    registry.register("critical-late".to_string(), info("compute", 100, 300));
    registry.register("critical-soon".to_string(), info("compute", 40, 30));
    let critical = vec!["critical-late".to_string(), "critical-soon".to_string()];
    // best-effort has the nearest deadline of all, but only the SLA-bound
    // resources compete in this queue.
    assert_eq!(registry.next_deadline_among(&critical).as_deref(), Some("critical-soon"));
    assert!(registry.next_deadline_among(&vec![]).is_none());
    assert!(registry.next_deadline_among(&vec!["unknown".to_string()]).is_none());
}

#[test]
fn deadline_ties_break_by_resource_id() {
    let mut registry = ResourceRegistry::new();
    registry.register("vm-b".to_string(), info("compute", 50, 50));
    registry.register("vm-a".to_string(), info("compute", 60, 40));
    // Both deadlines are 100; vm-a sorts first.
    assert_eq!(registry.next_deadline().as_deref(), Some("vm-a"));
}

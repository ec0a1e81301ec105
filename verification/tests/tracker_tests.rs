use bueno::tracker::{PromiseHookKind, PromiseMetricsTracker};

#[test]
fn pending_counts_initialized_minus_resolved() {
    let mut t = PromiseMetricsTracker::new();
    t.track("A".to_string());
    t.initialized(1);
    t.initialized(2);
    t.initialized(3);
    assert_eq!(t.pending(&"A".to_string()), 3);
    t.resolved(1);
    assert_eq!(t.pending(&"A".to_string()), 2);
    t.resolved(2);
    t.resolved(3);
    assert_eq!(t.pending(&"A".to_string()), 0);
}

#[test]
fn resolving_untracked_identity_changes_nothing() {
    let mut t = PromiseMetricsTracker::new();
    t.track("A".to_string());
    t.initialized(1);
    t.resolved(99);
    assert_eq!(t.pending(&"A".to_string()), 1);
    t.resolved(1);
    t.resolved(1);
    assert_eq!(t.pending(&"A".to_string()), 0);
}

#[test]
fn events_before_any_track_are_ignored() {
    let mut t = PromiseMetricsTracker::new();
    t.initialized(7);
    t.track("A".to_string());
    t.resolved(7);
    assert_eq!(t.pending(&"A".to_string()), 0);
    assert_eq!(t.pending(&"never-tracked".to_string()), 0);
}

#[test]
fn track_rebinding_attributes_to_latest_name() {
    let mut t = PromiseMetricsTracker::new();
    t.track("A".to_string());
    t.initialized(1);
    t.track("B".to_string());
    t.initialized(2);
    t.initialized(3);
    assert_eq!(t.pending(&"A".to_string()), 1);
    assert_eq!(t.pending(&"B".to_string()), 2);
    assert_eq!(t.pending_current(), 2);
}

#[test]
fn retracking_keeps_existing_metrics() {
    let mut t = PromiseMetricsTracker::new();
    t.track("A".to_string());
    t.initialized(1);
    t.track("B".to_string());
    t.track("A".to_string());
    assert_eq!(t.pending(&"A".to_string()), 1);
    t.initialized(2);
    assert_eq!(t.pending(&"A".to_string()), 2);
}

#[test]
fn hook_dispatch_ignores_other_event_kinds() {
    let mut t = PromiseMetricsTracker::new();
    t.track("A".to_string());
    t.on_promise_event(PromiseHookKind::Init, 1);
    t.on_promise_event(PromiseHookKind::Before, 1);
    t.on_promise_event(PromiseHookKind::After, 1);
    assert_eq!(t.pending(&"A".to_string()), 1);
    t.on_promise_event(PromiseHookKind::Resolve, 1);
    assert_eq!(t.pending(&"A".to_string()), 0);
}

#[test]
fn pending_current_without_bound_test_is_zero() {
    let t = PromiseMetricsTracker::new();
    assert_eq!(t.pending_current(), 0);
}

#[test]
fn reused_identity_is_reattributed() {
    let mut t = PromiseMetricsTracker::new();
    t.track("A".to_string());
    t.initialized(1);
    t.resolved(1);
    t.track("B".to_string());
    t.initialized(1);
    assert_eq!(t.pending(&"A".to_string()), 0);
    assert_eq!(t.pending(&"B".to_string()), 1);
    t.resolved(1);
    assert_eq!(t.pending(&"B".to_string()), 0);
}

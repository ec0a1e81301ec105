use bueno::ops_metrics::{outstanding, OpMetricsSummary};
use bueno::runtime_state::RuntimeState;

#[test]
fn outstanding_without_aggregator_is_zero() {
    assert_eq!(outstanding(&None), 0);
}

#[test]
fn outstanding_is_zero_when_dispatched_equals_completed() {
    let s = OpMetricsSummary { ops_dispatched_async: 42, ops_completed_async: 42 };
    assert_eq!(outstanding(&Some(s)), 0);
}

#[test]
fn outstanding_is_dispatched_minus_completed() {
    let s = OpMetricsSummary { ops_dispatched_async: 7, ops_completed_async: 3 };
    assert_eq!(outstanding(&Some(s)), 4);
    let s = OpMetricsSummary { ops_dispatched_async: u64::MAX, ops_completed_async: 0 };
    assert_eq!(outstanding(&Some(s)), u64::MAX);
}

#[test]
fn runtime_state_names() {
    assert_eq!(RuntimeState::Default.to_string(), "default");
    assert_eq!(RuntimeState::Test.to_string(), "test");
    assert_eq!(RuntimeState::Bench.to_string(), "bench");
}

#[test]
fn runtime_state_parses_case_insensitively() {
    assert_eq!(RuntimeState::from_str("run").unwrap(), RuntimeState::Default);
    assert_eq!(RuntimeState::from_str("default").unwrap(), RuntimeState::Default);
    assert_eq!(RuntimeState::from_str("DEFAULT").unwrap(), RuntimeState::Default);
    assert_eq!(RuntimeState::from_str("Test").unwrap(), RuntimeState::Test);
    assert_eq!(RuntimeState::from_str("BENCH").unwrap(), RuntimeState::Bench);
}

#[test]
fn runtime_state_rejects_unknown_names_keeping_input() {
    match RuntimeState::from_str("benchmark") {
        Ok(_) => panic!("an unknown mode name must be rejected"),
        Err(e) => assert_eq!(e.input, "benchmark"),
    }
    assert!(RuntimeState::from_str("").is_err());
    assert!(RuntimeState::from_str("run ").is_err());
}

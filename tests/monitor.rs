use hl_bootstrap::monitor::{
    forward_header, health_status, init_metrics, livez, readyz, HealthPoller, HealthState, PollOutcome,
};

#[test]
fn starts_not_responding() {
    let s = init_metrics();
    assert!(!livez(&s));
    assert!(!readyz(&s, 2500));
    assert!(!HealthPoller::new().state.node_responding);
}

#[test]
fn drift_over_threshold_is_not_ready() {
    let s = HealthState { last_system_time_ms: 1_000_003_000, last_node_time_ms: 1_000_000_000, node_responding: true };
    assert!(livez(&s));
    assert!(!readyz(&s, 2500));
    assert_eq!(health_status(readyz(&s, 2500)), 503);
    let ok = HealthState { last_node_time_ms: 1_000_001_000, ..s };
    assert_eq!(health_status(readyz(&ok, 2500)), 200);
    let at = HealthState { last_node_time_ms: 1_000_000_500, ..s };
    assert!(!readyz(&at, 2500));
}

#[test]
fn node_ahead_counts_as_no_drift() {
    let s = HealthState { last_system_time_ms: 1000, last_node_time_ms: 5000, node_responding: true };
    assert!(readyz(&s, 1));
}

#[test]
fn poll_outcomes_update_state() {
    let mut p = HealthPoller::new();
    let r = p.record_poll(10_000, PollOutcome::Responded(9_000));
    assert_eq!(r.drift_ms, Some(1_000));
    assert!(p.state.node_responding);
    assert_eq!(p.state.last_node_time_ms, 9_000);
    let r = p.record_poll(10_100, PollOutcome::Unreachable);
    assert_eq!(r.drift_ms, None);
    assert!(!r.report_failure);
    assert!(!p.state.node_responding);
    assert_eq!(p.state.last_system_time_ms, 10_100);
    assert_eq!(p.state.last_node_time_ms, 9_000);
    assert!(!readyz(&p.state, 1_000_000));
}

#[test]
fn failures_are_reported_every_fiftieth_time() {
    let mut p = HealthPoller::new();
    let mut reported = Vec::new();
    for i in 1..=120u64 {
        if p.record_poll(i, PollOutcome::Failed).report_failure {
            reported.push(i);
        }
    }
    assert_eq!(reported, vec![50, 100]);
}

#[test]
fn proxy_drops_connection_headers() {
    assert!(!forward_header("host"));
    assert!(!forward_header("connection"));
    assert!(!forward_header("content-length"));
    assert!(forward_header("content-type"));
    assert!(forward_header("x-request-id"));
}

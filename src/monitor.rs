//! Node health: the state that each poll of the node's status endpoint
//! leaves, the liveness and readiness verdicts drawn from it, and the rules
//! of the status proxy.
use vstd::prelude::*;
use crate::text::same_text;

verus! {

/// Every this many failed polls that were not refused connections, one is
/// reported.
pub const FAILURE_REPORT_EVERY: u64 = 50;

/// What the last poll of the node observed. Times are milliseconds since the
/// Unix epoch.
#[derive(Clone, Copy, Debug, PartialEq, Eq, Structural)]
pub struct HealthState {
    pub last_system_time_ms: u64,
    pub last_node_time_ms: u64,
    pub node_responding: bool,
}

/// How one poll of the node's status endpoint ended.
#[derive(Clone, Copy, Debug, PartialEq, Eq, Structural)]
pub enum PollOutcome {
    /// The node could not be reached.
    Unreachable,
    /// The node answered with an error status or a body that did not parse.
    Failed,
    /// The node reported its exchange time, in milliseconds.
    Responded(u64),
}

/// What a poll asks the caller to publish besides the state.
#[derive(Clone, Copy, Debug, PartialEq, Eq, Structural)]
pub struct PollReport {
    /// How far the node's clock is behind the system clock, when it answered.
    pub drift_ms: Option<u64>,
    /// Whether this failure is one to log.
    pub report_failure: bool,
}

/// The state before the first poll: the node is not responding.
pub fn init_metrics() -> (r: HealthState)
    ensures
        !r.node_responding,
        r.last_system_time_ms == 0,
        r.last_node_time_ms == 0,
{
    HealthState { last_system_time_ms: 0, last_node_time_ms: 0, node_responding: false }
}

pub open spec fn drift_of(system_ms: u64, node_ms: u64) -> u64 {
    if system_ms >= node_ms {
        (system_ms - node_ms) as u64
    } else {
        0
    }
}

/// The polling loop's state: the health it publishes and the count of
/// failed polls since the last one reported.
#[derive(Clone, Copy, Debug, PartialEq, Eq, Structural)]
pub struct HealthPoller {
    pub state: HealthState,
    pub failures: u64,
}

impl HealthPoller {
    pub open spec fn wf(&self) -> bool {
        1 <= self.failures <= FAILURE_REPORT_EVERY
    }

    pub fn new() -> (r: HealthPoller)
        ensures
            r.wf(),
            !r.state.node_responding,
    {
        HealthPoller { state: init_metrics(), failures: 1 }
    }

    /// Records one poll made at `system_ms` and what it observed.
    pub fn record_poll(&mut self, system_ms: u64, outcome: PollOutcome) -> (r: PollReport)
        requires
            old(self).wf(),
        ensures
            final(self).wf(),
            final(self).state.last_system_time_ms == system_ms,
            final(self).state.node_responding == (outcome is Responded),
            match outcome {
                PollOutcome::Responded(t) => {
                    &&& final(self).state.last_node_time_ms == t
                    &&& r.drift_ms == Some(drift_of(system_ms, t))
                    &&& !r.report_failure
                    &&& final(self).failures == old(self).failures
                },
                PollOutcome::Unreachable => {
                    &&& final(self).state.last_node_time_ms == old(self).state.last_node_time_ms
                    &&& r.drift_ms is None
                    &&& !r.report_failure
                    &&& final(self).failures == old(self).failures
                },
                PollOutcome::Failed => {
                    &&& final(self).state.last_node_time_ms == old(self).state.last_node_time_ms
                    &&& r.drift_ms is None
                    &&& r.report_failure == (old(self).failures == FAILURE_REPORT_EVERY)
                    &&& final(self).failures == if old(self).failures == FAILURE_REPORT_EVERY {
                        1
                    } else {
                        old(self).failures + 1
                    }
                },
            },
    {
        self.state.last_system_time_ms = system_ms;
        match outcome {
            PollOutcome::Responded(t) => {
                self.state.node_responding = true;
                self.state.last_node_time_ms = t;
                let drift = if system_ms >= t {
                    system_ms - t
                } else {
                    0
                };
                PollReport { drift_ms: Some(drift), report_failure: false }
            },
            PollOutcome::Unreachable => {
                self.state.node_responding = false;
                PollReport { drift_ms: None, report_failure: false }
            },
            PollOutcome::Failed => {
                self.state.node_responding = false;
                let report = self.failures % FAILURE_REPORT_EVERY == 0;
                if report {
                    self.failures = 0;
                }
                self.failures = self.failures + 1;
                PollReport { drift_ms: None, report_failure: report }
            },
        }
    }
}

/// The node is live when the last poll found it responding.
pub fn livez(state: &HealthState) -> (r: bool)
    ensures
        r == state.node_responding,
{
    state.node_responding
}

/// The node is ready when the last poll found it responding and its clock
/// is less than `threshold_ms` behind the system clock.
pub fn readyz(state: &HealthState, threshold_ms: u64) -> (r: bool)
    ensures
        r == (state.node_responding && drift_of(state.last_system_time_ms, state.last_node_time_ms)
            < threshold_ms),
{
    let drift = if state.last_system_time_ms >= state.last_node_time_ms {
        state.last_system_time_ms - state.last_node_time_ms
    } else {
        0
    };
    state.node_responding && drift < threshold_ms
}

/// The HTTP status of a health probe: 200 when healthy, else 503.
pub fn health_status(healthy: bool) -> (r: u16)
    ensures
        r == if healthy { 200u16 } else { 503u16 },
{
    if healthy {
        200
    } else {
        503
    }
}

/// The status the proxy answers with when the node cannot be reached or its
/// answer cannot be read.
pub const BAD_GATEWAY: u16 = 502;

/// Headers that describe the client's own connection, which the proxy does
/// not pass on.
pub open spec fn is_hop_header(name: Seq<char>) -> bool {
    name == "host"@ || name == "connection"@ || name == "content-length"@
}

/// Whether the proxy passes a request header named `name` on to the node.
pub fn forward_header(name: &str) -> (r: bool)
    ensures
        r == !is_hop_header(name@),
{
    !(same_text(name, "host") || same_text(name, "connection") || same_text(name, "content-length"))
}

} // verus!

//! Classification of one reachability check: what the probe observed at the
//! transport level becomes an `Up`/`Down` status and a non-negative latency.

use vstd::prelude::*;
use crate::model::{MonitoredTarget, MonitoredTargetModel, ProbeResult, ProbeResultModel, Status};

verus! {

/// What one probe observed: either a response with its HTTP status code, or
/// a transport-level failure (connection error, timeout, DNS or TLS failure
/// — all collapse to this one case).
#[derive(Clone, Copy, Debug, PartialEq, Eq, Structural)]
pub enum ProbeOutcome {
    Response { code: u16 },
    TransportError,
}

/// An HTTP status code counts as success exactly when it lies in 200..=299.
pub open spec fn is_success_code(code: u16) -> bool {
    200 <= code < 300
}

/// A probe classifies `Up` exactly when a response with a success status
/// code was received; every other outcome is `Down`.
pub open spec fn spec_classify(o: ProbeOutcome) -> Status {
    match o {
        ProbeOutcome::Response { code } => if is_success_code(code) {
            Status::Up
        } else {
            Status::Down
        },
        ProbeOutcome::TransportError => Status::Down,
    }
}

/// Turns the transport-level outcome of one probe into its health status.
pub fn classify(o: &ProbeOutcome) -> (s: Status)
    ensures
        s == spec_classify(*o),
{
    match o {
        ProbeOutcome::Response { code } => {
            if 200 <= *code && *code < 300 {
                Status::Up
            } else {
                Status::Down
            }
        },
        ProbeOutcome::TransportError => Status::Down,
    }
}

/// Elapsed wall-clock time between the two millisecond readings, clamped
/// into the representable range: never negative, and saturated at the
/// largest representable latency should the difference not fit.
pub open spec fn spec_latency(started_ms: int, finished_ms: int) -> int {
    if finished_ms < started_ms {
        0
    } else if finished_ms - started_ms > i64::MAX {
        i64::MAX as int
    } else {
        finished_ms - started_ms
    }
}

/// Measures the latency of one probe from its start and finish timestamps.
/// The result is never negative, for every pair of clock readings.
pub fn clamp_latency(started_ms: i64, finished_ms: i64) -> (l: i64)
    ensures
        l == spec_latency(started_ms as int, finished_ms as int),
        l >= 0,
{
    if finished_ms < started_ms {
        0
    } else {
        match finished_ms.checked_sub(started_ms) {
            Option::Some(d) => d,
            Option::None => i64::MAX,
        }
    }
}

/// The one probe result a completed probe of `t` yields: the target's ids,
/// the classified status, the clamped latency, and the probe's start time as
/// the observation timestamp.
pub open spec fn spec_probe_result(
    t: MonitoredTargetModel,
    o: ProbeOutcome,
    started_ms: int,
    finished_ms: int,
) -> ProbeResultModel {
    ProbeResultModel {
        target_id: t.id,
        region_id: t.region_id,
        status: spec_classify(o),
        latency_ms: spec_latency(started_ms, finished_ms),
        observed_at_ms: started_ms,
    }
}

/// Builds the immutable probe result for one completed probe.
pub fn make_probe_result(
    target: &MonitoredTarget,
    outcome: &ProbeOutcome,
    started_ms: i64,
    finished_ms: i64,
) -> (r: ProbeResult)
    ensures
        r@ == spec_probe_result(target@, *outcome, started_ms as int, finished_ms as int),
        r@.latency_ms >= 0,
{
    ProbeResult {
        target_id: target.id.clone(),
        region_id: target.region_id.clone(),
        status: classify(outcome),
        latency_ms: clamp_latency(started_ms, finished_ms),
        observed_at_ms: started_ms,
    }
}

} // verus!

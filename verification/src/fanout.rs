//! Fan-out of one probe result: every result yields exactly one metric
//! sample for the write path, and exactly the `Down` results yield one
//! downtime notification for the alert path.  The two projections are
//! independent; neither blocks or depends on the other.

use vstd::prelude::*;
use crate::model::{
    DowntimeNotification, DowntimeNotificationModel, MetricSample, MetricSampleModel, ProbeResult,
    ProbeResultModel, Status,
};

verus! {

/// The durable sample a probe result projects to: same tags, same latency,
/// timestamped at the observation time.
pub open spec fn spec_sample_of(p: ProbeResultModel) -> MetricSampleModel {
    MetricSampleModel {
        target_id: p.target_id,
        region_id: p.region_id,
        status: p.status,
        latency_ms: p.latency_ms,
        timestamp_ms: p.observed_at_ms,
    }
}

/// The notification a `Down` probe result derives to, carrying the same
/// (target, region, status, latency, timestamp) as the result itself.
pub open spec fn spec_notification_of(p: ProbeResultModel) -> DowntimeNotificationModel {
    DowntimeNotificationModel {
        website_id: p.target_id,
        region_id: p.region_id,
        status: p.status,
        response_time_ms: p.latency_ms,
        timestamp: p.observed_at_ms,
    }
}

/// Projects one probe result into the one metric sample that is appended
/// for it.
pub fn sample_of(r: &ProbeResult) -> (s: MetricSample)
    ensures
        s@ == spec_sample_of(r@),
{
    MetricSample {
        target_id: r.target_id.clone(),
        region_id: r.region_id.clone(),
        status: r.status,
        latency_ms: r.latency_ms,
        timestamp_ms: r.observed_at_ms,
    }
}

/// Derives the downtime notification of one probe result: exactly one when
/// the result is `Down`, none when it is `Up`, with matching ids, status and
/// observation time.
pub fn notification_of(r: &ProbeResult) -> (n: Option<DowntimeNotification>)
    ensures
        n is Some <==> r@.status == Status::Down,
        n is Some ==> n->0@ == spec_notification_of(r@),
{
    match r.status {
        Status::Down => Option::Some(
            DowntimeNotification {
                website_id: r.target_id.clone(),
                region_id: r.region_id.clone(),
                status: r.status,
                response_time_ms: r.latency_ms,
                timestamp: r.observed_at_ms,
            },
        ),
        Status::Up => Option::None,
    }
}

} // verus!

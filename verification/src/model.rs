//! Data model of the pipeline: targets, probe results, samples,
//! notifications and the read-side points, each with its mathematical image.

use vstd::prelude::*;

verus! {

/// Health classification of one probe: a target is either reachable (`Up`)
/// or not (`Down`).
#[derive(Clone, Copy, Debug, PartialEq, Eq, Structural)]
pub enum Status {
    Up,
    Down,
}

/// Tag value under which a status is stored and filtered on.
pub open spec fn spec_status_label(s: Status) -> Seq<char> {
    match s {
        Status::Up => "Up"@,
        Status::Down => "Down"@,
    }
}

/// The status tag's text, as written to the store and into filters.
pub fn status_label(s: Status) -> (r: &'static str)
    ensures
        r@ == spec_status_label(s),
{
    match s {
        Status::Up => "Up",
        Status::Down => "Down",
    }
}

/// One monitored endpoint, as the registry hands it out: a stable id, the
/// URL to probe, an optional display name, and the region this monitor
/// observes from.
#[derive(Debug)]
pub struct MonitoredTarget {
    pub id: String,
    pub url: String,
    pub name: Option<String>,
    pub region_id: String,
}

/// Mathematical image of a [`MonitoredTarget`].
pub struct MonitoredTargetModel {
    pub id: Seq<char>,
    pub url: Seq<char>,
    pub name: Option<Seq<char>>,
    pub region_id: Seq<char>,
}

impl View for MonitoredTarget {
    type V = MonitoredTargetModel;

    open spec fn view(&self) -> MonitoredTargetModel {
        MonitoredTargetModel {
            id: self.id@,
            url: self.url@,
            name: match self.name {
                Option::Some(n) => Option::Some(n@),
                Option::None => Option::None,
            },
            region_id: self.region_id@,
        }
    }
}

/// Outcome of one reachability check, exactly one per target and round.
/// `latency_ms` is the wall-clock time the probe took, clamped to be
/// non-negative; `observed_at_ms` is the millisecond timestamp at which the
/// probe started.
#[derive(Debug)]
pub struct ProbeResult {
    pub target_id: String,
    pub region_id: String,
    pub status: Status,
    pub latency_ms: i64,
    pub observed_at_ms: i64,
}

/// Mathematical image of a [`ProbeResult`].
pub struct ProbeResultModel {
    pub target_id: Seq<char>,
    pub region_id: Seq<char>,
    pub status: Status,
    pub latency_ms: int,
    pub observed_at_ms: int,
}

impl View for ProbeResult {
    type V = ProbeResultModel;

    open spec fn view(&self) -> ProbeResultModel {
        ProbeResultModel {
            target_id: self.target_id@,
            region_id: self.region_id@,
            status: self.status,
            latency_ms: self.latency_ms as int,
            observed_at_ms: self.observed_at_ms as int,
        }
    }
}

/// A probe result is well formed when its recorded latency is non-negative.
pub open spec fn probe_result_wf(r: ProbeResultModel) -> bool {
    r.latency_ms >= 0
}

/// Durable projection of a probe result: the tag set {target, region,
/// status}, the latency field, and the timestamp under which the sample is
/// appended to the time-series store.  The measurement and field names are
/// fixed (see the query module) and so not repeated here.
#[derive(Debug)]
pub struct MetricSample {
    pub target_id: String,
    pub region_id: String,
    pub status: Status,
    pub latency_ms: i64,
    pub timestamp_ms: i64,
}

/// Mathematical image of a [`MetricSample`].
pub struct MetricSampleModel {
    pub target_id: Seq<char>,
    pub region_id: Seq<char>,
    pub status: Status,
    pub latency_ms: int,
    pub timestamp_ms: int,
}

impl View for MetricSample {
    type V = MetricSampleModel;

    open spec fn view(&self) -> MetricSampleModel {
        MetricSampleModel {
            target_id: self.target_id@,
            region_id: self.region_id@,
            status: self.status,
            latency_ms: self.latency_ms as int,
            timestamp_ms: self.timestamp_ms as int,
        }
    }
}

/// One downtime alert, derived 1:1 from a `Down` probe result and handed to
/// the alert stream.
#[derive(Debug)]
pub struct DowntimeNotification {
    pub website_id: String,
    pub region_id: String,
    pub status: Status,
    pub response_time_ms: i64,
    pub timestamp: i64,
}

/// Mathematical image of a [`DowntimeNotification`].
pub struct DowntimeNotificationModel {
    pub website_id: Seq<char>,
    pub region_id: Seq<char>,
    pub status: Status,
    pub response_time_ms: int,
    pub timestamp: int,
}

impl View for DowntimeNotification {
    type V = DowntimeNotificationModel;

    open spec fn view(&self) -> DowntimeNotificationModel {
        DowntimeNotificationModel {
            website_id: self.website_id@,
            region_id: self.region_id@,
            status: self.status,
            response_time_ms: self.response_time_ms as int,
            timestamp: self.timestamp as int,
        }
    }
}

/// Read-model row returned by the health queries: a timestamp (as the store
/// prints it) and the latency value recorded at that time.
#[derive(Debug)]
pub struct TimeSeriesPoint {
    pub time: String,
    pub value: i64,
}

/// Mathematical image of a [`TimeSeriesPoint`].
pub struct TimeSeriesPointModel {
    pub time: Seq<char>,
    pub value: int,
}

impl View for TimeSeriesPoint {
    type V = TimeSeriesPointModel;

    open spec fn view(&self) -> TimeSeriesPointModel {
        TimeSeriesPointModel { time: self.time@, value: self.value as int }
    }
}

/// The single most-recent downtime observation, if any.
#[derive(Debug)]
pub struct LastDowntime {
    pub time: String,
    pub value: i64,
}

/// Mathematical image of a [`LastDowntime`].
pub struct LastDowntimeModel {
    pub time: Seq<char>,
    pub value: int,
}

impl View for LastDowntime {
    type V = LastDowntimeModel;

    open spec fn view(&self) -> LastDowntimeModel {
        LastDowntimeModel { time: self.time@, value: self.value as int }
    }
}

} // verus!

use uptime_monitor::fanout::{notification_of, sample_of};
use uptime_monitor::model::{MonitoredTarget, Status};
use uptime_monitor::probe::{classify, clamp_latency, make_probe_result, ProbeOutcome};

#[test]
fn classification_collapses_every_failure_to_down() {
    assert_eq!(classify(&ProbeOutcome::Response { code: 200 }), Status::Up);
    assert_eq!(classify(&ProbeOutcome::Response { code: 299 }), Status::Up);
    assert_eq!(classify(&ProbeOutcome::Response { code: 199 }), Status::Down);
    assert_eq!(classify(&ProbeOutcome::Response { code: 300 }), Status::Down);
    assert_eq!(classify(&ProbeOutcome::Response { code: 500 }), Status::Down);
    assert_eq!(classify(&ProbeOutcome::TransportError), Status::Down);
}

#[test]
fn latency_is_clamped_to_zero() {
    assert_eq!(clamp_latency(1_000, 1_250), 250);
    assert_eq!(clamp_latency(1_000, 1_000), 0);
    assert_eq!(clamp_latency(1_250, 1_000), 0);
    // A difference too large for the representation saturates.
    assert_eq!(clamp_latency(i64::MIN, i64::MAX), i64::MAX);
}

#[test]
fn probe_result_carries_the_target_and_start_time() {
    let t = MonitoredTarget {
        id: "site-9".to_string(),
        url: "http://site-9.example".to_string(),
        name: Some("nine".to_string()),
        region_id: "us-east".to_string(),
    };
    let r = make_probe_result(&t, &ProbeOutcome::Response { code: 204 }, 5_000, 5_120);
    assert_eq!(r.target_id, "site-9");
    assert_eq!(r.region_id, "us-east");
    assert_eq!(r.status, Status::Up);
    assert_eq!(r.latency_ms, 120);
    assert_eq!(r.observed_at_ms, 5_000);
}

#[test]
fn fan_out_projects_sample_and_notification_alike() {
    let t = MonitoredTarget {
        id: "site-9".to_string(),
        url: "http://site-9.example".to_string(),
        name: None,
        region_id: "us-east".to_string(),
    };
    let r = make_probe_result(&t, &ProbeOutcome::TransportError, 5_000, 5_075);
    let s = sample_of(&r);
    assert_eq!(s.target_id, r.target_id);
    assert_eq!(s.region_id, r.region_id);
    assert_eq!(s.status, Status::Down);
    assert_eq!(s.latency_ms, 75);
    assert_eq!(s.timestamp_ms, 5_000);
    let n = notification_of(&r).expect("Down derives a notification");
    assert_eq!(n.website_id, r.target_id);
    assert_eq!(n.region_id, r.region_id);
    assert_eq!(n.status, Status::Down);
    assert_eq!(n.response_time_ms, 75);
    assert_eq!(n.timestamp, 5_000);

    let up = make_probe_result(&t, &ProbeOutcome::Response { code: 200 }, 5_000, 5_010);
    assert!(notification_of(&up).is_none());
}

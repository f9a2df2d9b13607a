use uptime_monitor::input::TickQuery;
use uptime_monitor::model::{MetricSample, Status};
use uptime_monitor::query::{downtime_query_filter, last_downtime_query_filter, uptime_query_filter};
use uptime_monitor::select::select_samples;

const NOW: i64 = 1_700_000_000_000;

fn sample(status: Status, region: &str, ts: i64, latency: i64) -> MetricSample {
    MetricSample {
        target_id: "site-1".to_string(),
        region_id: region.to_string(),
        status,
        latency_ms: latency,
        timestamp_ms: ts,
    }
}

#[test]
fn range_query_returns_all_points_ascending() {
    let q = TickQuery { days: Some(1), region: None };
    let f = uptime_query_filter("site-1", &q).unwrap();
    let samples = vec![
        sample(Status::Up, "europe", NOW - 3_000, 120),
        sample(Status::Up, "europe", NOW - 1_000, 140),
        sample(Status::Up, "europe", NOW - 2_000, 130),
    ];
    let out = select_samples(&samples, &f, NOW);
    assert_eq!(out.len(), 3);
    assert_eq!(out[0].timestamp_ms, NOW - 3_000);
    assert_eq!(out[1].timestamp_ms, NOW - 2_000);
    assert_eq!(out[2].timestamp_ms, NOW - 1_000);
}

#[test]
fn range_query_is_status_and_window_bounded() {
    let q = TickQuery { days: Some(1), region: None };
    let f = uptime_query_filter("site-1", &q).unwrap();
    let day = 86_400_000;
    let samples = vec![
        sample(Status::Up, "europe", NOW - 10, 100),
        sample(Status::Down, "europe", NOW - 20, 100),
        sample(Status::Up, "europe", NOW - day - 1, 100),
        sample(Status::Up, "europe", NOW + 5_000, 100),
    ];
    let out = select_samples(&samples, &f, NOW);
    assert_eq!(out.len(), 1);
    assert_eq!(out[0].timestamp_ms, NOW - 10);
}

#[test]
fn downtime_query_returns_exactly_the_down_samples() {
    let q = TickQuery { days: Some(1), region: None };
    let f = downtime_query_filter("site-1", &q).unwrap();
    // M = 3 Down, P = 2 Up in the window.
    let samples = vec![
        sample(Status::Down, "europe", NOW - 500, 0),
        sample(Status::Up, "europe", NOW - 400, 90),
        sample(Status::Down, "europe", NOW - 300, 0),
        sample(Status::Up, "europe", NOW - 200, 80),
        sample(Status::Down, "europe", NOW - 100, 0),
    ];
    let out = select_samples(&samples, &f, NOW);
    assert_eq!(out.len(), 3);
    for s in &out {
        assert_eq!(s.status, Status::Down);
    }
}

#[test]
fn last_downtime_returns_only_the_most_recent() {
    let q = TickQuery { days: None, region: None };
    let f = last_downtime_query_filter("site-1", &q).unwrap();
    let t1 = NOW - 3_000;
    let t2 = NOW - 2_000;
    let t3 = NOW - 1_000;
    let samples = vec![
        sample(Status::Down, "europe", t2, 0),
        sample(Status::Down, "europe", t1, 0),
        sample(Status::Down, "europe", t3, 0),
    ];
    let out = select_samples(&samples, &f, NOW);
    assert_eq!(out.len(), 1);
    assert_eq!(out[0].timestamp_ms, t3);
}

#[test]
fn last_downtime_is_empty_without_matches() {
    let q = TickQuery { days: None, region: None };
    let f = last_downtime_query_filter("site-1", &q).unwrap();
    let samples = vec![sample(Status::Up, "europe", NOW - 1_000, 50)];
    let out = select_samples(&samples, &f, NOW);
    assert_eq!(out.len(), 0);
}

#[test]
fn region_filter_restricts_and_unfiltered_unions() {
    let q_eu = TickQuery { days: Some(1), region: Some("europe".to_string()) };
    let q_us = TickQuery { days: Some(1), region: Some("us-east".to_string()) };
    let q_all = TickQuery { days: Some(1), region: None };
    let f_eu = uptime_query_filter("site-1", &q_eu).unwrap();
    let f_us = uptime_query_filter("site-1", &q_us).unwrap();
    let f_all = uptime_query_filter("site-1", &q_all).unwrap();
    let samples = vec![
        sample(Status::Up, "europe", NOW - 400, 100),
        sample(Status::Up, "us-east", NOW - 300, 200),
        sample(Status::Up, "europe", NOW - 200, 110),
        sample(Status::Up, "us-east", NOW - 100, 210),
    ];
    let eu = select_samples(&samples, &f_eu, NOW);
    let us = select_samples(&samples, &f_us, NOW);
    let all = select_samples(&samples, &f_all, NOW);
    assert_eq!(eu.len(), 2);
    for s in &eu {
        assert_eq!(s.region_id, "europe");
    }
    assert_eq!(us.len(), 2);
    for s in &us {
        assert_eq!(s.region_id, "us-east");
    }
    assert_eq!(all.len(), 4);
    let times: Vec<i64> = all.iter().map(|s| s.timestamp_ms).collect();
    assert_eq!(times, vec![NOW - 400, NOW - 300, NOW - 200, NOW - 100]);
}

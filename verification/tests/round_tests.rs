use uptime_monitor::model::{MonitoredTarget, Status};
use uptime_monitor::probe::ProbeOutcome;
use uptime_monitor::round::Round;

fn target(id: &str, url: &str) -> MonitoredTarget {
    MonitoredTarget {
        id: id.to_string(),
        url: url.to_string(),
        name: None,
        region_id: "europe".to_string(),
    }
}

#[test]
fn round_produces_one_result_per_target() {
    let targets = vec![
        target("a", "http://a.example"),
        target("b", "http://b.example"),
        target("c", "http://c.example"),
    ];
    let mut round = Round::new(targets, 2);
    let i0 = round.launch();
    let i1 = round.launch();
    assert_eq!(i0, 0);
    assert_eq!(i1, 1);
    let _ = round.complete(i0, ProbeOutcome::Response { code: 200 }, 1_000, 1_050);
    let i2 = round.launch();
    let _ = round.complete(i1, ProbeOutcome::TransportError, 1_000, 2_000);
    let _ = round.complete(i2, ProbeOutcome::Response { code: 503 }, 1_100, 1_200);
    assert!(round.is_done());
    assert_eq!(round.results.len(), 3);
    for (i, slot) in round.results.iter().enumerate() {
        let r = slot.as_ref().expect("every target has exactly one result");
        assert_eq!(r.target_id, round.targets[i].id);
        assert_eq!(r.region_id, "europe");
    }
    assert_eq!(round.results[0].as_ref().unwrap().status, Status::Up);
    assert_eq!(round.results[1].as_ref().unwrap().status, Status::Down);
    assert_eq!(round.results[2].as_ref().unwrap().status, Status::Down);
}

#[test]
fn concurrency_stays_bounded() {
    let targets = vec![
        target("a", "http://a.example"),
        target("b", "http://b.example"),
        target("c", "http://c.example"),
        target("d", "http://d.example"),
        target("e", "http://e.example"),
    ];
    let k = 2;
    let mut round = Round::new(targets, k);
    let mut in_flight_seen = 0;
    let mut pending: Vec<usize> = Vec::new();
    while !round.is_done() {
        while round.can_launch() {
            let idx = round.launch();
            pending.push(idx);
            assert!(round.in_flight <= k);
            if round.in_flight > in_flight_seen {
                in_flight_seen = round.in_flight;
            }
        }
        let idx = pending.pop().expect("a probe is outstanding");
        let _ = round.complete(idx, ProbeOutcome::Response { code: 204 }, 0, 5);
        assert!(round.in_flight <= k);
    }
    assert_eq!(in_flight_seen, k);
    assert_eq!(round.results.iter().filter(|r| r.is_some()).count(), 5);
}

#[test]
fn latency_is_never_negative() {
    let targets = vec![target("a", "http://a.example")];
    let mut round = Round::new(targets, 1);
    let idx = round.launch();
    // A clock anomaly: the finish reading lies before the start reading.
    let (sample, _) = round.complete(idx, ProbeOutcome::Response { code: 200 }, 2_000, 1_500);
    assert_eq!(sample.latency_ms, 0);
    assert!(round.results[0].as_ref().unwrap().latency_ms >= 0);
}

#[test]
fn down_result_yields_exactly_one_matching_notification() {
    let targets = vec![target("a", "http://a.example"), target("b", "http://b.example")];
    let mut round = Round::new(targets, 2);
    let i0 = round.launch();
    let i1 = round.launch();
    let (sample_down, note_down) = round.complete(i0, ProbeOutcome::TransportError, 1_000, 1_250);
    let (sample_up, note_up) = round.complete(i1, ProbeOutcome::Response { code: 200 }, 1_000, 1_010);

    let n = note_down.expect("a Down result publishes exactly once");
    assert_eq!(n.website_id, "a");
    assert_eq!(n.region_id, "europe");
    assert_eq!(n.status, Status::Down);
    assert_eq!(n.response_time_ms, 250);
    assert_eq!(n.timestamp, 1_000);
    assert_eq!(sample_down.status, Status::Down);
    assert_eq!(sample_down.latency_ms, 250);
    assert_eq!(sample_down.timestamp_ms, 1_000);

    assert!(note_up.is_none());
    assert_eq!(sample_up.status, Status::Up);
}

#[test]
fn non_success_codes_classify_down() {
    let codes_down = [199u16, 300, 301, 404, 500, 503];
    let codes_up = [200u16, 201, 204, 299];
    for code in codes_down {
        let targets = vec![target("a", "http://a.example")];
        let mut round = Round::new(targets, 1);
        let idx = round.launch();
        let (sample, note) = round.complete(idx, ProbeOutcome::Response { code }, 0, 1);
        assert_eq!(sample.status, Status::Down);
        assert!(note.is_some());
    }
    for code in codes_up {
        let targets = vec![target("a", "http://a.example")];
        let mut round = Round::new(targets, 1);
        let idx = round.launch();
        let (sample, note) = round.complete(idx, ProbeOutcome::Response { code }, 0, 1);
        assert_eq!(sample.status, Status::Up);
        assert!(note.is_none());
    }
}

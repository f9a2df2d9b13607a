use uptime_monitor::input::TickQuery;
use uptime_monitor::query::{
    downtime_query_filter, last_downtime_query_filter, normalize_days, render_flux,
    uptime_query_filter, QueryError,
};

#[test]
fn lookback_normalizes_to_closed_set() {
    assert_eq!(normalize_days(1), 1);
    assert_eq!(normalize_days(7), 7);
    assert_eq!(normalize_days(30), 30);
    assert_eq!(normalize_days(14), 1);
    assert_eq!(normalize_days(0), 1);
    assert_eq!(normalize_days(-3), 1);
    assert_eq!(normalize_days(365), 1);
}

#[test]
fn lookback_14_behaves_as_1() {
    let q14 = TickQuery { days: Some(14), region: Some("europe".to_string()) };
    let q1 = TickQuery { days: Some(1), region: Some("europe".to_string()) };
    let f14 = uptime_query_filter("site-1", &q14).unwrap();
    let f1 = uptime_query_filter("site-1", &q1).unwrap();
    assert_eq!(f14.lookback_days, f1.lookback_days);
    assert_eq!(render_flux(&f14), render_flux(&f1));
}

#[test]
fn range_query_renders_exactly() {
    let q = TickQuery { days: Some(1), region: None };
    let f = uptime_query_filter("e6728a25-30f3-4c19-bf47-1b0147a86660", &q).unwrap();
    let expected = "from(bucket: \"website_ticks\")\n    |> range(start: -1d)\n    |> filter(fn: (r) => r[\"_measurement\"] == \"website_tick\")\n    |> filter(fn: (r) => r[\"_field\"] == \"response_time_ms\")\n    |> filter(fn: (r) => r[\"website_id\"] == \"e6728a25-30f3-4c19-bf47-1b0147a86660\")\n    |> filter(fn: (r) => r[\"status\"] == \"Up\")\n    |> sort(columns: [\"_time\"])";
    assert_eq!(render_flux(&f), expected);
}

#[test]
fn downtime_query_renders_down_status_and_window() {
    let q = TickQuery { days: Some(7), region: None };
    let f = downtime_query_filter("site-1", &q).unwrap();
    let expected = "from(bucket: \"website_ticks\")\n    |> range(start: -7d)\n    |> filter(fn: (r) => r[\"_measurement\"] == \"website_tick\")\n    |> filter(fn: (r) => r[\"_field\"] == \"response_time_ms\")\n    |> filter(fn: (r) => r[\"website_id\"] == \"site-1\")\n    |> filter(fn: (r) => r[\"status\"] == \"Down\")\n    |> sort(columns: [\"_time\"])";
    assert_eq!(render_flux(&f), expected);
}

#[test]
fn region_clause_is_inline_when_requested() {
    let q = TickQuery { days: Some(30), region: Some("europe".to_string()) };
    let f = uptime_query_filter("site-1", &q).unwrap();
    let expected = "from(bucket: \"website_ticks\")\n    |> range(start: -30d)\n    |> filter(fn: (r) => r[\"_measurement\"] == \"website_tick\")\n    |> filter(fn: (r) => r[\"_field\"] == \"response_time_ms\")\n    |> filter(fn: (r) => r[\"website_id\"] == \"site-1\") |> filter(fn: (r) => r[\"region_id\"] == \"europe\")\n    |> filter(fn: (r) => r[\"status\"] == \"Up\")\n    |> sort(columns: [\"_time\"])";
    assert_eq!(render_flux(&f), expected);
}

#[test]
fn empty_region_is_omitted_entirely() {
    let q_none = TickQuery { days: None, region: None };
    let q_empty = TickQuery { days: None, region: Some(String::new()) };
    let f_none = uptime_query_filter("site-1", &q_none).unwrap();
    let f_empty = uptime_query_filter("site-1", &q_empty).unwrap();
    assert_eq!(f_none.region, None);
    assert_eq!(f_empty.region, None);
    assert_eq!(render_flux(&f_none), render_flux(&f_empty));
}

#[test]
fn missing_days_defaults_to_one_day() {
    let q = TickQuery { days: None, region: None };
    let f = downtime_query_filter("site-1", &q).unwrap();
    assert_eq!(f.lookback_days, 1);
}

#[test]
fn last_downtime_renders_fixed_window_and_last() {
    let q = TickQuery { days: Some(7), region: None };
    let f = last_downtime_query_filter("site-1", &q).unwrap();
    let expected = "from(bucket: \"website_ticks\")\n    |> range(start: -30d)\n    |> filter(fn: (r) => r[\"_measurement\"] == \"website_tick\")\n    |> filter(fn: (r) => r[\"_field\"] == \"response_time_ms\")\n    |> filter(fn: (r) => r[\"website_id\"] == \"site-1\")\n    |> filter(fn: (r) => r[\"status\"] == \"Down\")\n    |> last()";
    assert_eq!(render_flux(&f), expected);
}

#[test]
fn unsafe_target_id_is_rejected() {
    let q = TickQuery { days: Some(1), region: None };
    let r = uptime_query_filter("id\" or true", &q);
    assert_eq!(r.unwrap_err(), QueryError::InvalidTargetId);
    let r2 = uptime_query_filter("", &q);
    assert_eq!(r2.unwrap_err(), QueryError::InvalidTargetId);
}

#[test]
fn unsafe_region_is_rejected() {
    let q = TickQuery { days: Some(1), region: Some("eu\"rope".to_string()) };
    let r = downtime_query_filter("site-1", &q);
    assert_eq!(r.unwrap_err(), QueryError::InvalidRegionId);
}

use uptime_monitor::rows::{last_downtime_of, parse_i64, parse_query_response, sort_points, split_str, str_lex_le};
use uptime_monitor::model::TimeSeriesPoint;

fn csv_row(time: &str, value: &str) -> String {
    // Annotated-CSV shape of one response row:
    // ,result,table,_start,_stop,_time,_value,_field,_measurement,region_id,status,website_id
    format!(
        ",_result,0,2025-01-01T00:00:00Z,2025-01-02T00:00:00Z,{},{},response_time_ms,website_tick,europe,Up,site-1",
        time, value
    )
}

#[test]
fn response_rows_become_sorted_points() {
    let text = format!(
        "{}\n{}\n{}\n{}\n",
        ",result,table,_start,_stop,_time,_value,_field,_measurement,region_id,status,website_id",
        csv_row("2025-01-01T12:00:00Z", "300"),
        csv_row("2025-01-01T05:00:00Z", "100"),
        csv_row("2025-01-01T09:00:00Z", "200"),
    );
    let pts = parse_query_response(&text);
    assert_eq!(pts.len(), 3);
    assert_eq!(pts[0].time, "2025-01-01T05:00:00Z");
    assert_eq!(pts[0].value, 100);
    assert_eq!(pts[1].time, "2025-01-01T09:00:00Z");
    assert_eq!(pts[1].value, 200);
    assert_eq!(pts[2].time, "2025-01-01T12:00:00Z");
    assert_eq!(pts[2].value, 300);
}

#[test]
fn malformed_rows_are_skipped_not_fatal() {
    let text = format!(
        "{}\n{}\n{}\n{}\n{}\n{}\n{}\n",
        ",result,table,_start,_stop,_time,_value,_field,_measurement,region_id,status,website_id",
        csv_row("2025-01-01T05:00:00Z", "100"),
        "garbage line without commas",
        ",too,few,fields",
        csv_row("2025-01-01T09:00:00Z", "not-a-number"),
        "",
        csv_row("2025-01-01T12:00:00Z", "300"),
    );
    let pts = parse_query_response(&text);
    assert_eq!(pts.len(), 2);
    assert_eq!(pts[0].value, 100);
    assert_eq!(pts[1].value, 300);
}

#[test]
fn empty_response_yields_no_points() {
    assert_eq!(parse_query_response("").len(), 0);
    assert_eq!(parse_query_response("header only").len(), 0);
}

#[test]
fn header_line_is_never_a_point() {
    // A header that would itself parse as a row must still be skipped.
    let text = format!("{}\n{}\n", csv_row("2025-01-01T00:00:00Z", "1"), csv_row("2025-01-01T01:00:00Z", "2"));
    let pts = parse_query_response(&text);
    assert_eq!(pts.len(), 1);
    assert_eq!(pts[0].value, 2);
}

#[test]
fn carriage_returns_are_stripped() {
    let text = format!(
        "{}\r\n{}\r\n",
        ",result,table,_start,_stop,_time,_value,_field,_measurement,region_id,status,website_id",
        csv_row("2025-01-01T05:00:00Z", "100"),
    );
    let pts = parse_query_response(&text);
    assert_eq!(pts.len(), 1);
    assert_eq!(pts[0].time, "2025-01-01T05:00:00Z");
}

#[test]
fn integer_parse_accepts_exactly_signed_decimals() {
    assert_eq!(parse_i64("0"), Some(0));
    assert_eq!(parse_i64("3254"), Some(3254));
    assert_eq!(parse_i64("-17"), Some(-17));
    assert_eq!(parse_i64("9223372036854775807"), Some(i64::MAX));
    assert_eq!(parse_i64("-9223372036854775808"), Some(i64::MIN));
    assert_eq!(parse_i64("9223372036854775808"), None);
    assert_eq!(parse_i64("-9223372036854775809"), None);
    assert_eq!(parse_i64(""), None);
    assert_eq!(parse_i64("-"), None);
    assert_eq!(parse_i64("12.5"), None);
    assert_eq!(parse_i64("1e3"), None);
    assert_eq!(parse_i64(" 12"), None);
}

#[test]
fn split_keeps_empty_fields() {
    let parts = split_str("a,,b,", ',');
    assert_eq!(parts, vec!["a".to_string(), "".to_string(), "b".to_string(), "".to_string()]);
}

#[test]
fn lexicographic_compare_orders_timestamps() {
    assert!(str_lex_le("2025-01-01T05:00:00Z", "2025-01-01T09:00:00Z"));
    assert!(!str_lex_le("2025-01-02T00:00:00Z", "2025-01-01T23:59:59Z"));
    assert!(str_lex_le("abc", "abc"));
    assert!(str_lex_le("ab", "abc"));
}

#[test]
fn sorting_is_a_permutation_with_a_fixed_tie_order() {
    let pts = vec![
        TimeSeriesPoint { time: "c".to_string(), value: 3 },
        TimeSeriesPoint { time: "a".to_string(), value: 4 },
        TimeSeriesPoint { time: "b".to_string(), value: 2 },
        TimeSeriesPoint { time: "a".to_string(), value: 1 },
    ];
    let sorted = sort_points(pts);
    let times: Vec<&str> = sorted.iter().map(|p| p.time.as_str()).collect();
    assert_eq!(times, vec!["a", "a", "b", "c"]);
    // Equal times are ordered by value: the answer list is unique.
    let values: Vec<i64> = sorted.iter().map(|p| p.value).collect();
    assert_eq!(values, vec![1, 4, 2, 3]);
}

#[test]
fn parsing_is_deterministic() {
    let text = format!(
        "{}\n{}\n{}\n",
        ",result,table,_start,_stop,_time,_value,_field,_measurement,region_id,status,website_id",
        csv_row("2025-01-01T05:00:00Z", "200"),
        csv_row("2025-01-01T05:00:00Z", "100"),
    );
    let a = parse_query_response(&text);
    let b = parse_query_response(&text);
    let pairs_a: Vec<(String, i64)> = a.iter().map(|p| (p.time.clone(), p.value)).collect();
    let pairs_b: Vec<(String, i64)> = b.iter().map(|p| (p.time.clone(), p.value)).collect();
    assert_eq!(pairs_a, pairs_b);
    assert_eq!(pairs_a[0].1, 100);
    assert_eq!(pairs_a[1].1, 200);
}

#[test]
fn last_downtime_takes_the_most_recent_point() {
    assert!(last_downtime_of(Vec::new()).is_none());
    // Most recent by time, wherever it stands in the list.
    let pts = vec![
        TimeSeriesPoint { time: "2025-01-03T00:00:00Z".to_string(), value: 7 },
        TimeSeriesPoint { time: "2025-01-01T00:00:00Z".to_string(), value: 9 },
    ];
    let last = last_downtime_of(pts).unwrap();
    assert_eq!(last.time, "2025-01-03T00:00:00Z");
    assert_eq!(last.value, 7);
    let pts2 = vec![
        TimeSeriesPoint { time: "2025-01-01T00:00:00Z".to_string(), value: 9 },
        TimeSeriesPoint { time: "2025-01-04T00:00:00Z".to_string(), value: 3 },
        TimeSeriesPoint { time: "2025-01-02T00:00:00Z".to_string(), value: 5 },
    ];
    let last2 = last_downtime_of(pts2).unwrap();
    assert_eq!(last2.time, "2025-01-04T00:00:00Z");
    assert_eq!(last2.value, 3);
}

use metricscat::query::{
    bucket_start, listing_offset, plan_metrics_query, plan_search, read_bound, read_reference,
    resolve_metrics_query, resolve_search, Bound, PAGE_SIZE, SEARCH_LIMIT, SEARCH_TIME_FORMAT,
    SEARCH_WINDOW_SECONDS,
};
use metricscat::server::{Function, Interval};

const NOW: i64 = 1_704_164_645_000_000;

fn tokens(list: &[&str]) -> Vec<String> {
    list.iter().map(|t| t.to_string()).collect()
}

#[test]
fn one_hour_interval_without_range_or_function() {
    let q = resolve_metrics_query(NOW, Some(Interval::Hour1), None, None, None);
    assert_eq!(q.start, NOW - 3_600_000_000);
    assert_eq!(q.end, NOW);
    assert_eq!(q.bucket_seconds, 30);
    assert_eq!(q.aggregate, Function::Avg);
}

#[test]
fn interval_defaults_to_one_minute() {
    let q = resolve_metrics_query(NOW, None, None, None, None);
    assert_eq!(q.start, NOW - 60_000_000);
    assert_eq!(q.bucket_seconds, 1);
}

#[test]
fn every_interval_has_its_span_and_bucket() {
    let table = [
        (Interval::Minute1, 60, 1),
        (Interval::Minute5, 300, 1),
        (Interval::Minute15, 900, 15),
        (Interval::Hour1, 3600, 30),
        (Interval::Hour4, 14400, 60),
        (Interval::Day, 86400, 1800),
    ];
    for (interval, span, bucket) in table {
        assert_eq!(interval.span_seconds(), span);
        assert_eq!(interval.bucket_seconds(), bucket);
        let q = plan_metrics_query(NOW, Some(interval), Bound::Absent, Bound::Absent, None);
        assert_eq!(q.start, NOW - span * 1_000_000);
        assert_eq!(q.bucket_seconds, bucket);
    }
}

#[test]
fn explicit_range_overrides_the_interval() {
    let q = resolve_metrics_query(
        NOW,
        Some(Interval::Day),
        Some("2024-01-01T00:00:00"),
        Some("2024-01-01T06:30:00.250"),
        Some(Function::Max),
    );
    assert_eq!(q.start, 1_704_067_200_000_000);
    assert_eq!(q.end, 1_704_090_600_250_000);
    assert_eq!(q.bucket_seconds, 1800);
    assert_eq!(q.aggregate, Function::Max);
}

#[test]
fn unreadable_bounds_fall_back_to_now() {
    let q = resolve_metrics_query(NOW, Some(Interval::Hour4), Some("yesterday"), Some(""), None);
    assert_eq!(q.start, NOW);
    assert_eq!(q.end, NOW);
}

#[test]
fn percentiles_fall_back_to_average() {
    for f in [Function::P50, Function::P75, Function::P99, Function::P9999, Function::Avg] {
        let q = plan_metrics_query(NOW, None, Bound::Absent, Bound::Absent, Some(f));
        assert_eq!(q.aggregate, Function::Avg);
    }
    for f in [Function::Min, Function::Max, Function::Sum] {
        let q = plan_metrics_query(NOW, None, Bound::Absent, Bound::Absent, Some(f));
        assert_eq!(q.aggregate, f);
    }
}

#[test]
fn range_is_half_open() {
    let q = plan_metrics_query(NOW, None, Bound::At(100), Bound::At(200), None);
    assert!(q.covers(100));
    assert!(q.covers(199));
    assert!(!q.covers(200));
    assert!(!q.covers(99));
}

#[test]
fn timestamps_are_read_as_microseconds() {
    assert_eq!(read_bound(Some("2024-01-02T03:04:05")), Bound::At(NOW));
    assert_eq!(read_bound(Some("2024-01-02T03:04:05.000001")), Bound::At(NOW + 1));
    assert_eq!(read_bound(Some("1969-12-31T23:59:59")), Bound::At(-1_000_000));
    assert_eq!(read_bound(Some("2024-01-02 03:04:05")), Bound::Unreadable);
    assert_eq!(read_bound(None), Bound::Absent);
}

#[test]
fn search_reference_follows_its_format() {
    assert_eq!(SEARCH_TIME_FORMAT, "%Y-%m-%dT%H:%M:%S");
    assert_eq!(read_reference(Some("2024-01-02T03:04:05")), Bound::At(NOW));
    assert_eq!(read_reference(Some("2024-01-02T03:04:05.5")), Bound::Unreadable);
    assert_eq!(read_reference(Some("03:04:05")), Bound::Unreadable);
    assert_eq!(read_reference(None), Bound::Absent);
}

#[test]
fn bucket_start_rounds_down_to_the_width() {
    assert_eq!(bucket_start(NOW, 30), 1_704_164_640_000_000);
    assert_eq!(bucket_start(NOW + 999_999, 1), NOW);
    assert_eq!(bucket_start(NOW, 1800), 1_704_164_400_000_000);
    assert_eq!(bucket_start(0, 15), 0);
    assert_eq!(bucket_start(14_999_999, 15), 0);
    assert_eq!(bucket_start(15_000_000, 15), 15_000_000);
    assert_eq!(bucket_start(-1, 15), -15_000_000);
    assert_eq!(bucket_start(-15_000_000, 15), -15_000_000);
    assert_eq!(bucket_start(-15_000_001, 15), -30_000_000);
}

#[test]
fn listing_starts_after_the_offset() {
    assert_eq!(PAGE_SIZE, 25);
    assert_eq!(listing_offset(None), 0);
    assert_eq!(listing_offset(Some(40)), 40);
}

#[test]
fn search_holds_only_records_with_all_tokens_inside_the_window() {
    assert_eq!(SEARCH_LIMIT, 100);
    assert_eq!(SEARCH_WINDOW_SECONDS, 300);
    let q = resolve_search("connection refused", Some("2024-01-02T03:04:05"), 0).unwrap();
    assert_eq!(q.tokens, vec!["connection", "refused"]);
    assert_eq!(q.before, NOW);
    assert_eq!(q.after, NOW - 300_000_000);
    let inside = NOW - 1_000_000;
    assert!(q.admits(&tokens(&["ERROR", "connection", "refused", "by", "peer"]), inside));
    assert!(q.admits(&tokens(&["refused", "connection"]), inside));
    assert!(!q.admits(&tokens(&["connection", "reset"]), inside));
    assert!(!q.admits(&tokens(&["connection-refused"]), inside));
    assert!(!q.admits(&tokens(&[]), inside));
    assert!(!q.admits(&tokens(&["connection", "refused"]), NOW));
    assert!(!q.admits(&tokens(&["connection", "refused"]), NOW - 300_000_000));
    assert!(q.admits(&tokens(&["connection", "refused"]), NOW - 299_999_999));
    assert!(!q.admits(&tokens(&["connection", "refused"]), NOW + 1));
}

#[test]
fn search_reference_defaults_to_now() {
    let q = resolve_search("  x  ", None, NOW).unwrap();
    assert_eq!(q.tokens, vec!["x"]);
    assert_eq!(q.before, NOW);
    let q = resolve_search("x", Some("not a time"), NOW).unwrap();
    assert_eq!(q.before, NOW);
    let q = plan_search("", Bound::At(500_000_000), NOW);
    assert!(q.tokens.is_empty());
    assert_eq!(q.after, 200_000_000);
    assert!(q.admits(&tokens(&["anything"]), 300_000_000));
}

#[test]
fn search_without_representable_window_is_refused() {
    assert!(resolve_search("x", None, i64::MIN + 10).is_none());
    assert!(resolve_search("x", None, i64::MIN + 300_000_000).is_some());
}

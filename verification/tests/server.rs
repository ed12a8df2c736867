use metricscat::server::{index, Function, Interval, LogLine, MetricPoint};

#[test]
fn landing_page_greets() {
    assert_eq!(index(), "Hello, world!");
}

#[test]
fn aggregate_names_in_statements() {
    assert_eq!(Function::Min.sql_name(), "MIN");
    assert_eq!(Function::Avg.sql_name(), "AVG");
    assert_eq!(Function::Max.sql_name(), "MAX");
    assert_eq!(Function::Sum.sql_name(), "SUM");
    for f in [Function::P50, Function::P75, Function::P99, Function::P9999] {
        assert_eq!(f.sql_name(), "AVG");
        assert_eq!(f.effective(), Function::Avg);
    }
    assert_eq!(Function::Sum.effective(), Function::Sum);
}

#[test]
fn vocabulary_compares_by_variant() {
    assert_eq!(Interval::Hour1, Interval::Hour1);
    assert_ne!(Interval::Hour1, Interval::Hour4);
    assert_ne!(Function::Min, Function::Max);
}

#[test]
fn listing_line_is_rebuilt_from_tokens_and_separators() {
    let tokens = vec!["disk".to_string(), "full".to_string()];
    let separators = vec![" ".to_string(), " ".to_string()];
    let l = LogLine::from_row(42, &tokens, &separators, "2024-01-02 03:04:05".to_string());
    assert_eq!(l.line, "disk full ");
    assert_eq!(l.offset, 42);
    assert_eq!(l.recorded_at, "2024-01-02 03:04:05");
}

#[test]
fn listing_line_tolerates_missing_separators() {
    let tokens = vec!["a".to_string(), "b".to_string(), "c".to_string()];
    let separators = vec!["-".to_string()];
    let l = LogLine::from_row(1, &tokens, &separators, String::new());
    assert_eq!(l.line, "a-bc");
}

#[test]
fn metric_point_carries_value_and_bucket_time() {
    let p = MetricPoint::from_row(0.25f64.to_bits(), "2024-01-02 03:04:30".to_string());
    assert_eq!(f64::from_bits(p.value_bits), 0.25);
    assert_eq!(p.recorded_at, "2024-01-02 03:04:30");
}

use metricscat::agent::{space_separators, LogLevel, LogLine, Metric};

fn entry(line: &str) -> LogLine {
    LogLine { line: line.to_string(), level: None, created_at: None, tags: Vec::new() }
}

#[test]
fn tokenize_splits_on_whitespace_and_pairs_spaces() {
    let (parts, separators) = entry("2024-01-02 ERROR  disk\tfull\n").tokenize();
    assert_eq!(parts, vec!["2024-01-02", "ERROR", "disk", "full"]);
    assert_eq!(separators, vec![" ", " ", " ", " "]);
}

#[test]
fn tokenize_of_blank_line_is_empty() {
    let (parts, separators) = entry(" \n").tokenize();
    assert!(parts.is_empty());
    assert!(separators.is_empty());
}

#[test]
fn tokenize_keeps_multi_line_records_as_one_token_stream() {
    let (parts, separators) = entry("Traceback:\n  at foo\n  at bar\n").tokenize();
    assert_eq!(parts, vec!["Traceback:", "at", "foo", "at", "bar"]);
    assert_eq!(separators.len(), parts.len());
}

#[test]
fn space_separators_are_single_spaces() {
    assert_eq!(space_separators(0), Vec::<String>::new());
    assert_eq!(space_separators(3), vec![" ", " ", " "]);
}

#[test]
fn records_can_be_cloned_and_printed() {
    let m = Metric {
        name: "cpu".to_string(),
        value_bits: 1.5f64.to_bits(),
        tags: vec![("host".to_string(), "a".to_string())],
    };
    let copy = m.clone();
    assert_eq!(copy.name, "cpu");
    assert_eq!(f64::from_bits(copy.value_bits), 1.5);
    assert_eq!(copy.tags, m.tags);
    let mut e = entry("x");
    e.level = Some(LogLevel::Warning);
    assert_eq!(e.clone().level, Some(LogLevel::Warning));
    assert!(format!("{:?}", e).contains("Warning"));
}

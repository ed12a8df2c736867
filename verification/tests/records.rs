use metricscat::agent::LogLine;
use metricscat::records::{insert_statement, prepare_logs, LogRecord};
use metricscat::text::{split_words, trim_end_of};

#[test]
fn record_holds_words_and_single_space_separators() {
    let r = LogRecord::from_line("  GET /index.html   200 \n");
    assert_eq!(r.tokens, vec!["GET", "/index.html", "200"]);
    assert_eq!(r.separators, vec![" ", " ", " "]);
}

#[test]
fn reconstruction_appends_a_separator_after_each_token() {
    let r = LogRecord::from_line("a b c\n");
    assert_eq!(r.line(), "a b c ");
}

#[test]
fn reconstruction_of_blank_line_is_the_trimmed_line() {
    for line in ["", "\n", " \t \n"] {
        let r = LogRecord::from_line(line);
        assert_eq!(r.line(), trim_end_of(line));
        assert_eq!(r.line(), "");
    }
}

#[test]
fn tokens_survive_reconstruction() {
    for line in ["a b c", "  x\t\ty  ", "one", "2024-01-02 12:00:00 ERROR connection refused\n"] {
        let r = LogRecord::from_line(line);
        assert_eq!(split_words(&r.line()), r.tokens);
        assert_eq!(split_words(&r.line()), split_words(line));
        let again = LogRecord::from_line(&r.line());
        assert_eq!(again.tokens, r.tokens);
        assert_eq!(again.separators, r.separators);
    }
}

#[test]
fn single_spaced_line_comes_back_with_one_trailing_space() {
    let line = "connection refused by peer";
    assert_eq!(LogRecord::from_line(line).line(), format!("{} ", line));
}

#[test]
fn batch_is_prepared_line_by_line() {
    let batch = vec![
        LogLine { line: "a b\n".to_string(), level: None, created_at: None, tags: Vec::new() },
        LogLine { line: "\n".to_string(), level: None, created_at: None, tags: Vec::new() },
    ];
    let records = prepare_logs(&batch);
    assert_eq!(records.len(), 2);
    assert_eq!(records[0].tokens, vec!["a", "b"]);
    assert!(records[1].tokens.is_empty());
    assert!(prepare_logs(&Vec::new()).is_empty());
}

#[test]
fn empty_batch_needs_no_statement() {
    assert_eq!(insert_statement(0), None);
}

#[test]
fn statement_numbers_two_placeholders_per_record() {
    assert_eq!(
        insert_statement(1),
        Some(
            "INSERT INTO logs (log_parts, separators, created_at) VALUES ($1, $2, TIMEZONE('UTC', NOW())) RETURNING id"
                .to_string()
        )
    );
    assert_eq!(
        insert_statement(3),
        Some(
            "INSERT INTO logs (log_parts, separators, created_at) VALUES ($1, $2, TIMEZONE('UTC', NOW())), ($3, $4, TIMEZONE('UTC', NOW())), ($5, $6, TIMEZONE('UTC', NOW())) RETURNING id"
                .to_string()
        )
    );
    let six = insert_statement(6).unwrap();
    assert!(six.contains("($11, $12, TIMEZONE('UTC', NOW()))"));
}

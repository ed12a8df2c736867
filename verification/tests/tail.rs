use metricscat::pattern::{RecordStart, DATE_PREFIX};
use metricscat::tail::{TailAction, TailEvent, Tailer, POLL_INTERVAL_MILLIS};

fn tailer() -> Tailer {
    Tailer::new("/var/log/app.log".to_string(), RecordStart::dated().unwrap())
}

fn line(text: &str) -> TailEvent {
    TailEvent::Line { text: text.to_string(), bytes: text.len() as u64 }
}

fn emitted(action: TailAction) -> Option<String> {
    match action {
        TailAction::Read { emit } => emit.map(|e| e.line),
        TailAction::Sleep { emit, .. } => emit.map(|e| e.line),
        TailAction::Stop => None,
    }
}

fn run_pass(t: &mut Tailer, lines: &[&str], modified: u64) -> Vec<String> {
    let mut out = Vec::new();
    out.extend(emitted(t.step(TailEvent::Opened { seek_ok: true })));
    for l in lines {
        out.extend(emitted(t.step(line(l))));
    }
    out.extend(emitted(t.step(TailEvent::EndOfFile { modified })));
    out
}

#[test]
fn default_pattern_is_a_leading_date() {
    assert_eq!(DATE_PREFIX, r"^\d{4}-\d{2}-\d{2}.*");
    let p = RecordStart::dated().unwrap();
    assert!(p.starts_record("2024-01-02 12:00:00 started\n"));
    assert!(!p.starts_record("  at com.example.Main\n"));
    assert!(!p.starts_record("on 2024-01-02 it rained\n"));
    assert!(!p.starts_record("2024-1-2\n"));
}

#[test]
fn custom_pattern_is_compiled_and_used() {
    let p = RecordStart::new(r"^\[").unwrap();
    assert!(p.starts_record("[info] x"));
    assert!(!p.starts_record("2024-01-02 x"));
}

#[test]
fn invalid_pattern_is_rejected_with_a_message() {
    match RecordStart::new("foo(bar") {
        Ok(_) => panic!("an unclosed group must not compile"),
        Err(e) => assert!(!e.message.is_empty()),
    }
}

#[test]
fn n_record_start_lines_give_n_entries_across_passes() {
    let mut t = tailer();
    let first = run_pass(&mut t, &["2024-01-01 a\n", "2024-01-02 b\n"], 10);
    let second = run_pass(&mut t, &["2024-01-03 c\n"], 20);
    let third = run_pass(&mut t, &[], 20);
    let fourth = run_pass(&mut t, &["2024-01-04 d\n", "2024-01-05 e\n", "2024-01-06 f\n"], 30);
    let mut all = first;
    all.extend(second);
    all.extend(third);
    all.extend(fourth);
    assert_eq!(
        all,
        vec![
            "2024-01-01 a\n",
            "2024-01-02 b\n",
            "2024-01-03 c\n",
            "2024-01-04 d\n",
            "2024-01-05 e\n",
            "2024-01-06 f\n"
        ]
    );
    assert_eq!(t.state.offset, 6 * 13);
    assert_eq!(t.state.last_modified, Some(30));
}

#[test]
fn continuation_lines_join_the_record_in_progress() {
    let mut t = tailer();
    let out = run_pass(
        &mut t,
        &["2024-01-01 boom\n", "  at a\n", "  at b\n", "2024-01-01 next\n"],
        5,
    );
    assert_eq!(out, vec!["2024-01-01 boom\n  at a\n  at b\n", "2024-01-01 next\n"]);
}

#[test]
fn first_line_of_a_pass_starts_a_record_without_matching() {
    let mut t = tailer();
    let out = run_pass(&mut t, &["no date here\n", "more\n"], 5);
    assert_eq!(out, vec!["no date here\nmore\n"]);
}

#[test]
fn record_is_emitted_at_end_of_file_not_before() {
    let mut t = tailer();
    assert!(matches!(t.step(TailEvent::Opened { seek_ok: true }), TailAction::Read { emit: None }));
    assert!(matches!(t.step(line("2024-01-01 only\n")), TailAction::Read { emit: None }));
    match t.step(TailEvent::EndOfFile { modified: 1 }) {
        TailAction::Sleep { emit: Some(e), millis } => {
            assert_eq!(e.line, "2024-01-01 only\n");
            assert_eq!(e.tags, vec![("filename".to_string(), "/var/log/app.log".to_string())]);
            assert!(e.level.is_none());
            assert!(e.created_at.is_none());
            assert_eq!(millis, POLL_INTERVAL_MILLIS);
            assert_eq!(millis, 1000);
        }
        other => panic!("unexpected {:?}", other),
    }
    assert_eq!(t.state.buffer, "");
}

#[test]
fn truncated_file_is_read_again_from_byte_zero() {
    let mut t = tailer();
    let _ = run_pass(&mut t, &["2024-01-01 a\n", "2024-01-02 b\n"], 10);
    assert_eq!(t.state.offset, 26);
    let out = run_pass(&mut t, &[], 11);
    assert!(out.is_empty());
    assert_eq!(t.state.offset, 0);
    let again = run_pass(&mut t, &["2024-02-01 x\n"], 11);
    assert_eq!(again, vec!["2024-02-01 x\n"]);
    assert_eq!(t.state.offset, 13);
}

#[test]
fn idle_file_keeps_its_offset() {
    let mut t = tailer();
    let _ = run_pass(&mut t, &["2024-01-01 a\n"], 10);
    let _ = run_pass(&mut t, &[], 10);
    let _ = run_pass(&mut t, &[], 10);
    assert_eq!(t.state.offset, 13);
}

#[test]
fn growth_with_newer_time_keeps_the_offset() {
    let mut t = tailer();
    let _ = run_pass(&mut t, &["2024-01-01 a\n"], 10);
    let _ = run_pass(&mut t, &["  tail\n"], 12);
    assert_eq!(t.state.offset, 20);
    assert_eq!(t.state.last_modified, Some(12));
}

#[test]
fn older_modification_time_resets_the_offset() {
    let mut t = tailer();
    let _ = run_pass(&mut t, &["2024-01-01 a\n"], 10);
    let _ = run_pass(&mut t, &["2023-01-01 old\n"], 3);
    assert_eq!(t.state.offset, 0);
    assert_eq!(t.state.last_modified, Some(3));
}

#[test]
fn failed_seek_restarts_at_zero() {
    let mut t = tailer();
    let _ = run_pass(&mut t, &["2024-01-01 a\n"], 10);
    let _ = t.step(TailEvent::Opened { seek_ok: false });
    assert_eq!(t.state.offset, 0);
}

#[test]
fn open_failure_stops_the_tailer() {
    let mut t = tailer();
    assert!(matches!(t.step(TailEvent::OpenFailed), TailAction::Stop));
    assert_eq!(t.state.offset, 0);
}

#[test]
fn read_failure_ends_the_pass_like_end_of_file() {
    let mut t = tailer();
    let _ = t.step(TailEvent::Opened { seek_ok: true });
    let _ = t.step(line("2024-01-01 a\n"));
    match t.step(TailEvent::ReadFailed { modified: 4 }) {
        TailAction::Sleep { emit: Some(e), millis: 1000 } => assert_eq!(e.line, "2024-01-01 a\n"),
        other => panic!("unexpected {:?}", other),
    }
    assert_eq!(t.state.offset, 13);
}

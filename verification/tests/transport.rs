use metricscat::transport::{
    api_base, endpoint, Delivery, Next, Outcome, Payload, BACKOFF_MILLIS, DEFAULT_API_BASE,
    MAX_ATTEMPTS,
};

fn rejected(body: &str) -> Outcome {
    Outcome::Answered { status: 500, body: body.to_string() }
}

#[test]
fn sustained_failure_makes_three_attempts_with_one_second_pauses() {
    assert_eq!(MAX_ATTEMPTS, 3);
    assert_eq!(BACKOFF_MILLIS, 1000);
    let mut d = Delivery::new();
    let mut attempts = 0;
    let mut waits: Vec<u64> = Vec::new();
    let outcomes = vec![
        Outcome::SendFailed { detail: "refused".to_string() },
        rejected("busy"),
        rejected("still busy"),
        rejected("never sent"),
    ];
    let mut last = None;
    for outcome in outcomes {
        attempts += 1;
        match d.step(outcome) {
            Next::RetryAfter { millis } => waits.push(millis),
            other => {
                last = Some(other);
                break;
            }
        }
    }
    assert_eq!(attempts, 3);
    assert_eq!(waits, vec![1000, 1000]);
    match last {
        Some(Next::GiveUp { detail }) => assert_eq!(detail, "still busy"),
        other => panic!("expected the batch to be given up, got {:?}", other),
    }
}

#[test]
fn success_ends_the_delivery_at_once() {
    let mut d = Delivery::new();
    assert!(matches!(d.step(Outcome::Answered { status: 200, body: String::new() }), Next::Done));
}

#[test]
fn success_after_one_failure_needs_two_attempts() {
    let mut d = Delivery::new();
    assert!(matches!(d.step(rejected("x")), Next::RetryAfter { millis: 1000 }));
    assert!(matches!(d.step(Outcome::Answered { status: 200, body: String::new() }), Next::Done));
}

#[test]
fn any_status_but_200_is_a_failure() {
    for status in [0u16, 199, 201, 204, 301, 404, 500, 503] {
        let mut d = Delivery::new();
        assert!(
            matches!(
                d.step(Outcome::Answered { status, body: String::new() }),
                Next::RetryAfter { .. }
            ),
            "status {}",
            status
        );
    }
}

#[test]
fn send_error_on_last_attempt_is_reported_as_detail() {
    let mut d = Delivery::new();
    let _ = d.step(rejected("a"));
    let _ = d.step(rejected("b"));
    match d.step(Outcome::SendFailed { detail: "timeout".to_string() }) {
        Next::GiveUp { detail } => assert_eq!(detail, "timeout"),
        other => panic!("unexpected {:?}", other),
    }
}

#[test]
fn endpoints_are_below_the_base() {
    assert_eq!(endpoint("http://c:8000/api", Payload::Metrics), "http://c:8000/api/metrics");
    assert_eq!(endpoint("http://c:8000/api", Payload::Logs), "http://c:8000/api/logs");
}

#[test]
fn api_base_defaults_to_local_address() {
    assert_eq!(DEFAULT_API_BASE, "http://localhost:8000/api");
    assert_eq!(api_base(None), "http://localhost:8000/api");
    assert_eq!(api_base(Some("https://x/api".to_string())), "https://x/api");
}

//! Delivery policy of the transport client: a bounded number of attempts
//! with a fixed pause between them. The driver sends; `Delivery::step` takes
//! the outcome of each attempt and says what to do next.

use vstd::prelude::*;

verus! {

/// Attempts made for one batch before it is given up.
pub const MAX_ATTEMPTS: u8 = 3;

/// Pause after a failed attempt that is not the last, in milliseconds.
pub const BACKOFF_MILLIS: u64 = 1000;

/// The status that means the collector has taken the batch.
pub const STATUS_OK: u16 = 200;

/// Address of the collector's interface when none is configured.
pub const DEFAULT_API_BASE: &'static str = "http://localhost:8000/api";

/// What a batch holds.
#[derive(Debug, Clone, Copy, PartialEq, Eq, Structural)]
pub enum Payload {
    Metrics,
    Logs,
}

/// How one attempt ended.
#[derive(Debug)]
pub enum Outcome {
    /// The collector answered with `status`; `body` is the text of the answer.
    Answered { status: u16, body: String },
    /// The request could not be sent; `detail` says why.
    SendFailed { detail: String },
}

/// Mathematical content of an `Outcome`.
pub enum OutcomeView {
    Answered { status: u16, body: Seq<char> },
    SendFailed { detail: Seq<char> },
}

impl View for Outcome {
    type V = OutcomeView;

    open spec fn view(&self) -> OutcomeView {
        match *self {
            Outcome::Answered { status, body } => OutcomeView::Answered { status, body: body@ },
            Outcome::SendFailed { detail } => OutcomeView::SendFailed { detail: detail@ },
        }
    }
}

/// What the driver does after an attempt.
#[derive(Debug)]
pub enum Next {
    /// The batch is delivered.
    Done,
    /// Wait `millis`, then send again.
    RetryAfter { millis: u64 },
    /// Log `detail`, drop the batch and return normally.
    GiveUp { detail: String },
}

/// Mathematical content of a `Next`.
pub enum NextView {
    Done,
    RetryAfter { millis: u64 },
    GiveUp { detail: Seq<char> },
}

impl View for Next {
    type V = NextView;

    open spec fn view(&self) -> NextView {
        match *self {
            Next::Done => NextView::Done,
            Next::RetryAfter { millis } => NextView::RetryAfter { millis },
            Next::GiveUp { detail } => NextView::GiveUp { detail: detail@ },
        }
    }
}

/// Whether an attempt failed: the request was not sent, or the answer was
/// not the success status.
pub open spec fn failed(outcome: OutcomeView) -> bool {
    match outcome {
        OutcomeView::Answered { status, .. } => status != STATUS_OK,
        OutcomeView::SendFailed { .. } => true,
    }
}

/// The error text that a failed attempt leaves.
pub open spec fn detail_of(outcome: OutcomeView) -> Seq<char> {
    match outcome {
        OutcomeView::Answered { body, .. } => body,
        OutcomeView::SendFailed { detail } => detail,
    }
}

/// The transition function: `failures` failed attempts lie behind, the next
/// attempt ended with `outcome`.
pub open spec fn step(failures: nat, outcome: OutcomeView) -> (nat, NextView) {
    if !failed(outcome) {
        (failures, NextView::Done)
    } else if failures + 1 < MAX_ATTEMPTS {
        (failures + 1, NextView::RetryAfter { millis: BACKOFF_MILLIS })
    } else {
        (MAX_ATTEMPTS as nat, NextView::GiveUp { detail: detail_of(outcome) })
    }
}

/// The delivery of one batch.
pub struct Delivery {
    failures: u8,
}

impl Delivery {
    /// Failed attempts so far.
    pub closed spec fn failures(&self) -> nat {
        self.failures as nat
    }

    /// No more attempts have failed than are allowed.
    pub closed spec fn wf(&self) -> bool {
        self.failures <= MAX_ATTEMPTS
    }

    /// A delivery that has not been attempted.
    pub fn new() -> (d: Delivery)
        ensures
            d.wf(),
            d.failures() == 0,
    {
        Delivery { failures: 0 }
    }

    /// Takes the outcome of the attempt just made and says what to do next.
    pub fn step(&mut self, outcome: Outcome) -> (next: Next)
        requires
            old(self).wf(),
        ensures
            final(self).wf(),
            (final(self).failures(), next@) == step(old(self).failures(), outcome@),
    {
        match outcome {
            Outcome::Answered { status, body } => {
                if status == STATUS_OK {
                    Next::Done
                } else {
                    self.fail(body)
                }
            },
            Outcome::SendFailed { detail } => self.fail(detail),
        }
    }

    /// Counts one failed attempt whose error text is `detail`.
    fn fail(&mut self, detail: String) -> (next: Next)
        requires
            old(self).wf(),
        ensures
            final(self).wf(),
            final(self).failures() == if old(self).failures() + 1 < MAX_ATTEMPTS {
                old(self).failures() + 1
            } else {
                MAX_ATTEMPTS as nat
            },
            next@ == if old(self).failures() + 1 < MAX_ATTEMPTS {
                NextView::RetryAfter { millis: BACKOFF_MILLIS }
            } else {
                NextView::GiveUp { detail: detail@ }
            },
    {
        if self.failures + 1 < MAX_ATTEMPTS {
            self.failures = self.failures + 1;
            Next::RetryAfter { millis: BACKOFF_MILLIS }
        } else {
            self.failures = MAX_ATTEMPTS;
            Next::GiveUp { detail }
        }
    }
}

/// The course of one delivery.
pub struct Course {
    /// Requests sent.
    pub attempts: nat,
    /// The pauses made, in order.
    pub waits: Seq<u64>,
    /// How the delivery ended, if the outcomes given reach its end.
    pub end: Option<NextView>,
}

/// The course of a delivery whose attempts end with `outcomes`, one after the
/// other, after `failures` failed attempts.
pub open spec fn course(failures: nat, outcomes: Seq<OutcomeView>) -> Course
    decreases outcomes.len(),
{
    if outcomes.len() == 0 {
        Course { attempts: 0, waits: Seq::empty(), end: None }
    } else {
        let (after, next) = step(failures, outcomes[0]);
        match next {
            NextView::RetryAfter { millis } => {
                let rest = course(after, outcomes.drop_first());
                Course {
                    attempts: rest.attempts + 1,
                    waits: seq![millis] + rest.waits,
                    end: rest.end,
                }
            },
            _ => Course { attempts: 1, waits: Seq::empty(), end: Some(next) },
        }
    }
}

/// Against a collector that keeps failing, a batch is sent exactly three
/// times, with a pause of one second after the first and after the second
/// attempt and none after the third; the delivery then ends by giving the
/// batch up with the last error, which is no error to the caller.
pub proof fn lemma_three_attempts(outcomes: Seq<OutcomeView>)
    requires
        outcomes.len() >= MAX_ATTEMPTS,
        forall|i: int| 0 <= i < MAX_ATTEMPTS ==> failed(#[trigger] outcomes[i]),
    ensures
        course(0, outcomes).attempts == MAX_ATTEMPTS,
        course(0, outcomes).waits == seq![BACKOFF_MILLIS, BACKOFF_MILLIS],
        course(0, outcomes).end == Some(NextView::GiveUp { detail: detail_of(outcomes[2]) }),
{
    reveal_with_fuel(course, 4);
    let second = outcomes.drop_first();
    let third = second.drop_first();
    assert(failed(outcomes[0]));
    assert(second[0] == outcomes[1]);
    assert(third[0] == outcomes[2]);
    assert(course(0, outcomes).waits =~= seq![BACKOFF_MILLIS, BACKOFF_MILLIS]);
}

/// No delivery sends more than three times, and one whose first attempt
/// succeeds sends once and does not wait.
pub proof fn lemma_attempts_bounded(failures: nat, outcomes: Seq<OutcomeView>)
    requires
        failures <= MAX_ATTEMPTS,
    ensures
        failures < MAX_ATTEMPTS ==> course(failures, outcomes).attempts + failures <= MAX_ATTEMPTS,
        course(failures, outcomes).attempts <= MAX_ATTEMPTS,
        failures < MAX_ATTEMPTS ==> course(failures, outcomes).waits.len() + failures
            < MAX_ATTEMPTS,
        course(failures, outcomes).waits.len() < MAX_ATTEMPTS,
        outcomes.len() > 0 && !failed(outcomes[0]) ==> course(failures, outcomes) == (Course {
            attempts: 1,
            waits: Seq::empty(),
            end: Some(NextView::Done),
        }),
    decreases outcomes.len(),
{
    if outcomes.len() > 0 {
        let (after, next) = step(failures, outcomes[0]);
        if next is RetryAfter {
            lemma_attempts_bounded(after, outcomes.drop_first());
        }
    }
}

/// The address of the collector's interface: the configured one, or the
/// default.
pub fn api_base(configured: Option<String>) -> (base: String)
    ensures
        base@ == match configured {
            Some(b) => b@,
            None => DEFAULT_API_BASE@,
        },
{
    match configured {
        Some(b) => b,
        None => DEFAULT_API_BASE.to_owned(),
    }
}

/// The path below the interface's address that takes `payload`.
pub open spec fn path_of(payload: Payload) -> Seq<char> {
    match payload {
        Payload::Metrics => "/metrics"@,
        Payload::Logs => "/logs"@,
    }
}

/// The address that batches of `payload` are posted to.
pub fn endpoint(base: &str, payload: Payload) -> (url: String)
    ensures
        url@ == base@ + path_of(payload),
{
    let mut url = base.to_owned();
    match payload {
        Payload::Metrics => url.append("/metrics"),
        Payload::Logs => url.append("/logs"),
    }
    url
}

} // verus!

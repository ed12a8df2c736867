//! Resolution of queries: time ranges, bucket widths, aggregate functions,
//! and the window and tokens of a log search.
//!
//! Times are microseconds since the Unix epoch.

use crate::server::{Function, Interval};
use crate::text::{split_words, views, words};
use vstd::prelude::*;

verus! {

pub const MICROS_PER_SECOND: i64 = 1_000_000;

/// Length of a page of the log listing.
pub const PAGE_SIZE: i64 = 25;

/// Most records that a search returns.
pub const SEARCH_LIMIT: i64 = 100;

/// Length of the window of a search, in seconds.
pub const SEARCH_WINDOW_SECONDS: i64 = 300;

/// How the reference time of a search is written.
pub const SEARCH_TIME_FORMAT: &'static str = "%Y-%m-%dT%H:%M:%S";

/// The time written as `text` in the form `YYYY-MM-DDTHH:MM:SS` with an
/// optional fraction of a second, if `text` is of that form.
pub uninterp spec fn parsed_timestamp(text: Seq<char>) -> Option<i64>;

/// The time written as `text` in the form that `format` describes, if `text`
/// is of that form.
pub uninterp spec fn parsed_with_format(text: Seq<char>, format: Seq<char>) -> Option<i64>;

/// `chrono::NaiveDateTime`'s `FromStr` reads a date and time, and
/// `NaiveDateTime::and_utc` with `DateTime::timestamp_micros` give it as
/// microseconds since the epoch; what comes out depends on the text alone.
#[verifier::external_body]
fn parse_timestamp(text: &str) -> (r: Option<i64>)
    ensures
        r == parsed_timestamp(text@),
{
    match text.parse::<chrono::NaiveDateTime>() {
        Ok(t) => Some(t.and_utc().timestamp_micros()),
        Err(_) => None,
    }
}

/// `chrono::NaiveDateTime::parse_from_str` reads a date and time written as
/// `format` says, and `NaiveDateTime::and_utc` with
/// `DateTime::timestamp_micros` give it as microseconds since the epoch; what
/// comes out depends on the text and the format alone.
#[verifier::external_body]
fn parse_timestamp_with(text: &str, format: &str) -> (r: Option<i64>)
    ensures
        r == parsed_with_format(text@, format@),
{
    match chrono::NaiveDateTime::parse_from_str(text, format) {
        Ok(t) => Some(t.and_utc().timestamp_micros()),
        Err(_) => None,
    }
}

/// A bound of a range as a request gives it: absent, unreadable, or a time.
#[derive(Debug, Clone, Copy, PartialEq, Eq, Structural)]
pub enum Bound {
    Absent,
    Unreadable,
    At(i64),
}

/// The bound that a parameter of a request stands for.
pub open spec fn bound_of(parameter: Option<Seq<char>>) -> Bound {
    match parameter {
        None => Bound::Absent,
        Some(text) => match parsed_timestamp(text) {
            Some(t) => Bound::At(t),
            None => Bound::Unreadable,
        },
    }
}

/// The reference time that a parameter of a search stands for.
pub open spec fn reference_of(parameter: Option<Seq<char>>) -> Bound {
    match parameter {
        None => Bound::Absent,
        Some(text) => match parsed_with_format(text, SEARCH_TIME_FORMAT@) {
            Some(t) => Bound::At(t),
            None => Bound::Unreadable,
        },
    }
}

/// The views of a parameter that may be absent.
pub open spec fn text_of(parameter: Option<&str>) -> Option<Seq<char>> {
    match parameter {
        Some(text) => Some(text@),
        None => None,
    }
}

/// Reads a bound of a range.
pub fn read_bound(parameter: Option<&str>) -> (b: Bound)
    ensures
        b == bound_of(text_of(parameter)),
{
    match parameter {
        None => Bound::Absent,
        Some(text) => match parse_timestamp(text) {
            Some(t) => Bound::At(t),
            None => Bound::Unreadable,
        },
    }
}

/// Reads the reference time of a search.
pub fn read_reference(parameter: Option<&str>) -> (b: Bound)
    ensures
        b == reference_of(text_of(parameter)),
{
    match parameter {
        None => Bound::Absent,
        Some(text) => match parse_timestamp_with(text, SEARCH_TIME_FORMAT) {
            Some(t) => Bound::At(t),
            None => Bound::Unreadable,
        },
    }
}

/// A resolved query for the aggregate of a metric over `[start, end)`.
#[derive(Debug, Clone, Copy, PartialEq, Eq, Structural)]
pub struct MetricsQuery {
    pub start: i64,
    pub end: i64,
    pub bucket_seconds: i64,
    pub aggregate: Function,
}

/// The interval of a request: one minute unless it names another.
pub open spec fn interval_or_default(interval: Option<Interval>) -> Interval {
    match interval {
        Some(i) => i,
        None => Interval::Minute1,
    }
}

/// Start of the range: the explicit start, the present where the start
/// cannot be read, and the present less the interval where there is none.
pub open spec fn range_start(now: i64, interval: Interval, start: Bound) -> int {
    match start {
        Bound::At(t) => t as int,
        Bound::Unreadable => now as int,
        Bound::Absent => now - interval.span() * MICROS_PER_SECOND,
    }
}

/// End of the range: the explicit end, or the present.
pub open spec fn range_end(now: i64, end: Bound) -> int {
    match end {
        Bound::At(t) => t as int,
        _ => now as int,
    }
}

/// The function of a request: the average unless it names another, and the
/// average in place of the percentiles.
pub open spec fn aggregate_of(function: Option<Function>) -> Function {
    match function {
        Some(f) => f.computed(),
        None => Function::Avg,
    }
}

/// Resolves a metrics query from the present and the bounds as read.
pub fn plan_metrics_query(
    now: i64,
    interval: Option<Interval>,
    start: Bound,
    end: Bound,
    function: Option<Function>,
) -> (q: MetricsQuery)
    requires
        start is Absent ==> now - interval_or_default(interval).span() * MICROS_PER_SECOND
            >= i64::MIN,
    ensures
        q.start == range_start(now, interval_or_default(interval), start),
        q.end == range_end(now, end),
        q.bucket_seconds == interval_or_default(interval).bucket(),
        q.aggregate == aggregate_of(function),
{
    let interval = match interval {
        Some(i) => i,
        None => Interval::Minute1,
    };
    let start = match start {
        Bound::At(t) => t,
        Bound::Unreadable => now,
        Bound::Absent => now - interval.span_seconds() * MICROS_PER_SECOND,
    };
    let end = match end {
        Bound::At(t) => t,
        _ => now,
    };
    let aggregate = match function {
        Some(f) => f.effective(),
        None => Function::Avg,
    };
    MetricsQuery { start, end, bucket_seconds: interval.bucket_seconds(), aggregate }
}

/// Resolves a metrics query from the parameters of a request.
pub fn resolve_metrics_query(
    now: i64,
    interval: Option<Interval>,
    start: Option<&str>,
    end: Option<&str>,
    function: Option<Function>,
) -> (q: MetricsQuery)
    requires
        start is None ==> now - interval_or_default(interval).span() * MICROS_PER_SECOND
            >= i64::MIN,
    ensures
        q.start == range_start(now, interval_or_default(interval), bound_of(text_of(start))),
        q.end == range_end(now, bound_of(text_of(end))),
        q.bucket_seconds == interval_or_default(interval).bucket(),
        q.aggregate == aggregate_of(function),
{
    plan_metrics_query(now, interval, read_bound(start), read_bound(end), function)
}

impl MetricsQuery {
    /// Whether a point recorded at `at` lies in the range.
    pub fn covers(&self, at: i64) -> (b: bool)
        ensures
            b == (self.start <= at < self.end),
    {
        self.start <= at && at < self.end
    }
}

/// Start of the bucket of `width` seconds that holds `at`: the greatest
/// multiple of the width that is not after `at`.
pub open spec fn bucket_of(at: int, width: int) -> int {
    at - at % (width * MICROS_PER_SECOND)
}

/// Truncates `at` to the start of its bucket of `width` seconds.
pub fn bucket_start(at: i64, width: i64) -> (start: i64)
    requires
        0 < width,
        width * MICROS_PER_SECOND <= i64::MAX,
        at - width * MICROS_PER_SECOND > i64::MIN,
    ensures
        start == bucket_of(at as int, width as int),
        start <= at < start + width * MICROS_PER_SECOND,
        (start as int) % (width * MICROS_PER_SECOND) == 0,
{
    let w: i64 = width * MICROS_PER_SECOND;
    if at >= 0 {
        let r: i64 = at % w;
        proof {
            vstd::arithmetic::div_mod::lemma_fundamental_div_mod(at as int, w as int);
            vstd::arithmetic::div_mod::lemma_mod_multiples_basic((at as int) / (w as int), w as int);
            vstd::arithmetic::mul::lemma_mul_is_commutative(w as int, (at as int) / (w as int));
        }
        at - r
    } else {
        let m: i64 = -(at + 1);
        let r: i64 = m % w;
        let d: i64 = w - 1 - r;
        proof {
            let q = (m as int) / (w as int);
            vstd::arithmetic::div_mod::lemma_fundamental_div_mod(m as int, w as int);
            assert(at as int == (-(q + 1)) * w + d) by (nonlinear_arith)
                requires
                    m as int == w * q + r,
                    at as int == -(m as int) - 1,
                    d as int == w - 1 - r,
            ;
            vstd::arithmetic::div_mod::lemma_fundamental_div_mod_converse(
                at as int,
                w as int,
                -(q + 1),
                d as int,
            );
            vstd::arithmetic::div_mod::lemma_mod_multiples_basic(-(q + 1), w as int);
        }
        at - d
    }
}

/// Id above which a listing starts: the offset of the request, or 0.
pub fn listing_offset(offset: Option<i64>) -> (after: i64)
    ensures
        after == match offset {
            Some(o) => o,
            None => 0,
        },
{
    match offset {
        Some(o) => o,
        None => 0,
    }
}

/// A resolved search: the tokens that a record must hold, and the open
/// window `(after, before)` in which it must have been created.
#[derive(Debug)]
pub struct SearchQuery {
    pub tokens: Vec<String>,
    pub after: i64,
    pub before: i64,
}

/// Mathematical content of a `SearchQuery`.
pub struct SearchView {
    pub tokens: Seq<Seq<char>>,
    pub after: int,
    pub before: int,
}

impl View for SearchQuery {
    type V = SearchView;

    open spec fn view(&self) -> SearchView {
        SearchView {
            tokens: views(self.tokens@),
            after: self.after as int,
            before: self.before as int,
        }
    }
}

/// The reference time of a search: the one given, or the present where none
/// is given or it cannot be read.
pub open spec fn reference_time(reference: Bound, now: i64) -> i64 {
    match reference {
        Bound::At(t) => t,
        _ => now,
    }
}

/// The search for `term` with the window that ends at the reference time.
pub open spec fn search_for(term: Seq<char>, reference: Bound, now: i64) -> SearchView {
    let end = reference_time(reference, now);
    SearchView {
        tokens: words(term),
        after: end - SEARCH_WINDOW_SECONDS * MICROS_PER_SECOND,
        before: end as int,
    }
}

/// Whether the start of the window of a search can be represented.
pub open spec fn window_fits(reference: Bound, now: i64) -> bool {
    reference_time(reference, now) - SEARCH_WINDOW_SECONDS * MICROS_PER_SECOND >= i64::MIN
}

/// Whether a record with `tokens`, created at `created_at`, answers `query`:
/// it holds every token of the query, in any order and position, and was
/// created inside the window.
pub open spec fn answers(query: SearchView, tokens: Seq<Seq<char>>, created_at: int) -> bool {
    &&& forall|i: int| 0 <= i < query.tokens.len() ==> tokens.contains(#[trigger] query.tokens[i])
    &&& query.after < created_at < query.before
}

/// Resolves a search from the term, the reference time as read and the
/// present.
pub fn plan_search(term: &str, reference: Bound, now: i64) -> (q: SearchQuery)
    requires
        window_fits(reference, now),
    ensures
        q@ == search_for(term@, reference, now),
{
    let end = match reference {
        Bound::At(t) => t,
        _ => now,
    };
    SearchQuery {
        tokens: split_words(term),
        after: end - SEARCH_WINDOW_SECONDS * MICROS_PER_SECOND,
        before: end,
    }
}

/// Resolves a search from the parameters of a request; `None` when the start
/// of the window cannot be represented.
pub fn resolve_search(term: &str, created_at: Option<&str>, now: i64) -> (q: Option<SearchQuery>)
    ensures
        q is Some <==> window_fits(reference_of(text_of(created_at)), now),
        q matches Some(s) ==> s@ == search_for(term@, reference_of(text_of(created_at)), now),
{
    let reference = read_reference(created_at);
    let end = match reference {
        Bound::At(t) => t,
        _ => now,
    };
    if end >= i64::MIN + SEARCH_WINDOW_SECONDS * MICROS_PER_SECOND {
        Some(plan_search(term, reference, now))
    } else {
        None
    }
}

impl SearchQuery {
    /// Whether a record with `tokens`, created at `created_at`, answers the
    /// query.
    pub fn admits(&self, tokens: &Vec<String>, created_at: i64) -> (b: bool)
        ensures
            b == answers(self@, views(tokens@), created_at as int),
    {
        if !(self.after < created_at && created_at < self.before) {
            return false;
        }
        let mut i: usize = 0;
        while i < self.tokens.len()
            invariant
                i <= self.tokens.len(),
                forall|j: int| 0 <= j < i ==> views(tokens@).contains(#[trigger] views(self.tokens@)[j]),
            decreases self.tokens.len() - i,
        {
            if !crate::ingest::contains_name(tokens, &self.tokens[i]) {
                assert(!views(tokens@).contains(self@.tokens[i as int]));
                return false;
            }
            i = i + 1;
        }
        true
    }
}

} // verus!

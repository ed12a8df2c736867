//! Collector-side vocabulary: query intervals, aggregate functions, the
//! records of a log listing, the landing page.

use crate::text::{interleave, reconstruct, views};
use vstd::prelude::*;

verus! {

/// Named look-back windows for metric queries.
#[derive(Debug, Clone, Copy, PartialEq, Eq, Structural)]
pub enum Interval {
    Minute1,
    Minute5,
    Minute15,
    Hour1,
    Hour4,
    Day,
}

/// Aggregate functions of the query vocabulary.
#[derive(Debug, Clone, Copy, PartialEq, Eq, Structural)]
pub enum Function {
    Min,
    Avg,
    Max,
    Sum,
    P50,
    P75,
    P99,
    P9999,
}

impl Interval {
    /// Length of the window, in seconds.
    pub open spec fn span(self) -> int {
        match self {
            Interval::Minute1 => 60,
            Interval::Minute5 => 300,
            Interval::Minute15 => 900,
            Interval::Hour1 => 3600,
            Interval::Hour4 => 14400,
            Interval::Day => 86400,
        }
    }

    /// Width of the buckets that a query over the window groups by, in
    /// seconds.
    pub open spec fn bucket(self) -> int {
        match self {
            Interval::Minute1 => 1,
            Interval::Minute5 => 1,
            Interval::Minute15 => 15,
            Interval::Hour1 => 30,
            Interval::Hour4 => 60,
            Interval::Day => 1800,
        }
    }

    /// Length of the window, in seconds.
    pub fn span_seconds(self) -> (s: i64)
        ensures
            s == self.span(),
    {
        match self {
            Interval::Minute1 => 60,
            Interval::Minute5 => 300,
            Interval::Minute15 => 900,
            Interval::Hour1 => 3600,
            Interval::Hour4 => 14400,
            Interval::Day => 86400,
        }
    }

    /// Width of the buckets, in seconds.
    pub fn bucket_seconds(self) -> (s: i64)
        ensures
            s == self.bucket(),
    {
        match self {
            Interval::Minute1 => 1,
            Interval::Minute5 => 1,
            Interval::Minute15 => 15,
            Interval::Hour1 => 30,
            Interval::Hour4 => 60,
            Interval::Day => 1800,
        }
    }
}

impl Function {
    /// The function that is computed for `self`: the percentiles are
    /// answered with the average.
    pub open spec fn computed(self) -> Function {
        match self {
            Function::Min => Function::Min,
            Function::Max => Function::Max,
            Function::Sum => Function::Sum,
            _ => Function::Avg,
        }
    }

    /// The name of the computed function in a statement.
    pub open spec fn name(self) -> Seq<char> {
        match self.computed() {
            Function::Min => "MIN"@,
            Function::Max => "MAX"@,
            Function::Sum => "SUM"@,
            _ => "AVG"@,
        }
    }

    /// The function that is computed for `self`.
    pub fn effective(self) -> (f: Function)
        ensures
            f == self.computed(),
    {
        match self {
            Function::Min => Function::Min,
            Function::Max => Function::Max,
            Function::Sum => Function::Sum,
            _ => Function::Avg,
        }
    }

    /// The name of the computed function in a statement.
    pub fn sql_name(self) -> (name: &'static str)
        ensures
            name@ == self.name(),
    {
        match self {
            Function::Min => "MIN",
            Function::Max => "MAX",
            Function::Sum => "SUM",
            _ => "AVG",
        }
    }
}

/// One point of an aggregate query: the aggregate of a bucket, carried as
/// the bit pattern of an IEEE 754 double, and the time of the bucket.
#[derive(Debug)]
pub struct MetricPoint {
    pub value_bits: u64,
    pub recorded_at: String,
}

/// Mathematical content of a `MetricPoint`.
pub struct MetricPointView {
    pub value_bits: u64,
    pub recorded_at: Seq<char>,
}

impl View for MetricPoint {
    type V = MetricPointView;

    open spec fn view(&self) -> MetricPointView {
        MetricPointView { value_bits: self.value_bits, recorded_at: self.recorded_at@ }
    }
}

impl MetricPoint {
    /// The point of one row of an aggregate query.
    pub fn from_row(value_bits: u64, recorded_at: String) -> (p: MetricPoint)
        ensures
            p@ == (MetricPointView { value_bits, recorded_at: recorded_at@ }),
    {
        MetricPoint { value_bits, recorded_at }
    }
}

/// One line of a log listing.
#[derive(Debug)]
pub struct LogLine {
    pub line: String,
    pub recorded_at: String,
    pub offset: i64,
}

/// Mathematical content of a `LogLine`.
pub struct LogLineView {
    pub line: Seq<char>,
    pub recorded_at: Seq<char>,
    pub offset: i64,
}

impl View for LogLine {
    type V = LogLineView;

    open spec fn view(&self) -> LogLineView {
        LogLineView { line: self.line@, recorded_at: self.recorded_at@, offset: self.offset }
    }
}

impl LogLine {
    /// The listing line of a stored record: its text is every token followed
    /// by its separator, its offset is the record's id.
    pub fn from_row(id: i64, tokens: &Vec<String>, separators: &Vec<String>, recorded_at: String) -> (l:
        LogLine)
        ensures
            l@ == (LogLineView {
                line: interleave(views(tokens@), views(separators@)),
                recorded_at: recorded_at@,
                offset: id,
            }),
    {
        LogLine { line: reconstruct(tokens, separators), recorded_at, offset: id }
    }
}

/// The text served at the root path.
pub open spec fn greeting() -> Seq<char> {
    "Hello, world!"@
}

/// Body of the landing page.
pub fn index() -> (body: &'static str)
    ensures
        body@ == greeting(),
{
    "Hello, world!"
}

} // verus!

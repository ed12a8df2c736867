//! The records an agent puts on the wire: metrics and log entries.

use crate::text::{split_words, views, words};
use vstd::prelude::*;

verus! {

/// One metric sample. The value is carried as the bit pattern of an IEEE 754
/// double, so that the sample can be moved and compared without arithmetic
/// on it.
#[derive(Debug, Clone)]
pub struct Metric {
    pub name: String,
    pub value_bits: u64,
    pub tags: Vec<(String, String)>,
}

#[derive(Debug, Clone, Copy, PartialEq, Eq, Structural)]
pub enum LogLevel {
    Debug,
    Notice,
    Info,
    Warning,
    Error,
    Fatal,
}

/// One logical log record, possibly of several physical lines.
#[derive(Debug, Clone)]
pub struct LogLine {
    pub line: String,
    pub level: Option<LogLevel>,
    pub created_at: Option<String>,
    pub tags: Vec<(String, String)>,
}

/// Mathematical content of a list of tags.
pub open spec fn pairs(tags: Seq<(String, String)>) -> Seq<(Seq<char>, Seq<char>)> {
    Seq::new(tags.len(), |i: int| (tags[i].0@, tags[i].1@))
}

/// No two tags have the same key.
pub open spec fn keys_unique(tags: Seq<(Seq<char>, Seq<char>)>) -> bool {
    forall|i: int, j: int| 0 <= i < j < tags.len() ==> (#[trigger] tags[i]).0 != (#[trigger] tags[j]).0
}

/// Mathematical content of a `Metric`.
pub struct MetricView {
    pub name: Seq<char>,
    pub value_bits: u64,
    pub tags: Seq<(Seq<char>, Seq<char>)>,
}

/// Mathematical content of a `LogLine`.
pub struct LogLineView {
    pub line: Seq<char>,
    pub level: Option<LogLevel>,
    pub created_at: Option<Seq<char>>,
    pub tags: Seq<(Seq<char>, Seq<char>)>,
}

impl MetricView {
    /// The tags are a map: no key occurs twice.
    pub open spec fn wf(self) -> bool {
        keys_unique(self.tags)
    }
}

impl LogLineView {
    /// The tags are a map: no key occurs twice.
    pub open spec fn wf(self) -> bool {
        keys_unique(self.tags)
    }
}

impl View for Metric {
    type V = MetricView;

    open spec fn view(&self) -> MetricView {
        MetricView { name: self.name@, value_bits: self.value_bits, tags: pairs(self.tags@) }
    }
}

impl View for LogLine {
    type V = LogLineView;

    open spec fn view(&self) -> LogLineView {
        LogLineView {
            line: self.line@,
            level: self.level,
            created_at: match self.created_at {
                Some(t) => Some(t@),
                None => None,
            },
            tags: pairs(self.tags@),
        }
    }
}

/// The views of a sequence of log entries.
pub open spec fn entries(v: Seq<LogLine>) -> Seq<LogLineView> {
    Seq::new(v.len(), |i: int| v[i]@)
}

/// The views of a sequence of metrics.
pub open spec fn samples(v: Seq<Metric>) -> Seq<MetricView> {
    Seq::new(v.len(), |i: int| v[i]@)
}

/// `n` separators of one space each.
pub open spec fn spaces(n: nat) -> Seq<Seq<char>> {
    Seq::new(n, |i: int| seq![' '])
}

/// One single-space separator per token.
pub fn space_separators(n: usize) -> (out: Vec<String>)
    ensures
        views(out@) == spaces(n as nat),
{
    let mut out: Vec<String> = Vec::new();
    let mut i: usize = 0;
    while i < n
        invariant
            i <= n,
            out.len() == i,
            views(out@) == spaces(i as nat),
        decreases n - i,
    {
        let sep = " ".to_owned();
        proof {
            reveal_strlit(" ");
            assert(sep@ == seq![' ']);
            assert forall|k: int| 0 <= k < i + 1 implies #[trigger] views(out@.push(sep))[k]
                == seq![' '] by {
                if k < i {
                    assert(views(out@)[k] == spaces(i as nat)[k]);
                }
            }
            assert(views(out@.push(sep)) =~= spaces((i + 1) as nat));
        }
        out.push(sep);
        i = i + 1;
    }
    out
}

impl LogLine {
    /// The words of the entry and, for each word, the separator that follows
    /// it: always one space.
    pub fn tokenize(&self) -> (r: (Vec<String>, Vec<String>))
        ensures
            views(r.0@) == words(self.line@),
            views(r.1@) == spaces(words(self.line@).len()),
    {
        let parts = split_words(self.line.as_str());
        assert(views(parts@).len() == parts.len());
        let separators = space_separators(parts.len());
        (parts, separators)
    }
}

} // verus!

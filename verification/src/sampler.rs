//! The metric sources of an agent: custom metrics pushed in datagrams, and
//! the periodic snapshot of the host.

use crate::agent::{Metric, MetricView};
use crate::text::{chars_of, find_char, first_index, string_of, trim, trim_bounds};
use vstd::prelude::*;

verus! {

/// Port on which custom metrics are received.
pub const CUSTOM_METRICS_PORT: u16 = 1337;

/// Largest datagram taken, in bytes.
pub const DATAGRAM_CAPACITY: usize = 512;

/// Pause between two snapshots of the host, in milliseconds.
pub const SAMPLE_INTERVAL_MILLIS: u64 = 1000;

/// Host name used when the host reports none that is text.
pub const UNKNOWN_HOST: &'static str = "unknown";

/// The part of `s` before its first `sep`, or all of `s` when it holds none.
pub open spec fn first_segment(s: Seq<char>, sep: char) -> Seq<char> {
    s.take(first_index(s, sep))
}

/// Name and value text of the custom metric in `payload`: the payload is
/// trimmed, everything from the first `|` on is ignored, and what is left
/// must hold exactly one `:`, which parts the name from the value.
pub open spec fn custom_metric(payload: Seq<char>) -> Option<(Seq<char>, Seq<char>)> {
    let segment = first_segment(trim(payload), '|');
    let colon = first_index(segment, ':');
    if colon < segment.len() && first_index(segment.skip(colon + 1), ':') == segment.len() - colon
        - 1 {
        Some((segment.take(colon), segment.skip(colon + 1)))
    } else {
        None
    }
}

/// Decodes the text of one datagram; a payload that is not of the form
/// `name:value` gives `None`.
pub fn decode_custom_metric(payload: &str) -> (r: Option<(String, String)>)
    ensures
        match r {
            Some(pair) => Some((pair.0@, pair.1@)),
            None => None,
        } == custom_metric(payload@),
{
    let v = chars_of(payload);
    let (b, e) = trim_bounds(&v);
    let bar = find_char(&v, b, e, '|');
    let colon = find_char(&v, b, bar, ':');
    proof {
        let trimmed = v@.subrange(b as int, e as int);
        let segment = v@.subrange(b as int, bar as int);
        assert(trimmed.take(bar - b) == segment);
        assert(first_segment(trim(payload@), '|') == segment);
        if colon < bar {
            assert(segment.skip(colon - b + 1) == v@.subrange(colon + 1, bar as int));
            assert(segment.take(colon - b) == v@.subrange(b as int, colon as int));
        }
    }
    if colon < bar {
        let second = find_char(&v, colon + 1, bar, ':');
        if second == bar {
            Some((string_of(&v, b, colon), string_of(&v, colon + 1, bar)))
        } else {
            None
        }
    } else {
        None
    }
}

/// A custom metric: it carries no tags.
pub fn custom(name: String, value_bits: u64) -> (m: Metric)
    ensures
        m@ == (MetricView { name: name@, value_bits, tags: Seq::empty() }),
        m@.wf(),
{
    let m = Metric { name, value_bits, tags: Vec::new() };
    assert(m@.tags =~= Seq::empty());
    m
}

/// The name to tag host metrics with.
pub fn host_name(reported: Option<String>) -> (name: String)
    ensures
        name@ == match reported {
            Some(h) => h@,
            None => UNKNOWN_HOST@,
        },
{
    match reported {
        Some(h) => h,
        None => UNKNOWN_HOST.to_owned(),
    }
}

/// One metric of the host snapshot.
pub open spec fn host_metric(name: Seq<char>, value_bits: u64, host: Seq<char>) -> MetricView {
    MetricView { name, value_bits, tags: seq![("hostname"@, host)] }
}

/// The metrics of one host snapshot.
pub open spec fn snapshot(total_bits: u64, used_bits: u64, cpu_bits: u64, host: Seq<char>) -> Seq<
    MetricView,
> {
    seq![
        host_metric("system.mem.total"@, total_bits, host),
        host_metric("system.mem.used"@, used_bits, host),
        host_metric("system.cpu.utilization"@, cpu_bits, host),
    ]
}

/// A metric of the host, tagged with the host's name.
fn tagged(name: &str, value_bits: u64, host: &str) -> (m: Metric)
    ensures
        m@ == host_metric(name@, value_bits, host@),
{
    let mut tags: Vec<(String, String)> = Vec::new();
    tags.push(("hostname".to_owned(), host.to_owned()));
    let m = Metric { name: name.to_owned(), value_bits, tags };
    assert(m@.tags =~= seq![("hostname"@, host@)]);
    m
}

/// The metrics of one snapshot: total memory, used memory and the mean
/// utilisation of the processors, each tagged with the host's name.
pub fn system_metrics(total_bits: u64, used_bits: u64, cpu_bits: u64, host: &str) -> (out: Vec<
    Metric,
>)
    ensures
        crate::agent::samples(out@) == snapshot(total_bits, used_bits, cpu_bits, host@),
        forall|i: int| 0 <= i < out.len() ==> (#[trigger] out@[i])@.wf(),
{
    let mut out: Vec<Metric> = Vec::new();
    out.push(tagged("system.mem.total", total_bits, host));
    out.push(tagged("system.mem.used", used_bits, host));
    out.push(tagged("system.cpu.utilization", cpu_bits, host));
    assert(crate::agent::samples(out@) =~= snapshot(total_bits, used_bits, cpu_bits, host@));
    out
}

} // verus!

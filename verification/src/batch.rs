//! The batching buffer between the tailers and the transport: entries are
//! queued in push order and leave together, when the queue is full or when
//! the flush timer fires.

use crate::agent::{entries, LogLine, LogLineView};
use vstd::prelude::*;

verus! {

/// Queue length at which a push flushes the queue.
pub const FLUSH_THRESHOLD: usize = 5;

/// Pause between two timed flushes, in milliseconds.
pub const FLUSH_INTERVAL_MILLIS: u64 = 1000;

/// The queue of entries that wait for delivery.
pub struct BatchQueue {
    pending: Vec<LogLine>,
}

/// What is left waiting after `entry` joined `queued`.
pub open spec fn after_push(queued: Seq<LogLineView>, entry: Option<LogLineView>) -> Seq<
    LogLineView,
> {
    match entry {
        Some(e) => queued.push(e),
        None => queued,
    }
}

impl BatchQueue {
    /// The entries that wait, oldest first.
    pub closed spec fn view(&self) -> Seq<LogLineView> {
        entries(self.pending@)
    }

    /// A queue never holds a full batch between two calls.
    pub closed spec fn wf(&self) -> bool {
        self.pending.len() < FLUSH_THRESHOLD
    }

    /// An empty queue.
    pub fn new() -> (q: BatchQueue)
        ensures
            q.wf(),
            q@.len() == 0,
    {
        BatchQueue { pending: Vec::new() }
    }

    /// Number of entries that wait.
    pub fn len(&self) -> (n: usize)
        ensures
            n == self@.len(),
    {
        self.pending.len()
    }

    /// Hands out everything that waits and leaves the queue empty.
    fn take_all(&mut self) -> (batch: Vec<LogLine>)
        ensures
            entries(batch@) == old(self)@,
            batch.len() == old(self).pending.len(),
            final(self)@.len() == 0,
            final(self).pending.len() == 0,
    {
        let mut batch: Vec<LogLine> = Vec::new();
        core::mem::swap(&mut self.pending, &mut batch);
        batch
    }

    /// Queues `entry`, if there is one, and flushes when the queue has
    /// reached the threshold: the whole queue, in push order, is handed out
    /// for delivery and the queue is left empty. Below the threshold nothing
    /// is handed out.
    pub fn push(&mut self, entry: Option<LogLine>) -> (batch: Option<Vec<LogLine>>)
        requires
            old(self).wf(),
        ensures
            final(self).wf(),
            batch is Some <==> after_push(old(self)@, option_view(entry)).len() >= FLUSH_THRESHOLD,
            batch matches Some(b) ==> entries(b@) == after_push(old(self)@, option_view(entry))
                && final(self)@.len() == 0,
            batch is None ==> final(self)@ == after_push(old(self)@, option_view(entry)),
    {
        match entry {
            Some(e) => {
                proof {
                    assert(entries(self.pending@.push(e)) =~= entries(self.pending@).push(e@));
                }
                self.pending.push(e);
            },
            None => {},
        }
        if self.pending.len() >= FLUSH_THRESHOLD {
            Some(self.take_all())
        } else {
            None
        }
    }

    /// The timed flush: whatever waits, even a single entry, is handed out in
    /// push order and the queue is left empty; an empty queue hands out
    /// nothing.
    pub fn drain(&mut self) -> (batch: Option<Vec<LogLine>>)
        requires
            old(self).wf(),
        ensures
            final(self).wf(),
            final(self)@.len() == 0,
            batch is Some <==> old(self)@.len() > 0,
            batch matches Some(b) ==> entries(b@) == old(self)@,
    {
        if self.pending.len() > 0 {
            Some(self.take_all())
        } else {
            None
        }
    }
}

/// The view of an entry that may be absent.
pub open spec fn option_view(entry: Option<LogLine>) -> Option<LogLineView> {
    match entry {
        Some(e) => Some(e@),
        None => None,
    }
}

} // verus!

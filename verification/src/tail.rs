//! Incremental file tailing: offsets, rotation detection and the reassembly
//! of records that span several lines.
//!
//! The tailer is a state machine. Its driver opens and reads the file and
//! reports what happened as a `TailEvent`; `Tailer::step` updates the state
//! and answers with what to do next.

use crate::agent::{LogLine, LogLineView};
use crate::pattern::RecordStart;
use vstd::prelude::*;

verus! {

/// Pause between two passes over a file, in milliseconds.
pub const POLL_INTERVAL_MILLIS: u64 = 1000;

/// What the tailer remembers of one file.
#[derive(Debug)]
pub struct TailState {
    /// Bytes already consumed.
    pub offset: u64,
    /// Modification time recorded at the end of the last pass.
    pub last_modified: Option<u64>,
    /// The record in progress.
    pub buffer: String,
    /// Whether the current pass has consumed any bytes.
    pub grew: bool,
}

/// Mathematical content of a `TailState`.
pub struct TailView {
    pub offset: nat,
    pub last_modified: Option<u64>,
    pub buffer: Seq<char>,
    pub grew: bool,
}

impl View for TailState {
    type V = TailView;

    open spec fn view(&self) -> TailView {
        TailView {
            offset: self.offset as nat,
            last_modified: self.last_modified,
            buffer: self.buffer@,
            grew: self.grew,
        }
    }
}

/// What the driver observed.
#[derive(Debug)]
pub enum TailEvent {
    /// The file was opened; `seek_ok` tells whether it could be positioned at
    /// the stored offset.
    Opened { seek_ok: bool },
    /// The file could not be opened.
    OpenFailed,
    /// One line of `bytes` bytes was read, terminator included.
    Line { text: String, bytes: u64 },
    /// The read returned no bytes; `modified` is the file's modification time.
    EndOfFile { modified: u64 },
    /// The read failed; `modified` is the file's modification time.
    ReadFailed { modified: u64 },
}

/// Mathematical content of a `TailEvent`.
pub enum TailInput {
    Opened { seek_ok: bool },
    OpenFailed,
    Line { text: Seq<char>, bytes: u64 },
    EndOfFile { modified: u64 },
    ReadFailed { modified: u64 },
}

impl View for TailEvent {
    type V = TailInput;

    open spec fn view(&self) -> TailInput {
        match *self {
            TailEvent::Opened { seek_ok } => TailInput::Opened { seek_ok },
            TailEvent::OpenFailed => TailInput::OpenFailed,
            TailEvent::Line { text, bytes } => TailInput::Line { text: text@, bytes },
            TailEvent::EndOfFile { modified } => TailInput::EndOfFile { modified },
            TailEvent::ReadFailed { modified } => TailInput::ReadFailed { modified },
        }
    }
}

/// What the driver does next.
#[derive(Debug)]
pub enum TailAction {
    /// Queue `emit`, if any, and read the next line.
    Read { emit: Option<LogLine> },
    /// Queue `emit`, if any, close the file and open it again after `millis`.
    Sleep { emit: Option<LogLine>, millis: u64 },
    /// Give the file up.
    Stop,
}

/// Mathematical content of a `TailAction`.
pub enum TailOutput {
    Read { emit: Option<LogLineView> },
    Sleep { emit: Option<LogLineView>, millis: u64 },
    Stop,
}

impl View for TailAction {
    type V = TailOutput;

    open spec fn view(&self) -> TailOutput {
        match *self {
            TailAction::Read { emit } => TailOutput::Read {
                emit: match emit {
                    Some(e) => Some(e@),
                    None => None,
                },
            },
            TailAction::Sleep { emit, millis } => TailOutput::Sleep {
                emit: match emit {
                    Some(e) => Some(e@),
                    None => None,
                },
                millis,
            },
            TailAction::Stop => TailOutput::Stop,
        }
    }
}

/// The entry made of a finished record of the file at `path`.
pub open spec fn entry(path: Seq<char>, text: Seq<char>) -> LogLineView {
    LogLineView { line: text, level: None, created_at: None, tags: seq![("filename"@, path)] }
}

/// The entry for what the buffer holds, if it holds anything.
pub open spec fn flushed(path: Seq<char>, buffer: Seq<char>) -> Option<LogLineView> {
    if buffer.len() > 0 {
        Some(entry(path, buffer))
    } else {
        None
    }
}

/// Whether a pass that ends with modification time `modified` has found the
/// file truncated or replaced: the time went back, or it advanced although
/// nothing could be read at the stored offset.
pub open spec fn rotated(last: Option<u64>, modified: u64, grew: bool) -> bool {
    match last {
        Some(seen) => modified < seen || (seen < modified && !grew),
        None => false,
    }
}

/// The state before the first pass.
pub open spec fn initial() -> TailView {
    TailView { offset: 0, last_modified: None, buffer: Seq::empty(), grew: false }
}

/// State and output at the end of a pass.
pub open spec fn finish(state: TailView, path: Seq<char>, modified: u64) -> (TailView, TailOutput) {
    (
        TailView {
            offset: if rotated(state.last_modified, modified, state.grew) {
                0
            } else {
                state.offset
            },
            last_modified: Some(modified),
            buffer: Seq::empty(),
            grew: false,
        },
        TailOutput::Sleep { emit: flushed(path, state.buffer), millis: POLL_INTERVAL_MILLIS },
    )
}

/// The transition function of the tailer for the file at `path`, with
/// `pattern` as the record-start pattern.
pub open spec fn step(state: TailView, pattern: RecordStart, path: Seq<char>, input: TailInput) -> (
    TailView,
    TailOutput,
) {
    match input {
        TailInput::Opened { seek_ok } => (
            TailView {
                offset: if seek_ok {
                    state.offset
                } else {
                    0
                },
                buffer: Seq::empty(),
                grew: false,
                ..state
            },
            TailOutput::Read { emit: None },
        ),
        TailInput::OpenFailed => (state, TailOutput::Stop),
        TailInput::Line { text, bytes } => {
            let advanced = TailView {
                offset: state.offset + bytes as nat,
                grew: state.grew || bytes > 0,
                ..state
            };
            if state.buffer.len() == 0 {
                (TailView { buffer: text, ..advanced }, TailOutput::Read { emit: None })
            } else if pattern.matches(text) {
                (
                    TailView { buffer: text, ..advanced },
                    TailOutput::Read { emit: Some(entry(path, state.buffer)) },
                )
            } else {
                (
                    TailView { buffer: state.buffer + text, ..advanced },
                    TailOutput::Read { emit: None },
                )
            }
        },
        TailInput::EndOfFile { modified } => finish(state, path, modified),
        TailInput::ReadFailed { modified } => finish(state, path, modified),
    }
}

/// The entries that one output asks to queue.
pub open spec fn emitted_by(output: TailOutput) -> Seq<LogLineView> {
    match output {
        TailOutput::Read { emit: Some(e) } => seq![e],
        TailOutput::Sleep { emit: Some(e), .. } => seq![e],
        _ => Seq::empty(),
    }
}

/// The state after `inputs`, and the entries queued on the way, in order.
pub open spec fn run(state: TailView, pattern: RecordStart, path: Seq<char>, inputs: Seq<TailInput>) -> (
    TailView,
    Seq<LogLineView>,
)
    decreases inputs.len(),
{
    if inputs.len() == 0 {
        (state, Seq::empty())
    } else {
        let (before, queued) = run(state, pattern, path, inputs.drop_last());
        let (after, output) = step(before, pattern, path, inputs.last());
        (after, queued + emitted_by(output))
    }
}

/// One line as the driver reads it.
pub struct LineRead {
    pub text: Seq<char>,
    pub bytes: u64,
}

/// The inputs of a pass up to the end of `lines`: the file opens at the
/// stored offset and each line is read in turn.
pub open spec fn reading(lines: Seq<LineRead>) -> Seq<TailInput>
    decreases lines.len(),
{
    if lines.len() == 0 {
        seq![TailInput::Opened { seek_ok: true }]
    } else {
        reading(lines.drop_last()).push(
            TailInput::Line { text: lines.last().text, bytes: lines.last().bytes },
        )
    }
}

/// The inputs of one whole pass that reads `lines` and then finds the end of
/// the file, whose modification time is `modified`.
pub open spec fn pass(lines: Seq<LineRead>, modified: u64) -> Seq<TailInput> {
    reading(lines).push(TailInput::EndOfFile { modified })
}

/// One pass: the lines it reads and the modification time it finds.
pub struct Pass {
    pub lines: Seq<LineRead>,
    pub modified: u64,
}

/// The inputs of `passes`, one pass after the other.
pub open spec fn polling(passes: Seq<Pass>) -> Seq<TailInput>
    decreases passes.len(),
{
    if passes.len() == 0 {
        Seq::empty()
    } else {
        polling(passes.drop_last()) + pass(passes.last().lines, passes.last().modified)
    }
}

/// The lines that `passes` read, in file order.
pub open spec fn lines_of(passes: Seq<Pass>) -> Seq<LineRead>
    decreases passes.len(),
{
    if passes.len() == 0 {
        Seq::empty()
    } else {
        lines_of(passes.drop_last()) + passes.last().lines
    }
}

/// One entry per line.
pub open spec fn one_entry_each(path: Seq<char>, lines: Seq<LineRead>) -> Seq<LogLineView> {
    Seq::new(lines.len(), |i: int| entry(path, lines[i].text))
}

/// Every line is non-empty and starts a record.
pub open spec fn all_start_records(pattern: RecordStart, lines: Seq<LineRead>) -> bool {
    forall|i: int|
        0 <= i < lines.len() ==> (#[trigger] lines[i]).text.len() > 0 && pattern.matches(lines[i].text)
}

/// Total number of bytes of `lines`.
pub open spec fn total_bytes(lines: Seq<LineRead>) -> nat
    decreases lines.len(),
{
    if lines.len() == 0 {
        0
    } else {
        total_bytes(lines.drop_last()) + lines.last().bytes as nat
    }
}

/// Running the tailer over `first` and then over `second` is running it over
/// both in one go.
pub proof fn lemma_run_concat(
    state: TailView,
    pattern: RecordStart,
    path: Seq<char>,
    first: Seq<TailInput>,
    second: Seq<TailInput>,
)
    ensures
        run(state, pattern, path, first + second).0 == run(
            run(state, pattern, path, first).0,
            pattern,
            path,
            second,
        ).0,
        run(state, pattern, path, first + second).1 == run(state, pattern, path, first).1 + run(
            run(state, pattern, path, first).0,
            pattern,
            path,
            second,
        ).1,
    decreases second.len(),
{
    if second.len() == 0 {
        assert(first + second == first);
    } else {
        assert((first + second).drop_last() == first + second.drop_last());
        lemma_run_concat(state, pattern, path, first, second.drop_last());
    }
}

/// While a pass reads lines that each start a record, every line but the
/// last read has become an entry of its own and the last one waits in the
/// buffer; the offset has advanced by the bytes read.
pub proof fn lemma_reading(state: TailView, pattern: RecordStart, path: Seq<char>, lines: Seq<LineRead>)
    requires
        all_start_records(pattern, lines),
    ensures
        ({
            let (after, queued) = run(state, pattern, path, reading(lines));
            &&& after.offset == state.offset + total_bytes(lines)
            &&& after.last_modified == state.last_modified
            &&& lines.len() == 0 ==> after.buffer.len() == 0 && queued.len() == 0 && !after.grew
            &&& lines.len() > 0 ==> after.buffer == lines.last().text && queued == one_entry_each(
                path,
                lines.drop_last(),
            )
        }),
    decreases lines.len(),
{
    if lines.len() == 0 {
        reveal_with_fuel(run, 2);
        assert(reading(lines).drop_last() == Seq::<TailInput>::empty());
    } else {
        let earlier = lines.drop_last();
        assert(reading(lines).drop_last() == reading(earlier));
        assert forall|i: int| 0 <= i < earlier.len() implies (#[trigger] earlier[i]).text.len() > 0
            && pattern.matches(earlier[i].text) by {
            assert(earlier[i] == lines[i]);
        }
        lemma_reading(state, pattern, path, earlier);
        let (before, queued) = run(state, pattern, path, reading(earlier));
        if earlier.len() > 0 {
            assert(lines[lines.len() - 1].text.len() > 0);
            assert(earlier[earlier.len() - 1].text.len() > 0);
            assert(queued + seq![entry(path, before.buffer)] =~= one_entry_each(path, earlier));
        } else {
            assert(queued + Seq::<LogLineView>::empty() =~= one_entry_each(path, earlier));
        }
    }
}

/// A pass over lines that each start a record queues exactly one entry per
/// line, in file order, and leaves the buffer empty.
pub proof fn lemma_pass_entries(
    state: TailView,
    pattern: RecordStart,
    path: Seq<char>,
    lines: Seq<LineRead>,
    modified: u64,
)
    requires
        all_start_records(pattern, lines),
    ensures
        run(state, pattern, path, pass(lines, modified)).1 == one_entry_each(path, lines),
        run(state, pattern, path, pass(lines, modified)).0.buffer.len() == 0,
{
    lemma_reading(state, pattern, path, lines);
    assert(pass(lines, modified).drop_last() == reading(lines));
    let (before, queued) = run(state, pattern, path, reading(lines));
    if lines.len() > 0 {
        assert(lines[lines.len() - 1].text.len() > 0);
        assert(queued + seq![entry(path, before.buffer)] =~= one_entry_each(path, lines));
    } else {
        assert(queued + Seq::<LogLineView>::empty() =~= one_entry_each(path, lines));
    }
}

/// A file that receives `N` lines, each the start of a record, yields `N`
/// entries, one per line and in file order, however the lines fall into
/// passes.
pub proof fn lemma_one_entry_per_record(
    state: TailView,
    pattern: RecordStart,
    path: Seq<char>,
    passes: Seq<Pass>,
)
    requires
        forall|k: int| 0 <= k < passes.len() ==> all_start_records(pattern, (#[trigger] passes[k]).lines),
    ensures
        run(state, pattern, path, polling(passes)).1 == one_entry_each(path, lines_of(passes)),
        run(state, pattern, path, polling(passes)).1.len() == lines_of(passes).len(),
    decreases passes.len(),
{
    if passes.len() == 0 {
    } else {
        let earlier = passes.drop_last();
        let last = passes.last();
        assert forall|k: int| 0 <= k < earlier.len() implies all_start_records(
            pattern,
            (#[trigger] earlier[k]).lines,
        ) by {
            assert(earlier[k] == passes[k]);
        }
        lemma_one_entry_per_record(state, pattern, path, earlier);
        lemma_run_concat(state, pattern, path, polling(earlier), pass(last.lines, last.modified));
        let mid = run(state, pattern, path, polling(earlier)).0;
        assert(all_start_records(pattern, passes[passes.len() - 1].lines));
        lemma_pass_entries(mid, pattern, path, last.lines, last.modified);
        assert(one_entry_each(path, lines_of(earlier)) + one_entry_each(path, last.lines)
            =~= one_entry_each(path, lines_of(passes)));
    }
}

/// A pass that consumes bytes, on a file whose modification time has not
/// gone back, advances the offset by exactly the bytes it consumed.
pub proof fn lemma_offset_advances(
    state: TailView,
    pattern: RecordStart,
    path: Seq<char>,
    lines: Seq<LineRead>,
    modified: u64,
)
    requires
        all_start_records(pattern, lines),
        lines.len() > 0,
        forall|i: int| 0 <= i < lines.len() ==> (#[trigger] lines[i]).bytes > 0,
        state.last_modified matches Some(seen) ==> seen <= modified,
    ensures
        run(state, pattern, path, pass(lines, modified)).0.offset == state.offset + total_bytes(
            lines,
        ),
        run(state, pattern, path, pass(lines, modified)).0.last_modified == Some(modified),
{
    lemma_reading(state, pattern, path, lines);
    lemma_grew(state, pattern, path, lines);
    assert(pass(lines, modified).drop_last() == reading(lines));
}

/// A pass that has read a line of at least one byte has grown.
proof fn lemma_grew(state: TailView, pattern: RecordStart, path: Seq<char>, lines: Seq<LineRead>)
    requires
        lines.len() > 0,
        forall|i: int| 0 <= i < lines.len() ==> (#[trigger] lines[i]).bytes > 0,
    ensures
        run(state, pattern, path, reading(lines)).0.grew,
{
    assert(reading(lines).drop_last() == reading(lines.drop_last()));
    assert(lines[lines.len() - 1].bytes > 0);
}

/// A file that was truncated or replaced, so that nothing can be read at the
/// stored offset although the modification time has changed, is read again
/// from byte 0: the pass that finds this resets the offset, and so does a
/// pass that cannot position the file at the stored offset.
pub proof fn lemma_truncation_restarts(
    state: TailView,
    pattern: RecordStart,
    path: Seq<char>,
    seen: u64,
    modified: u64,
)
    requires
        state.last_modified == Some(seen),
        seen != modified,
    ensures
        run(state, pattern, path, pass(Seq::empty(), modified)).0.offset == 0,
        run(state, pattern, path, pass(Seq::empty(), modified)).0.last_modified == Some(modified),
        step(state, pattern, path, TailInput::Opened { seek_ok: false }).0.offset == 0,
        step(
            run(state, pattern, path, pass(Seq::empty(), modified)).0,
            pattern,
            path,
            TailInput::Opened { seek_ok: true },
        ).0.offset == 0,
{
    reveal_with_fuel(run, 3);
    let lines = Seq::<LineRead>::empty();
    assert(pass(lines, modified).drop_last() == reading(lines));
    assert(reading(lines).drop_last() == Seq::<TailInput>::empty());
}

/// The tailer of one file.
pub struct Tailer {
    pub path: String,
    pub pattern: RecordStart,
    pub state: TailState,
}

impl Tailer {
    /// A tailer that has not read anything yet.
    pub fn new(path: String, pattern: RecordStart) -> (t: Tailer)
        ensures
            t.path == path,
            t.pattern == pattern,
            t.state@ == initial(),
    {
        Tailer {
            path,
            pattern,
            state: TailState { offset: 0, last_modified: None, buffer: String::new(), grew: false },
        }
    }

    /// The entry made of `text`.
    fn make_entry(&self, text: String) -> (e: LogLine)
        ensures
            e@ == entry(self.path@, text@),
    {
        let mut tags: Vec<(String, String)> = Vec::new();
        tags.push(("filename".to_owned(), self.path.clone()));
        let e = LogLine { line: text, level: None, created_at: None, tags };
        assert(e@.tags =~= seq![("filename"@, self.path@)]);
        e
    }

    /// Empties the buffer and hands out the entry for what it held.
    fn flush(&mut self) -> (emit: Option<LogLine>)
        ensures
            final(self).path == old(self).path,
            final(self).pattern == old(self).pattern,
            final(self).state@ == (TailView { buffer: Seq::empty(), ..old(self).state@ }),
            match emit {
                Some(e) => Some(e@),
                None => None,
            } == flushed(old(self).path@, old(self).state.buffer@),
    {
        let mut text = String::new();
        core::mem::swap(&mut self.state.buffer, &mut text);
        if text.as_str().is_empty() {
            None
        } else {
            Some(self.make_entry(text))
        }
    }

    /// Takes one event and says what to do next.
    pub fn step(&mut self, event: TailEvent) -> (action: TailAction)
        requires
            event matches TailEvent::Line { bytes, .. } ==> old(self).state.offset + bytes
                <= u64::MAX,
        ensures
            final(self).path == old(self).path,
            final(self).pattern == old(self).pattern,
            (final(self).state@, action@) == step(
                old(self).state@,
                old(self).pattern,
                old(self).path@,
                event@,
            ),
            forall|i: int|
                0 <= i < emitted_by(action@).len() ==> (#[trigger] emitted_by(action@)[i]).wf(),
    {
        match event {
            TailEvent::Opened { seek_ok } => {
                if !seek_ok {
                    self.state.offset = 0;
                }
                self.state.buffer = String::new();
                self.state.grew = false;
                TailAction::Read { emit: None }
            },
            TailEvent::OpenFailed => TailAction::Stop,
            TailEvent::Line { text, bytes } => {
                self.state.offset = self.state.offset + bytes;
                if bytes > 0 {
                    self.state.grew = true;
                }
                if self.state.buffer.as_str().is_empty() {
                    self.state.buffer = text;
                    TailAction::Read { emit: None }
                } else if self.pattern.starts_record(text.as_str()) {
                    let emit = self.flush();
                    self.state.buffer = text;
                    TailAction::Read { emit }
                } else {
                    self.state.buffer.append(text.as_str());
                    TailAction::Read { emit: None }
                }
            },
            TailEvent::EndOfFile { modified } => self.end_pass(modified),
            TailEvent::ReadFailed { modified } => self.end_pass(modified),
        }
    }

    /// Ends a pass: flushes the buffer and decides whether the file was
    /// truncated or replaced.
    fn end_pass(&mut self, modified: u64) -> (action: TailAction)
        ensures
            final(self).path == old(self).path,
            final(self).pattern == old(self).pattern,
            (final(self).state@, action@) == finish(old(self).state@, old(self).path@, modified),
    {
        let emit = self.flush();
        let reset = match self.state.last_modified {
            Some(seen) => modified < seen || (seen < modified && !self.state.grew),
            None => false,
        };
        if reset {
            self.state.offset = 0;
        }
        self.state.last_modified = Some(modified);
        self.state.grew = false;
        TailAction::Sleep { emit, millis: POLL_INTERVAL_MILLIS }
    }
}

} // verus!

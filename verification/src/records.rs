//! Log records as the store keeps them: the words of a line and, beside each
//! word, the separator that follows it.

use crate::agent::{space_separators, spaces, LogLine};
use crate::text::{
    all_whitespace, decimal, decimal_string, interleave, is_whitespace, lemma_retokenize,
    lemma_run_len_bounds, lemma_trim_end_tail, lemma_words_blank, lemma_words_single,
    lemma_words_trim_end, lemma_words_wellformed, reconstruct, run_len, split_words, trim_end,
    views, words,
};
use vstd::prelude::*;

verus! {

/// One stored log line.
#[derive(Debug)]
pub struct LogRecord {
    pub tokens: Vec<String>,
    pub separators: Vec<String>,
}

/// Mathematical content of a `LogRecord`.
pub struct LogRecordView {
    pub tokens: Seq<Seq<char>>,
    pub separators: Seq<Seq<char>>,
}

impl View for LogRecord {
    type V = LogRecordView;

    open spec fn view(&self) -> LogRecordView {
        LogRecordView { tokens: views(self.tokens@), separators: views(self.separators@) }
    }
}

/// The record of `line`: the words of the line, and one space after each.
pub open spec fn record_of(line: Seq<char>) -> LogRecordView {
    let tokens = words(trim_end(line));
    LogRecordView { tokens, separators: spaces(tokens.len()) }
}

/// The line that a record stands for.
pub open spec fn line_of(record: LogRecordView) -> Seq<char> {
    interleave(record.tokens, record.separators)
}

impl LogRecord {
    /// The record of `line`.
    pub fn from_line(line: &str) -> (r: LogRecord)
        ensures
            r@ == record_of(line@),
            r.tokens.len() == r.separators.len(),
    {
        let trimmed = crate::text::trim_end_of(line);
        let tokens = split_words(trimmed.as_str());
        assert(views(tokens@).len() == tokens.len());
        let separators = space_separators(tokens.len());
        assert(views(separators@).len() == separators.len());
        LogRecord { tokens, separators }
    }

    /// The line that the record stands for.
    pub fn line(&self) -> (text: String)
        ensures
            text@ == line_of(self@),
    {
        reconstruct(&self.tokens, &self.separators)
    }
}

/// The records of a batch of log entries, one per entry and in order.
pub fn prepare_logs(lines: &Vec<LogLine>) -> (out: Vec<LogRecord>)
    ensures
        out.len() == lines.len(),
        forall|i: int| 0 <= i < out.len() ==> (#[trigger] out@[i])@ == record_of(lines@[i].line@),
{
    let mut out: Vec<LogRecord> = Vec::new();
    let mut i: usize = 0;
    while i < lines.len()
        invariant
            i <= lines.len(),
            out.len() == i,
            forall|j: int| 0 <= j < i ==> (#[trigger] out@[j])@ == record_of(lines@[j].line@),
        decreases lines.len() - i,
    {
        out.push(LogRecord::from_line(lines[i].line.as_str()));
        i = i + 1;
    }
    out
}

/// The placeholders of record `i` of an insert: its tokens, its separators
/// and the time of the store.
pub open spec fn placeholder(i: nat) -> Seq<char> {
    "($"@ + decimal(2 * i + 1) + ", $"@ + decimal(2 * i + 2) + ", TIMEZONE('UTC', NOW()))"@
}

/// The placeholders of the first `n` records, separated by commas.
pub open spec fn placeholders(n: nat) -> Seq<char>
    decreases n,
{
    if n == 0 {
        Seq::empty()
    } else if n == 1 {
        placeholder(0)
    } else {
        placeholders((n - 1) as nat) + ", "@ + placeholder((n - 1) as nat)
    }
}

/// The statement that stores `n` records at once.
pub open spec fn insert_text(n: nat) -> Seq<char> {
    "INSERT INTO logs (log_parts, separators, created_at) VALUES "@ + placeholders(n)
        + " RETURNING id"@
}

/// The statement that stores a batch of `n` records in one go; an empty
/// batch needs no statement.
pub fn insert_statement(n: usize) -> (statement: Option<String>)
    requires
        2 * n <= usize::MAX,
    ensures
        n == 0 ==> statement is None,
        n > 0 ==> (statement matches Some(s) && s@ == insert_text(n as nat)),
{
    if n == 0 {
        return None;
    }
    let mut s = "INSERT INTO logs (log_parts, separators, created_at) VALUES ".to_owned();
    let ghost head = s@;
    let mut i: usize = 0;
    assert(head + placeholders(0) == head);
    while i < n
        invariant
            i <= n,
            2 * n <= usize::MAX,
            head == "INSERT INTO logs (log_parts, separators, created_at) VALUES "@,
            s@ == head + placeholders(i as nat),
        decreases n - i,
    {
        let ghost before = s@;
        if i > 0 {
            s.append(", ");
        }
        s.append("($");
        s.append(decimal_string(2 * i + 1).as_str());
        s.append(", $");
        s.append(decimal_string(2 * i + 2).as_str());
        s.append(", TIMEZONE('UTC', NOW()))");
        proof {
            if i > 0 {
                assert(s@ == before + ", "@ + placeholder(i as nat));
                assert(placeholders((i + 1) as nat) == placeholders(i as nat) + ", "@ + placeholder(
                    i as nat,
                ));
                assert(s@ == head + placeholders((i + 1) as nat));
            } else {
                assert(s@ == before + placeholder(0));
                assert(s@ == head + placeholders(1));
            }
        }
        i = i + 1;
    }
    s.append(" RETURNING id");
    Some(s)
}

/// Every token of a record is a word and every separator is one space.
pub proof fn lemma_record_wellformed(line: Seq<char>)
    ensures
        record_of(line).tokens == words(line),
        record_of(line).separators.len() == record_of(line).tokens.len(),
        forall|i: int|
            0 <= i < record_of(line).tokens.len() ==> (#[trigger] record_of(line).tokens[i]).len()
                > 0 && crate::text::whitespace_free(record_of(line).tokens[i]),
        forall|i: int|
            0 <= i < record_of(line).separators.len() ==> #[trigger] record_of(line).separators[i]
                == seq![' '],
{
    lemma_words_trim_end(line);
    lemma_words_wellformed(line);
}

/// The line reconstructed from a record has the words of the line it stores:
/// tokenizing it again gives back the stored tokens.
pub proof fn lemma_tokens_survive(line: Seq<char>)
    ensures
        words(line_of(record_of(line))) == record_of(line).tokens,
        words(line_of(record_of(line))) == words(line),
        record_of(line_of(record_of(line))) == record_of(line),
{
    let record = record_of(line);
    lemma_record_wellformed(line);
    assert forall|i: int| 0 <= i < record.tokens.len() implies (#[trigger] record.separators[i]).len()
        > 0 && all_whitespace(record.separators[i]) by {
        assert(record.separators[i] == seq![' ']);
        assert(is_whitespace(' '));
    }
    lemma_retokenize(record.tokens, record.separators);
    lemma_words_trim_end(line_of(record));
}

/// Concatenating the tokens and separators of a record gives back the
/// trimmed line exactly when the line holds no word. A line with words comes
/// back with one space after its last word, which the trimmed line has not.
pub proof fn lemma_reconstruction_exact(line: Seq<char>)
    ensures
        line_of(record_of(line)) == trim_end(line) <==> words(line).len() == 0,
        words(line).len() > 0 ==> line_of(record_of(line)).last() == ' ',
{
    let record = record_of(line);
    lemma_record_wellformed(line);
    lemma_words_blank(line);
    lemma_trim_end_tail(line);
    if words(line).len() > 0 {
        let last = record.tokens.len() - 1;
        assert(record.separators[last] == seq![' ']);
        let rebuilt = line_of(record);
        assert(rebuilt == interleave(record.tokens.drop_last(), record.separators)
            + record.tokens.last() + seq![' ']);
        assert(rebuilt.len() > 0);
        assert(rebuilt.last() == ' ');
        assert(is_whitespace(' '));
        if rebuilt == trim_end(line) {
            assert(is_whitespace(trim_end(line).last()));
        }
    } else {
        assert(all_whitespace(line));
        assert(trim_end(line).len() == 0);
        assert(line_of(record) =~= trim_end(line));
    }
}

/// `s` is made of words with exactly one space between each two and nothing
/// around them.
pub open spec fn single_spaced(s: Seq<char>) -> bool {
    &&& s.len() > 0
    &&& !is_whitespace(s[0])
    &&& !is_whitespace(s.last())
    &&& forall|i: int|
        0 <= i < s.len() && is_whitespace(#[trigger] s[i]) ==> s[i] == ' ' && !is_whitespace(
            s[i + 1],
        )
}

/// Separators beyond the last token do not show in the line.
proof fn lemma_spare_separators(tokens: Seq<Seq<char>>, m: nat)
    requires
        m >= tokens.len(),
    ensures
        interleave(tokens, spaces(m)) == interleave(tokens, spaces(tokens.len())),
    decreases tokens.len(),
{
    if tokens.len() > 0 {
        let earlier = tokens.drop_last();
        lemma_spare_separators(earlier, m);
        lemma_spare_separators(earlier, tokens.len());
        assert(spaces(m)[tokens.len() - 1] == spaces(tokens.len())[tokens.len() - 1]);
    }
}

/// The line of a first token and the tokens after it is the first token, a
/// space, and the line of the others.
proof fn lemma_first_token(first: Seq<char>, rest: Seq<Seq<char>>)
    ensures
        interleave(seq![first] + rest, spaces(rest.len() + 1)) == first + seq![' '] + interleave(
            rest,
            spaces(rest.len()),
        ),
    decreases rest.len(),
{
    let all = seq![first] + rest;
    let n = rest.len();
    assert(spaces(n + 1)[n as int] == seq![' ']);
    if n == 0 {
        assert(all.drop_last() == Seq::<Seq<char>>::empty());
        assert(all.last() == first);
        assert(interleave(all.drop_last(), spaces(1)) == Seq::<char>::empty());
        assert(interleave(all, spaces(1)) == Seq::<char>::empty() + first + seq![' ']);
        assert(interleave(rest, spaces(0)) == Seq::<char>::empty());
        assert(Seq::<char>::empty() + first + seq![' '] == first + seq![' ']
            + Seq::<char>::empty());
    } else {
        let earlier = rest.drop_last();
        assert(all.drop_last() == seq![first] + earlier);
        assert(all.last() == rest.last());
        lemma_spare_separators(seq![first] + earlier, n + 1);
        lemma_first_token(first, earlier);
        lemma_spare_separators(earlier, n);
        assert(spaces(n)[n - 1] == seq![' ']);
        let inner = interleave(earlier, spaces(earlier.len()));
        assert(interleave(all, spaces(n + 1)) == (first + seq![' '] + inner) + rest.last()
            + seq![' ']);
        assert(interleave(rest, spaces(n)) == inner + rest.last() + seq![' ']);
        assert((first + seq![' '] + inner) + rest.last() + seq![' '] == first + seq![' '] + (inner
            + rest.last() + seq![' ']));
    }
}

/// The line of the words of a single-spaced text is the text with one space
/// after it.
proof fn lemma_single_spaced(s: Seq<char>)
    requires
        single_spaced(s),
    ensures
        interleave(words(s), spaces(words(s).len())) == s.push(' '),
    decreases s.len(),
{
    let n = run_len(s) as int;
    lemma_run_len_bounds(s);
    if n == s.len() {
        assert(s.take(n) == s);
        lemma_words_single(s);
        lemma_first_token(s, Seq::empty());
        assert(seq![s] + Seq::<Seq<char>>::empty() == seq![s]);
        assert(interleave(Seq::<Seq<char>>::empty(), spaces(0)) == Seq::<char>::empty());
        assert(s + seq![' '] + Seq::<char>::empty() == s.push(' '));
    } else {
        assert(is_whitespace(s[n]));
        assert(s[n] == ' ' && !is_whitespace(s[n + 1]));
        let u = s.skip(n + 1);
        assert(u.last() == s.last());
        assert forall|i: int| 0 <= i < u.len() && is_whitespace(#[trigger] u[i]) implies u[i] == ' '
            && !is_whitespace(u[i + 1]) by {
            assert(u[i] == s[n + 1 + i]);
        }
        lemma_single_spaced(u);
        assert(s.skip(n).drop_first() == u);
        assert(words(s.skip(n)) == words(u));
        assert(words(s) == seq![s.take(n)] + words(u));
        lemma_first_token(s.take(n), words(u));
        assert(s.take(n) + seq![' '] + u.push(' ') == s.push(' '));
    }
}

/// A line whose words stand one space apart, with nothing before the first,
/// comes back as the trimmed line followed by one separator: without that
/// last separator the reconstruction is the trimmed line, character for
/// character.
pub proof fn lemma_single_spaced_roundtrip(line: Seq<char>)
    requires
        single_spaced(trim_end(line)),
    ensures
        line_of(record_of(line)) == trim_end(line).push(' '),
        line_of(record_of(line)).drop_last() == trim_end(line),
{
    lemma_single_spaced(trim_end(line));
    assert(trim_end(line).push(' ').drop_last() == trim_end(line));
}

} // verus!

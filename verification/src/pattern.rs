//! Record-start patterns: regular expressions that mark the first line of a
//! log record.

use vstd::prelude::*;

verus! {

#[verifier::external_type_specification]
#[verifier::external_body]
pub struct ExRegex(regex::Regex);

#[verifier::external_type_specification]
#[verifier::external_body]
pub struct ExRegexError(regex::Error);

/// Whether `pattern` is accepted as a regular expression.
pub uninterp spec fn pattern_compiles(pattern: Seq<char>) -> bool;

/// The pattern text a compiled expression was built from.
pub uninterp spec fn pattern_source(re: regex::Regex) -> Seq<char>;

/// Whether a compiled expression finds a match anywhere in `text`.
pub uninterp spec fn regex_matches(re: regex::Regex, text: Seq<char>) -> bool;

/// A line that begins with a date written as `YYYY-MM-DD`.
pub const DATE_PREFIX: &'static str = "^\\d{4}-\\d{2}-\\d{2}.*";

/// `regex::Regex::new` compiles `pattern` or rejects it; whether it is
/// accepted depends on the pattern text alone, and the compiled expression
/// remembers that text (`regex::Regex::as_str` returns it).
#[verifier::external_body]
fn compile(pattern: &str) -> (r: Result<regex::Regex, regex::Error>)
    ensures
        r is Ok == pattern_compiles(pattern@),
        r matches Ok(re) ==> pattern_source(re) == pattern@,
{
    regex::Regex::new(pattern)
}

/// `regex::Regex::is_match` reports whether the expression matches anywhere
/// in `text`; the answer depends on the expression and on `text` alone.
#[verifier::external_body]
fn is_match(re: &regex::Regex, text: &str) -> (b: bool)
    ensures
        b == regex_matches(*re, text@),
{
    re.is_match(text)
}

/// The message that `regex::Error` displays.
#[verifier::external_body]
fn error_message(error: &regex::Error) -> (message: String) {
    error.to_string()
}

/// Why a pattern was rejected.
#[derive(Debug)]
pub struct PatternError {
    pub message: String,
}

/// A compiled record-start pattern.
pub struct RecordStart {
    re: regex::Regex,
}

impl RecordStart {
    /// The pattern text.
    pub closed spec fn source(&self) -> Seq<char> {
        pattern_source(self.re)
    }

    /// Whether `line` starts a new record.
    pub closed spec fn matches(&self, line: Seq<char>) -> bool {
        regex_matches(self.re, line)
    }

    /// What becomes of a compilation result.
    pub fn from_compiled(compiled: Result<regex::Regex, regex::Error>) -> (r: Result<
        RecordStart,
        PatternError,
    >)
        ensures
            r is Ok == compiled is Ok,
            compiled matches Ok(re) ==> (r matches Ok(p) && p.source() == pattern_source(re)
                && forall|line: Seq<char>| #[trigger] p.matches(line) == regex_matches(re, line)),
    {
        match compiled {
            Ok(re) => Ok(RecordStart { re }),
            Err(error) => Err(PatternError { message: error_message(&error) }),
        }
    }

    /// Compiles `pattern`.
    pub fn new(pattern: &str) -> (r: Result<RecordStart, PatternError>)
        ensures
            r is Ok == pattern_compiles(pattern@),
            r matches Ok(p) ==> p.source() == pattern@,
    {
        RecordStart::from_compiled(compile(pattern))
    }

    /// The default pattern: a line that begins with a date.
    pub fn dated() -> (r: Result<RecordStart, PatternError>)
        ensures
            r is Ok == pattern_compiles(DATE_PREFIX@),
            r matches Ok(p) ==> p.source() == DATE_PREFIX@,
    {
        RecordStart::new(DATE_PREFIX)
    }

    /// Whether `line` starts a new record.
    pub fn starts_record(&self, line: &str) -> (b: bool)
        ensures
            b == self.matches(line@),
    {
        is_match(&self.re, line)
    }
}

} // verus!

//! The search pattern: a compiled regular expression together with its
//! source text, and the trusted boundary to the `regex` crate that finds
//! all non-overlapping matches of the pattern on one line of text.

use vstd::prelude::*;
use vstd::utf8::encode_utf8;
use vstd::utf8::is_char_boundary;
use crate::schemas::MatchResult;

verus! {

#[verifier::external_type_specification]
#[verifier::external_body]
pub struct ExRegex(regex::Regex);

/// The sequence of `(start, end)` byte-offset pairs of the successive
/// non-overlapping matches that the pattern compiled from `pattern` reports
/// on the text `line`. The result depends on the two arguments alone.
pub uninterp spec fn found_matches(pattern: Seq<char>, line: Seq<char>) -> Seq<(int, int)>;

/// Whether the engine accepts `pattern` as a valid expression; compiling
/// depends on the pattern text alone.
pub uninterp spec fn pattern_ok(pattern: Seq<char>) -> bool;

/// A compiled search pattern, shared read-only by all scanning code. The
/// view of a pattern is its source text.
pub struct Pattern {
    text: String,
    re: regex::Regex,
}

impl View for Pattern {
    type V = Seq<char>;

    closed spec fn view(&self) -> Seq<char> {
        self.text@
    }
}

impl Pattern {
    /// Relies on `regex::Regex::new`: whether the given text compiles
    /// depends on the text alone, a valid expression yields a pattern for
    /// exactly that text, and a compile error is handed back as its message.
    #[verifier::external_body]
    fn regex_new(text: &str) -> (r: Result<Pattern, String>)
        ensures
            r is Ok <==> pattern_ok(text@),
            r matches Ok(p) ==> p@ == text@,
    {
        match regex::Regex::new(text) {
            Ok(re) => Ok(Pattern { text: text.to_string(), re }),
            Err(e) => Err(e.to_string()),
        }
    }

    /// Compiles the given pattern text: succeeds exactly when the engine
    /// accepts the text, and a compiled pattern remembers its source text;
    /// a compile error is handed back as its message.
    pub fn compile(text: &str) -> (r: Result<Pattern, String>)
        ensures
            r is Ok <==> pattern_ok(text@),
            r matches Ok(p) ==> p@ == text@,
    {
        Self::regex_new(text)
    }

    /// Relies on `regex::Regex::find_iter` and `regex::Match`'s accessors
    /// `start`, `end` and `as_str`: the iterator yields the successive
    /// non-overlapping matches of the pattern in `line`, each with byte
    /// offsets `start <= end` that lie on UTF-8 boundaries within the line,
    /// and with the matched substring `&line[start..end]` as its text. The
    /// iterator resumes each search at the previous match's end and skips
    /// an empty match standing exactly there, so every match ends at or
    /// before the next one's start, and no two matches share a start.
    #[verifier::external_body]
    fn find_iter_in(&self, line: &str) -> (r: Vec<MatchResult>)
        ensures
            r@.len() == found_matches(self@, line@).len(),
            forall|i: int|
                0 <= i < r@.len() ==> {
                    let m = (#[trigger] r@[i])@;
                    let f = found_matches(self@, line@)[i];
                    &&& m.start == f.0
                    &&& m.end == f.1
                    &&& 0 <= m.start <= m.end <= encode_utf8(line@).len()
                    &&& is_char_boundary(encode_utf8(line@), m.start)
                    &&& is_char_boundary(encode_utf8(line@), m.end)
                    &&& encode_utf8(m.content) == encode_utf8(line@).subrange(m.start, m.end)
                },
            forall|i: int|
                0 <= i < r@.len() - 1 ==> (#[trigger] r@[i])@.end <= r@[i + 1]@.start,
            forall|i: int|
                0 <= i < r@.len() - 1 ==> (#[trigger] r@[i])@.start < r@[i + 1]@.start,
    {
        let mut out: Vec<MatchResult> = Vec::new();
        for m in self.re.find_iter(line) {
            out.push(MatchResult::new(m.start(), m.end(), m.as_str().to_string()));
        }
        out
    }

    /// Finds every non-overlapping match of the pattern in `line`, left to
    /// right: one entry per reported match, carrying its byte-offset range
    /// — in bounds, on character boundaries, and with strictly ascending
    /// start offsets — and its text.
    pub fn find_in(&self, line: &str) -> (r: Vec<MatchResult>)
        ensures
            r@.len() == found_matches(self@, line@).len(),
            forall|i: int|
                0 <= i < r@.len() ==> {
                    let m = (#[trigger] r@[i])@;
                    let f = found_matches(self@, line@)[i];
                    &&& m.start == f.0
                    &&& m.end == f.1
                    &&& 0 <= m.start <= m.end <= encode_utf8(line@).len()
                    &&& is_char_boundary(encode_utf8(line@), m.start)
                    &&& is_char_boundary(encode_utf8(line@), m.end)
                    &&& encode_utf8(m.content) == encode_utf8(line@).subrange(m.start, m.end)
                },
            forall|i: int|
                0 <= i < r@.len() - 1 ==> (#[trigger] r@[i])@.end <= r@[i + 1]@.start,
            forall|i: int|
                0 <= i < r@.len() - 1 ==> (#[trigger] r@[i])@.start < r@[i + 1]@.start,
    {
        self.find_iter_in(line)
    }
}

} // verus!

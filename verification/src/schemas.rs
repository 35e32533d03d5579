//! Value types for search findings: a single match, a matching line, and a
//! file's aggregated results, together with their mathematical views and
//! well-formedness conditions.

use vstd::prelude::*;
use vstd::utf8::encode_utf8;
use vstd::utf8::is_char_boundary;

verus! {

/// Half-open pair of byte offsets `(start, end)` into a line's content.
pub type MatchRange = (usize, usize);

/// One located match: a byte-offset range plus the matched substring.
pub struct MatchResult {
    pub match_range: MatchRange,
    pub content: String,
}

/// One matching line within a file: a 1-based line number, the full line
/// content, and the line's matches in left-to-right order.
pub struct SearchResult {
    pub line: usize,
    pub line_content: String,
    pub matches: Vec<MatchResult>,
}

/// One file's aggregated findings: the file's path and its matching lines in
/// top-to-bottom scan order.
pub struct FileResult {
    pub path: String,
    pub results: Vec<SearchResult>,
}

/// Mathematical view of a [`MatchResult`].
#[verifier::ext_equal]
pub struct MatchView {
    pub start: int,
    pub end: int,
    pub content: Seq<char>,
}

/// Mathematical view of a [`SearchResult`].
#[verifier::ext_equal]
pub struct LineView {
    pub line: int,
    pub content: Seq<char>,
    pub matches: Seq<MatchView>,
}

/// Mathematical view of a [`FileResult`].
#[verifier::ext_equal]
pub struct FileView {
    pub path: Seq<char>,
    pub lines: Seq<LineView>,
}

impl View for MatchResult {
    type V = MatchView;

    open spec fn view(&self) -> MatchView {
        MatchView {
            start: self.match_range.0 as int,
            end: self.match_range.1 as int,
            content: self.content@,
        }
    }
}

impl View for SearchResult {
    type V = LineView;

    open spec fn view(&self) -> LineView {
        LineView {
            line: self.line as int,
            content: self.line_content@,
            matches: self.matches@.map_values(|m: MatchResult| m@),
        }
    }
}

impl View for FileResult {
    type V = FileView;

    open spec fn view(&self) -> FileView {
        FileView {
            path: self.path@,
            lines: self.results@.map_values(|r: SearchResult| r@),
        }
    }
}

/// The match lies within the bounds of a line whose content is `content`:
/// `0 <= start <= end <= byte length of the content`, with both offsets on
/// character boundaries of the content's encoding.
pub open spec fn match_within(m: MatchView, content: Seq<char>) -> bool {
    &&& 0 <= m.start <= m.end <= encode_utf8(content).len()
    &&& is_char_boundary(encode_utf8(content), m.start)
    &&& is_char_boundary(encode_utf8(content), m.end)
}

/// A well-formed matching line: the number is 1-based, at least one match
/// was found, every match lies within the line, and successive matches do
/// not overlap (each ends at or before the next one starts) and have
/// strictly ascending start offsets.
pub open spec fn line_wf(l: LineView) -> bool {
    &&& l.line >= 1
    &&& l.matches.len() > 0
    &&& forall|i: int| 0 <= i < l.matches.len() ==> match_within(#[trigger] l.matches[i], l.content)
    &&& forall|i: int|
        0 <= i < l.matches.len() - 1 ==> (#[trigger] l.matches[i]).end <= l.matches[i + 1].start
    &&& forall|i: int|
        0 <= i < l.matches.len() - 1 ==> (#[trigger] l.matches[i]).start < l.matches[i + 1].start
}

/// A well-formed file result: at least one matching line, every line
/// well-formed, and line numbers strictly increasing from top to bottom.
pub open spec fn file_wf(f: FileView) -> bool {
    &&& f.lines.len() > 0
    &&& forall|i: int| 0 <= i < f.lines.len() ==> line_wf(#[trigger] f.lines[i])
    &&& forall|i: int, j: int| 0 <= i < j < f.lines.len() ==> f.lines[i].line < f.lines[j].line
}

impl MatchResult {
    /// Builds one match from its byte-offset bounds and matched text.
    pub fn new(start: usize, end: usize, content: String) -> (r: Self)
        requires
            start <= end,
        ensures
            r@ == (MatchView { start: start as int, end: end as int, content: content@ }),
    {
        MatchResult { match_range: (start, end), content }
    }
}

impl SearchResult {
    /// Builds one matching line; a line is only materialized when at least
    /// one match was found on it.
    pub fn new(line: usize, line_content: String, matches: Vec<MatchResult>) -> (r: Self)
        requires
            line >= 1,
            matches.len() > 0,
        ensures
            r@ == (LineView {
                line: line as int,
                content: line_content@,
                matches: matches@.map_values(|m: MatchResult| m@),
            }),
    {
        SearchResult { line, line_content, matches }
    }
}

impl FileResult {
    /// Builds one file's findings; a file result is only materialized when
    /// the file has at least one matching line.
    pub fn new(path: String, results: Vec<SearchResult>) -> (r: Self)
        requires
            results.len() > 0,
        ensures
            r@ == (FileView {
                path: path@,
                lines: results@.map_values(|s: SearchResult| s@),
            }),
    {
        FileResult { path, results }
    }
}

/// The matches of a well-formed line are ordered by ascending start offset:
/// every strictly later match starts strictly later in the line.
pub proof fn lemma_matches_ascending(l: LineView)
    requires
        line_wf(l),
    ensures
        forall|i: int, j: int|
            0 <= i < j < l.matches.len() ==> (#[trigger] l.matches[i]).start < (
            #[trigger] l.matches[j]).start,
{
    assert forall|i: int, j: int| 0 <= i < j < l.matches.len() implies (
    #[trigger] l.matches[i]).start < (#[trigger] l.matches[j]).start by {
        lemma_matches_ascending_step(l, i, j);
    }
}

proof fn lemma_matches_ascending_step(l: LineView, i: int, j: int)
    requires
        line_wf(l),
        0 <= i < j < l.matches.len(),
    ensures
        l.matches[i].start < l.matches[j].start,
    decreases j - i,
{
    assert(l.matches[j - 1].start < l.matches[j].start);
    if i < j - 1 {
        lemma_matches_ascending_step(l, i, j - 1);
    }
}

} // verus!

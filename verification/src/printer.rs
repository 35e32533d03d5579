//! Text styling for the final report: escape-code-aware centering, match
//! highlighting within a line, and the per-file rendering of results in one
//! of the display styles.

use vstd::prelude::*;
use vstd::string::StrSliceExecFns;
use vstd::string::StringExecFns;
use vstd::utf8::decode_utf8;
use vstd::utf8::encode_utf8;
use vstd::utf8::is_char_boundary;
use vstd::utf8::is_continuation_byte;
use vstd::utf8::valid_utf8;
use crate::painter::painted;
use crate::painter::paint_blue;
use crate::painter::paint_green;
use crate::painter::paint_magenta;
use crate::painter::paint_red;
use crate::painter::paint_yellow;
use crate::painter::blue_code;
use crate::painter::green_code;
use crate::painter::magenta_code;
use crate::painter::red_code;
use crate::painter::yellow_code;
use crate::schemas::FileResult;
use crate::schemas::FileView;
use crate::schemas::LineView;
use crate::schemas::MatchRange;
use crate::schemas::MatchResult;
use crate::schemas::MatchView;
use crate::schemas::SearchResult;
use crate::schemas::file_wf;
use crate::schemas::line_wf;
use crate::text::dec_digits;
use crate::text::space_seq;
use crate::text::spaces;
use crate::text::usize_to_string;

verus! {

/// How many characters of `s` a terminal shows: characters inside an ANSI
/// escape sequence (from an escape character up to the closing `m`) are not
/// counted.
pub open spec fn visible_count(s: Seq<char>, in_esc: bool) -> int
    decreases s.len(),
{
    if s.len() == 0 {
        0
    } else if in_esc {
        visible_count(s.drop_first(), s[0] != 'm')
    } else if s[0] == '\x1b' {
        visible_count(s.drop_first(), true)
    } else {
        1 + visible_count(s.drop_first(), false)
    }
}

/// Counts the characters a terminal would show for `s`, skipping ANSI
/// escape sequences.
pub fn visible_len(s: &str) -> (r: usize)
    ensures
        r as int == visible_count(s@, false),
{
    let n = s.unicode_len();
    let mut count: usize = 0;
    let mut in_esc = false;
    let mut i: usize = 0;
    proof {
        assert(s@.skip(0) =~= s@);
    }
    while i < n
        invariant
            0 <= i <= s@.len(),
            n == s@.len(),
            count <= i,
            count + visible_count(s@.skip(i as int), in_esc) == visible_count(s@, false),
        decreases s@.len() - i,
    {
        let c = s.get_char(i);
        proof {
            assert(s@.skip(i as int).drop_first() =~= s@.skip(i as int + 1));
            assert(s@.skip(i as int)[0] == s@[i as int]);
        }
        if in_esc {
            if c == 'm' {
                in_esc = false;
            }
        } else if c == '\x1b' {
            in_esc = true;
        } else {
            count = count + 1;
        }
        i = i + 1;
    }
    proof {
        assert(s@.skip(n as int) =~= Seq::<char>::empty());
    }
    count
}

/// `s` centered in a field of `width` visible characters: padded with
/// spaces on both sides, the right side getting the odd space; text at
/// least as wide as the field is kept as it is.
pub open spec fn center_spec(s: Seq<char>, width: int) -> Seq<char> {
    let vis = visible_count(s, false);
    if vis >= width {
        s
    } else {
        let pad = width - vis;
        let left = pad / 2;
        space_seq(left) + s + space_seq(pad - left)
    }
}

/// Centers `text` in a field of `width` visible characters, counting
/// escape sequences as invisible.
pub fn center_ansi(text: &str, width: usize) -> (r: String)
    ensures
        r@ == center_spec(text@, width as int),
{
    let vis = visible_len(text);
    if vis >= width {
        return String::from_str(text);
    }
    let pad = width - vis;
    let left = pad / 2;
    let right = pad - left;
    let mut out = spaces(left);
    out.append(text);
    let tail = spaces(right);
    out.append(tail.as_str());
    proof {
        assert(out@ =~= center_spec(text@, width as int));
    }
    out
}

/// `r` placed into `s` so that every range with a smaller start offset, and
/// every earlier-inserted range with the same start offset, comes before it.
pub open spec fn insert_range_sorted(r: MatchRange, s: Seq<MatchRange>) -> Seq<MatchRange>
    decreases s.len(),
{
    if s.len() == 0 {
        seq![r]
    } else if s.last().0 > r.0 {
        insert_range_sorted(r, s.drop_last()).push(s.last())
    } else {
        s.push(r)
    }
}

/// The ranges ordered by ascending start offset, ranges with equal start
/// offsets keeping their relative order.
pub open spec fn sort_ranges(rs: Seq<MatchRange>) -> Seq<MatchRange>
    decreases rs.len(),
{
    if rs.len() == 0 {
        Seq::empty()
    } else {
        insert_range_sorted(rs.last(), sort_ranges(rs.drop_last()))
    }
}

/// The styled text built from the bytes of a line once everything before
/// byte offset `last_end` has been emitted: for each remaining range, the
/// plain gap before it (when it starts past `last_end`) followed by its
/// text in yellow; after the last range, the plain remainder of the line.
pub open spec fn highlight_pieces(bytes: Seq<u8>, rs: Seq<MatchRange>, last_end: int) -> Seq<char>
    decreases rs.len(),
{
    if rs.len() == 0 {
        if last_end < bytes.len() {
            decode_utf8(bytes.subrange(last_end, bytes.len() as int))
        } else {
            Seq::empty()
        }
    } else {
        let a = rs[0].0 as int;
        let b = rs[0].1 as int;
        let gap = if a > last_end {
            decode_utf8(bytes.subrange(last_end, a))
        } else {
            Seq::empty()
        };
        gap + painted(yellow_code(), decode_utf8(bytes.subrange(a, b))) + highlight_pieces(
            bytes,
            rs.drop_first(),
            b,
        )
    }
}

/// The line `s` with each given range of it shown in yellow: ranges are
/// taken in ascending order of start offset.
pub open spec fn highlight_spec(s: Seq<char>, ranges: Seq<MatchRange>) -> Seq<char> {
    highlight_pieces(encode_utf8(s), sort_ranges(ranges), 0)
}

/// The range denotes a well-placed piece of the text `s`: its byte offsets
/// are ordered, in bounds, and on character boundaries.
pub open spec fn range_ok(s: Seq<char>, m: MatchRange) -> bool {
    &&& m.0 <= m.1 <= encode_utf8(s).len()
    &&& is_char_boundary(encode_utf8(s), m.0 as int)
    &&& is_char_boundary(encode_utf8(s), m.1 as int)
}

/// A character boundary of a byte sequence, seen from the suffix that
/// starts at an earlier boundary, is still a character boundary.
proof fn lemma_boundary_in_suffix(bytes: Seq<u8>, x: int, y: int)
    requires
        valid_utf8(bytes),
        is_char_boundary(bytes, x),
        is_char_boundary(bytes, y),
        0 <= x <= y <= bytes.len(),
    ensures
        is_char_boundary(bytes.subrange(x, bytes.len() as int), y - x),
{
    broadcast use vstd::utf8::valid_utf8_split;
    broadcast use vstd::utf8::is_char_boundary_start_end_of_seq;
    broadcast use vstd::utf8::is_char_boundary_iff_not_is_continuation_byte;

    let tail = bytes.subrange(x, bytes.len() as int);
    assert(valid_utf8(tail));
    if y == bytes.len() {
        assert(is_char_boundary(tail, tail.len() as int));
    } else {
        assert(tail[y - x] == bytes[y]);
        assert(!is_continuation_byte(bytes[y]));
    }
}

/// Copies `s` with every given range of it wrapped in the yellow color
/// code, the ranges taken in ascending order of start offset, overlapping
/// ranges each shown in full.
pub fn highlight(s: &str, matches: &Vec<MatchRange>) -> (r: String)
    requires
        forall|k: int| 0 <= k < matches@.len() ==> range_ok(s@, #[trigger] matches@[k]),
    ensures
        r@ == highlight_spec(s@, matches@),
{
    broadcast use vstd::utf8::encode_utf8_decode_utf8;
    broadcast use vstd::utf8::encode_utf8_valid_utf8;

    let ghost enc = encode_utf8(s@);
    // Order the ranges by start offset.
    let mut sorted: Vec<MatchRange> = Vec::new();
    let mut i: usize = 0;
    proof {
        assert(matches@.take(0) =~= Seq::<MatchRange>::empty());
    }
    while i < matches.len()
        invariant
            0 <= i <= matches@.len(),
            forall|k: int| 0 <= k < matches@.len() ==> range_ok(s@, #[trigger] matches@[k]),
            sorted@ == sort_ranges(matches@.take(i as int)),
            forall|k: int| 0 <= k < sorted@.len() ==> range_ok(s@, #[trigger] sorted@[k]),
        decreases matches@.len() - i,
    {
        let m = matches[i];
        let ghost old_sorted = sorted@;
        let mut j: usize = sorted.len();
        while j > 0 && sorted[j - 1].0 > m.0
            invariant
                0 <= j <= sorted@.len(),
                sorted@ == old_sorted,
                forall|k: int| j <= k < sorted@.len() ==> (#[trigger] sorted@[k]).0 > m.0,
            decreases j,
        {
            j = j - 1;
        }
        sorted.insert(j, m);
        proof {
            lemma_insert_at(m, old_sorted, j as int);
            assert(sorted@ =~= old_sorted.take(j as int) + seq![m] + old_sorted.skip(j as int));
            assert(matches@.take(i as int + 1).drop_last() =~= matches@.take(i as int));
            assert(matches@.take(i as int + 1).last() == m);
            assert(sorted@ =~= sort_ranges(matches@.take(i as int + 1)));
        }
        i = i + 1;
    }
    proof {
        assert(matches@.take(matches@.len() as int) =~= matches@);
    }
    // Emit the pieces.
    let ghost srt = sorted@;
    let mut out = String::new();
    let mut last_end: usize = 0;
    let mut i: usize = 0;
    proof {
        assert(srt.skip(0) =~= srt);
        assert(out@ + highlight_pieces(enc, srt, 0) =~= highlight_pieces(enc, srt, 0));
    }
    while i < sorted.len()
        invariant
            0 <= i <= sorted@.len(),
            sorted@ == srt,
            enc == encode_utf8(s@),
            forall|k: int| 0 <= k < srt.len() ==> range_ok(s@, #[trigger] srt[k]),
            last_end <= enc.len(),
            is_char_boundary(enc, last_end as int),
            out@ + highlight_pieces(enc, srt.skip(i as int), last_end as int) =~= highlight_spec(
                s@,
                matches@,
            ),
        decreases sorted@.len() - i,
    {
        broadcast use vstd::utf8::encode_utf8_decode_utf8;
        broadcast use vstd::utf8::encode_utf8_valid_utf8;

        let m = sorted[i];
        let a = m.0;
        let b = m.1;
        proof {
            assert(srt.skip(i as int)[0] == srt[i as int]);
            assert(srt.skip(i as int).drop_first() =~= srt.skip(i as int + 1));
        }
        if a > last_end {
            let pieces = s.split_at(last_end);
            proof {
                lemma_boundary_in_suffix(enc, last_end as int, a as int);
            }
            let gap_pieces = pieces.1.split_at(a - last_end);
            proof {
                assert(encode_utf8(gap_pieces.0@) =~= enc.subrange(last_end as int, a as int));
                assert(gap_pieces.0@ == decode_utf8(enc.subrange(last_end as int, a as int)));
            }
            out.append(gap_pieces.0);
        }
        let tail_pieces = s.split_at(a);
        proof {
            lemma_boundary_in_suffix(enc, a as int, b as int);
        }
        let word_pieces = tail_pieces.1.split_at(b - a);
        proof {
            assert(encode_utf8(word_pieces.0@) =~= enc.subrange(a as int, b as int));
            assert(word_pieces.0@ == decode_utf8(enc.subrange(a as int, b as int)));
        }
        let painted_word = paint_yellow(word_pieces.0);
        out.append(painted_word.as_str());
        last_end = b;
        i = i + 1;
        proof {
            assert(out@ + highlight_pieces(enc, srt.skip(i as int), last_end as int)
                =~= highlight_spec(s@, matches@));
        }
    }
    let rest_pieces = s.split_at(last_end);
    if !rest_pieces.1.is_empty() {
        proof {
            assert(encode_utf8(rest_pieces.1@) =~= enc.subrange(last_end as int, enc.len() as int));
            assert(rest_pieces.1@ == decode_utf8(enc.subrange(last_end as int, enc.len() as int)));
            assert(rest_pieces.1@.len() > 0 ==> last_end < enc.len());
        }
        out.append(rest_pieces.1);
    } else {
        proof {
            assert(encode_utf8(rest_pieces.1@) =~= enc.subrange(last_end as int, enc.len() as int));
            assert(enc.subrange(last_end as int, enc.len() as int).len() == 0);
            assert(last_end >= enc.len());
        }
    }
    proof {
        assert(srt.skip(sorted@.len() as int) =~= Seq::<MatchRange>::empty());
        assert(out@ =~= highlight_spec(s@, matches@));
    }
    out
}

/// Inserting a range at the position found by scanning from the end —
/// every range at or past the position starts later than the new one, the
/// range just before it does not — is what the sorted insertion yields.
proof fn lemma_insert_at(r: MatchRange, s: Seq<MatchRange>, j: int)
    requires
        0 <= j <= s.len(),
        forall|k: int| j <= k < s.len() ==> (#[trigger] s[k]).0 > r.0,
        j > 0 ==> s[j - 1].0 <= r.0,
    ensures
        insert_range_sorted(r, s) =~= s.take(j) + seq![r] + s.skip(j),
    decreases s.len(),
{
    if s.len() == 0 {
        assert(s.take(j) + seq![r] + s.skip(j) =~= seq![r]);
    } else if j == s.len() {
        assert(s.last().0 <= r.0);
        assert(s.take(j) =~= s);
        assert(s.take(j) + seq![r] + s.skip(j) =~= s.push(r));
    } else {
        assert(s.last().0 > r.0);
        lemma_insert_at(r, s.drop_last(), j);
        assert(s.drop_last().take(j) =~= s.take(j));
        assert((s.take(j) + seq![r] + s.drop_last().skip(j)).push(s.last()) =~= s.take(j) + seq![r]
            + s.skip(j));
    }
}

/// Which of the output styles the presentation uses.
#[derive(Clone, Copy, Debug, PartialEq, Eq, Structural)]
pub enum DisplayMode {
    Primary,
    Secondary,
    Tertiary,
}

/// The byte-offset ranges of a line's matches, as plain pairs.
pub open spec fn ranges_of(ms: Seq<MatchView>) -> Seq<MatchRange> {
    ms.map_values(|m: MatchView| ((m.start as usize, m.end as usize)))
}

/// One match range written as `start-end` in decimal.
pub open spec fn range_note(m: MatchView) -> Seq<char> {
    dec_digits(m.start) + "-"@ + dec_digits(m.end)
}

/// All the match ranges of a line written out, separated by `, `.
pub open spec fn ranges_note(ms: Seq<MatchView>) -> Seq<char>
    decreases ms.len(),
{
    if ms.len() == 0 {
        Seq::empty()
    } else if ms.len() == 1 {
        range_note(ms[0])
    } else {
        ranges_note(ms.drop_last()) + ", "@ + range_note(ms.last())
    }
}

/// One matching line rendered in the given display style.
pub open spec fn render_line_spec(mode: DisplayMode, l: LineView) -> Seq<char> {
    let high = highlight_spec(l.content, ranges_of(l.matches));
    let centered_no = center_spec(painted(green_code(), dec_digits(l.line)), 4);
    match mode {
        DisplayMode::Primary => "["@ + centered_no + "]: "@ + high,
        DisplayMode::Secondary => "["@ + centered_no + "] "@ + painted(
            magenta_code(),
            "@("@ + ranges_note(l.matches) + ")"@,
        ) + ": "@ + high,
        DisplayMode::Tertiary => center_spec(
            painted(yellow_code(), "\n-> LINE "@ + dec_digits(l.line) + ": "@),
            4,
        ) + "\n"@ + high + painted(red_code(), "\n<---------//---------->\n"@),
    }
}

/// All of a file's matching lines rendered one after the other.
pub open spec fn render_lines_spec(mode: DisplayMode, ls: Seq<LineView>) -> Seq<char>
    decreases ls.len(),
{
    if ls.len() == 0 {
        Seq::empty()
    } else {
        render_lines_spec(mode, ls.drop_last()) + render_line_spec(mode, ls.last())
    }
}

/// A whole file result rendered: the path in blue on its own line, then
/// every matching line in the given display style.
pub open spec fn render_file_spec(mode: DisplayMode, f: FileView) -> Seq<char> {
    painted(blue_code(), f.path) + "\n"@ + render_lines_spec(mode, f.lines)
}

/// Copies the byte-offset ranges out of a line's matches.
fn ranges_vec(matches: &Vec<MatchResult>) -> (r: Vec<MatchRange>)
    ensures
        r@ == ranges_of(matches@.map_values(|m: MatchResult| m@)),
{
    let mut out: Vec<MatchRange> = Vec::new();
    let mut i: usize = 0;
    while i < matches.len()
        invariant
            0 <= i <= matches@.len(),
            out@ =~= ranges_of(matches@.map_values(|m: MatchResult| m@)).take(i as int),
        decreases matches@.len() - i,
    {
        out.push(matches[i].match_range);
        proof {
            assert(out@ =~= ranges_of(matches@.map_values(|m: MatchResult| m@)).take(
                i as int + 1,
            ));
        }
        i = i + 1;
    }
    proof {
        assert(out@ =~= ranges_of(matches@.map_values(|m: MatchResult| m@)));
    }
    out
}

/// Writes out all the match ranges of a line, separated by `, `.
fn ranges_note_string(matches: &Vec<MatchResult>) -> (r: String)
    ensures
        r@ == ranges_note(matches@.map_values(|m: MatchResult| m@)),
{
    let ghost ms = matches@.map_values(|m: MatchResult| m@);
    let mut out = String::new();
    let mut i: usize = 0;
    while i < matches.len()
        invariant
            0 <= i <= matches@.len(),
            ms == matches@.map_values(|m: MatchResult| m@),
            out@ =~= ranges_note(ms.take(i as int)),
        decreases matches@.len() - i,
    {
        if i > 0 {
            out.append(", ");
        }
        let start_str = usize_to_string(matches[i].match_range.0);
        out.append(start_str.as_str());
        out.append("-");
        let end_str = usize_to_string(matches[i].match_range.1);
        out.append(end_str.as_str());
        proof {
            assert(ms.take(i as int + 1).drop_last() =~= ms.take(i as int));
            assert(ms.take(i as int + 1).last() == ms[i as int]);
            assert(out@ =~= ranges_note(ms.take(i as int + 1)));
        }
        i = i + 1;
    }
    proof {
        assert(ms.take(ms.len() as int) =~= ms);
    }
    out
}

/// Renders one matching line in the given display style.
fn render_line(mode: DisplayMode, sr: &SearchResult) -> (r: String)
    requires
        line_wf(sr@),
    ensures
        r@ == render_line_spec(mode, sr@),
{
    let ranges = ranges_vec(&sr.matches);
    proof {
        assert forall|k: int| 0 <= k < ranges@.len() implies range_ok(
            sr.line_content@,
            #[trigger] ranges@[k],
        ) by {
            assert(sr@.matches[k] == sr.matches@[k]@);
        }
    }
    let high = highlight(sr.line_content.as_str(), &ranges);
    let no_str = usize_to_string(sr.line);
    match mode {
        DisplayMode::Primary => {
            let green = paint_green(no_str.as_str());
            let centered = center_ansi(green.as_str(), 4);
            let mut out = String::from_str("[");
            out.append(centered.as_str());
            out.append("]: ");
            out.append(high.as_str());
            proof {
                assert(out@ =~= render_line_spec(mode, sr@));
            }
            out
        },
        DisplayMode::Secondary => {
            let green = paint_green(no_str.as_str());
            let centered = center_ansi(green.as_str(), 4);
            let mut note = String::from_str("@(");
            let ranges_text = ranges_note_string(&sr.matches);
            note.append(ranges_text.as_str());
            note.append(")");
            let magenta = paint_magenta(note.as_str());
            let mut out = String::from_str("[");
            out.append(centered.as_str());
            out.append("] ");
            out.append(magenta.as_str());
            out.append(": ");
            out.append(high.as_str());
            proof {
                assert(out@ =~= render_line_spec(mode, sr@));
            }
            out
        },
        DisplayMode::Tertiary => {
            let mut label = String::from_str("\n-> LINE ");
            label.append(no_str.as_str());
            label.append(": ");
            let yellow = paint_yellow(label.as_str());
            let mut out = center_ansi(yellow.as_str(), 4);
            out.append("\n");
            out.append(high.as_str());
            let rule = paint_red("\n<---------//---------->\n");
            out.append(rule.as_str());
            proof {
                assert(out@ =~= render_line_spec(mode, sr@));
            }
            out
        },
    }
}

/// Pairs a file result with the display style to render it in.
pub struct StyledOutput<'a> {
    pub value: &'a FileResult,
    pub mode: DisplayMode,
}

impl<'a> StyledOutput<'a> {
    /// Wraps a file result together with a display style.
    pub fn new(value: &'a FileResult, mode: DisplayMode) -> (r: Self)
        ensures
            r.value == value,
            r.mode == mode,
    {
        StyledOutput { value, mode }
    }

    /// Renders the wrapped file result in the chosen display style.
    #[verifier::rlimit(60)]
    pub fn render(&self) -> (r: String)
        requires
            file_wf(self.value@),
        ensures
            r@ == render_file_spec(self.mode, self.value@),
    {
        let blue_path = paint_blue(self.value.path.as_str());
        let mut out = blue_path;
        out.append("\n");
        let ghost header = out@;
        let mut i: usize = 0;
        proof {
            assert(self.value@.lines.take(0) =~= Seq::<LineView>::empty());
        }
        while i < self.value.results.len()
            invariant
                0 <= i <= self.value.results@.len(),
                file_wf(self.value@),
                header == painted(blue_code(), self.value@.path) + "\n"@,
                out@ =~= header + render_lines_spec(self.mode, self.value@.lines.take(i as int)),
            decreases self.value.results@.len() - i,
        {
            proof {
                assert(self.value@.lines[i as int] == self.value.results@[i as int]@);
            }
            let line_str = render_line(self.mode, &self.value.results[i]);
            out.append(line_str.as_str());
            proof {
                assert(self.value@.lines.take(i as int + 1).drop_last() =~= self.value@.lines.take(
                    i as int,
                ));
                assert(self.value@.lines.take(i as int + 1).last() == self.value@.lines[i as int]);
            }
            i = i + 1;
        }
        proof {
            assert(self.value@.lines.take(self.value@.lines.len() as int) =~= self.value@.lines);
        }
        out
    }
}

} // verus!

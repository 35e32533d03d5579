//! The scan unit: filters a candidate file by size and binary content, scans
//! its contents line by line for pattern matches, and aggregates a file
//! result exactly when at least one line matched.

use vstd::prelude::*;
use vstd::utf8::decode_utf8;
use vstd::utf8::encode_utf8;
use crate::pattern::Pattern;
use crate::pattern::found_matches;
use crate::schemas::FileResult;
use crate::schemas::FileView;
use crate::schemas::LineView;
use crate::schemas::MatchResult;
use crate::schemas::MatchView;
use crate::schemas::SearchResult;
use crate::schemas::file_wf;
use crate::schemas::line_wf;
use crate::text::lossy_decode;
use crate::text::decode_line;
use crate::text::split_lines;
use crate::text::split_lines_spec;

verus! {

/// Files larger than this many bytes are skipped.
pub const MAX_FILE_SIZE: u64 = 2 * 1024 * 1024;

/// How many leading bytes of a file the binary-content heuristic examines.
pub const BINARY_SNIFF_LEN: usize = 8192;

/// A NUL byte occurs somewhere in `bytes`.
pub open spec fn contains_nul(bytes: Seq<u8>) -> bool {
    exists|i: int| 0 <= i < bytes.len() && bytes[i] == 0u8
}

/// The findings on one line: its number, its decoded content, and one entry
/// per match the pattern engine reports, in left-to-right order.
pub open spec fn line_view_of(pattern: Seq<char>, line_bytes: Seq<u8>, line_no: int) -> LineView {
    let content = lossy_decode(line_bytes);
    LineView {
        line: line_no,
        content,
        matches: found_matches(pattern, content).map_values(
            |f: (int, int)|
                MatchView {
                    start: f.0,
                    end: f.1,
                    content: decode_utf8(encode_utf8(content).subrange(f.0, f.1)),
                },
        ),
    }
}

/// The matching lines among `lines`, in order, where `lines[0]` carries the
/// line number `next_no`; lines without a match are left out.
pub open spec fn scan_lines_from(pattern: Seq<char>, lines: Seq<Seq<u8>>, next_no: int) -> Seq<
    LineView,
>
    decreases lines.len(),
{
    if lines.len() == 0 {
        Seq::empty()
    } else {
        let lv = line_view_of(pattern, lines[0], next_no);
        let rest = scan_lines_from(pattern, lines.drop_first(), next_no + 1);
        if lv.matches.len() > 0 {
            seq![lv] + rest
        } else {
            rest
        }
    }
}

/// The matching lines of a file with the given contents, numbered from 1.
pub open spec fn scan_spec(pattern: Seq<char>, bytes: Seq<u8>) -> Seq<LineView> {
    scan_lines_from(pattern, split_lines_spec(bytes), 1)
}

/// What the scan unit emits for one file: nothing when the file is over the
/// size cap, looks binary, or has no matching line; otherwise the file's
/// findings.
pub open spec fn file_output_spec(
    pattern: Seq<char>,
    path: Seq<char>,
    size: u64,
    prefix: Seq<u8>,
    bytes: Seq<u8>,
) -> Option<FileView> {
    if size > MAX_FILE_SIZE || contains_nul(prefix) {
        None
    } else {
        let lines = scan_spec(pattern, bytes);
        if lines.len() == 0 {
            None
        } else {
            Some(FileView { path, lines })
        }
    }
}

/// The binary-content heuristic: a file is treated as binary when a NUL byte
/// occurs among the examined leading bytes.
pub fn is_binary(prefix: &Vec<u8>) -> (r: bool)
    ensures
        r == contains_nul(prefix@),
{
    let mut i: usize = 0;
    while i < prefix.len()
        invariant
            0 <= i <= prefix@.len(),
            forall|j: int| 0 <= j < i ==> prefix@[j] != 0u8,
        decreases prefix@.len() - i,
    {
        if prefix[i] == 0 {
            return true;
        }
        i = i + 1;
    }
    false
}

/// The size filter: a file is skipped when its size from file metadata
/// exceeds the cap.
pub fn exceeds_size_cap(size: u64) -> (r: bool)
    ensures
        r == (size > MAX_FILE_SIZE),
{
    size > MAX_FILE_SIZE
}

/// Whether a file is filtered out before any line is scanned: it exceeds
/// the size cap, or its leading bytes trip the binary heuristic.
pub fn should_skip(size: u64, prefix: &Vec<u8>) -> (r: bool)
    ensures
        r == (size > MAX_FILE_SIZE || contains_nul(prefix@)),
{
    if exceeds_size_cap(size) {
        true
    } else {
        is_binary(prefix)
    }
}

/// Keeps a scanned line exactly when it has at least one match: the line is
/// materialized with the given number, content and matches, or dropped.
pub fn line_result(line: usize, line_content: String, matches: Vec<MatchResult>) -> (r: Option<
    SearchResult,
>)
    requires
        line >= 1,
    ensures
        r is None <==> matches@.len() == 0,
        r matches Some(sr) ==> sr@ == (LineView {
            line: line as int,
            content: line_content@,
            matches: matches@.map_values(|m: MatchResult| m@),
        }),
{
    if matches.len() == 0 {
        None
    } else {
        Some(SearchResult::new(line, line_content, matches))
    }
}

/// Scans one line: decodes it permissively, runs the pattern over the text,
/// and yields the line's findings exactly when there is at least one match.
pub fn scan_line(pattern: &Pattern, line_no: usize, line_bytes: &Vec<u8>) -> (r: Option<
    SearchResult,
>)
    requires
        line_no >= 1,
    ensures
        r is None <==> found_matches(pattern@, lossy_decode(line_bytes@)).len() == 0,
        r matches Some(sr) ==> sr@ == line_view_of(pattern@, line_bytes@, line_no as int)
            && line_wf(sr@),
{
    broadcast use vstd::utf8::encode_utf8_decode_utf8;

    let content = decode_line(line_bytes);
    let matches = pattern.find_in(content.as_str());
    let ghost target = line_view_of(pattern@, line_bytes@, line_no as int);
    proof {
        assert(matches@.map_values(|m: MatchResult| m@) =~= target.matches);
    }
    line_result(line_no, content, matches)
}

/// Scans a whole file's contents line by line, collecting the findings of
/// every matching line in top-to-bottom order.
pub fn scan_content(pattern: &Pattern, bytes: &Vec<u8>) -> (r: Vec<SearchResult>)
    ensures
        r@.map_values(|s: SearchResult| s@) == scan_spec(pattern@, bytes@),
        forall|i: int| 0 <= i < r@.len() ==> line_wf(#[trigger] r@[i]@),
        forall|i: int, j: int| 0 <= i < j < r@.len() ==> r@[i]@.line < r@[j]@.line,
{
    let lines = split_lines(bytes);
    let ghost lns = lines@.map_values(|l: Vec<u8>| l@);
    let mut results: Vec<SearchResult> = Vec::new();
    let mut i: usize = 0;
    proof {
        assert(lns.skip(0) =~= lns);
        assert(results@.map_values(|s: SearchResult| s@) + scan_lines_from(pattern@, lns, 1)
            =~= scan_lines_from(pattern@, lns, 1));
    }
    while i < lines.len()
        invariant
            0 <= i <= lines@.len(),
            lns == lines@.map_values(|l: Vec<u8>| l@),
            lns == split_lines_spec(bytes@),
            results@.map_values(|s: SearchResult| s@) + scan_lines_from(
                pattern@,
                lns.skip(i as int),
                i + 1,
            ) =~= scan_spec(pattern@, bytes@),
            forall|k: int| 0 <= k < results@.len() ==> line_wf(#[trigger] results@[k]@),
            forall|k: int| 0 <= k < results@.len() ==> 1 <= (#[trigger] results@[k]@).line <= i,
            forall|k1: int, k2: int|
                0 <= k1 < k2 < results@.len() ==> results@[k1]@.line < results@[k2]@.line,
        decreases lines@.len() - i,
    {
        let ghost old_views = results@.map_values(|s: SearchResult| s@);
        proof {
            assert(lns.skip(i as int).drop_first() =~= lns.skip(i as int + 1));
            assert(lns.skip(i as int)[0] == lines@[i as int]@);
        }
        match scan_line(pattern, i + 1, &lines[i]) {
            Some(sr) => {
                results.push(sr);
                proof {
                    assert(results@.map_values(|s: SearchResult| s@) =~= old_views.push(sr@));
                }
            },
            None => {},
        }
        i = i + 1;
    }
    proof {
        assert(results@.map_values(|s: SearchResult| s@) =~= scan_spec(pattern@, bytes@));
    }
    results
}

/// Scans one file's contents and aggregates a file result exactly when some
/// line matched; a file with no matching line produces nothing.
pub fn process_content(pattern: &Pattern, path: String, bytes: &Vec<u8>) -> (r: Option<FileResult>)
    ensures
        r is None <==> scan_spec(pattern@, bytes@).len() == 0,
        r matches Some(fr) ==> fr@ == (FileView {
            path: path@,
            lines: scan_spec(pattern@, bytes@),
        }) && file_wf(fr@),
{
    let results = scan_content(pattern, bytes);
    if results.len() == 0 {
        None
    } else {
        let fr = FileResult::new(path, results);
        Some(fr)
    }
}

/// Applies the scan unit's whole treatment of one candidate file: the size
/// and binary filters first, then the line scan, emitting a file result
/// exactly when the file passes the filters and has a matching line.
pub fn consider_file(
    pattern: &Pattern,
    path: String,
    size: u64,
    prefix: &Vec<u8>,
    bytes: &Vec<u8>,
) -> (r: Option<FileResult>)
    ensures
        r is Some <==> file_output_spec(pattern@, path@, size, prefix@, bytes@) is Some,
        r matches Some(fr) ==> Some(fr@) == file_output_spec(pattern@, path@, size, prefix@, bytes@)
            && file_wf(fr@),
{
    if should_skip(size, prefix) {
        None
    } else {
        process_content(pattern, path, bytes)
    }
}

/// A file over the size cap, or with a NUL byte among its examined leading
/// bytes, yields no file result, even if its contents contain the pattern.
pub proof fn lemma_filtered_file_emits_nothing(
    pattern: Seq<char>,
    path: Seq<char>,
    size: u64,
    prefix: Seq<u8>,
    bytes: Seq<u8>,
)
    requires
        size > MAX_FILE_SIZE || contains_nul(prefix),
    ensures
        file_output_spec(pattern, path, size, prefix, bytes) is None,
{
}

/// A file result is emitted for a file exactly when some line of it
/// matches, and an emitted file result always carries at least one line.
pub proof fn lemma_emitted_file_has_matches(
    pattern: Seq<char>,
    path: Seq<char>,
    size: u64,
    prefix: Seq<u8>,
    bytes: Seq<u8>,
)
    ensures
        file_output_spec(pattern, path, size, prefix, bytes) matches Some(f) ==> f.lines.len()
            > 0,
        !(size > MAX_FILE_SIZE || contains_nul(prefix)) && scan_spec(pattern, bytes).len() > 0
            ==> file_output_spec(pattern, path, size, prefix, bytes) is Some,
{
}

/// One candidate file as the scan unit receives it, already read into plain
/// values: its path, its size from file metadata, its leading bytes for the
/// binary heuristic, and its full contents.
pub struct FileInput {
    pub path: String,
    pub size: u64,
    pub prefix: Vec<u8>,
    pub content: Vec<u8>,
}

/// Mathematical view of a [`FileInput`].
#[verifier::ext_equal]
pub struct FileInputView {
    pub path: Seq<char>,
    pub size: u64,
    pub prefix: Seq<u8>,
    pub content: Seq<u8>,
}

impl View for FileInput {
    type V = FileInputView;

    open spec fn view(&self) -> FileInputView {
        FileInputView {
            path: self.path@,
            size: self.size,
            prefix: self.prefix@,
            content: self.content@,
        }
    }
}

/// What the scan unit emits for one candidate file.
pub open spec fn file_output_of(pattern: Seq<char>, f: FileInputView) -> Option<FileView> {
    file_output_spec(pattern, f.path, f.size, f.prefix, f.content)
}

/// The per-file outcomes of one run that processes, one after the other,
/// the files picked out of `files` by `order`; `None` stands for a file
/// that emitted nothing.
pub open spec fn run_outputs(
    pattern: Seq<char>,
    files: Seq<FileInputView>,
    order: Seq<int>,
) -> Seq<Option<FileView>> {
    order.map_values(|j: int| file_output_of(pattern, files[j]))
}

/// The order that hands `n` files to one worker after the other:
/// `0, 1, ..., n - 1`.
pub open spec fn index_order(n: nat) -> Seq<int> {
    Seq::new(n, |i: int| i)
}

/// The file results actually emitted among the per-file outcomes, in order.
pub open spec fn emitted(outs: Seq<Option<FileView>>) -> Seq<FileView>
    decreases outs.len(),
{
    if outs.len() == 0 {
        Seq::empty()
    } else {
        let rest = emitted(outs.drop_first());
        match outs[0] {
            Some(f) => seq![f] + rest,
            None => rest,
        }
    }
}

/// Processes a whole list of candidate files one after the other,
/// collecting exactly the emitted file results, in order.
pub fn scan_files(pattern: &Pattern, files: &Vec<FileInput>) -> (r: Vec<FileResult>)
    ensures
        r@.map_values(|f: FileResult| f@) == emitted(
            run_outputs(
                pattern@,
                files@.map_values(|f: FileInput| f@),
                index_order(files@.len() as nat),
            ),
        ),
        forall|i: int| 0 <= i < r@.len() ==> file_wf(#[trigger] r@[i]@),
{
    let ghost fvs = files@.map_values(|f: FileInput| f@);
    let ghost outs = run_outputs(pattern@, fvs, index_order(files@.len() as nat));
    let mut results: Vec<FileResult> = Vec::new();
    let mut i: usize = 0;
    proof {
        assert(outs.skip(0) =~= outs);
        assert(results@.map_values(|f: FileResult| f@) + emitted(outs) =~= emitted(outs));
    }
    while i < files.len()
        invariant
            0 <= i <= files@.len(),
            fvs == files@.map_values(|f: FileInput| f@),
            outs == run_outputs(pattern@, fvs, index_order(files@.len() as nat)),
            results@.map_values(|f: FileResult| f@) + emitted(outs.skip(i as int)) =~= emitted(
                outs,
            ),
            forall|k: int| 0 <= k < results@.len() ==> file_wf(#[trigger] results@[k]@),
        decreases files@.len() - i,
    {
        let ghost old_views = results@.map_values(|f: FileResult| f@);
        proof {
            assert(outs.skip(i as int).drop_first() =~= outs.skip(i as int + 1));
            assert(outs.skip(i as int)[0] == file_output_of(pattern@, files@[i as int]@));
        }
        let f = &files[i];
        match consider_file(pattern, f.path.clone(), f.size, &f.prefix, &f.content) {
            Some(fr) => {
                results.push(fr);
                proof {
                    assert(results@.map_values(|f: FileResult| f@) =~= old_views.push(fr@));
                }
            },
            None => {},
        }
        i = i + 1;
    }
    proof {
        assert(results@.map_values(|f: FileResult| f@) =~= emitted(outs));
    }
    results
}

/// Splitting off the findings of the first outcomes: the emitted results of
/// two runs laid end to end are the two runs' emitted results laid end to
/// end.
proof fn lemma_emitted_concat(a: Seq<Option<FileView>>, b: Seq<Option<FileView>>)
    ensures
        emitted(a + b) =~= emitted(a) + emitted(b),
    decreases a.len(),
{
    if a.len() == 0 {
        assert(a + b =~= b);
        assert(emitted(a) + emitted(b) =~= emitted(b));
    } else {
        assert((a + b).drop_first() =~= a.drop_first() + b);
        lemma_emitted_concat(a.drop_first(), b);
        assert((a + b)[0] == a[0]);
        assert(emitted(a + b) =~= emitted(a) + emitted(b));
    }
}

/// Mapping a function over two sequences that hold the same multiset of
/// elements yields two sequences that hold the same multiset of images.
proof fn lemma_map_values_multiset<A, B>(s1: Seq<A>, s2: Seq<A>, f: spec_fn(A) -> B)
    requires
        s1.to_multiset() == s2.to_multiset(),
    ensures
        s1.map_values(f).to_multiset() == s2.map_values(f).to_multiset(),
    decreases s1.len(),
{
    broadcast use vstd::seq_lib::group_to_multiset_ensures;
    broadcast use vstd::multiset::group_multiset_axioms;

    if s1.len() == 0 {
        assert(s1.to_multiset().len() == s1.len());
        assert(s2.to_multiset().len() == s2.len());
        assert(s2.len() == 0);
        assert(s1.map_values(f) =~= s2.map_values(f));
    } else {
        let a = s1.last();
        assert(s1.contains(a));
        assert(s2.to_multiset().count(a) > 0);
        let i = choose|i: int| 0 <= i < s2.len() && s2[i] == a;
        let s1d = s1.drop_last();
        let s2r = s2.remove(i);
        assert(s1 =~= s1d.push(a));
        assert(s1d.to_multiset() =~= s2r.to_multiset());
        lemma_map_values_multiset(s1d, s2r, f);
        assert(s1.map_values(f) =~= s1d.map_values(f).push(f(a)));
        assert(s2r.map_values(f) =~= s2.map_values(f).remove(i));
        assert(s2.map_values(f)[i] == f(a));
        assert(s1.map_values(f).to_multiset() =~= s2.map_values(f).to_multiset());
    }
}

/// Two outcome sequences that hold the same multiset of outcomes emit the
/// same multiset of file results.
proof fn lemma_emitted_multiset(outs1: Seq<Option<FileView>>, outs2: Seq<Option<FileView>>)
    requires
        outs1.to_multiset() == outs2.to_multiset(),
    ensures
        emitted(outs1).to_multiset() == emitted(outs2).to_multiset(),
    decreases outs1.len(),
{
    broadcast use vstd::seq_lib::group_to_multiset_ensures;
    broadcast use vstd::seq_lib::lemma_multiset_commutative;
    broadcast use vstd::multiset::group_multiset_axioms;

    if outs1.len() == 0 {
        assert(outs1.to_multiset().len() == outs1.len());
        assert(outs2.to_multiset().len() == outs2.len());
        assert(outs2.len() == 0);
        assert(emitted(outs1) =~= emitted(outs2));
    } else {
        let a = outs1.last();
        assert(outs1.contains(a));
        assert(outs2.to_multiset().count(a) > 0);
        let i = choose|i: int| 0 <= i < outs2.len() && outs2[i] == a;
        let o1d = outs1.drop_last();
        let o2r = outs2.remove(i);
        assert(outs1 =~= o1d.push(a));
        assert(o1d.to_multiset() =~= o2r.to_multiset());
        lemma_emitted_multiset(o1d, o2r);
        let t = outs2.take(i);
        let k = outs2.skip(i + 1);
        assert(outs1 =~= o1d + seq![a]);
        assert(outs2 =~= t + (seq![a] + k));
        assert(o2r =~= t + k);
        lemma_emitted_concat(o1d, seq![a]);
        lemma_emitted_concat(t, seq![a] + k);
        lemma_emitted_concat(seq![a], k);
        lemma_emitted_concat(t, k);
        assert(emitted(outs1).to_multiset() =~= emitted(outs2).to_multiset());
    }
}

/// Order, interleaving and worker count do not change what a run emits:
/// two complete runs over the same files with the same pattern emit the
/// same multiset of file results whenever their processing orders hand out
/// the same multiset of files. Repeating a run over an unchanged tree, with
/// the files delivered in any other interleaving, or splitting the same
/// files among worker pools of different sizes, are all such reorderings.
pub proof fn lemma_run_order_invariant(
    pattern: Seq<char>,
    files: Seq<FileInputView>,
    order1: Seq<int>,
    order2: Seq<int>,
)
    requires
        order1.to_multiset() == order2.to_multiset(),
    ensures
        emitted(run_outputs(pattern, files, order1)).to_multiset() == emitted(
            run_outputs(pattern, files, order2),
        ).to_multiset(),
{
    lemma_map_values_multiset(order1, order2, |j: int| file_output_of(pattern, files[j]));
    lemma_emitted_multiset(
        run_outputs(pattern, files, order1),
        run_outputs(pattern, files, order2),
    );
}

} // verus!

use sik::pattern::Pattern;
use sik::schemas::{FileResult, MatchResult, SearchResult};
use sik::worker::{
    consider_file, exceeds_size_cap, is_binary, process_content, scan_content, scan_files,
    scan_line, should_skip, FileInput, BINARY_SNIFF_LEN, MAX_FILE_SIZE,
};

fn compile(p: &str) -> Pattern {
    match Pattern::compile(p) {
        Ok(p) => p,
        Err(e) => panic!("pattern failed to compile: {}", e),
    }
}

#[test]
fn two_line_scenario() {
    // Root holds `a.txt` with content "foo\nbar foo\n"; pattern `foo`.
    let pattern = compile("foo");
    let content: Vec<u8> = b"foo\nbar foo\n".to_vec();
    let fr = process_content(&pattern, String::from("a.txt"), &content)
        .expect("a matching file must yield a result");
    assert_eq!(fr.path, "a.txt");
    assert_eq!(fr.results.len(), 2);

    let first = &fr.results[0];
    assert_eq!(first.line, 1);
    assert_eq!(first.line_content, "foo\n");
    assert_eq!(first.matches.len(), 1);
    assert_eq!(first.matches[0].match_range, (0, 3));
    assert_eq!(first.matches[0].content, "foo");

    let second = &fr.results[1];
    assert_eq!(second.line, 2);
    assert_eq!(second.line_content, "bar foo\n");
    assert_eq!(second.matches.len(), 1);
    assert_eq!(second.matches[0].match_range, (4, 7));
    assert_eq!(second.matches[0].content, "foo");
}

#[test]
fn no_match_emits_nothing() {
    let pattern = compile("absent");
    let content: Vec<u8> = b"foo\nbar\n".to_vec();
    assert!(process_content(&pattern, String::from("a.txt"), &content).is_none());
}

#[test]
fn emitted_result_is_nonempty() {
    let pattern = compile("bar");
    let content: Vec<u8> = b"foo\nbar\n".to_vec();
    let fr = process_content(&pattern, String::from("a.txt"), &content).unwrap();
    assert!(!fr.results.is_empty());
    for line in &fr.results {
        assert!(!line.matches.is_empty());
    }
}

#[test]
fn matches_ascending_and_in_bounds() {
    let pattern = compile("o");
    let content: Vec<u8> = b"foo boo\n".to_vec();
    let fr = process_content(&pattern, String::from("a.txt"), &content).unwrap();
    assert_eq!(fr.results.len(), 1);
    let line = &fr.results[0];
    assert_eq!(line.matches.len(), 4);
    let expected = [(1, 2), (2, 3), (5, 6), (6, 7)];
    let mut prev_end = 0;
    for (i, m) in line.matches.iter().enumerate() {
        let (s, e) = m.match_range;
        assert_eq!((s, e), expected[i]);
        assert!(s <= e);
        assert!(e <= line.line_content.len());
        assert!(prev_end <= s);
        prev_end = e;
    }
}

#[test]
fn empty_matches_keep_starts_strictly_ascending() {
    // "a*" also matches the empty string; the engine skips an empty match
    // standing where the previous match ended, so starts stay strict.
    let pattern = compile("a*");
    let content: Vec<u8> = b"bab\n".to_vec();
    let fr = process_content(&pattern, String::from("f"), &content).unwrap();
    assert_eq!(fr.results.len(), 1);
    let line = &fr.results[0];
    let ranges: Vec<(usize, usize)> = line.matches.iter().map(|m| m.match_range).collect();
    assert_eq!(ranges, vec![(0, 0), (1, 2), (3, 3), (4, 4)]);
    for w in line.matches.windows(2) {
        assert!(w[0].match_range.0 < w[1].match_range.0);
        assert!(w[0].match_range.1 <= w[1].match_range.0);
    }
}

#[test]
fn line_numbers_strictly_increase() {
    let pattern = compile("x");
    let content: Vec<u8> = b"x\nnope\nxx\nnope\nx\n".to_vec();
    let fr = process_content(&pattern, String::from("f"), &content).unwrap();
    let lines: Vec<usize> = fr.results.iter().map(|r| r.line).collect();
    assert_eq!(lines, vec![1, 3, 5]);
}

#[test]
fn trailing_partial_line_is_scanned() {
    let pattern = compile("end");
    let content: Vec<u8> = b"first\nthe end".to_vec();
    let fr = process_content(&pattern, String::from("f"), &content).unwrap();
    assert_eq!(fr.results.len(), 1);
    assert_eq!(fr.results[0].line, 2);
    assert_eq!(fr.results[0].line_content, "the end");
    assert_eq!(fr.results[0].matches[0].match_range, (4, 7));
}

#[test]
fn invalid_utf8_is_decoded_permissively() {
    let pattern = compile("oo");
    // 0xFF is not valid UTF-8; it decodes to the replacement character,
    // which takes three bytes, so "oo" starts at byte offset 4.
    let content: Vec<u8> = b"f\xFFoo\n".to_vec();
    let fr = process_content(&pattern, String::from("f"), &content).unwrap();
    assert_eq!(fr.results[0].matches[0].match_range, (4, 6));
    assert_eq!(fr.results[0].matches[0].content, "oo");
}

#[test]
fn oversized_file_is_skipped() {
    let pattern = compile("foo");
    let prefix: Vec<u8> = b"foo\n".to_vec();
    let content: Vec<u8> = b"foo\n".to_vec();
    let r = consider_file(&pattern, String::from("big"), MAX_FILE_SIZE + 1, &prefix, &content);
    assert!(r.is_none());
}

#[test]
fn file_at_size_cap_is_scanned() {
    let pattern = compile("foo");
    let prefix: Vec<u8> = b"foo\n".to_vec();
    let content: Vec<u8> = b"foo\n".to_vec();
    let r = consider_file(&pattern, String::from("ok"), MAX_FILE_SIZE, &prefix, &content);
    assert!(r.is_some());
}

#[test]
fn binary_file_is_skipped() {
    let pattern = compile("foo");
    let mut prefix: Vec<u8> = b"foo".to_vec();
    prefix.push(0);
    let content: Vec<u8> = b"foo\n".to_vec();
    let r = consider_file(&pattern, String::from("bin"), 4, &prefix, &content);
    assert!(r.is_none());
}

#[test]
fn binary_heuristic_looks_for_nul() {
    assert!(!is_binary(&b"plain text".to_vec()));
    assert!(is_binary(&b"c\0mpiled".to_vec()));
    assert!(!is_binary(&Vec::new()));
    assert!(exceeds_size_cap(MAX_FILE_SIZE + 1));
    assert!(!exceeds_size_cap(MAX_FILE_SIZE));
    assert!(should_skip(MAX_FILE_SIZE + 1, &b"text".to_vec()));
    assert!(should_skip(0, &b"\0".to_vec()));
    assert!(!should_skip(MAX_FILE_SIZE, &b"text".to_vec()));
    assert!(BINARY_SNIFF_LEN == 8192);
}

#[test]
fn empty_tree_scenario() {
    // An empty directory tree: no candidate files, no results at all.
    let pattern = compile("foo");
    let files: Vec<FileInput> = Vec::new();
    let results = scan_files(&pattern, &files);
    assert_eq!(results.len(), 0);
}

#[test]
fn bad_pattern_fails_to_compile() {
    // An unbalanced group is rejected at compile time; nothing is scanned.
    assert!(Pattern::compile("(").is_err());
    assert!(Pattern::compile("foo").is_ok());
}

fn demo_files(order: &[usize]) -> Vec<FileInput> {
    let all = [
        ("a.txt", b"foo\nbar\n".to_vec()),
        ("b.txt", b"nothing here\n".to_vec()),
        ("c.txt", b"foo foo\n".to_vec()),
        ("d.txt", b"bar\nfoo\n".to_vec()),
    ];
    order
        .iter()
        .map(|&i| {
            let (path, content) = &all[i];
            FileInput {
                path: String::from(*path),
                size: content.len() as u64,
                prefix: content.clone(),
                content: content.clone(),
            }
        })
        .collect()
}

fn summarize(results: &[FileResult]) -> Vec<(String, Vec<(usize, Vec<(usize, usize)>)>)> {
    let mut out: Vec<(String, Vec<(usize, Vec<(usize, usize)>)>)> = results
        .iter()
        .map(|fr| {
            (
                fr.path.clone(),
                fr.results
                    .iter()
                    .map(|sr| {
                        (
                            sr.line,
                            sr.matches.iter().map(|m| m.match_range).collect::<Vec<_>>(),
                        )
                    })
                    .collect(),
            )
        })
        .collect();
    out.sort();
    out
}

#[test]
fn rerun_yields_same_results() {
    // Two runs over the same unchanged tree agree finding for finding.
    let pattern = compile("foo");
    let first = scan_files(&pattern, &demo_files(&[0, 1, 2, 3]));
    let second = scan_files(&pattern, &demo_files(&[0, 1, 2, 3]));
    assert_eq!(summarize(&first), summarize(&second));
    assert_eq!(first.len(), 3);
}

#[test]
fn processing_order_does_not_change_results() {
    // The same tree handed out in a different interleaving — as different
    // worker counts would — yields the same collection of findings.
    let pattern = compile("foo");
    let one_worker = scan_files(&pattern, &demo_files(&[0, 1, 2, 3]));
    let other_schedule = scan_files(&pattern, &demo_files(&[2, 0, 3, 1]));
    assert_eq!(summarize(&one_worker), summarize(&other_schedule));
}

#[test]
fn scan_line_keeps_only_matching_lines() {
    let pattern = compile("foo");
    assert!(scan_line(&pattern, 1, &b"bar\n".to_vec()).is_none());
    let sr = scan_line(&pattern, 7, &b"a foo\n".to_vec()).unwrap();
    assert_eq!(sr.line, 7);
    assert_eq!(sr.matches[0].match_range, (2, 5));
}

#[test]
fn scan_content_collects_matching_lines() {
    let pattern = compile("a");
    let results: Vec<SearchResult> = scan_content(&pattern, &b"a\nb\nba\n".to_vec());
    assert_eq!(results.len(), 2);
    assert_eq!(results[0].line, 1);
    assert_eq!(results[1].line, 3);
}

#[test]
fn constructors_keep_their_fields() {
    let m = MatchResult::new(2, 5, String::from("foo"));
    assert_eq!(m.match_range, (2, 5));
    assert_eq!(m.content, "foo");
    let sr = SearchResult::new(3, String::from("a foo\n"), vec![m]);
    assert_eq!(sr.line, 3);
    assert_eq!(sr.line_content, "a foo\n");
    assert_eq!(sr.matches.len(), 1);
    let fr = FileResult::new(String::from("p"), vec![sr]);
    assert_eq!(fr.path, "p");
    assert_eq!(fr.results.len(), 1);
}

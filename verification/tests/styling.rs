use sik::painter::{paint_blue, paint_green, paint_magenta, paint_red, paint_yellow};
use sik::pattern::Pattern;
use sik::printer::{center_ansi, highlight, visible_len, DisplayMode, StyledOutput};
use sik::schemas::{FileResult, MatchRange, MatchResult, SearchResult};
use sik::text::{decode_line, split_lines, spaces, str_eq, usize_to_string};
use sik::worker::process_content;

#[test]
fn painters_wrap_in_color_codes() {
    assert_eq!(paint_red("x"), "\x1b[31mx\x1b[0m");
    assert_eq!(paint_green("go"), "\x1b[32mgo\x1b[0m");
    assert_eq!(paint_yellow(""), "\x1b[33m\x1b[0m");
    assert_eq!(paint_blue("b"), "\x1b[34mb\x1b[0m");
    assert_eq!(paint_magenta("m"), "\x1b[35mm\x1b[0m");
}

#[test]
fn visible_len_skips_escape_sequences() {
    assert_eq!(visible_len(""), 0);
    assert_eq!(visible_len("abc"), 3);
    assert_eq!(visible_len("\x1b[31mab\x1b[0m"), 2);
    assert_eq!(visible_len(&paint_green("12")), 2);
}

#[test]
fn center_pads_on_both_sides() {
    assert_eq!(center_ansi("ab", 4), " ab ");
    assert_eq!(center_ansi("a", 4), " a  ");
    assert_eq!(center_ansi("abcde", 4), "abcde");
    assert_eq!(center_ansi(&paint_green("1"), 3), format!(" {} ", paint_green("1")));
}

#[test]
fn highlight_wraps_ranges_in_yellow() {
    let ranges: Vec<MatchRange> = vec![(4, 7)];
    assert_eq!(highlight("foo bar", &ranges), format!("foo {}", paint_yellow("bar")));
    let ranges: Vec<MatchRange> = vec![(0, 1), (2, 3)];
    assert_eq!(
        highlight("abc", &ranges),
        format!("{}b{}", paint_yellow("a"), paint_yellow("c"))
    );
}

#[test]
fn highlight_sorts_ranges_by_start() {
    let ranges: Vec<MatchRange> = vec![(2, 3), (0, 1)];
    assert_eq!(
        highlight("abc", &ranges),
        format!("{}b{}", paint_yellow("a"), paint_yellow("c"))
    );
}

#[test]
fn highlight_without_ranges_copies_the_line() {
    let ranges: Vec<MatchRange> = Vec::new();
    assert_eq!(highlight("plain", &ranges), "plain");
}

fn one_line_result() -> FileResult {
    let m = MatchResult::new(0, 3, String::from("foo"));
    let sr = SearchResult::new(1, String::from("foo\n"), vec![m]);
    FileResult::new(String::from("a.txt"), vec![sr])
}

#[test]
fn primary_render_matches_layout() {
    let fr = one_line_result();
    let out = StyledOutput::new(&fr, DisplayMode::Primary).render();
    let expected = format!(
        "{}\n[{}]: {}\n",
        paint_blue("a.txt"),
        center_ansi(&paint_green("1"), 4),
        paint_yellow("foo"),
    );
    assert_eq!(out, expected);
}

#[test]
fn secondary_render_notes_the_ranges() {
    let fr = one_line_result();
    let out = StyledOutput::new(&fr, DisplayMode::Secondary).render();
    let expected = format!(
        "{}\n[{}] {}: {}\n",
        paint_blue("a.txt"),
        center_ansi(&paint_green("1"), 4),
        paint_magenta("@(0-3)"),
        paint_yellow("foo"),
    );
    assert_eq!(out, expected);
}

#[test]
fn tertiary_render_frames_each_line() {
    let fr = one_line_result();
    let out = StyledOutput::new(&fr, DisplayMode::Tertiary).render();
    let expected = format!(
        "{}\n{}\n{}\n{}",
        paint_blue("a.txt"),
        center_ansi(&paint_yellow("\n-> LINE 1: "), 4),
        paint_yellow("foo"),
        paint_red("\n<---------//---------->\n"),
    );
    assert_eq!(out, expected);
}

#[test]
fn render_agrees_with_the_scanner() {
    let pattern = Pattern::compile("fo+").unwrap();
    let content: Vec<u8> = b"say fooo\n".to_vec();
    let fr = process_content(&pattern, String::from("x"), &content).unwrap();
    let out = StyledOutput::new(&fr, DisplayMode::Primary).render();
    let expected = format!(
        "{}\n[{}]: say {}\n",
        paint_blue("x"),
        center_ansi(&paint_green("1"), 4),
        paint_yellow("fooo"),
    );
    assert_eq!(out, expected);
}

#[test]
fn numbers_render_in_decimal() {
    assert_eq!(usize_to_string(0), "0");
    assert_eq!(usize_to_string(7), "7");
    assert_eq!(usize_to_string(42), "42");
    assert_eq!(usize_to_string(1234567890), "1234567890");
}

#[test]
fn spaces_builds_a_run_of_blanks() {
    assert_eq!(spaces(0), "");
    assert_eq!(spaces(3), "   ");
}

#[test]
fn str_eq_compares_contents() {
    assert!(str_eq("", ""));
    assert!(str_eq("abc", "abc"));
    assert!(!str_eq("abc", "abd"));
    assert!(!str_eq("abc", "ab"));
    assert!(str_eq("héllo", "héllo"));
}

#[test]
fn split_lines_keeps_terminators() {
    let lines = split_lines(&b"a\nbc\n".to_vec());
    let views: Vec<&[u8]> = lines.iter().map(|l| l.as_slice()).collect();
    assert_eq!(views, vec![b"a\n".as_slice(), b"bc\n".as_slice()]);

    let lines = split_lines(&b"a\nrest".to_vec());
    let views: Vec<&[u8]> = lines.iter().map(|l| l.as_slice()).collect();
    assert_eq!(views, vec![b"a\n".as_slice(), b"rest".as_slice()]);

    assert!(split_lines(&Vec::new()).is_empty());

    let lines = split_lines(&b"\n\n".to_vec());
    assert_eq!(lines.len(), 2);
}

#[test]
fn decode_line_replaces_invalid_bytes() {
    assert_eq!(decode_line(&b"plain".to_vec()), "plain");
    assert_eq!(decode_line(&b"f\xFFo".to_vec()), "f\u{FFFD}o");
    assert_eq!(decode_line(&Vec::new()), "");
}

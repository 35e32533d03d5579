use sik::args::{parse_usize, Args, ArgsError, ArgsResult};
use sik::printer::DisplayMode;

fn argv(tokens: &[&str]) -> Vec<String> {
    tokens.iter().map(|t| String::from(*t)).collect()
}

fn parsed(tokens: &[&str]) -> Args {
    match Args::parse(&argv(tokens), 8) {
        ArgsResult::Run(a) => a,
        ArgsResult::Help => panic!("unexpected help"),
        ArgsResult::Fail(_) => panic!("unexpected failure"),
    }
}

#[test]
fn pattern_alone_uses_defaults() {
    let a = parsed(&["foo"]);
    assert_eq!(a.pattern, "foo");
    assert_eq!(a.path, ".");
    assert_eq!(a.threads, 8);
    assert!(matches!(a.type_style, DisplayMode::Primary));
}

#[test]
fn pattern_and_path_are_positional() {
    let a = parsed(&["foo", "src"]);
    assert_eq!(a.pattern, "foo");
    assert_eq!(a.path, "src");
}

#[test]
fn style_flags_select_the_display_mode() {
    assert!(matches!(parsed(&["--secondary", "foo"]).type_style, DisplayMode::Secondary));
    assert!(matches!(parsed(&["foo", "--tertiary"]).type_style, DisplayMode::Tertiary));
}

#[test]
fn thread_count_is_read_from_its_flag() {
    assert_eq!(parsed(&["-t", "4", "foo"]).threads, 4);
    assert_eq!(parsed(&["foo", "--threads", "12"]).threads, 12);
}

#[test]
fn help_wins_over_everything_after_it() {
    assert!(matches!(Args::parse(&argv(&["-h"]), 8), ArgsResult::Help));
    assert!(matches!(Args::parse(&argv(&["foo", "--help"]), 8), ArgsResult::Help));
}

#[test]
fn missing_pattern_is_reported() {
    assert!(matches!(
        Args::parse(&argv(&[]), 8),
        ArgsResult::Fail(ArgsError::MissingPattern)
    ));
    assert!(matches!(
        Args::parse(&argv(&["--secondary"]), 8),
        ArgsResult::Fail(ArgsError::MissingPattern)
    ));
}

#[test]
fn missing_thread_count_is_reported() {
    assert!(matches!(
        Args::parse(&argv(&["foo", "-t"]), 8),
        ArgsResult::Fail(ArgsError::MissingThreadCount)
    ));
}

#[test]
fn bad_thread_counts_are_reported() {
    match Args::parse(&argv(&["-t", "abc", "foo"]), 8) {
        ArgsResult::Fail(ArgsError::InvalidThreadCount(t)) => assert_eq!(t, "abc"),
        _ => panic!("expected an invalid thread count"),
    }
    assert!(matches!(
        Args::parse(&argv(&["-t", "0", "foo"]), 8),
        ArgsResult::Fail(ArgsError::InvalidThreadCount(_))
    ));
}

#[test]
fn unknown_options_are_reported() {
    match Args::parse(&argv(&["--bogus", "foo"]), 8) {
        ArgsResult::Fail(ArgsError::UnknownOption(t)) => assert_eq!(t, "--bogus"),
        _ => panic!("expected an unknown option"),
    }
}

#[test]
fn extra_positional_arguments_are_reported() {
    match Args::parse(&argv(&["foo", "src", "extra"]), 8) {
        ArgsResult::Fail(ArgsError::UnexpectedArgument(t)) => assert_eq!(t, "extra"),
        _ => panic!("expected an unexpected argument"),
    }
}

#[test]
fn numbers_parse_in_decimal() {
    assert_eq!(parse_usize("0"), Some(0));
    assert_eq!(parse_usize("42"), Some(42));
    assert_eq!(parse_usize("+7"), Some(7));
    assert_eq!(parse_usize(""), None);
    assert_eq!(parse_usize("+"), None);
    assert_eq!(parse_usize("abc"), None);
    assert_eq!(parse_usize("4x"), None);
    assert_eq!(parse_usize("-3"), None);
    assert_eq!(parse_usize("999999999999999999999999999999"), None);
}

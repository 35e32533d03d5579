//! The command-line argument grammar: which tokens select a display style,
//! which set the worker count, which are the pattern and the search path,
//! and which end the parse with a usage request or an error.

use vstd::prelude::*;
use vstd::string::StrSliceExecFns;
use vstd::string::StringExecFns;
use crate::printer::DisplayMode;
use crate::text::str_eq;

verus! {

/// The parsed command line: the pattern to search for, the root path to
/// search under, the worker count, and the display style.
pub struct Args {
    pub pattern: String,
    pub path: String,
    pub threads: usize,
    pub type_style: DisplayMode,
}

/// Mathematical view of [`Args`].
#[verifier::ext_equal]
pub struct ArgsView {
    pub pattern: Seq<char>,
    pub path: Seq<char>,
    pub threads: int,
    pub type_style: DisplayMode,
}

impl View for Args {
    type V = ArgsView;

    open spec fn view(&self) -> ArgsView {
        ArgsView {
            pattern: self.pattern@,
            path: self.path@,
            threads: self.threads as int,
            type_style: self.type_style,
        }
    }
}

/// Why the command line was rejected; the offending token is kept.
pub enum ArgsError {
    MissingThreadCount,
    InvalidThreadCount(String),
    UnknownOption(String),
    UnexpectedArgument(String),
    MissingPattern,
}

/// Mathematical view of [`ArgsError`].
pub enum ArgsErrorView {
    MissingThreadCount,
    InvalidThreadCount(Seq<char>),
    UnknownOption(Seq<char>),
    UnexpectedArgument(Seq<char>),
    MissingPattern,
}

impl View for ArgsError {
    type V = ArgsErrorView;

    open spec fn view(&self) -> ArgsErrorView {
        match self {
            ArgsError::MissingThreadCount => ArgsErrorView::MissingThreadCount,
            ArgsError::InvalidThreadCount(s) => ArgsErrorView::InvalidThreadCount(s@),
            ArgsError::UnknownOption(s) => ArgsErrorView::UnknownOption(s@),
            ArgsError::UnexpectedArgument(s) => ArgsErrorView::UnexpectedArgument(s@),
            ArgsError::MissingPattern => ArgsErrorView::MissingPattern,
        }
    }
}

/// How a command line is answered: by running with a full set of
/// arguments, by showing the usage text, or by rejecting the line.
pub enum ArgsResult {
    Run(Args),
    Help,
    Fail(ArgsError),
}

/// Mathematical view of [`ArgsResult`].
pub enum ArgsResultView {
    Run(ArgsView),
    Help,
    Fail(ArgsErrorView),
}

impl View for ArgsResult {
    type V = ArgsResultView;

    open spec fn view(&self) -> ArgsResultView {
        match self {
            ArgsResult::Run(a) => ArgsResultView::Run(a@),
            ArgsResult::Help => ArgsResultView::Help,
            ArgsResult::Fail(e) => ArgsResultView::Fail(e@),
        }
    }
}

/// The character is a decimal digit.
pub open spec fn is_digit_char(c: char) -> bool {
    48 <= c as u32 <= 57
}

/// The numeric value of a decimal digit character.
pub open spec fn digit_val(c: char) -> int {
    c as u32 - 48
}

/// The value of a run of decimal digit characters, most significant first.
pub open spec fn digits_value(d: Seq<char>) -> int
    decreases d.len(),
{
    if d.len() == 0 {
        0
    } else {
        digits_value(d.drop_last()) * 10 + digit_val(d.last())
    }
}

/// The digits of a numeric token: a single leading `+` sign is allowed and
/// dropped.
pub open spec fn digits_part(s: Seq<char>) -> Seq<char> {
    if s.len() > 0 && s[0] == '+' {
        s.drop_first()
    } else {
        s
    }
}

/// The token is a machine-word number: after an optional leading `+`, one
/// or more decimal digits whose value fits the machine word.
pub open spec fn is_count_literal(s: Seq<char>) -> bool {
    let d = digits_part(s);
    &&& d.len() > 0
    &&& forall|i: int| 0 <= i < d.len() ==> is_digit_char(#[trigger] d[i])
    &&& digits_value(d) <= usize::MAX as int
}

/// A run of digits has a nonnegative value.
proof fn lemma_digits_value_nonneg(d: Seq<char>)
    requires
        forall|i: int| 0 <= i < d.len() ==> is_digit_char(#[trigger] d[i]),
    ensures
        digits_value(d) >= 0,
    decreases d.len(),
{
    if d.len() > 0 {
        lemma_digits_value_nonneg(d.drop_last());
    }
}

/// Reading more digits never shrinks the value.
proof fn lemma_digits_value_monotone(d: Seq<char>, k: int)
    requires
        0 <= k <= d.len(),
        forall|i: int| 0 <= i < d.len() ==> is_digit_char(#[trigger] d[i]),
    ensures
        digits_value(d) >= digits_value(d.take(k)),
    decreases d.len() - k,
{
    if k < d.len() {
        assert(d.take(k + 1).drop_last() =~= d.take(k));
        assert(forall|i: int| 0 <= i < d.take(k).len() ==> is_digit_char(#[trigger] d.take(k)[i]));
        lemma_digits_value_nonneg(d.take(k));
        lemma_digits_value_monotone(d, k + 1);
    } else {
        assert(d.take(k) =~= d);
    }
}

/// Reads a machine-word number from a token: an optional leading `+`, then
/// decimal digits; any other character, an empty run of digits, or a value
/// over the machine word fails.
pub fn parse_usize(s: &str) -> (r: Option<usize>)
    ensures
        r is Some <==> is_count_literal(s@),
        r matches Some(v) ==> v as int == digits_value(digits_part(s@)),
{
    let n = s.unicode_len();
    let mut start: usize = 0;
    if n > 0 && s.get_char(0) == '+' {
        start = 1;
    }
    let ghost d = digits_part(s@);
    proof {
        assert(d =~= s@.skip(start as int));
    }
    if n == start {
        return None;
    }
    let mut acc: usize = 0;
    let mut i: usize = start;
    proof {
        assert(d.take(0) =~= Seq::<char>::empty());
    }
    while i < n
        invariant
            start <= i <= n,
            n == s@.len(),
            d == digits_part(s@),
            d =~= s@.skip(start as int),
            forall|j: int| 0 <= j < i - start ==> is_digit_char(#[trigger] d[j]),
            acc as int == digits_value(d.take(i - start)),
        decreases n - i,
    {
        let c = s.get_char(i);
        proof {
            assert(d[i - start] == s@[i as int]);
        }
        let cu = c as u32;
        if cu < 48 || cu > 57 {
            return None;
        }
        let digit: u32 = cu - 48;
        let wide: u128 = acc as u128 * 10 + digit as u128;
        proof {
            assert(d.take(i - start + 1).drop_last() =~= d.take(i - start));
            assert(d.take(i - start + 1).last() == d[i - start]);
        }
        if wide > usize::MAX as u128 {
            proof {
                if is_count_literal(s@) {
                    lemma_digits_value_monotone(d, i - start + 1);
                }
            }
            return None;
        }
        acc = wide as usize;
        i = i + 1;
    }
    proof {
        assert(d.take(n - start) =~= d);
    }
    Some(acc)
}

/// What the argument grammar makes of the remaining tokens, given the
/// pattern, path, worker count and style gathered so far; an empty pattern
/// or path stands for one not given yet.
pub open spec fn parse_rec(
    args: Seq<Seq<char>>,
    pattern: Seq<char>,
    path: Seq<char>,
    threads: int,
    style: DisplayMode,
) -> ArgsResultView
    decreases args.len(),
{
    if args.len() == 0 {
        if pattern.len() == 0 {
            ArgsResultView::Fail(ArgsErrorView::MissingPattern)
        } else {
            ArgsResultView::Run(
                ArgsView {
                    pattern,
                    path: if path.len() == 0 {
                        "."@
                    } else {
                        path
                    },
                    threads,
                    type_style: style,
                },
            )
        }
    } else {
        let a = args[0];
        let rest = args.drop_first();
        if a == "-h"@ || a == "--help"@ {
            ArgsResultView::Help
        } else if a == "--secondary"@ {
            parse_rec(rest, pattern, path, threads, DisplayMode::Secondary)
        } else if a == "--tertiary"@ {
            parse_rec(rest, pattern, path, threads, DisplayMode::Tertiary)
        } else if a == "-t"@ || a == "--threads"@ {
            if args.len() == 1 {
                ArgsResultView::Fail(ArgsErrorView::MissingThreadCount)
            } else if is_count_literal(args[1]) && digits_value(digits_part(args[1])) > 0 {
                parse_rec(
                    args.skip(2),
                    pattern,
                    path,
                    digits_value(digits_part(args[1])),
                    style,
                )
            } else {
                ArgsResultView::Fail(ArgsErrorView::InvalidThreadCount(args[1]))
            }
        } else if a.len() > 0 && a[0] == '-' {
            ArgsResultView::Fail(ArgsErrorView::UnknownOption(a))
        } else if pattern.len() == 0 {
            parse_rec(rest, a, path, threads, style)
        } else if path.len() == 0 {
            parse_rec(rest, pattern, a, threads, style)
        } else {
            ArgsResultView::Fail(ArgsErrorView::UnexpectedArgument(a))
        }
    }
}

/// What the argument grammar makes of a whole command line, starting from
/// the given default worker count and the primary style.
pub open spec fn parse_spec(args: Seq<Seq<char>>, default_threads: int) -> ArgsResultView {
    parse_rec(args, Seq::empty(), Seq::empty(), default_threads, DisplayMode::Primary)
}

impl Args {
    /// Parses the command-line tokens (the program name already dropped),
    /// with the given default worker count.
    pub fn parse(args: &Vec<String>, default_threads: usize) -> (r: ArgsResult)
        ensures
            r@ == parse_spec(args@.map_values(|s: String| s@), default_threads as int),
    {
        let ghost all = args@.map_values(|s: String| s@);
        let mut pattern = String::new();
        let mut path = String::new();
        let mut threads: usize = default_threads;
        let mut style = DisplayMode::Primary;
        let mut i: usize = 0;
        proof {
            assert(all.skip(0) =~= all);
        }
        while i < args.len()
            invariant
                0 <= i <= args@.len(),
                all == args@.map_values(|s: String| s@),
                parse_spec(all, default_threads as int) == parse_rec(
                    all.skip(i as int),
                    pattern@,
                    path@,
                    threads as int,
                    style,
                ),
            decreases args@.len() - i,
        {
            proof {
                assert(all.skip(i as int)[0] == args@[i as int]@);
                assert(all.skip(i as int).drop_first() =~= all.skip(i as int + 1));
            }
            let arg = &args[i];
            if str_eq(arg.as_str(), "-h") || str_eq(arg.as_str(), "--help") {
                return ArgsResult::Help;
            } else if str_eq(arg.as_str(), "--secondary") {
                style = DisplayMode::Secondary;
                i = i + 1;
            } else if str_eq(arg.as_str(), "--tertiary") {
                style = DisplayMode::Tertiary;
                i = i + 1;
            } else if str_eq(arg.as_str(), "-t") || str_eq(arg.as_str(), "--threads") {
                if i + 1 == args.len() {
                    return ArgsResult::Fail(ArgsError::MissingThreadCount);
                }
                proof {
                    assert(all.skip(i as int)[1] == args@[i as int + 1]@);
                    assert(all.skip(i as int).skip(2) =~= all.skip(i as int + 2));
                }
                let num = &args[i + 1];
                match parse_usize(num.as_str()) {
                    Some(v) if v > 0 => {
                        threads = v;
                        i = i + 2;
                    },
                    _ => {
                        return ArgsResult::Fail(ArgsError::InvalidThreadCount(num.clone()));
                    },
                }
            } else if !arg.as_str().is_empty() && arg.as_str().get_char(0) == '-' {
                return ArgsResult::Fail(ArgsError::UnknownOption(arg.clone()));
            } else if pattern.as_str().is_empty() {
                pattern = arg.clone();
                i = i + 1;
            } else if path.as_str().is_empty() {
                path = arg.clone();
                i = i + 1;
            } else {
                return ArgsResult::Fail(ArgsError::UnexpectedArgument(arg.clone()));
            }
        }
        proof {
            assert(all.skip(args@.len() as int) =~= Seq::<Seq<char>>::empty());
        }
        if pattern.as_str().is_empty() {
            return ArgsResult::Fail(ArgsError::MissingPattern);
        }
        if path.as_str().is_empty() {
            path = String::from_str(".");
        }
        ArgsResult::Run(Args { pattern, path, threads, type_style: style })
    }
}

} // verus!

//! ANSI color helpers: wrap a piece of text in a color code and the reset
//! code.

use vstd::prelude::*;
use vstd::string::StringExecFns;

verus! {

/// The code that switches the terminal to red.
pub open spec fn red_code() -> Seq<char> {
    seq!['\x1b', '[', '3', '1', 'm']
}

/// The code that switches the terminal to green.
pub open spec fn green_code() -> Seq<char> {
    seq!['\x1b', '[', '3', '2', 'm']
}

/// The code that switches the terminal to yellow.
pub open spec fn yellow_code() -> Seq<char> {
    seq!['\x1b', '[', '3', '3', 'm']
}

/// The code that switches the terminal to blue.
pub open spec fn blue_code() -> Seq<char> {
    seq!['\x1b', '[', '3', '4', 'm']
}

/// The code that switches the terminal to magenta.
pub open spec fn magenta_code() -> Seq<char> {
    seq!['\x1b', '[', '3', '5', 'm']
}

/// The code that resets the terminal color.
pub open spec fn reset_code() -> Seq<char> {
    seq!['\x1b', '[', '0', 'm']
}

/// `text` wrapped in the given color code and the reset code.
pub open spec fn painted(code: Seq<char>, text: Seq<char>) -> Seq<char> {
    code + text + reset_code()
}

/// Wraps the text in the red color code.
pub fn paint_red(text: &str) -> (r: String)
    ensures
        r@ == painted(red_code(), text@),
{
    let mut s = String::new();
    s.append("\x1b[31m");
    s.append(text);
    s.append("\x1b[0m");
    proof {
        reveal_strlit("\x1b[31m");
        reveal_strlit("\x1b[0m");
        assert(s@ =~= painted(red_code(), text@));
    }
    s
}

/// Wraps the text in the green color code.
pub fn paint_green(text: &str) -> (r: String)
    ensures
        r@ == painted(green_code(), text@),
{
    let mut s = String::new();
    s.append("\x1b[32m");
    s.append(text);
    s.append("\x1b[0m");
    proof {
        reveal_strlit("\x1b[32m");
        reveal_strlit("\x1b[0m");
        assert(s@ =~= painted(green_code(), text@));
    }
    s
}

/// Wraps the text in the yellow color code.
pub fn paint_yellow(text: &str) -> (r: String)
    ensures
        r@ == painted(yellow_code(), text@),
{
    let mut s = String::new();
    s.append("\x1b[33m");
    s.append(text);
    s.append("\x1b[0m");
    proof {
        reveal_strlit("\x1b[33m");
        reveal_strlit("\x1b[0m");
        assert(s@ =~= painted(yellow_code(), text@));
    }
    s
}

/// Wraps the text in the blue color code.
pub fn paint_blue(text: &str) -> (r: String)
    ensures
        r@ == painted(blue_code(), text@),
{
    let mut s = String::new();
    s.append("\x1b[34m");
    s.append(text);
    s.append("\x1b[0m");
    proof {
        reveal_strlit("\x1b[34m");
        reveal_strlit("\x1b[0m");
        assert(s@ =~= painted(blue_code(), text@));
    }
    s
}

/// Wraps the text in the magenta color code.
pub fn paint_magenta(text: &str) -> (r: String)
    ensures
        r@ == painted(magenta_code(), text@),
{
    let mut s = String::new();
    s.append("\x1b[35m");
    s.append(text);
    s.append("\x1b[0m");
    proof {
        reveal_strlit("\x1b[35m");
        reveal_strlit("\x1b[0m");
        assert(s@ =~= painted(magenta_code(), text@));
    }
    s
}

} // verus!

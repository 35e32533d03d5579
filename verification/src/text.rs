//! Byte-level text handling for the scanner: permissive decoding of raw
//! bytes and splitting file contents into newline-terminated lines.

use vstd::prelude::*;
use vstd::utf8::decode_utf8;
use vstd::utf8::encode_utf8;
use vstd::utf8::valid_utf8;

verus! {

/// The line terminator.
pub const NEWLINE: u8 = 10;

/// The character sequence that permissive UTF-8 decoding yields for the
/// given bytes: valid sequences decode as usual, invalid sequences are
/// replaced. The result depends on the bytes alone.
pub uninterp spec fn lossy_decode(bytes: Seq<u8>) -> Seq<char>;

/// Relies on `String::from_utf8_lossy`: the bytes are decoded permissively,
/// and valid UTF-8 input is decoded exactly, never failing.
#[verifier::external_body]
fn from_utf8_lossy(bytes: &Vec<u8>) -> (r: String)
    ensures
        r@ == lossy_decode(bytes@),
        valid_utf8(bytes@) ==> r@ == decode_utf8(bytes@),
{
    String::from_utf8_lossy(bytes.as_slice()).into_owned()
}

/// Decodes one line of raw bytes permissively: valid UTF-8 is decoded
/// exactly, invalid sequences are replaced, and decoding never fails.
pub fn decode_line(bytes: &Vec<u8>) -> (r: String)
    ensures
        r@ == lossy_decode(bytes@),
        valid_utf8(bytes@) ==> r@ == decode_utf8(bytes@),
{
    from_utf8_lossy(bytes)
}

/// The lines of `bytes` once the partial line `cur` has been read: each line
/// runs up to and including a newline byte, and a trailing partial line at
/// the end of input is kept without one.
pub open spec fn split_rec(bytes: Seq<u8>, cur: Seq<u8>) -> Seq<Seq<u8>>
    decreases bytes.len(),
{
    if bytes.len() == 0 {
        if cur.len() == 0 {
            Seq::empty()
        } else {
            seq![cur]
        }
    } else if bytes[0] == NEWLINE {
        seq![cur.push(NEWLINE)] + split_rec(bytes.drop_first(), Seq::empty())
    } else {
        split_rec(bytes.drop_first(), cur.push(bytes[0]))
    }
}

/// The lines of a file's contents, in order: every line includes its
/// terminating newline, except a final partial line at end of file.
pub open spec fn split_lines_spec(bytes: Seq<u8>) -> Seq<Seq<u8>> {
    split_rec(bytes, Seq::empty())
}

/// Splits a file's contents into its lines, newline terminators included,
/// keeping a trailing partial line at end of file.
pub fn split_lines(bytes: &Vec<u8>) -> (r: Vec<Vec<u8>>)
    ensures
        r@.map_values(|l: Vec<u8>| l@) == split_lines_spec(bytes@),
{
    let ghost all = bytes@;
    let mut out: Vec<Vec<u8>> = Vec::new();
    let mut cur: Vec<u8> = Vec::new();
    let mut i: usize = 0;
    proof {
        assert(all.skip(0) =~= all);
        assert(out@.map_values(|l: Vec<u8>| l@) + split_rec(all.skip(0), cur@) =~= split_rec(
            all,
            cur@,
        ));
    }
    while i < bytes.len()
        invariant
            0 <= i <= bytes@.len(),
            all == bytes@,
            out@.map_values(|l: Vec<u8>| l@) + split_rec(all.skip(i as int), cur@)
                =~= split_lines_spec(all),
        decreases bytes@.len() - i,
    {
        let b = bytes[i];
        proof {
            assert(all.skip(i as int).drop_first() =~= all.skip(i as int + 1));
            assert(all.skip(i as int)[0] == b);
        }
        if b == NEWLINE {
            cur.push(NEWLINE);
            out.push(cur);
            cur = Vec::new();
            proof {
                assert(out@.map_values(|l: Vec<u8>| l@) =~= out@.map_values(
                    |l: Vec<u8>| l@,
                ).drop_last().push(out@.last()@));
            }
        } else {
            cur.push(b);
        }
        i = i + 1;
    }
    if cur.len() > 0 {
        out.push(cur);
        proof {
            assert(out@.map_values(|l: Vec<u8>| l@) =~= out@.map_values(
                |l: Vec<u8>| l@,
            ).drop_last().push(out@.last()@));
        }
    }
    proof {
        assert(out@.map_values(|l: Vec<u8>| l@) =~= split_lines_spec(all));
    }
    out
}

/// Relies on `String::push`: the given character is appended at the end of
/// the string.
#[verifier::external_body]
fn push_char(s: &mut String, c: char)
    ensures
        final(s)@ == old(s)@.push(c),
{
    s.push(c);
}

/// `n` space characters.
pub open spec fn space_seq(n: int) -> Seq<char> {
    Seq::new(if n >= 0 {
        n as nat
    } else {
        0
    }, |i: int| ' ')
}

/// Builds a string of `n` spaces.
pub fn spaces(n: usize) -> (r: String)
    ensures
        r@ == space_seq(n as int),
{
    let mut s = String::new();
    let mut i: usize = 0;
    while i < n
        invariant
            0 <= i <= n,
            s@ =~= space_seq(i as int),
        decreases n - i,
    {
        push_char(&mut s, ' ');
        i = i + 1;
    }
    proof {
        assert(s@ =~= space_seq(n as int));
    }
    s
}

/// The decimal digit character for a value below ten.
pub open spec fn digit_char(d: int) -> char {
    ((48 + d) as u8) as char
}

/// The decimal digit characters of `n`, most significant first, without
/// leading zeros (a single `'0'` for zero).
pub open spec fn dec_digits(n: int) -> Seq<char>
    decreases n,
{
    if n < 10 {
        seq![digit_char(n)]
    } else {
        dec_digits(n / 10).push(digit_char(n % 10))
    }
}

/// Renders a number in decimal.
#[verifier::rlimit(50)]
pub fn usize_to_string(n: usize) -> (r: String)
    ensures
        r@ == dec_digits(n as int),
{
    let mut digits: Vec<char> = Vec::new();
    let mut m: usize = n;
    loop
        invariant_except_break
            digits@.len() == 0 ==> m == n,
            digits@.len() > 0 ==> m > 0 && dec_digits(n as int) =~= dec_digits(m as int)
                + digits@.reverse(),
        ensures
            dec_digits(n as int) =~= digits@.reverse(),
        decreases m,
    {
        let ghost m_old = m as int;
        let d: u8 = (m % 10) as u8;
        let c: char = (48 + d) as char;
        let ghost before = digits@;
        digits.push(c);
        m = m / 10;
        proof {
            assert(c == digit_char(m_old % 10));
            assert(digits@.reverse() =~= seq![c] + before.reverse());
            if m_old >= 10 {
                assert(dec_digits(m_old) == dec_digits(m_old / 10).push(digit_char(m_old % 10)));
                assert(dec_digits(m_old) =~= dec_digits(m_old / 10) + seq![c]);
            } else {
                assert(dec_digits(m_old) == seq![digit_char(m_old)]);
            }
            if before.len() == 0 {
                assert(dec_digits(n as int) =~= (if m > 0 {
                    dec_digits(m as int) + digits@.reverse()
                } else {
                    digits@.reverse()
                }));
            } else {
                assert(dec_digits(n as int) =~= dec_digits(m_old) + before.reverse());
                assert(dec_digits(n as int) =~= (if m > 0 {
                    dec_digits(m as int) + digits@.reverse()
                } else {
                    digits@.reverse()
                }));
            }
        }
        if m == 0 {
            break;
        }
    }
    let mut s = String::new();
    let mut i: usize = digits.len();
    proof {
        assert(digits@.take(digits@.len() as int) =~= digits@);
        assert(s@ + digits@.take(i as int).reverse() =~= dec_digits(n as int));
    }
    while i > 0
        invariant
            0 <= i <= digits@.len(),
            s@ + digits@.take(i as int).reverse() =~= dec_digits(n as int),
        decreases i,
    {
        i = i - 1;
        push_char(&mut s, digits[i]);
        proof {
            assert(digits@.take(i as int + 1).reverse() =~= seq![digits@[i as int]] + digits@.take(
                i as int,
            ).reverse());
            assert(s@ + digits@.take(i as int).reverse() =~= dec_digits(n as int));
        }
    }
    proof {
        assert(s@ =~= dec_digits(n as int));
    }
    s
}

/// Whether two pieces of text hold exactly the same characters.
pub fn str_eq(a: &str, b: &str) -> (r: bool)
    ensures
        r == (a@ == b@),
{
    broadcast use vstd::utf8::encode_utf8_decode_utf8;

    let ab = a.as_bytes();
    let bb = b.as_bytes();
    if ab.len() != bb.len() {
        return false;
    }
    let mut i: usize = 0;
    while i < ab.len()
        invariant
            0 <= i <= ab@.len(),
            ab@.len() == bb@.len(),
            ab@ == encode_utf8(a@),
            bb@ == encode_utf8(b@),
            forall|j: int| 0 <= j < i ==> ab@[j] == bb@[j],
        decreases ab@.len() - i,
    {
        if ab[i] != bb[i] {
            return false;
        }
        i = i + 1;
    }
    proof {
        assert(encode_utf8(a@) =~= encode_utf8(b@));
        assert(decode_utf8(encode_utf8(a@)) == decode_utf8(encode_utf8(b@)));
    }
    true
}

} // verus!

//! Styled text for the terminal, and numbers in decimal.

use crate::text::{chars_of, extend_chars};
use vstd::prelude::*;

verus! {

/// The colour of what informs.
pub const INFO: &'static str = "36";

/// The colour of what warns.
pub const WARNING: &'static str = "33";

/// The colour of what went wrong.
pub const DANGER: &'static str = "31";

/// The colour of what is named.
pub const ACCENT: &'static str = "35";

/// The escape character, with which every terminal sequence starts.
pub open spec fn escape() -> char {
    '\u{1b}'
}

/// `text` between the terminal sequence that switches the style `code` on and the one
/// that resets all styles.
pub open spec fn spec_paint(code: Seq<char>, text: Seq<char>) -> Seq<char> {
    seq![escape(), '['] + code + seq!['m'] + text + seq![escape(), '[', '0', 'm']
}

/// `text` in the dim style.
pub open spec fn spec_dim(text: Seq<char>) -> Seq<char> {
    spec_paint(seq!['2'], text)
}

/// The decimal digit of a number below ten.
pub open spec fn digit(d: nat) -> char
    recommends
        d < 10,
{
    if d == 0 {
        '0'
    } else if d == 1 {
        '1'
    } else if d == 2 {
        '2'
    } else if d == 3 {
        '3'
    } else if d == 4 {
        '4'
    } else if d == 5 {
        '5'
    } else if d == 6 {
        '6'
    } else if d == 7 {
        '7'
    } else if d == 8 {
        '8'
    } else {
        '9'
    }
}

/// `n` in decimal, without leading zeros.
pub open spec fn spec_decimal(n: nat) -> Seq<char>
    decreases n,
{
    if n < 10 {
        seq![digit(n)]
    } else {
        spec_decimal(n / 10).push(digit(n % 10))
    }
}

fn digit_char(d: usize) -> (c: char)
    requires
        d < 10,
    ensures
        c == digit(d as nat),
{
    if d == 0 {
        '0'
    } else if d == 1 {
        '1'
    } else if d == 2 {
        '2'
    } else if d == 3 {
        '3'
    } else if d == 4 {
        '4'
    } else if d == 5 {
        '5'
    } else if d == 6 {
        '6'
    } else if d == 7 {
        '7'
    } else if d == 8 {
        '8'
    } else {
        '9'
    }
}

/// `n` in decimal.
pub fn decimal(n: usize) -> (out: Vec<char>)
    ensures
        out@ == spec_decimal(n as nat),
    decreases n,
{
    if n < 10 {
        let mut out: Vec<char> = Vec::new();
        out.push(digit_char(n));
        out
    } else {
        let mut out = decimal(n / 10);
        out.push(digit_char(n % 10));
        out
    }
}

/// `text` in the style `code`, for a terminal.
pub fn paint(code: &str, text: &Vec<char>) -> (out: Vec<char>)
    ensures
        out@ == spec_paint(code@, text@),
{
    let mut out: Vec<char> = Vec::new();
    out.push('\u{1b}');
    out.push('[');
    extend_chars(&mut out, &chars_of(code));
    out.push('m');
    extend_chars(&mut out, text);
    out.push('\u{1b}');
    out.push('[');
    out.push('0');
    out.push('m');
    assert(out@ =~= spec_paint(code@, text@));
    out
}

/// `text` in the dim style, for a terminal.
pub fn dim(text: &Vec<char>) -> (out: Vec<char>)
    ensures
        out@ == spec_dim(text@),
{
    proof {
        reveal_strlit("2");
        assert("2"@ =~= seq!['2']);
    }
    paint("2", text)
}

} // verus!

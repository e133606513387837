//! Numbers as texts.

use vstd::prelude::*;

verus! {

/// The character of a digit below sixteen.
pub open spec fn digit(value: int) -> char {
    if value < 10 {
        (48 + value) as u8 as char
    } else {
        (87 + value) as u8 as char
    }
}

fn digit_char(value: u8) -> (c: char)
    requires
        value < 16,
    ensures
        c == digit(value as int),
{
    if value < 10 {
        (48 + value) as char
    } else {
        (87 + value) as char
    }
}

/// The last hexadecimal digits of a number.
pub open spec fn hex(value: int, count: nat) -> Seq<char>
    decreases count,
{
    if count == 0 {
        Seq::empty()
    } else {
        hex(value / 16, (count - 1) as nat).push(digit(value % 16))
    }
}

/// The last hexadecimal digits of a number.
pub fn hex_text(value: u64, count: u32) -> (text: String)
    ensures
        text@ == hex(value as int, count as nat),
    decreases count,
{
    if count == 0 {
        return String::new();
    }
    let mut text = hex_text(value / 16, count - 1);
    text.push(digit_char((value % 16) as u8));
    text
}

/// A number in decimal digits.
pub open spec fn decimal(value: nat) -> Seq<char>
    decreases value,
{
    if value < 10 {
        seq![digit(value as int)]
    } else {
        decimal(value / 10).push(digit((value % 10) as int))
    }
}

/// A number in decimal digits.
pub fn decimal_text(value: u64) -> (text: String)
    ensures
        text@ == decimal(value as nat),
    decreases value,
{
    if value < 10 {
        let mut text = String::new();
        text.push(digit_char(value as u8));
        assert(text@ =~= seq![digit(value as int)]);
        return text;
    }
    let mut text = decimal_text(value / 10);
    text.push(digit_char((value % 10) as u8));
    text
}

} // verus!

//! Building text one character at a time, and the grouping of digits.

use vstd::prelude::*;
use vstd::string::StrSliceExecFns;

verus! {

/// `String::push` of the standard library, taken on trust: it appends the
/// character to the end of the text.
pub assume_specification[ String::push ](text: &mut String, c: char)
    ensures
        final(text)@ == old(text)@.push(c),
;

/// The length of `n` digits once they are grouped: one separator between
/// each group of four and the next.
pub open spec fn grouped_len(n: nat) -> nat {
    if n == 0 {
        0
    } else {
        (n + (n - 1) / 4) as nat
    }
}

/// The digits in groups of four, with a colon between each group and the
/// next. A last group may be shorter.
pub open spec fn grouped(digits: Seq<char>) -> Seq<char> {
    Seq::new(
        grouped_len(digits.len()),
        |j: int|
            if j % 5 == 4 {
                ':'
            } else {
                digits[j / 5 * 4 + j % 5]
            },
    )
}

/// Writes the digits in groups of four, separated by colons.
pub fn group(digits: &str) -> (text: String)
    ensures
        text@ == grouped(digits@),
{
    let n: usize = digits.unicode_len();
    let mut text = String::new();
    let mut i: usize = 0;
    while i < n
        invariant
            i <= n,
            n == digits@.len(),
            text@ == grouped(digits@.take(i as int)),
        decreases n - i,
    {
        if i > 0 && i % 4 == 0 {
            text.push(':');
        }
        text.push(digits.get_char(i));
        i += 1;
    }
    assert(digits@.take(n as int) == digits@);
    text
}

/// The decimal digit for a value below ten.
pub open spec fn decimal_digit(v: int) -> char {
    (v + 48) as char
}

/// A number in decimal, without leading zeros.
pub open spec fn decimal(n: nat) -> Seq<char>
    decreases n,
{
    if n < 10 {
        seq![decimal_digit(n as int)]
    } else {
        decimal(n / 10).push(decimal_digit(n as int % 10))
    }
}

/// Writes a number in decimal, without leading zeros.
pub fn decimal_of(n: u8) -> (text: String)
    ensures
        text@ == decimal(n as nat),
{
    let mut text = String::new();
    if n >= 100 {
        text.push((n / 100 + 48) as char);
    }
    if n >= 10 {
        text.push((n / 10 % 10 + 48) as char);
    }
    text.push((n % 10 + 48) as char);
    proof {
        reveal_with_fuel(decimal, 3);
        if n >= 100 {
            assert(decimal(n as nat / 10) == decimal(n as nat / 100).push(
                decimal_digit(n as int / 10 % 10),
            ));
        }
    }
    text
}

} // verus!

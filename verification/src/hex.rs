//! Hexadecimal digits, and the rendering of bytes in them.

use vstd::prelude::*;

verus! {

/// The lowercase digit that stands for `v`, for `v` below sixteen.
pub open spec fn hex_digit(v: int) -> char {
    if v < 10 {
        (v + 48) as char
    } else {
        (v + 87) as char
    }
}

/// Whether `c` is one of `0` to `9` or `a` to `f`.
pub open spec fn is_lower_hex(c: char) -> bool {
    ('0' <= c && c <= '9') || ('a' <= c && c <= 'f')
}

/// Whether `c` is a hexadecimal digit of either case.
pub open spec fn is_hex(c: char) -> bool {
    is_lower_hex(c) || ('A' <= c && c <= 'F')
}

/// The value of the hexadecimal digit `c`.
pub open spec fn hex_value(c: char) -> int {
    if '0' <= c && c <= '9' {
        c as int - 48
    } else if 'a' <= c && c <= 'f' {
        c as int - 87
    } else {
        c as int - 55
    }
}

/// Whether every character of `digits` is a hexadecimal digit.
pub open spec fn all_hex(digits: Seq<char>) -> bool {
    forall|i: int| 0 <= i < digits.len() ==> is_hex(#[trigger] digits[i])
}

/// Whether every character of `digits` is a lowercase hexadecimal digit.
pub open spec fn all_lower_hex(digits: Seq<char>) -> bool {
    forall|i: int| 0 <= i < digits.len() ==> is_lower_hex(#[trigger] digits[i])
}

/// The value of each digit of `digits`.
pub open spec fn hex_values(digits: Seq<char>) -> Seq<int> {
    Seq::new(digits.len(), |i: int| hex_value(digits[i]))
}

/// The lowercase digit for a value below sixteen.
pub fn digit_of(v: u8) -> (c: char)
    requires
        v < 16,
    ensures
        c == hex_digit(v as int),
        is_lower_hex(c),
        hex_value(c) == v,
{
    if v < 10 {
        (v + 48) as char
    } else {
        (v + 87) as char
    }
}

/// The value of a hexadecimal digit of either case, and `None` for any other
/// character.
pub fn value_of(c: char) -> (v: Option<u8>)
    ensures
        v is Some <==> is_hex(c),
        v matches Some(n) ==> n == hex_value(c) && n < 16,
{
    let code: u32 = c as u32;
    if 48 <= code && code <= 57 {
        Some((code - 48) as u8)
    } else if 97 <= code && code <= 102 {
        Some((code - 87) as u8)
    } else if 65 <= code && code <= 70 {
        Some((code - 55) as u8)
    } else {
        None
    }
}

/// The text of `bytes` in lowercase hexadecimal: two digits for each byte,
/// the high half first.
pub open spec fn lower_hex(bytes: Seq<u8>) -> Seq<char> {
    Seq::new(
        2 * bytes.len(),
        |i: int|
            if i % 2 == 0 {
                hex_digit(bytes[i / 2] as int / 16)
            } else {
                hex_digit(bytes[i / 2] as int % 16)
            },
    )
}

/// The text of `bytes` has two characters for each byte, and each of them is
/// a lowercase hexadecimal digit.
pub proof fn lemma_lower_hex_digits(bytes: Seq<u8>)
    ensures
        lower_hex(bytes).len() == 2 * bytes.len(),
        all_lower_hex(lower_hex(bytes)),
{
}

/// The digit of a value below sixteen is lowercase and has that value.
pub proof fn lemma_hex_digit_value(v: int)
    requires
        0 <= v < 16,
    ensures
        is_lower_hex(hex_digit(v)),
        hex_value(hex_digit(v)) == v,
{
}

/// A lowercase digit is the digit of its own value.
pub proof fn lemma_lower_hex_value(c: char)
    requires
        is_lower_hex(c),
    ensures
        0 <= hex_value(c) < 16,
        hex_digit(hex_value(c)) == c,
{
}

} // verus!

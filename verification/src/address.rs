//! An IPv6 address as eight groups of sixteen bits.

use crate::hex::{
    all_hex, all_lower_hex, digit_of, hex_digit, hex_value, hex_values, is_hex, is_lower_hex,
    lemma_hex_digit_value, lemma_lower_hex_value, value_of,
};
use crate::text::{group, grouped};
use vstd::prelude::*;
use vstd::string::StrSliceExecFns;

verus! {

/// An IPv6 address.
#[derive(Clone, Copy, Debug, PartialEq, Eq)]
pub struct Address {
    /// The eight groups, the first one first.
    pub segments: [u16; 8],
}

/// The `k`-th of the four half-bytes of a group, counted from its high end.
pub open spec fn nibble(segment: int, k: int) -> int {
    if k == 0 {
        segment / 4096
    } else if k == 1 {
        segment / 256 % 16
    } else if k == 2 {
        segment / 16 % 16
    } else {
        segment % 16
    }
}

/// The group that has the four given half-bytes, the highest first.
pub open spec fn segment_of(n0: int, n1: int, n2: int, n3: int) -> int {
    4096 * n0 + 256 * n1 + 16 * n2 + n3
}

/// Whether position `j` of an address written out in full holds what belongs
/// there: a colon after every four digits, a hexadecimal digit elsewhere.
pub open spec fn fits_at(text: Seq<char>, j: int) -> bool {
    if j % 5 == 4 {
        text[j] == ':'
    } else {
        is_hex(text[j])
    }
}

/// Whether `text` is an address written out in full: eight groups of four
/// hexadecimal digits, of either case, with a colon between each group and
/// the next.
pub open spec fn is_expanded(text: Seq<char>) -> bool {
    &&& text.len() == 39
    &&& forall|j: int| 0 <= j < 39 ==> fits_at(text, j)
}

/// The group that the four digits of `text` from position `at` on spell.
pub open spec fn group_at(text: Seq<char>, at: int) -> int {
    segment_of(
        hex_value(text[at]),
        hex_value(text[at + 1]),
        hex_value(text[at + 2]),
        hex_value(text[at + 3]),
    )
}

/// The eight groups that 32 hexadecimal digits spell.
pub open spec fn groups_of(digits: Seq<char>) -> Seq<u16> {
    Seq::new(8, |k: int| group_at(digits, 4 * k) as u16)
}

/// The 32 digits of an address written out in full, without the colons.
pub open spec fn ungrouped(text: Seq<char>) -> Seq<char> {
    Seq::new(32, |i: int| text[i / 4 * 5 + i % 4])
}

impl Address {
    /// The address that has the groups `segments`.
    pub open spec fn of_segments(segments: Seq<u16>) -> Address {
        Address {
            segments: [
                segments[0],
                segments[1],
                segments[2],
                segments[3],
                segments[4],
                segments[5],
                segments[6],
                segments[7],
            ],
        }
    }

    /// The address that 32 hexadecimal digits spell.
    pub open spec fn spelled(digits: Seq<char>) -> Address {
        Address::of_segments(groups_of(digits))
    }

    /// What a text reads as: the address that its digits spell where it is an
    /// address written out in full, and nothing otherwise.
    pub open spec fn read(text: Seq<char>) -> Option<Address> {
        if is_expanded(text) {
            Some(Address::spelled(ungrouped(text)))
        } else {
            None
        }
    }

    /// The 32 half-bytes of the address, the highest first.
    pub open spec fn nibbles(self) -> Seq<int> {
        Seq::new(32, |i: int| nibble(self.segments@[i / 4] as int, i % 4))
    }

    /// The address written out in full: 32 lowercase hexadecimal digits.
    pub open spec fn digits(self) -> Seq<char> {
        Seq::new(32, |i: int| hex_digit(self.nibbles()[i]))
    }

    /// The address written out in full: 32 lowercase hexadecimal digits
    /// without separators.
    pub fn expand(&self) -> (text: String)
        ensures
            text@ == self.digits(),
    {
        let mut text = String::new();
        let mut i: usize = 0;
        while i < 8
            invariant
                i <= 8,
                text@ == self.digits().take(4 * i as int),
            decreases 8 - i,
        {
            let segment: u16 = self.segments[i];
            text.push(digit_of((segment / 4096) as u8));
            text.push(digit_of((segment / 256 % 16) as u8));
            text.push(digit_of((segment / 16 % 16) as u8));
            text.push(digit_of((segment % 16) as u8));
            i += 1;
        }
        text
    }

    /// The address written out in full, in eight groups separated by colons.
    pub fn text(&self) -> (text: String)
        ensures
            text@ == grouped(self.digits()),
    {
        let digits = self.expand();
        group(digits.as_str())
    }

    /// Reads an address written out in full: eight groups of four
    /// hexadecimal digits with a colon between each group and the next.
    /// Any other text gives `None`.
    pub fn parse(text: &str) -> (r: Option<Address>)
        ensures
            r == Address::read(text@),
    {
        if text.unicode_len() != 39 {
            return None;
        }
        let mut segments: [u16; 8] = [0u16; 8];
        let mut g: usize = 0;
        while g < 8
            invariant
                g <= 8,
                text@.len() == 39,
                forall|j: int| 0 <= j < 5 * g - 1 ==> fits_at(text@, j),
                forall|k: int| 0 <= k < g ==> #[trigger] segments@[k] == group_at(text@, 5 * k),
            decreases 8 - g,
        {
            if g > 0 && text.get_char(5 * g - 1) != ':' {
                assert(!fits_at(text@, 5 * g - 1));
                return None;
            }
            match read_group(text, 5 * g) {
                Some(segment) => {
                    segments[g] = segment;
                },
                None => {
                    assert(!fits_at(text@, 5 * g) || !fits_at(text@, 5 * g + 1) || !fits_at(
                        text@,
                        5 * g + 2,
                    ) || !fits_at(text@, 5 * g + 3));
                    return None;
                },
            }
            assert(fits_at(text@, 5 * g) && fits_at(text@, 5 * g + 1) && fits_at(text@, 5 * g + 2)
                && fits_at(text@, 5 * g + 3));
            g += 1;
        }
        let address = Address { segments };
        proof {
            let digits = ungrouped(text@);
            assert forall|k: int| 0 <= k < 8 implies segments@[k] == groups_of(digits)[k] by {
                assert(segments@[k] == group_at(text@, 5 * k));
                assert(group_at(text@, 5 * k) == group_at(digits, 4 * k));
            }
            assert(segments@ == groups_of(digits));
            lemma_of_segments(groups_of(digits));
            assert(address.segments =~= Address::spelled(digits).segments);
        }
        Some(address)
    }
}

/// Reads the four hexadecimal digits of `text` from position `at` on.
fn read_group(text: &str, at: usize) -> (r: Option<u16>)
    requires
        at + 4 <= text@.len() <= usize::MAX,
    ensures
        r is Some <==> is_hex(text@[at as int]) && is_hex(text@[at + 1]) && is_hex(text@[at + 2])
            && is_hex(text@[at + 3]),
        r matches Some(segment) ==> segment == group_at(text@, at as int),
{
    let n0 = value_of(text.get_char(at));
    let n1 = value_of(text.get_char(at + 1));
    let n2 = value_of(text.get_char(at + 2));
    let n3 = value_of(text.get_char(at + 3));
    match (n0, n1, n2, n3) {
        (Some(n0), Some(n1), Some(n2), Some(n3)) => {
            let high: u16 = 4096 * (n0 as u16) + 256 * (n1 as u16);
            let low: u16 = 16 * (n2 as u16) + (n3 as u16);
            Some(high + low)
        },
        _ => None,
    }
}

/// The address made of eight groups has these groups.
pub proof fn lemma_of_segments(segments: Seq<u16>)
    requires
        segments.len() == 8,
    ensures
        Address::of_segments(segments).segments@ == segments,
{
}

/// A group gives back the four half-bytes that it was made of.
pub proof fn lemma_segment_nibbles(n0: int, n1: int, n2: int, n3: int)
    requires
        0 <= n0 < 16,
        0 <= n1 < 16,
        0 <= n2 < 16,
        0 <= n3 < 16,
    ensures
        0 <= segment_of(n0, n1, n2, n3) < 65536,
        nibble(segment_of(n0, n1, n2, n3), 0) == n0,
        nibble(segment_of(n0, n1, n2, n3), 1) == n1,
        nibble(segment_of(n0, n1, n2, n3), 2) == n2,
        nibble(segment_of(n0, n1, n2, n3), 3) == n3,
{
    let s = segment_of(n0, n1, n2, n3);
    assert(s / 4096 == n0);
    assert(s / 256 == 16 * n0 + n1);
    assert(s / 16 == 256 * n0 + 16 * n1 + n2);
}

/// The four half-bytes of a group are below sixteen, and make up the group.
pub proof fn lemma_nibbles_segment(segment: int)
    requires
        0 <= segment < 65536,
    ensures
        forall|k: int| 0 <= k < 4 ==> 0 <= #[trigger] nibble(segment, k) < 16,
        segment_of(nibble(segment, 0), nibble(segment, 1), nibble(segment, 2), nibble(segment, 3))
            == segment,
{
}

/// Grouping 32 digits gives an address written out in full exactly when all
/// of them are hexadecimal digits; no other number of digits gives one. Taking
/// the colons out again gives the digits back.
pub proof fn lemma_grouped_is_expanded(digits: Seq<char>)
    ensures
        is_expanded(grouped(digits)) <==> digits.len() == 32 && all_hex(digits),
        digits.len() == 32 ==> ungrouped(grouped(digits)) == digits,
{
    let text = grouped(digits);
    if digits.len() == 32 {
        assert(ungrouped(text) == digits);
        if all_hex(digits) {
            assert forall|j: int| 0 <= j < 39 implies fits_at(text, j) by {
                if j % 5 != 4 {
                    assert(is_hex(digits[j / 5 * 4 + j % 5]));
                }
            }
        }
        if is_expanded(text) {
            assert forall|i: int| 0 <= i < 32 implies is_hex(#[trigger] digits[i]) by {
                let j = i / 4 * 5 + i % 4;
                assert(fits_at(text, j));
            }
        }
    }
}

/// Each digit of an address has the half-byte at its place as its value.
pub proof fn lemma_digit_values(address: Address)
    ensures
        all_lower_hex(address.digits()),
        hex_values(address.digits()) == address.nibbles(),
        forall|i: int| 0 <= i < 32 ==> 0 <= #[trigger] address.nibbles()[i] < 16,
{
    let digits = address.digits();
    assert forall|i: int| 0 <= i < 32 implies is_lower_hex(#[trigger] digits[i]) && hex_value(
        digits[i],
    ) == address.nibbles()[i] && 0 <= address.nibbles()[i] < 16 by {
        lemma_nibbles_segment(address.segments@[i / 4] as int);
        lemma_hex_digit_value(nibble(address.segments@[i / 4] as int, i % 4));
    }
    assert(hex_values(digits) == address.nibbles());
}

/// The four digits of a group spell that group.
proof fn lemma_group_of_digits(address: Address, k: int)
    requires
        0 <= k < 8,
    ensures
        group_at(address.digits(), 4 * k) == address.segments@[k],
{
    let segment = address.segments@[k] as int;
    let values = hex_values(address.digits());
    lemma_digit_values(address);
    lemma_nibbles_segment(segment);
    assert(values[4 * k] == address.nibbles()[4 * k]);
    assert(values[4 * k + 1] == address.nibbles()[4 * k + 1]);
    assert(values[4 * k + 2] == address.nibbles()[4 * k + 2]);
    assert(values[4 * k + 3] == address.nibbles()[4 * k + 3]);
}

/// The digits of an address spell that address.
pub proof fn lemma_spelled_digits(address: Address)
    ensures
        Address::spelled(address.digits()) == address,
{
    let groups = groups_of(address.digits());
    assert forall|k: int| 0 <= k < 8 implies groups[k] == address.segments@[k] by {
        lemma_group_of_digits(address, k);
    }
    assert(groups == address.segments@);
    lemma_of_segments(groups);
    assert(Address::spelled(address.digits()).segments =~= address.segments);
}

/// The `k`-th group of the address that 32 hexadecimal digits spell is the
/// group that its four digits spell.
proof fn lemma_spelled_segment(digits: Seq<char>, k: int)
    requires
        digits.len() == 32,
        all_hex(digits),
        0 <= k < 8,
    ensures
        Address::spelled(digits).segments@[k] == group_at(digits, 4 * k),
{
    assert(is_hex(digits[4 * k]) && is_hex(digits[4 * k + 1]) && is_hex(digits[4 * k + 2])
        && is_hex(digits[4 * k + 3]));
    lemma_segment_nibbles(
        hex_value(digits[4 * k]),
        hex_value(digits[4 * k + 1]),
        hex_value(digits[4 * k + 2]),
        hex_value(digits[4 * k + 3]),
    );
    lemma_of_segments(groups_of(digits));
    assert(groups_of(digits)[k] == group_at(digits, 4 * k));
}

/// The half-byte at place `i` of the address that 32 hexadecimal digits
/// spell is the value of the digit at that place.
proof fn lemma_spelled_nibble(digits: Seq<char>, i: int)
    requires
        digits.len() == 32,
        all_hex(digits),
        0 <= i < 32,
    ensures
        Address::spelled(digits).nibbles()[i] == hex_value(digits[i]),
{
    let k = i / 4;
    lemma_spelled_segment(digits, k);
    lemma_segment_nibbles(
        hex_value(digits[4 * k]),
        hex_value(digits[4 * k + 1]),
        hex_value(digits[4 * k + 2]),
        hex_value(digits[4 * k + 3]),
    );
}

/// The address that 32 hexadecimal digits spell has the values of these
/// digits as its half-bytes, and the digits themselves as its digits where
/// they are lowercase.
pub proof fn lemma_spelled_nibbles(digits: Seq<char>)
    requires
        digits.len() == 32,
        all_hex(digits),
    ensures
        Address::spelled(digits).nibbles() == hex_values(digits),
        all_lower_hex(digits) ==> Address::spelled(digits).digits() == digits,
{
    let address = Address::spelled(digits);
    assert forall|i: int| 0 <= i < 32 implies #[trigger] address.nibbles()[i] == hex_values(
        digits,
    )[i] by {
        lemma_spelled_nibble(digits, i);
    }
    assert(address.nibbles() == hex_values(digits));
    if all_lower_hex(digits) {
        assert forall|i: int| 0 <= i < 32 implies #[trigger] address.digits()[i] == digits[i] by {
            lemma_spelled_nibble(digits, i);
            lemma_lower_hex_value(digits[i]);
        }
        assert(address.digits() == digits);
    }
}

/// Two addresses with the same half-bytes are the same address.
pub proof fn lemma_nibbles_determine(a: Address, b: Address)
    requires
        a.nibbles() == b.nibbles(),
    ensures
        a == b,
{
    assert forall|i: int| 0 <= i < 32 implies #[trigger] a.digits()[i] == b.digits()[i] by {
        assert(a.nibbles()[i] == b.nibbles()[i]);
    }
    assert(a.digits() == b.digits());
    lemma_spelled_digits(a);
    lemma_spelled_digits(b);
}

/// Two addresses with the same digits are the same address.
pub proof fn lemma_digits_determine(a: Address, b: Address)
    requires
        a.digits() == b.digits(),
    ensures
        a == b,
{
    lemma_spelled_digits(a);
    lemma_spelled_digits(b);
}

/// The full text of an address reads as that address.
pub proof fn lemma_text_reads_back(address: Address)
    ensures
        is_expanded(grouped(address.digits())),
        Address::read(grouped(address.digits())) == Some(address),
{
    let digits = address.digits();
    lemma_digit_values(address);
    lemma_grouped_is_expanded(digits);
    lemma_spelled_digits(address);
}

} // verus!

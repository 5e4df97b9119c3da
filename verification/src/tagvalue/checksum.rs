//! The `CheckSum` (10) of a frame.
//!
//! The checksum of a message is the sum of its bytes, up to the SOH before
//! tag 10, modulo 256; it is written as exactly three decimal digits.

use crate::tagvalue::digits::{all_digits, digits_value, is_digit};
use vstd::prelude::*;

verus! {

/// The sum of the bytes of `s`.
pub open spec fn byte_sum(s: Seq<u8>) -> nat
    decreases s.len(),
{
    if s.len() == 0 {
        0
    } else {
        byte_sum(s.drop_last()) + s.last() as nat
    }
}

/// The checksum of `s`.
pub open spec fn checksum_of(s: Seq<u8>) -> u8 {
    (byte_sum(s) % 256) as u8
}

/// The three digits that denote `checksum`.
pub open spec fn checksum_digits(checksum: u8) -> Seq<u8> {
    seq![
        (48 + checksum / 100) as u8,
        (48 + checksum / 10 % 10) as u8,
        (48 + checksum % 10) as u8,
    ]
}

/// The checksum that three digits denote.
pub open spec fn declared_checksum(s: Seq<u8>) -> Option<u8> {
    if s.len() == 3 && all_digits(s) && digits_value(s) <= 255 {
        Some(digits_value(s) as u8)
    } else {
        None
    }
}

/// What three digits denote, written out.
proof fn lemma_three_digits(s: Seq<u8>)
    requires
        s.len() == 3,
        all_digits(s),
    ensures
        digits_value(s) == 100 * (s[0] - 48) + 10 * (s[1] - 48) + (s[2] - 48),
{
    assert(is_digit(s[0]) && is_digit(s[1]) && is_digit(s[2]));
    let two = s.drop_last();
    let one = two.drop_last();
    let none = one.drop_last();
    assert(none.len() == 0);
    assert(digits_value(none) == 0);
    assert(digits_value(one) == s[0] - 48);
    assert(digits_value(two) == 10 * (s[0] - 48) + (s[1] - 48));
}

/// The three digits of a checksum denote that checksum.
pub proof fn law_checksum_digits_read_back(checksum: u8)
    ensures
        declared_checksum(checksum_digits(checksum)) == Some(checksum),
{
    let s = checksum_digits(checksum);
    assert(all_digits(s)) by {
        assert forall|i: int| 0 <= i < s.len() implies is_digit(#[trigger] s[i]) by {
            assert(i == 0 || i == 1 || i == 2);
        }
    }
    lemma_three_digits(s);
}

/// Every byte counts, wherever it stands: the checksum of nothing is 0, and a
/// byte at the end adds itself, modulo 256.
pub proof fn law_every_byte_counts(s: Seq<u8>, byte: u8)
    ensures
        checksum_of(Seq::empty()) == 0,
        checksum_of(s.push(byte)) == (checksum_of(s) + byte) % 256,
{
    assert(s.push(byte).drop_last() =~= s);
}

/// The sum of two runs of bytes, one behind the other, is the sum of their sums.
proof fn lemma_sums_add_up(first: Seq<u8>, second: Seq<u8>)
    ensures
        byte_sum(first + second) == byte_sum(first) + byte_sum(second),
    decreases second.len(),
{
    if second.len() == 0 {
        assert(first + second =~= first);
    } else {
        lemma_sums_add_up(first, second.drop_last());
        assert((first + second).drop_last() =~= first + second.drop_last());
        assert((first + second).last() == second.last());
    }
}

/// The checksum of two runs of bytes, one behind the other, is the sum of their
/// checksums, modulo 256.
pub proof fn law_checksums_add_up(first: Seq<u8>, second: Seq<u8>)
    ensures
        checksum_of(first + second) == (checksum_of(first) + checksum_of(second)) % 256,
{
    lemma_sums_add_up(first, second);
}

/// A message in which one byte is changed, at whatever offset, has another
/// checksum.
pub proof fn law_one_changed_byte_shows(s: Seq<u8>, at: int, byte: u8)
    requires
        0 <= at < s.len(),
    ensures
        checksum_of(s.update(at, byte)) == (checksum_of(s) + 256 - s[at] + byte) % 256,
        byte != s[at] ==> checksum_of(s.update(at, byte)) != checksum_of(s),
{
    let before = s.take(at);
    let after = s.skip(at + 1);
    let changed = s.update(at, byte);
    law_every_byte_counts(before, s[at]);
    law_every_byte_counts(before, byte);
    law_checksums_add_up(before.push(s[at]), after);
    law_checksums_add_up(before.push(byte), after);
    assert(before.push(s[at]) + after =~= s);
    assert(before.push(byte) + after =~= changed);
}

/// The digits of a checksum are three ASCII digits, hundreds first.
pub proof fn law_checksum_has_three_digits(checksum: u8)
    ensures
        ({
            let s = checksum_digits(checksum);
            &&& s.len() == 3
            &&& 0x30 <= s[0] <= 0x32
            &&& 0x30 <= s[1] <= 0x39
            &&& 0x30 <= s[2] <= 0x39
            &&& 100 * (s[0] - 0x30) + 10 * (s[1] - 0x30) + (s[2] - 0x30) == checksum
        }),
{
}

/// A checksum is declared by three ASCII digits, hundreds first, that denote at
/// most 255, and by nothing else.
pub proof fn law_declared_checksum_is_three_digits(s: Seq<u8>, checksum: u8)
    ensures
        declared_checksum(s) == Some(checksum) <==> {
            &&& s.len() == 3
            &&& 0x30 <= s[0] <= 0x39
            &&& 0x30 <= s[1] <= 0x39
            &&& 0x30 <= s[2] <= 0x39
            &&& 100 * (s[0] - 0x30) + 10 * (s[1] - 0x30) + (s[2] - 0x30) == checksum
        },
{
    if s.len() == 3 && 0x30 <= s[0] <= 0x39 && 0x30 <= s[1] <= 0x39 && 0x30 <= s[2] <= 0x39 {
        assert(all_digits(s)) by {
            assert forall|i: int| 0 <= i < s.len() implies is_digit(#[trigger] s[i]) by {
                assert(i == 0 || i == 1 || i == 2);
            }
        }
    }
    if s.len() == 3 && all_digits(s) {
        lemma_three_digits(s);
    }
}

/// Calculates the checksum of `bytes`.
pub fn calculate_checksum(bytes: &[u8]) -> (checksum: u8)
    ensures
        checksum == checksum_of(bytes@),
{
    let mut sum: u8 = 0;
    let mut i: usize = 0;
    while i < bytes.len()
        invariant
            i <= bytes@.len(),
            sum == byte_sum(bytes@.take(i as int)) % 256,
        decreases bytes@.len() - i,
    {
        proof {
            let longer = bytes@.take(i + 1);
            assert(longer.drop_last() =~= bytes@.take(i as int));
            assert(byte_sum(longer) == byte_sum(bytes@.take(i as int)) + bytes@[i as int]);
        }
        sum = sum.wrapping_add(bytes[i]);
        i += 1;
    }
    assert(bytes@.take(i as int) =~= bytes@);
    sum
}

/// Formats a checksum as the three digits of tag 10.
pub fn format_checksum(checksum: u8) -> (digits: [u8; 3])
    ensures
        digits@ == checksum_digits(checksum),
{
    let digits: [u8; 3] = [
        48 + checksum / 100,
        48 + checksum / 10 % 10,
        48 + checksum % 10,
    ];
    assert(digits@ =~= checksum_digits(checksum));
    digits
}

/// Parses the value of tag 10.
///
/// Returns `None` unless the value is exactly three decimal digits that
/// denote a number in `0..=255`.
pub fn parse_checksum(bytes: &[u8]) -> (checksum: Option<u8>)
    ensures
        checksum == declared_checksum(bytes@),
{
    if bytes.len() != 3 {
        return None;
    }
    let mut value: u32 = 0;
    let mut i: usize = 0;
    while i < 3
        invariant
            i <= 3,
            bytes@.len() == 3,
            forall|k: int| 0 <= k < i ==> is_digit(#[trigger] bytes@[k]),
            i == 0 ==> value == 0,
            i == 1 ==> value == bytes@[0] - 48,
            i == 2 ==> value == 10 * (bytes@[0] - 48) + (bytes@[1] - 48),
            i == 3 ==> value == 100 * (bytes@[0] - 48) + 10 * (bytes@[1] - 48) + (bytes@[2] - 48),
        decreases 3 - i,
    {
        let byte = bytes[i];
        if byte < 48 || byte > 57 {
            assert(!is_digit(bytes@[i as int]));
            return None;
        }
        assert(i >= 1 ==> is_digit(bytes@[0]));
        assert(i >= 2 ==> is_digit(bytes@[1]));
        value = value * 10 + (byte - 48) as u32;
        i += 1;
    }
    proof {
        lemma_three_digits(bytes@);
    }
    if value > 255 {
        None
    } else {
        Some(value as u8)
    }
}

} // verus!

//! Unsigned decimal numbers on the wire: tag numbers and byte counts.

use crate::outside::decimal::{decimal, lemma_decimal_digits, signed_decimal};
use vstd::prelude::*;

verus! {

/// Maximum number of digits accepted in a tag number.
pub const MAX_TAG_DIGITS: usize = 10;

/// Maximum number of digits accepted in a byte count.
pub const MAX_LENGTH_DIGITS: usize = 10;

/// Whether `byte` is an ASCII digit.
pub open spec fn is_digit(byte: u8) -> bool {
    48 <= byte <= 57
}

/// Whether every byte of `s` is an ASCII digit.
pub open spec fn all_digits(s: Seq<u8>) -> bool {
    forall|i: int| 0 <= i < s.len() ==> is_digit(#[trigger] s[i])
}

/// The number that the digits `s` denote.
pub open spec fn digits_value(s: Seq<u8>) -> nat
    decreases s.len(),
{
    if s.len() == 0 {
        0
    } else {
        (digits_value(s.drop_last()) * 10 + (s.last() - 48)) as nat
    }
}

/// The number that `s` denotes, where `s` is one to `max_digits` digits and
/// the number is at most `max`.
pub open spec fn number_of(s: Seq<u8>, max_digits: nat, max: nat) -> Option<nat> {
    if 1 <= s.len() <= max_digits && all_digits(s) && digits_value(s) <= max {
        Some(digits_value(s))
    } else {
        None
    }
}

/// The tag number that `s` denotes.
pub open spec fn tag_of(s: Seq<u8>) -> Option<u32> {
    match number_of(s, MAX_TAG_DIGITS as nat, u32::MAX as nat) {
        Some(n) => Some(n as u32),
        None => None,
    }
}

/// The byte count that `s` denotes.
pub open spec fn length_of(s: Seq<u8>) -> Option<nat> {
    number_of(s, MAX_LENGTH_DIGITS as nat, usize::MAX as nat)
}

/// The digits of a number stand most significant first: one more digit makes it
/// ten times as large, and adds the digit.
pub proof fn law_digits_are_positional(s: Seq<u8>, digit: u8)
    requires
        0x30 <= digit <= 0x39,
    ensures
        digits_value(Seq::empty()) == 0,
        digits_value(s.push(digit)) == 10 * digits_value(s) + (digit - 0x30),
{
    assert(s.push(digit).drop_last() =~= s);
}

/// A byte count is one to ten ASCII digits and nothing else, and any byte count
/// that a buffer can have is accepted.
pub proof fn law_length_is_up_to_ten_digits(s: Seq<u8>, n: nat)
    ensures
        length_of(s) == Some(n) <==> {
            &&& 1 <= s.len() <= 10
            &&& forall|i: int| 0 <= i < s.len() ==> 0x30 <= #[trigger] s[i] <= 0x39
            &&& n == digits_value(s)
            &&& n <= usize::MAX
        },
{
    if forall|i: int| 0 <= i < s.len() ==> 0x30 <= #[trigger] s[i] <= 0x39 {
        assert(all_digits(s));
    }
}

/// A tag number is one to ten ASCII digits and nothing else, and every 32-bit
/// number is accepted.
pub proof fn law_tag_is_up_to_ten_digits(s: Seq<u8>, tag: u32)
    ensures
        tag_of(s) == Some(tag) <==> {
            &&& 1 <= s.len() <= 10
            &&& forall|i: int| 0 <= i < s.len() ==> 0x30 <= #[trigger] s[i] <= 0x39
            &&& tag == digits_value(s)
        },
{
    if forall|i: int| 0 <= i < s.len() ==> 0x30 <= #[trigger] s[i] <= 0x39 {
        assert(all_digits(s));
    }
}

/// A number is written in ASCII digits, most significant first, that denote it,
/// and with no more of them than it needs.
pub proof fn law_decimal_denotes_the_number(n: nat)
    ensures
        digits_value(decimal(n)) == n,
        forall|i: int| 0 <= i < decimal(n).len() ==> 0x30 <= #[trigger] decimal(n)[i] <= 0x39,
        n == 0 ==> decimal(n).len() == 1,
        n > 0 ==> decimal(n)[0] != 0x30,
    decreases n,
{
    lemma_decimal_value(n);
    lemma_decimal_digits(n);
    if n >= 10 {
        law_decimal_denotes_the_number(n / 10);
        assert(decimal(n)[0] == decimal(n / 10)[0]);
    }
}

/// `10` to the power `k`.
pub open spec fn ten_to(k: nat) -> nat
    decreases k,
{
    if k == 0 {
        1
    } else {
        10 * ten_to((k - 1) as nat)
    }
}

/// Adding digits never makes the number smaller.
pub proof fn lemma_value_monotone(s: Seq<u8>, k: int)
    requires
        all_digits(s),
        0 <= k <= s.len(),
    ensures
        digits_value(s.take(k)) <= digits_value(s),
    decreases s.len(),
{
    if k == s.len() {
        assert(s.take(k) =~= s);
    } else {
        assert(all_digits(s.drop_last())) by {
            assert forall|i: int| 0 <= i < s.drop_last().len() implies is_digit(
                #[trigger] s.drop_last()[i],
            ) by {
                assert(is_digit(s[i]));
            }
        }
        lemma_value_monotone(s.drop_last(), k);
        assert(s.drop_last().take(k) =~= s.take(k));
        assert(is_digit(s[s.len() - 1]));
    }
}

/// Decimal notation denotes the number that it was made of.
pub proof fn lemma_decimal_value(n: nat)
    ensures
        all_digits(decimal(n)),
        digits_value(decimal(n)) == n,
    decreases n,
{
    lemma_decimal_digits(n);
    if n < 10 {
        let s = decimal(n);
        assert(s.drop_last() =~= Seq::<u8>::empty());
        assert(digits_value(s.drop_last()) == 0);
    } else {
        lemma_decimal_value(n / 10);
        let s = decimal(n);
        assert(s.drop_last() =~= decimal(n / 10));
        assert(s.last() == (48 + n % 10) as u8);
    }
}

/// A number below `10^k` takes at most `k` digits.
pub proof fn lemma_decimal_len(n: nat, k: nat)
    requires
        k >= 1,
        n < ten_to(k),
    ensures
        1 <= decimal(n).len() <= k,
    decreases k,
{
    if n >= 10 {
        assert(k >= 2) by {
            assert(ten_to(0) == 1);
            assert(ten_to(1) == 10 * ten_to(0));
        }
        assert(ten_to(k) == 10 * ten_to((k - 1) as nat));
        lemma_decimal_len(n / 10, (k - 1) as nat);
    }
}

/// A tag number reads back from its decimal notation.
pub proof fn lemma_tag_reads_back(tag: u32)
    ensures
        tag_of(decimal(tag as nat)) == Some(tag),
        decimal(tag as nat).len() <= MAX_TAG_DIGITS,
{
    lemma_decimal_value(tag as nat);
    assert(ten_to(10) == 10_000_000_000) by {
        reveal_with_fuel(ten_to, 11);
    }
    lemma_decimal_len(tag as nat, 10);
}

/// A number that is not below `10` to the power `k` takes more than `k` digits.
pub proof fn lemma_decimal_is_longer(n: nat, k: nat)
    requires
        n >= ten_to(k),
    ensures
        decimal(n).len() > k,
    decreases k,
{
    lemma_decimal_digits(n);
    if k > 0 {
        assert(ten_to(k) == 10 * ten_to((k - 1) as nat));
        lemma_ten_to_is_positive((k - 1) as nat);
        lemma_decimal_is_longer(n / 10, (k - 1) as nat);
    }
}

/// No power of `10` is zero.
proof fn lemma_ten_to_is_positive(k: nat)
    ensures
        ten_to(k) >= 1,
    decreases k,
{
    if k > 0 {
        lemma_ten_to_is_positive((k - 1) as nat);
    }
}

/// A byte count of more than ten digits is not read.
pub proof fn lemma_length_is_refused(n: nat)
    requires
        n >= 10_000_000_000,
    ensures
        length_of(decimal(n)) is None,
{
    assert(ten_to(10) == 10_000_000_000) by {
        reveal_with_fuel(ten_to, 11);
    }
    lemma_decimal_is_longer(n, 10);
}

/// A byte count of at most ten digits reads back from its decimal notation.
pub proof fn lemma_length_reads_back(n: nat)
    requires
        n < 10_000_000_000,
        n <= usize::MAX,
    ensures
        length_of(decimal(n)) == Some(n),
{
    lemma_decimal_value(n);
    assert(ten_to(10) == 10_000_000_000) by {
        reveal_with_fuel(ten_to, 11);
    }
    lemma_decimal_len(n, 10);
}

/// Parses a tag number from ASCII bytes.
///
/// Returns `None` if the value is empty, non-numeric, too long, or more than
/// a tag number can be.
pub fn parse_tag(bytes: &[u8]) -> (tag: Option<u32>)
    ensures
        tag == tag_of(bytes@),
{
    match parse_number(bytes, MAX_TAG_DIGITS, u32::MAX as u64) {
        Some(value) => Some(value as u32),
        None => None,
    }
}

/// Parses a byte count from ASCII bytes.
///
/// FIX defines a count as an unsigned integer, so a leading sign, a space, or
/// any other non-digit byte is rejected rather than coerced. Returns `None` if
/// the value is empty, non-numeric, too long, or overflows `usize`.
pub fn parse_length(bytes: &[u8]) -> (length: Option<usize>)
    ensures
        length is Some <==> length_of(bytes@) is Some,
        length matches Some(n) ==> length_of(bytes@) == Some(n as nat),
{
    match parse_number(bytes, MAX_LENGTH_DIGITS, usize::MAX as u64) {
        Some(value) => Some(value as usize),
        None => None,
    }
}

/// Parses one to `max_digits` digits that denote a number of at most `max`.
fn parse_number(bytes: &[u8], max_digits: usize, max: u64) -> (number: Option<u64>)
    ensures
        number is Some <==> number_of(bytes@, max_digits as nat, max as nat) is Some,
        number matches Some(n) ==> number_of(bytes@, max_digits as nat, max as nat) == Some(
            n as nat,
        ),
{
    if bytes.is_empty() || bytes.len() > max_digits {
        return None;
    }
    let mut result: u64 = 0;
    let mut i: usize = 0;
    while i < bytes.len()
        invariant
            i <= bytes@.len(),
            all_digits(bytes@.take(i as int)),
            result == digits_value(bytes@.take(i as int)),
            result <= max,
        decreases bytes@.len() - i,
    {
        let byte = bytes[i];
        if byte < 48 || byte > 57 {
            assert(!is_digit(bytes@[i as int]));
            return None;
        }
        proof {
            let longer = bytes@.take(i + 1);
            assert(longer.drop_last() =~= bytes@.take(i as int));
            assert(digits_value(longer) == digits_value(bytes@.take(i as int)) * 10 + (byte - 48));
            assert forall|k: int| 0 <= k < longer.len() implies is_digit(#[trigger] longer[k]) by {
                if k < i {
                    assert(is_digit(bytes@.take(i as int)[k]));
                }
            }
            if all_digits(bytes@) {
                lemma_value_monotone(bytes@, i + 1);
            }
        }
        let shifted: u64 = match result.checked_mul(10) {
            Some(shifted) => shifted,
            None => {
                return None;
            },
        };
        let next: u64 = match shifted.checked_add((byte - 48) as u64) {
            Some(next) => next,
            None => {
                return None;
            },
        };
        if next > max {
            return None;
        }
        result = next;
        i += 1;
    }
    assert(bytes@.take(i as int) =~= bytes@);
    Some(result)
}

/// A negative number is written as a minus sign and its magnitude, and any other
/// number without a sign.
pub proof fn law_minus_sign_comes_first(i: int)
    ensures
        i < 0 ==> signed_decimal(i) == seq![0x2du8] + decimal((-i) as nat),
        i >= 0 ==> signed_decimal(i) == decimal(i as nat),
{
}

} // verus!

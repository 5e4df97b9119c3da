//! Decimal notation of integers through the `itoa` crate.

use vstd::prelude::*;
use vstd::utf8::{encode_utf8, is_ascii_chars, is_ascii_chars_encode_utf8};

verus! {

/// The ASCII digits of `n` in decimal, without leading zeros.
pub open spec fn decimal(n: nat) -> Seq<u8>
    decreases n,
{
    if n < 10 {
        seq![(48 + n) as u8]
    } else {
        decimal(n / 10).push((48 + n % 10) as u8)
    }
}

/// The ASCII digits of `i` in decimal, with a leading `-` where `i` is
/// negative.
pub open spec fn signed_decimal(i: int) -> Seq<u8> {
    if i < 0 {
        seq![45u8] + decimal((-i) as nat)
    } else {
        decimal(i as nat)
    }
}

/// The characters that the ASCII bytes `bytes` stand for.
pub open spec fn ascii_chars(bytes: Seq<u8>) -> Seq<char> {
    Seq::new(bytes.len(), |i: int| bytes[i] as char)
}

/// `itoa::Buffer::format`: the decimal notation of `value`.
///
/// Every integer type that the library formats is widened to `i128` first,
/// which leaves the notation as it is.
#[verifier::external_body]
pub(crate) fn format_int(value: i128) -> (text: String)
    ensures
        text@ == ascii_chars(signed_decimal(value as int)),
{
    itoa::Buffer::new().format(value).to_owned()
}

/// Every byte of a decimal notation is an ASCII digit.
pub proof fn lemma_decimal_digits(n: nat)
    ensures
        decimal(n).len() >= 1,
        forall|i: int| 0 <= i < decimal(n).len() ==> 48 <= #[trigger] decimal(n)[i] <= 57,
    decreases n,
{
    if n >= 10 {
        lemma_decimal_digits(n / 10);
    }
}

/// Bytes below 128 survive the way through characters and UTF-8.
pub proof fn lemma_ascii_bytes(bytes: Seq<u8>)
    requires
        forall|i: int| 0 <= i < bytes.len() ==> #[trigger] bytes[i] < 128,
    ensures
        is_ascii_chars(ascii_chars(bytes)),
        encode_utf8(ascii_chars(bytes)) == bytes,
{
    let chars = ascii_chars(bytes);
    assert forall|i: int| 0 <= i < chars.len() implies '\0' <= #[trigger] chars[i] <= '\u{7f}' by {
        assert(bytes[i] < 128);
    }
    is_ascii_chars_encode_utf8(chars);
    assert(encode_utf8(chars) =~= bytes) by {
        assert forall|i: int| 0 <= i < bytes.len() implies encode_utf8(chars)[i] == bytes[i] by {
            assert(bytes[i] < 128);
            assert(chars[i] as u8 == bytes[i]);
        }
    }
}

/// The decimal notation of `value` as a `String`.
pub fn format_uint(value: u64) -> (text: String)
    ensures
        text@ == ascii_chars(decimal(value as nat)),
{
    format_int(value as i128)
}

/// The decimal notation of `value` as ASCII bytes.
pub fn format_bytes(value: i128) -> (digits: Vec<u8>)
    ensures
        digits@ == signed_decimal(value as int),
{
    let text = format_int(value);
    proof {
        let bytes = signed_decimal(value as int);
        let magnitude: nat = if value < 0 { (-value) as nat } else { value as nat };
        lemma_decimal_digits(magnitude);
        assert forall|i: int| 0 <= i < bytes.len() implies #[trigger] bytes[i] < 128 by {
            if value < 0 && i > 0 {
                assert(bytes[i] == decimal(magnitude)[i - 1]);
            }
        }
        lemma_ascii_bytes(bytes);
    }
    vstd::slice::slice_to_vec(text.as_str().as_bytes())
}

} // verus!

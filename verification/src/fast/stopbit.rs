//! Stop-bit encoding: seven payload bits to a byte, and a stop bit on the last
//! byte of a value.

use crate::fast::error::FastError;
use vstd::prelude::*;

verus! {

/// Stop bit: set on the final byte of a stop-bit encoded value.
pub const STOP_BIT: u8 = 0x80;

/// Number of payload bits carried by each stop-bit encoded byte.
pub const PAYLOAD_BITS: usize = 7;

/// Maximum number of bytes a stop-bit encoded 64-bit integer may occupy.
///
/// A 64-bit value carries at most 64 significant bits at seven payload bits
/// per byte, and a signed value needs one bit more for its sign, so ten bytes
/// is the longest legal encoding of either. Anything longer is refused, so an
/// endless run of continuation bytes does not keep the decoder busy.
pub const MAX_INT_ENCODED_LEN: usize = 10;

/// Whether the stop bit of `byte` is set.
pub open spec fn is_stop(byte: u8) -> bool {
    byte >= STOP_BIT
}

/// The payload bits of `byte`.
pub open spec fn payload(byte: u8) -> u8 {
    byte % STOP_BIT
}

/// Whether the first byte of `s` with a stop bit stands at `at`.
pub open spec fn is_first_stop(s: Seq<u8>, at: int) -> bool {
    &&& 0 <= at < s.len()
    &&& is_stop(s[at])
    &&& forall|j: int| 0 <= j < at ==> !is_stop(#[trigger] s[j])
}

/// The index of the first byte of `s` with a stop bit.
pub open spec fn stop_index(s: Seq<u8>) -> Option<int> {
    if exists|at: int| is_first_stop(s, at) {
        Some(choose|at: int| is_first_stop(s, at))
    } else {
        None
    }
}

/// The bytes from `offset` on.
pub open spec fn from_offset(data: Seq<u8>, offset: nat) -> Seq<u8> {
    if offset <= data.len() {
        data.skip(offset as int)
    } else {
        Seq::empty()
    }
}

/// Where a reader stands that ran off the end of `data` from `offset` on.
pub open spec fn end_offset(data: Seq<u8>, offset: nat) -> nat {
    if offset <= data.len() {
        data.len()
    } else {
        offset
    }
}

/// The number that the payload bits of `s` denote, most significant first.
pub open spec fn payload_value(s: Seq<u8>) -> nat
    decreases s.len(),
{
    if s.len() == 0 {
        0
    } else {
        (payload_value(s.drop_last()) * 128 + payload(s.last())) as nat
    }
}

/// 128 to the power `k`.
pub open spec fn radix(k: nat) -> nat
    decreases k,
{
    if k == 0 {
        1
    } else {
        128 * radix((k - 1) as nat)
    }
}

/// Whether the sign bit of a signed value is set: bit 6 of its first byte.
pub open spec fn is_negative(s: Seq<u8>) -> bool {
    s.len() > 0 && payload(s[0]) >= 64
}

/// The number that the payload bits of `s` denote in two's complement.
pub open spec fn signed_value(s: Seq<u8>) -> int {
    if is_negative(s) {
        payload_value(s) - radix(s.len())
    } else {
        payload_value(s) as int
    }
}

/// What reading an integer gives, and where the reader then stands.
#[verifier::ext_equal]
pub struct IntRead {
    pub result: Result<int, FastError>,
    pub offset: nat,
}

/// Reads a stop-bit encoded integer between `min` and `max` at `offset`.
///
/// The value ends at the first stop bit, which must come within
/// [`MAX_INT_ENCODED_LEN`] bytes.
pub open spec fn read_integer(
    data: Seq<u8>,
    offset: nat,
    signed: bool,
    min: int,
    max: int,
) -> IntRead {
    let rest = from_offset(data, offset);
    match stop_index(rest) {
        Some(at) if at < MAX_INT_ENCODED_LEN => {
            let bytes = rest.take(at + 1);
            let value = if signed {
                signed_value(bytes)
            } else {
                payload_value(bytes) as int
            };
            IntRead {
                result: if min <= value <= max {
                    Ok(value)
                } else {
                    Err(FastError::IntegerOverflow)
                },
                offset: (offset + at + 1) as nat,
            }
        },
        _ => if rest.len() >= MAX_INT_ENCODED_LEN {
            IntRead {
                result: Err(FastError::IntegerOverflow),
                offset: (offset + MAX_INT_ENCODED_LEN) as nat,
            }
        } else {
            IntRead { result: Err(FastError::UnexpectedEof), offset: end_offset(data, offset) }
        },
    }
}

/// Reads an unsigned 64-bit integer.
pub open spec fn read_uint(data: Seq<u8>, offset: nat) -> IntRead {
    read_integer(data, offset, false, 0, u64::MAX as int)
}

/// Reads a signed 64-bit integer.
pub open spec fn read_int(data: Seq<u8>, offset: nat) -> IntRead {
    read_integer(data, offset, true, i64::MIN as int, i64::MAX as int)
}

/// Reads an unsigned 128-bit integer.
pub open spec fn read_wide(data: Seq<u8>, offset: nat) -> IntRead {
    read_integer(data, offset, false, 0, u128::MAX as int)
}

/// What reading a nullable integer gives, and where the reader then stands.
#[verifier::ext_equal]
pub struct NullableRead {
    pub result: Result<Option<int>, FastError>,
    pub offset: nat,
}

/// Reads a nullable unsigned integer: 0 is NULL, and any other value is one
/// more than what it denotes.
pub open spec fn read_nullable_uint(data: Seq<u8>, offset: nat) -> NullableRead {
    let read = read_wide(data, offset);
    NullableRead {
        result: match read.result {
            Err(e) => Err(e),
            Ok(biased) => if biased == 0 {
                Ok(None)
            } else if biased - 1 <= u64::MAX {
                Ok(Some(biased - 1))
            } else {
                Err(FastError::IntegerOverflow)
            },
        },
        offset: read.offset,
    }
}

/// Reads a nullable signed integer: 0 is NULL, a positive value is one more
/// than what it denotes, and a negative value denotes itself.
pub open spec fn read_nullable_int(data: Seq<u8>, offset: nat) -> NullableRead {
    let read = read_int(data, offset);
    NullableRead {
        result: match read.result {
            Err(e) => Err(e),
            Ok(raw) => if raw == 0 {
                Ok(None)
            } else if raw < 0 {
                Ok(Some(raw))
            } else {
                Ok(Some(raw - 1))
            },
        },
        offset: read.offset,
    }
}

/// What reading bytes gives, and where the reader then stands.
#[verifier::ext_equal]
pub struct BytesRead {
    pub result: Result<Seq<u8>, FastError>,
    pub offset: nat,
}

/// What reading nullable bytes gives, and where the reader then stands.
#[verifier::ext_equal]
pub struct NullableBytesRead {
    pub result: Result<Option<Seq<u8>>, FastError>,
    pub offset: nat,
}

/// The payload of each byte of `s`.
pub open spec fn payloads(s: Seq<u8>) -> Seq<u8> {
    Seq::new(s.len(), |i: int| payload(s[i]))
}

/// Reads the characters up to the stop bit.
pub open spec fn read_run(data: Seq<u8>, offset: nat) -> BytesRead {
    let rest = from_offset(data, offset);
    match stop_index(rest) {
        Some(at) => BytesRead {
            result: Ok(payloads(rest.take(at + 1))),
            offset: (offset + at + 1) as nat,
        },
        None => BytesRead { result: Err(FastError::UnexpectedEof), offset },
    }
}

/// Reads a string, as ASCII bytes: `0x80` is the empty string, `0x00 0x80` the
/// string of one NUL, and nothing else may begin with `0x00`.
pub open spec fn read_ascii(data: Seq<u8>, offset: nat) -> BytesRead {
    let rest = from_offset(data, offset);
    if rest.len() == 0 {
        BytesRead { result: Err(FastError::UnexpectedEof), offset }
    } else if rest[0] == STOP_BIT {
        BytesRead { result: Ok(Seq::empty()), offset: offset + 1 }
    } else if rest[0] == 0 {
        if rest.len() == 1 {
            BytesRead { result: Err(FastError::UnexpectedEof), offset }
        } else if rest[1] == STOP_BIT {
            BytesRead { result: Ok(seq![0u8]), offset: offset + 2 }
        } else {
            BytesRead { result: Err(FastError::InvalidString), offset }
        }
    } else {
        read_run(data, offset)
    }
}

/// Reads a nullable string, as ASCII bytes: `0x80` is NULL, `0x00 0x80` the
/// empty string, `0x00 0x00 0x80` the string of one NUL, and nothing else may
/// begin with `0x00`.
pub open spec fn read_nullable_ascii(data: Seq<u8>, offset: nat) -> NullableBytesRead {
    let rest = from_offset(data, offset);
    let eof = NullableBytesRead { result: Err(FastError::UnexpectedEof), offset };
    if rest.len() == 0 {
        eof
    } else if rest[0] == STOP_BIT {
        NullableBytesRead { result: Ok(None), offset: offset + 1 }
    } else if rest[0] == 0 {
        if rest.len() == 1 {
            eof
        } else if rest[1] == STOP_BIT {
            NullableBytesRead { result: Ok(Some(Seq::empty())), offset: offset + 2 }
        } else if rest[1] != 0 {
            NullableBytesRead { result: Err(FastError::InvalidString), offset }
        } else if rest.len() == 2 {
            eof
        } else if rest[2] == STOP_BIT {
            NullableBytesRead { result: Ok(Some(seq![0u8])), offset: offset + 3 }
        } else {
            NullableBytesRead { result: Err(FastError::InvalidString), offset }
        }
    } else {
        let run = read_run(data, offset);
        NullableBytesRead {
            result: match run.result {
                Ok(bytes) => Ok(Some(bytes)),
                Err(e) => Err(e),
            },
            offset: run.offset,
        }
    }
}

/// Takes `length` bytes at `offset`, where so many are left.
pub open spec fn take_at(data: Seq<u8>, offset: nat, length: int) -> BytesRead {
    if offset + length <= data.len() {
        BytesRead {
            result: Ok(data.subrange(offset as int, offset + length)),
            offset: (offset + length) as nat,
        }
    } else {
        BytesRead { result: Err(FastError::UnexpectedEof), offset }
    }
}

/// Reads a byte vector: an unsigned length, and so many bytes.
pub open spec fn read_bytes(data: Seq<u8>, offset: nat) -> BytesRead {
    let length = read_uint(data, offset);
    match length.result {
        Err(e) => BytesRead { result: Err(e), offset: length.offset },
        Ok(n) => take_at(data, length.offset, n),
    }
}

/// Reads a nullable byte vector: a nullable length, and so many bytes.
pub open spec fn read_nullable_bytes(data: Seq<u8>, offset: nat) -> NullableBytesRead {
    let length = read_nullable_uint(data, offset);
    match length.result {
        Err(e) => NullableBytesRead { result: Err(e), offset: length.offset },
        Ok(None) => NullableBytesRead { result: Ok(None), offset: length.offset },
        Ok(Some(n)) => {
            let taken = take_at(data, length.offset, n);
            NullableBytesRead {
                result: match taken.result {
                    Ok(bytes) => Ok(Some(bytes)),
                    Err(e) => Err(e),
                },
                offset: taken.offset,
            }
        },
    }
}

/// Sets the stop bit of the last byte.
pub open spec fn with_stop(s: Seq<u8>) -> Seq<u8> {
    s.drop_last().push((s.last() + STOP_BIT) as u8)
}

/// The seven-bit groups of `n`, most significant first, without leading zeros.
pub open spec fn groups(n: nat) -> Seq<u8>
    decreases n,
{
    if n < 128 {
        seq![n as u8]
    } else {
        groups(n / 128).push((n % 128) as u8)
    }
}

/// The seven-bit groups of `v` in two's complement, most significant first,
/// with no more leading groups than the sign needs.
pub open spec fn signed_groups(v: int) -> Seq<u8>
    decreases
            (if v < 0 {
                -v
            } else {
                v
            }),
{
    if -64 <= v < 64 {
        seq![(v % 128) as u8]
    } else {
        signed_groups(v / 128).push((v % 128) as u8)
    }
}

/// The encoding of an unsigned integer.
pub open spec fn uint_bytes(n: nat) -> Seq<u8> {
    with_stop(groups(n))
}

/// The encoding of a signed integer.
pub open spec fn int_bytes(v: int) -> Seq<u8> {
    with_stop(signed_groups(v))
}

/// The encoding of NULL.
pub open spec fn null_bytes() -> Seq<u8> {
    seq![STOP_BIT]
}

/// The encoding of a nullable unsigned integer.
pub open spec fn nullable_uint_bytes(value: Option<u64>) -> Seq<u8> {
    match value {
        None => null_bytes(),
        Some(n) => uint_bytes((n + 1) as nat),
    }
}

/// The encoding of a nullable signed integer; `i64::MAX` has none.
pub open spec fn nullable_int_bytes(value: Option<i64>) -> Option<Seq<u8>> {
    match value {
        None => Some(null_bytes()),
        Some(v) => if v < 0 {
            Some(int_bytes(v as int))
        } else if v < i64::MAX {
            Some(int_bytes(v + 1))
        } else {
            None
        },
    }
}

/// Whether every byte of `s` is ASCII.
pub open spec fn all_ascii(s: Seq<u8>) -> bool {
    forall|i: int| 0 <= i < s.len() ==> #[trigger] s[i] < 128
}

/// The encoding of the string with the bytes `s`.
///
/// A string that is not ASCII has none, and neither has a longer string that
/// begins with NUL.
pub open spec fn ascii_bytes(s: Seq<u8>) -> Option<Seq<u8>> {
    if !all_ascii(s) {
        None
    } else if s.len() == 0 {
        Some(seq![STOP_BIT])
    } else if s == seq![0u8] {
        Some(seq![0u8, STOP_BIT])
    } else if s[0] == 0 {
        None
    } else {
        Some(with_stop(s))
    }
}

/// The encoding of the nullable string with the bytes `value`.
pub open spec fn nullable_ascii_bytes(value: Option<Seq<u8>>) -> Option<Seq<u8>> {
    match value {
        None => Some(null_bytes()),
        Some(s) => if !all_ascii(s) {
            None
        } else if s.len() == 0 {
            Some(seq![0u8, STOP_BIT])
        } else if s == seq![0u8] {
            Some(seq![0u8, 0u8, STOP_BIT])
        } else if s[0] == 0 {
            None
        } else {
            Some(with_stop(s))
        },
    }
}

/// The first byte with a stop bit is unique.
pub proof fn lemma_first_stop(s: Seq<u8>, at: int)
    requires
        is_first_stop(s, at),
    ensures
        stop_index(s) == Some(at),
{
    let other = choose|i: int| is_first_stop(s, i);
    assert(is_first_stop(s, other));
    assert(!(other < at) && !(at < other));
}

/// Without a stop bit there is none to be found.
pub proof fn lemma_no_stop(s: Seq<u8>)
    requires
        forall|j: int| 0 <= j < s.len() ==> !is_stop(#[trigger] s[j]),
    ensures
        stop_index(s) is None,
{
    if exists|at: int| is_first_stop(s, at) {
        let at = choose|at: int| is_first_stop(s, at);
        assert(is_stop(s[at]));
    }
}

/// `k` groups of seven bits denote less than 128 to the power `k`.
pub proof fn lemma_payload_bound(s: Seq<u8>)
    ensures
        payload_value(s) < radix(s.len()),
    decreases s.len(),
{
    if s.len() > 0 {
        lemma_payload_bound(s.drop_last());
    }
}

/// One more byte.
pub proof fn lemma_payload_push(s: Seq<u8>, k: int)
    requires
        0 <= k < s.len(),
    ensures
        payload_value(s.take(k + 1)) == payload_value(s.take(k)) * 128 + payload(s[k]),
{
    assert(s.take(k + 1).drop_last() =~= s.take(k));
}

/// The powers of 128 up to the longest encoding.
pub proof fn lemma_radix()
    ensures
        radix(0) == 1,
        radix(1) == 128,
        radix(8) == 0x100_0000_0000_0000,
        radix(9) == 0x8000_0000_0000_0000,
        radix(10) == 0x40_0000_0000_0000_0000,
{
    reveal_with_fuel(radix, 11);
}

/// 128 to a larger power is larger.
pub proof fn lemma_radix_monotone(j: nat, k: nat)
    requires
        j <= k,
    ensures
        1 <= radix(j) <= radix(k),
    decreases k,
{
    if k > 0 {
        if j < k {
            lemma_radix_monotone(j, (k - 1) as nat);
        } else {
            lemma_radix_monotone((j - 1) as nat, (k - 1) as nat);
        }
    }
}

/// A group of seven bits leaves the stop bit clear.
pub proof fn lemma_groups(n: nat)
    ensures
        groups(n).len() >= 1,
        all_ascii(groups(n)),
        payload_value(groups(n)) == n,
    decreases n,
{
    let s = groups(n);
    if n < 128 {
        assert(s.drop_last() =~= Seq::<u8>::empty());
        assert(payload_value(s.drop_last()) == 0);
    } else {
        lemma_groups(n / 128);
        assert(s.drop_last() =~= groups(n / 128));
    }
}

/// The groups of a signed value leave the stop bit clear, and bit 6 of the
/// first of them is the sign.
pub proof fn lemma_signed_groups(v: int)
    ensures
        signed_groups(v).len() >= 1,
        all_ascii(signed_groups(v)),
        is_negative(signed_groups(v)) == (v < 0),
        signed_value(signed_groups(v)) == v,
    decreases
            (if v < 0 {
                -v
            } else {
                v
            }),
{
    let s = signed_groups(v);
    if -64 <= v < 64 {
        assert(s.drop_last() =~= Seq::<u8>::empty());
        assert(payload_value(s.drop_last()) == 0);
        assert(payload_value(s) == v % 128);
        lemma_radix();
    } else {
        lemma_signed_groups(v / 128);
        let head = signed_groups(v / 128);
        assert(s.drop_last() =~= head);
        assert(s[0] == head[0]);
        assert(radix(s.len()) == 128 * radix(head.len()));
    }
}

} // verus!

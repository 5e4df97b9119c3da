//! What the encoder and the decoder promise together.

use crate::fast::encoder::FastEncoderView;
use crate::fast::error::FastError;
use crate::fast::operators::{after_bit, owns_bit, transfer_of, FieldTransfer, Operator};
use crate::fast::pmap::{
    bit_or_clear, bits_of, byte_bit, byte_of, bytes_for, lemma_byte_of_bound, pmap_bytes, read_pmap,
    used_bytes, PresenceMapView, MAX_PMAP_BYTES,
};
use crate::fast::stopbit::{
    all_ascii, ascii_bytes, from_offset, groups, int_bytes, is_first_stop, is_stop,
    lemma_first_stop, lemma_groups, lemma_payload_bound, lemma_radix, lemma_signed_groups,
    null_bytes, nullable_ascii_bytes, nullable_int_bytes, nullable_uint_bytes, payload,
    payload_value, payloads, radix, read_ascii, read_bytes, read_int, read_integer,
    read_nullable_ascii, read_nullable_bytes, read_nullable_int, read_nullable_uint, read_uint,
    signed_groups, signed_value, stop_index, uint_bytes, with_stop, BytesRead, IntRead,
    NullableBytesRead, NullableRead, MAX_INT_ENCODED_LEN, STOP_BIT,
};
use vstd::prelude::*;

verus! {

/// A run that ends with a stop bit is found where it was written, and its
/// payload is what it was written with.
proof fn lemma_run_in_stream(before: Seq<u8>, run: Seq<u8>, tail: Seq<u8>)
    requires
        run.len() > 0,
        all_ascii(run),
    ensures
        ({
            let data = before + with_stop(run) + tail;
            let rest = from_offset(data, before.len());
            &&& with_stop(run).len() == run.len()
            &&& rest == with_stop(run) + tail
            &&& stop_index(rest) == Some(run.len() - 1)
            &&& rest.take(run.len() as int) == with_stop(run)
            &&& payload_value(with_stop(run)) == payload_value(run)
            &&& signed_value(with_stop(run)) == signed_value(run)
            &&& payloads(with_stop(run)) == run
        }),
{
    let stopped = with_stop(run);
    let data = before + stopped + tail;
    let rest = from_offset(data, before.len());
    assert(rest =~= stopped + tail);
    assert(run.last() < 128) by {
        assert(run[run.len() - 1] < 128);
    }
    assert forall|j: int| 0 <= j < run.len() - 1 implies !is_stop(#[trigger] rest[j]) by {
        assert(rest[j] == run[j]);
    }
    assert(is_first_stop(rest, run.len() - 1));
    lemma_first_stop(rest, run.len() - 1);
    assert(rest.take(run.len() as int) =~= stopped);
    assert(stopped.drop_last() =~= run.drop_last());
    assert(payload(stopped.last()) == payload(run.last()));
    assert(payload(stopped[0]) == payload(run[0]));
    assert(payloads(stopped) =~= run) by {
        assert forall|i: int| 0 <= i < run.len() implies payloads(stopped)[i] == run[i] by {
            assert(run[i] < 128);
        }
    }
}

/// A number below 128 to the power `k` takes at most `k` groups.
proof fn lemma_groups_len(n: nat, k: nat)
    requires
        k >= 1,
        n < radix(k),
    ensures
        groups(n).len() <= k,
    decreases k,
{
    if n >= 128 {
        assert(k >= 2) by {
            lemma_radix();
        }
        lemma_groups_len(n / 128, (k - 1) as nat);
    }
}

/// A signed number of `7 * k` bits takes at most `k` groups.
proof fn lemma_signed_groups_len(v: int, k: nat)
    requires
        k >= 1,
        -(64 * radix((k - 1) as nat)) <= v < 64 * radix((k - 1) as nat),
    ensures
        signed_groups(v).len() <= k,
    decreases k,
{
    if !(-64 <= v < 64) {
        assert(k >= 2) by {
            lemma_radix();
        }
        assert(radix((k - 1) as nat) == 128 * radix((k - 2) as nat));
        lemma_signed_groups_len(v / 128, (k - 1) as nat);
    }
}

/// The encoding of an integer of at most ten groups is read back.
proof fn lemma_uint_reads_back(before: Seq<u8>, n: nat, tail: Seq<u8>, max: int)
    requires
        n < radix(10),
        n <= max,
    ensures
        read_integer(before + uint_bytes(n) + tail, before.len(), false, 0, max) == (IntRead {
            result: Ok(n as int),
            offset: before.len() + uint_bytes(n).len(),
        }),
        1 <= uint_bytes(n).len() <= MAX_INT_ENCODED_LEN,
{
    lemma_groups(n);
    lemma_groups_len(n, 10);
    lemma_run_in_stream(before, groups(n), tail);
}

/// An unsigned integer is read back from its encoding, wherever it stands in
/// the stream; the encoding takes at most [`MAX_INT_ENCODED_LEN`] bytes, and
/// the reader then stands right behind it.
pub proof fn law_uint_reads_back(before: Seq<u8>, value: u64, tail: Seq<u8>)
    ensures
        read_uint(before + uint_bytes(value as nat) + tail, before.len()) == (IntRead {
            result: Ok(value as int),
            offset: before.len() + uint_bytes(value as nat).len(),
        }),
        1 <= uint_bytes(value as nat).len() <= MAX_INT_ENCODED_LEN,
{
    lemma_radix();
    lemma_uint_reads_back(before, value as nat, tail, u64::MAX as int);
}

/// A signed integer is read back from its encoding, sign included.
pub proof fn law_int_reads_back(before: Seq<u8>, value: i64, tail: Seq<u8>)
    ensures
        read_int(before + int_bytes(value as int) + tail, before.len()) == (IntRead {
            result: Ok(value as int),
            offset: before.len() + int_bytes(value as int).len(),
        }),
        1 <= int_bytes(value as int).len() <= MAX_INT_ENCODED_LEN,
{
    lemma_radix();
    lemma_signed_groups(value as int);
    lemma_signed_groups_len(value as int, 10);
    lemma_run_in_stream(before, signed_groups(value as int), tail);
}

/// A nullable unsigned integer is read back from its encoding, over the whole
/// range of `u64`, and NULL as NULL.
pub proof fn law_nullable_uint_reads_back(before: Seq<u8>, value: Option<u64>, tail: Seq<u8>)
    ensures
        read_nullable_uint(before + nullable_uint_bytes(value) + tail, before.len()) == (
        NullableRead {
            result: Ok(
                match value {
                    Some(n) => Some(n as int),
                    None => None,
                },
            ),
            offset: before.len() + nullable_uint_bytes(value).len(),
        }),
        1 <= nullable_uint_bytes(value).len() <= MAX_INT_ENCODED_LEN,
{
    lemma_radix();
    match value {
        Some(n) => {
            lemma_uint_reads_back(before, (n + 1) as nat, tail, u128::MAX as int);
        },
        None => {
            assert(uint_bytes(0) =~= null_bytes());
            lemma_uint_reads_back(before, 0, tail, u128::MAX as int);
        },
    }
}

/// A nullable signed integer that has an encoding is read back from it.
pub proof fn law_nullable_int_reads_back(before: Seq<u8>, value: Option<i64>, tail: Seq<u8>)
    requires
        value != Some(i64::MAX),
    ensures
        nullable_int_bytes(value) is Some,
        read_nullable_int(before + nullable_int_bytes(value)->0 + tail, before.len()) == (
        NullableRead {
            result: Ok(
                match value {
                    Some(v) => Some(v as int),
                    None => None,
                },
            ),
            offset: before.len() + nullable_int_bytes(value)->0.len(),
        }),
        1 <= nullable_int_bytes(value)->0.len() <= MAX_INT_ENCODED_LEN,
{
    match value {
        Some(v) => {
            if v < 0 {
                law_int_reads_back(before, v, tail);
            } else {
                law_int_reads_back(before, (v + 1) as i64, tail);
            }
        },
        None => {
            assert(int_bytes(0) =~= null_bytes());
            law_int_reads_back(before, 0, tail);
        },
    }
}

/// A string that has an encoding is read back from it.
pub proof fn law_ascii_reads_back(before: Seq<u8>, text: Seq<u8>, tail: Seq<u8>)
    requires
        ascii_bytes(text) is Some,
    ensures
        read_ascii(before + ascii_bytes(text)->0 + tail, before.len()) == (BytesRead {
            result: Ok(text),
            offset: before.len() + ascii_bytes(text)->0.len(),
        }),
{
    let encoded = ascii_bytes(text)->0;
    let data = before + encoded + tail;
    let rest = from_offset(data, before.len());
    assert(rest =~= encoded + tail);
    if text.len() == 0 {
        assert(rest[0] == STOP_BIT);
        assert(text =~= Seq::<u8>::empty());
    } else if text == seq![0u8] {
        assert(rest[0] == 0 && rest[1] == STOP_BIT);
    } else {
        lemma_run_in_stream(before, text, tail);
        assert(text[0] != 0 && text[0] < 128);
        if text.len() == 1 {
            assert(rest[0] == text[0] + STOP_BIT);
        } else {
            assert(rest[0] == text[0]);
        }
        assert(rest.take(text.len() as int) == with_stop(text));
    }
}

/// A nullable string that has an encoding is read back from it: NULL, the empty
/// string and the string of one NUL stay apart.
pub proof fn law_nullable_ascii_reads_back(
    before: Seq<u8>,
    value: Option<Seq<u8>>,
    tail: Seq<u8>,
)
    requires
        nullable_ascii_bytes(value) is Some,
    ensures
        read_nullable_ascii(before + nullable_ascii_bytes(value)->0 + tail, before.len()) == (
        NullableBytesRead {
            result: Ok(value),
            offset: before.len() + nullable_ascii_bytes(value)->0.len(),
        }),
{
    let encoded = nullable_ascii_bytes(value)->0;
    let data = before + encoded + tail;
    let rest = from_offset(data, before.len());
    assert(rest =~= encoded + tail);
    match value {
        None => {
            assert(rest[0] == STOP_BIT);
        },
        Some(text) => {
            if text.len() == 0 {
                assert(rest[0] == 0 && rest[1] == STOP_BIT);
                assert(text =~= Seq::<u8>::empty());
            } else if text == seq![0u8] {
                assert(rest[0] == 0 && rest[1] == 0 && rest[2] == STOP_BIT);
            } else {
                lemma_run_in_stream(before, text, tail);
                assert(text[0] != 0 && text[0] < 128);
                if text.len() == 1 {
                    assert(rest[0] == text[0] + STOP_BIT);
                } else {
                    assert(rest[0] == text[0]);
                }
                assert(rest.take(text.len() as int) == with_stop(text));
            }
        },
    }
}

/// A byte vector is read back from its encoding, whatever bytes it holds.
pub proof fn law_bytes_read_back(before: Seq<u8>, value: Seq<u8>, tail: Seq<u8>)
    requires
        value.len() <= u64::MAX,
    ensures
        read_bytes(before + (uint_bytes(value.len()) + value) + tail, before.len()) == (BytesRead {
            result: Ok(value),
            offset: before.len() + uint_bytes(value.len()).len() + value.len(),
        }),
{
    let prefix = uint_bytes(value.len());
    let data = before + (prefix + value) + tail;
    assert(data =~= before + prefix + (value + tail));
    law_uint_reads_back(before, value.len() as u64, value + tail);
    let start = (before.len() + prefix.len()) as int;
    assert(data.subrange(start, start + value.len()) =~= value);
}

/// A nullable byte vector is read back from its encoding, and NULL as NULL.
pub proof fn law_nullable_bytes_read_back(
    before: Seq<u8>,
    value: Option<Seq<u8>>,
    tail: Seq<u8>,
)
    requires
        value matches Some(bytes) ==> bytes.len() <= u64::MAX,
    ensures
        ({
            let encoded = match value {
                Some(bytes) => uint_bytes(bytes.len() + 1) + bytes,
                None => null_bytes(),
            };
            read_nullable_bytes(before + encoded + tail, before.len()) == (NullableBytesRead {
                result: Ok(value),
                offset: before.len() + encoded.len(),
            })
        }),
{
    match value {
        Some(bytes) => {
            let prefix = uint_bytes(bytes.len() + 1);
            let data = before + (prefix + bytes) + tail;
            assert(data =~= before + prefix + (bytes + tail));
            law_nullable_uint_reads_back(before, Some(bytes.len() as u64), bytes + tail);
            let start = (before.len() + prefix.len()) as int;
            assert(data.subrange(start, start + bytes.len()) =~= bytes);
        },
        None => {
            law_nullable_uint_reads_back(before, None, tail);
        },
    }
}

/// No encoding of an unsigned integer, of whatever range, is shorter than the
/// encoder's.
proof fn lemma_uint_shortest(data: Seq<u8>, offset: nat, max: int, value: int)
    requires
        read_integer(data, offset, false, 0, max).result == Ok::<_, FastError>(value),
    ensures
        uint_bytes(value as nat).len() <= read_integer(data, offset, false, 0, max).offset - offset,
{
    let rest = from_offset(data, offset);
    let at = stop_index(rest)->0;
    if exists|i: int| is_first_stop(rest, i) {
        assert(is_first_stop(rest, at));
    }
    let run = rest.take(at + 1);
    lemma_payload_bound(run);
    lemma_groups_len(value as nat, run.len());
    lemma_groups(value as nat);
}

/// No encoding of an unsigned integer is shorter than the encoder's.
pub proof fn law_uint_encoding_is_shortest(data: Seq<u8>, offset: nat, value: int)
    requires
        read_uint(data, offset).result == Ok::<_, FastError>(value),
    ensures
        uint_bytes(value as nat).len() <= read_uint(data, offset).offset - offset,
{
    lemma_uint_shortest(data, offset, u64::MAX as int, value);
}

/// No encoding of a nullable unsigned integer is shorter than the encoder's.
pub proof fn law_nullable_uint_encoding_is_shortest(
    data: Seq<u8>,
    offset: nat,
    value: Option<u64>,
)
    requires
        read_nullable_uint(data, offset).result == Ok::<_, FastError>(
            match value {
                Some(n) => Some(n as int),
                None => None,
            },
        ),
    ensures
        nullable_uint_bytes(value).len() <= read_nullable_uint(data, offset).offset - offset,
{
    let biased: int = match value {
        Some(n) => n + 1,
        None => 0,
    };
    assert(uint_bytes(0) =~= null_bytes());
    lemma_uint_shortest(data, offset, u128::MAX as int, biased);
}

/// The first group is worth the most.
proof fn lemma_leading_group(s: Seq<u8>)
    requires
        s.len() > 0,
    ensures
        ({
            let top = radix((s.len() - 1) as nat);
            payload(s[0]) * top <= payload_value(s) < (payload(s[0]) + 1) * top
        }),
    decreases s.len(),
{
    if s.len() == 1 {
        assert(s.drop_last() =~= Seq::<u8>::empty());
        assert(payload_value(s.drop_last()) == 0);
        lemma_radix();
    } else {
        let head = s.drop_last();
        lemma_leading_group(head);
        assert(head[0] == s[0]);
        let top = radix((head.len() - 1) as nat);
        let first = payload(s[0]) as int;
        assert(radix((s.len() - 1) as nat) == 128 * top);
        assert(first * (128 * top) == 128 * (first * top)) by (nonlinear_arith);
        assert((first + 1) * (128 * top) == 128 * ((first + 1) * top)) by (nonlinear_arith);
    }
}

/// No encoding of a signed integer is shorter than the encoder's.
pub proof fn law_int_encoding_is_shortest(data: Seq<u8>, offset: nat, value: int)
    requires
        read_int(data, offset).result == Ok::<_, FastError>(value),
    ensures
        int_bytes(value).len() <= read_int(data, offset).offset - offset,
{
    let rest = from_offset(data, offset);
    let at = stop_index(rest)->0;
    if exists|i: int| is_first_stop(rest, i) {
        assert(is_first_stop(rest, at));
    }
    let run = rest.take(at + 1);
    lemma_payload_bound(run);
    lemma_leading_group(run);
    let top = radix((run.len() - 1) as nat);
    let first = payload(run[0]) as int;
    assert(radix(run.len()) == 128 * top);
    assert(first >= 64 ==> first * top >= 64 * top) by (nonlinear_arith)
        requires
            top >= 0,
    ;
    assert(first < 64 ==> (first + 1) * top <= 64 * top) by (nonlinear_arith)
        requires
            top >= 0,
    ;
    lemma_signed_groups_len(value, run.len());
    lemma_signed_groups(value);
}

/// No encoding of a nullable signed integer is shorter than the encoder's.
pub proof fn law_nullable_int_encoding_is_shortest(data: Seq<u8>, offset: nat, value: Option<i64>)
    requires
        read_nullable_int(data, offset).result == Ok::<_, FastError>(
            match value {
                Some(v) => Some(v as int),
                None => None,
            },
        ),
    ensures
        nullable_int_bytes(value) matches Some(encoded) && encoded.len() <= read_nullable_int(
            data,
            offset,
        ).offset - offset,
{
    let raw: int = match value {
        Some(v) => if v < 0 {
            v as int
        } else {
            v + 1
        },
        None => 0,
    };
    assert(int_bytes(0) =~= null_bytes());
    law_int_encoding_is_shortest(data, offset, raw);
}

/// A run of characters that was read, and does not begin with a NUL, is written
/// as it stood in the stream.
proof fn lemma_run_is_canonical(rest: Seq<u8>, at: int)
    requires
        is_first_stop(rest, at),
        rest[0] != 0,
        rest[0] != STOP_BIT,
    ensures
        ({
            let text = payloads(rest.take(at + 1));
            &&& all_ascii(text)
            &&& text.len() == at + 1
            &&& text[0] != 0
            &&& with_stop(text) == rest.take(at + 1)
        }),
{
    let run = rest.take(at + 1);
    let text = payloads(run);
    assert forall|i: int| 0 <= i < at implies text[i] == run[i] by {
        assert(!is_stop(rest[i]));
    }
    assert(is_stop(rest[at]));
    assert(with_stop(text) =~= run);
}

/// A string has one encoding only: what was read stood in the stream as the
/// encoder writes it.
pub proof fn law_ascii_encoding_is_unique(data: Seq<u8>, offset: nat, text: Seq<u8>)
    requires
        read_ascii(data, offset).result == Ok::<_, FastError>(text),
    ensures
        ascii_bytes(text) == Some(
            data.subrange(offset as int, read_ascii(data, offset).offset as int),
        ),
{
    let rest = from_offset(data, offset);
    let consumed = data.subrange(offset as int, read_ascii(data, offset).offset as int);
    if rest[0] == STOP_BIT {
        assert(consumed =~= seq![STOP_BIT]);
    } else if rest[0] == 0 {
        assert(consumed =~= seq![0u8, STOP_BIT]);
    } else {
        let at = stop_index(rest)->0;
        assert(is_first_stop(rest, at));
        lemma_run_is_canonical(rest, at);
        assert(consumed =~= rest.take(at + 1));
    }
}

/// A nullable string has one encoding only: what was read stood in the stream as
/// the encoder writes it.
pub proof fn law_nullable_ascii_encoding_is_unique(
    data: Seq<u8>,
    offset: nat,
    value: Option<Seq<u8>>,
)
    requires
        read_nullable_ascii(data, offset).result == Ok::<_, FastError>(value),
    ensures
        nullable_ascii_bytes(value) == Some(
            data.subrange(offset as int, read_nullable_ascii(data, offset).offset as int),
        ),
{
    let rest = from_offset(data, offset);
    let consumed = data.subrange(offset as int, read_nullable_ascii(data, offset).offset as int);
    if rest[0] == STOP_BIT {
        assert(consumed =~= seq![STOP_BIT]);
    } else if rest[0] == 0 {
        if rest[1] == STOP_BIT {
            assert(consumed =~= seq![0u8, STOP_BIT]);
        } else {
            assert(consumed =~= seq![0u8, 0u8, STOP_BIT]);
        }
    } else {
        let at = stop_index(rest)->0;
        assert(is_first_stop(rest, at));
        lemma_run_is_canonical(rest, at);
        assert(consumed =~= rest.take(at + 1));
    }
}

/// No encoding of a byte vector is shorter than the encoder's.
pub proof fn law_bytes_encoding_is_shortest(data: Seq<u8>, offset: nat, value: Seq<u8>)
    requires
        read_bytes(data, offset).result == Ok::<_, FastError>(value),
    ensures
        uint_bytes(value.len()).len() + value.len() <= read_bytes(data, offset).offset - offset,
{
    let length = read_uint(data, offset).result->Ok_0;
    law_uint_encoding_is_shortest(data, offset, length);
}

/// No encoding of a nullable byte vector is shorter than the encoder's.
pub proof fn law_nullable_bytes_encoding_is_shortest(
    data: Seq<u8>,
    offset: nat,
    value: Option<Seq<u8>>,
)
    requires
        read_nullable_bytes(data, offset).result == Ok::<_, FastError>(value),
    ensures
        ({
            let encoded = match value {
                Some(bytes) => uint_bytes(bytes.len() + 1) + bytes,
                None => null_bytes(),
            };
            encoded.len() <= read_nullable_bytes(data, offset).offset - offset
        }),
{
    match value {
        Some(bytes) => {
            law_nullable_uint_encoding_is_shortest(data, offset, Some(bytes.len() as u64));
        },
        None => {
            law_nullable_uint_encoding_is_shortest(data, offset, None);
        },
    }
}

/// Reading an integer moves the reader forward by at most
/// [`MAX_INT_ENCODED_LEN`] bytes, and never past the data, whatever the data
/// holds.
pub proof fn law_integer_read_is_bounded(
    data: Seq<u8>,
    offset: nat,
    signed: bool,
    min: int,
    max: int,
)
    requires
        offset <= data.len(),
    ensures
        ({
            let read = read_integer(data, offset, signed, min, max);
            &&& offset <= read.offset <= data.len()
            &&& read.offset <= offset + MAX_INT_ENCODED_LEN
        }),
{
    let rest = from_offset(data, offset);
    if exists|at: int| is_first_stop(rest, at) {
        assert(is_first_stop(rest, stop_index(rest)->0));
    }
}

/// Reading a string or a byte vector moves the reader forward, and never past
/// the data, whatever length the data declares.
pub proof fn law_bytes_read_is_bounded(data: Seq<u8>, offset: nat)
    requires
        offset <= data.len(),
    ensures
        offset <= read_ascii(data, offset).offset <= data.len(),
        offset <= read_nullable_ascii(data, offset).offset <= data.len(),
        offset <= read_bytes(data, offset).offset <= data.len(),
        offset <= read_nullable_bytes(data, offset).offset <= data.len(),
{
    let rest = from_offset(data, offset);
    if exists|at: int| is_first_stop(rest, at) {
        assert(is_first_stop(rest, stop_index(rest)->0));
    }
    law_integer_read_is_bounded(data, offset, false, 0, u64::MAX as int);
    law_integer_read_is_bounded(data, offset, false, 0, u128::MAX as int);
}

/// Reading a presence map moves the reader forward by at most
/// [`MAX_PMAP_BYTES`] bytes, and never past the data.
pub proof fn law_pmap_read_is_bounded(data: Seq<u8>, offset: nat)
    requires
        offset <= data.len(),
    ensures
        offset <= read_pmap(data, offset).offset <= data.len(),
        read_pmap(data, offset).offset <= offset + MAX_PMAP_BYTES,
{
    let rest = from_offset(data, offset);
    if exists|at: int| is_first_stop(rest, at) {
        assert(is_first_stop(rest, stop_index(rest)->0));
    }
}

/// A field that is handed to the encoder, strings and byte vectors by their
/// bytes.
pub enum FastField {
    Uint(u64),
    Int(i64),
    NullableUint(Option<u64>),
    NullableInt(Option<i64>),
    Ascii(Seq<u8>),
    NullableAscii(Option<Seq<u8>>),
    Bytes(Seq<u8>),
    NullableBytes(Option<Seq<u8>>),
}

impl FastField {
    /// Whether the length of a byte vector can be written as a count.
    pub open spec fn is_countable(self) -> bool {
        match self {
            FastField::Bytes(bytes) => bytes.len() <= u64::MAX,
            FastField::NullableBytes(Some(bytes)) => bytes.len() <= u64::MAX,
            _ => true,
        }
    }

    /// The bytes that the encoder appends; `None` where it refuses the value.
    pub open spec fn encoding(self) -> Option<Seq<u8>> {
        match self {
            FastField::Uint(value) => Some(uint_bytes(value as nat)),
            FastField::Int(value) => Some(int_bytes(value as int)),
            FastField::NullableUint(value) => Some(nullable_uint_bytes(value)),
            FastField::NullableInt(value) => nullable_int_bytes(value),
            FastField::Ascii(text) => ascii_bytes(text),
            FastField::NullableAscii(value) => nullable_ascii_bytes(value),
            FastField::Bytes(bytes) => Some(uint_bytes(bytes.len()) + bytes),
            FastField::NullableBytes(Some(bytes)) => Some(uint_bytes(bytes.len() + 1) + bytes),
            FastField::NullableBytes(None) => Some(null_bytes()),
        }
    }

    /// Whether the matching read at `offset` gives the value back and leaves the
    /// reader at `next`.
    pub open spec fn is_read(self, data: Seq<u8>, offset: nat, next: nat) -> bool {
        match self {
            FastField::Uint(value) => read_uint(data, offset) == (IntRead {
                result: Ok(value as int),
                offset: next,
            }),
            FastField::Int(value) => read_int(data, offset) == (IntRead {
                result: Ok(value as int),
                offset: next,
            }),
            FastField::NullableUint(value) => read_nullable_uint(data, offset) == (NullableRead {
                result: Ok(
                    match value {
                        Some(n) => Some(n as int),
                        None => None,
                    },
                ),
                offset: next,
            }),
            FastField::NullableInt(value) => read_nullable_int(data, offset) == (NullableRead {
                result: Ok(
                    match value {
                        Some(n) => Some(n as int),
                        None => None,
                    },
                ),
                offset: next,
            }),
            FastField::Ascii(text) => read_ascii(data, offset) == (BytesRead {
                result: Ok(text),
                offset: next,
            }),
            FastField::NullableAscii(value) => read_nullable_ascii(data, offset) == (
            NullableBytesRead { result: Ok(value), offset: next }),
            FastField::Bytes(bytes) => read_bytes(data, offset) == (BytesRead {
                result: Ok(bytes),
                offset: next,
            }),
            FastField::NullableBytes(value) => read_nullable_bytes(data, offset) == (
            NullableBytesRead { result: Ok(value), offset: next }),
        }
    }

    /// The encoder after it was handed the field.
    pub open spec fn applied(self, encoder: FastEncoderView) -> FastEncoderView {
        match self.encoding() {
            Some(bytes) => encoder.append(bytes),
            None => encoder,
        }
    }
}

/// The encoder after it was handed the fields in order.
pub open spec fn encoder_after(
    encoder: FastEncoderView,
    fields: Seq<FastField>,
) -> FastEncoderView
    decreases fields.len(),
{
    if fields.len() == 0 {
        encoder
    } else {
        fields.last().applied(encoder_after(encoder, fields.drop_last()))
    }
}

/// The encodings of the fields that the encoder accepts, one after the other.
pub open spec fn written(fields: Seq<FastField>) -> Seq<u8>
    decreases fields.len(),
{
    if fields.len() == 0 {
        Seq::empty()
    } else {
        written(fields.drop_last()) + match fields.last().encoding() {
            Some(bytes) => bytes,
            None => Seq::empty(),
        }
    }
}

/// What an encoder holds is the encodings of the fields that it accepted, in
/// order and with nothing between them; a refused field leaves no trace, and
/// the dictionaries stay as they are.
pub proof fn law_encoder_holds_the_fields_in_order(
    encoder: FastEncoderView,
    fields: Seq<FastField>,
)
    ensures
        encoder_after(encoder, fields) == encoder.append(written(fields)),
        encoder.bytes.len() == 0 ==> encoder_after(encoder, fields).bytes == written(fields),
    decreases fields.len(),
{
    if fields.len() > 0 {
        law_encoder_holds_the_fields_in_order(encoder, fields.drop_last());
    }
    assert(encoder_after(encoder, fields) =~= encoder.append(written(fields)));
    if encoder.bytes.len() == 0 {
        assert(encoder.bytes + written(fields) =~= written(fields));
    }
}

/// What the first fields are written as comes first.
proof fn lemma_written_prefix(fields: Seq<FastField>, count: int)
    requires
        0 <= count <= fields.len(),
    ensures
        written(fields.take(count)).len() <= written(fields).len(),
        written(fields) == written(fields.take(count)) + written(fields).skip(
            written(fields.take(count)).len() as int,
        ),
    decreases fields.len(),
{
    if count == fields.len() {
        assert(fields.take(count) =~= fields);
        assert(written(fields).skip(written(fields).len() as int) =~= Seq::<u8>::empty());
    } else {
        let earlier = fields.drop_last();
        lemma_written_prefix(earlier, count);
        assert(earlier.take(count) =~= fields.take(count));
    }
    assert(written(fields) =~= written(fields.take(count)) + written(fields).skip(
        written(fields.take(count)).len() as int,
    ));
}

/// An accepted field is read back from its encoding, wherever it stands.
proof fn lemma_field_reads_back(before: Seq<u8>, field: FastField, tail: Seq<u8>)
    requires
        field.is_countable(),
        field.encoding() is Some,
    ensures
        field.is_read(
            before + field.encoding()->0 + tail,
            before.len(),
            before.len() + field.encoding()->0.len(),
        ),
{
    match field {
        FastField::Uint(value) => law_uint_reads_back(before, value, tail),
        FastField::Int(value) => law_int_reads_back(before, value, tail),
        FastField::NullableUint(value) => law_nullable_uint_reads_back(before, value, tail),
        FastField::NullableInt(value) => law_nullable_int_reads_back(before, value, tail),
        FastField::Ascii(text) => law_ascii_reads_back(before, text, tail),
        FastField::NullableAscii(value) => law_nullable_ascii_reads_back(before, value, tail),
        FastField::Bytes(bytes) => law_bytes_read_back(before, bytes, tail),
        FastField::NullableBytes(value) => law_nullable_bytes_read_back(before, value, tail),
    }
}

/// Fields that were encoded one after the other read back in the same order:
/// the first at the start of the buffer, each next one where the reader was left
/// by the one before it, and the last up to the end. Refused fields take no room
/// and are passed over.
pub proof fn law_fields_read_back_in_order(fields: Seq<FastField>)
    requires
        forall|i: int| 0 <= i < fields.len() ==> (#[trigger] fields[i]).is_countable(),
    ensures
        written(fields.take(0)).len() == 0,
        forall|i: int|
            0 <= i < fields.len() ==> if (#[trigger] fields[i]).encoding() is Some {
                fields[i].is_read(
                    written(fields),
                    written(fields.take(i)).len(),
                    written(fields.take(i + 1)).len(),
                )
            } else {
                written(fields.take(i + 1)).len() == written(fields.take(i)).len()
            },
        written(fields.take(fields.len() as int)) == written(fields),
{
    assert(fields.take(fields.len() as int) =~= fields);
    assert forall|i: int| 0 <= i < fields.len() implies if (
    #[trigger] fields[i]).encoding() is Some {
        fields[i].is_read(
            written(fields),
            written(fields.take(i)).len(),
            written(fields.take(i + 1)).len(),
        )
    } else {
        written(fields.take(i + 1)).len() == written(fields.take(i)).len()
    } by {
        let next = fields.take(i + 1);
        assert(next.drop_last() =~= fields.take(i));
        assert(next.last() == fields[i]);
        if let Some(bytes) = fields[i].encoding() {
            lemma_written_prefix(fields, i + 1);
            let before = written(fields.take(i));
            let tail = written(fields).skip(written(next).len() as int);
            assert(written(fields) == before + bytes + tail);
            lemma_field_reads_back(before, fields[i], tail);
        }
    }
}

/// The binary digits of a number below 256, from its sum of powers of two.
proof fn lemma_binary_digits(
    stop: int,
    b0: int,
    b1: int,
    b2: int,
    b3: int,
    b4: int,
    b5: int,
    b6: int,
)
    requires
        0 <= stop <= 1,
        0 <= b0 <= 1,
        0 <= b1 <= 1,
        0 <= b2 <= 1,
        0 <= b3 <= 1,
        0 <= b4 <= 1,
        0 <= b5 <= 1,
        0 <= b6 <= 1,
    ensures
        ({
            let v = 128 * stop + 64 * b0 + 32 * b1 + 16 * b2 + 8 * b3 + 4 * b4 + 2 * b5 + b6;
            &&& (v / 64) % 2 == b0
            &&& (v / 32) % 2 == b1
            &&& (v / 16) % 2 == b2
            &&& (v / 8) % 2 == b3
            &&& (v / 4) % 2 == b4
            &&& (v / 2) % 2 == b5
            &&& (v / 1) % 2 == b6
        }),
{
    let v = 128 * stop + 64 * b0 + 32 * b1 + 16 * b2 + 8 * b3 + 4 * b4 + 2 * b5 + b6;
    let q2 = 64 * stop + 32 * b0 + 16 * b1 + 8 * b2 + 4 * b3 + 2 * b4 + b5;
    let q4 = 32 * stop + 16 * b0 + 8 * b1 + 4 * b2 + 2 * b3 + b4;
    let q8 = 16 * stop + 8 * b0 + 4 * b1 + 2 * b2 + b3;
    let q16 = 8 * stop + 4 * b0 + 2 * b1 + b2;
    let q32 = 4 * stop + 2 * b0 + b1;
    let q64 = 2 * stop + b0;
    assert(v / 2 == q2);
    assert(v / 4 == q4);
    assert(v / 8 == q8);
    assert(v / 16 == q16);
    assert(v / 32 == q32);
    assert(v / 64 == q64);
}

/// A bit as a number.
spec fn as_digit(bit: bool) -> int {
    if bit {
        1
    } else {
        0
    }
}

/// A byte carries the bits that it was made of, with or without a stop bit.
pub proof fn lemma_byte_carries_bits(bits: Seq<bool>, k: int, i: int)
    requires
        0 <= i < 7,
    ensures
        byte_bit(byte_of(bits, k), i) == bit_or_clear(bits, 7 * k + i),
        byte_bit((byte_of(bits, k) + STOP_BIT) as u8, i) == bit_or_clear(bits, 7 * k + i),
{
    let b0 = as_digit(bit_or_clear(bits, 7 * k));
    let b1 = as_digit(bit_or_clear(bits, 7 * k + 1));
    let b2 = as_digit(bit_or_clear(bits, 7 * k + 2));
    let b3 = as_digit(bit_or_clear(bits, 7 * k + 3));
    let b4 = as_digit(bit_or_clear(bits, 7 * k + 4));
    let b5 = as_digit(bit_or_clear(bits, 7 * k + 5));
    let b6 = as_digit(bit_or_clear(bits, 7 * k + 6));
    let v = 64 * b0 + 32 * b1 + 16 * b2 + 8 * b3 + 4 * b4 + 2 * b5 + b6;
    assert(byte_of(bits, k) == v);
    lemma_binary_digits(0, b0, b1, b2, b3, b4, b5, b6);
    lemma_binary_digits(1, b0, b1, b2, b3, b4, b5, b6);
    assert((byte_of(bits, k) + STOP_BIT) as u8 == 128 + v);
    assert(i == 0 || i == 1 || i == 2 || i == 3 || i == 4 || i == 5 || i == 6);
}

/// A byte with a set bit is not zero.
proof fn lemma_set_bit(bits: Seq<bool>, k: int, i: int)
    requires
        0 <= i < 7,
        bit_or_clear(bits, 7 * k + i),
    ensures
        byte_of(bits, k) != 0,
{
    lemma_byte_carries_bits(bits, k, i);
}

/// A byte that is not zero has a set bit.
proof fn lemma_nonzero_byte(bits: Seq<bool>, k: int) -> (i: int)
    requires
        byte_of(bits, k) != 0,
    ensures
        0 <= i < 7,
        bit_or_clear(bits, 7 * k + i),
{
    if bit_or_clear(bits, 7 * k) {
        0
    } else if bit_or_clear(bits, 7 * k + 1) {
        1
    } else if bit_or_clear(bits, 7 * k + 2) {
        2
    } else if bit_or_clear(bits, 7 * k + 3) {
        3
    } else if bit_or_clear(bits, 7 * k + 4) {
        4
    } else if bit_or_clear(bits, 7 * k + 5) {
        5
    } else {
        6
    }
}

/// The bytes that are dropped are zero, and the last one that is kept is not,
/// unless it is the only one.
pub proof fn lemma_used_bytes(bits: Seq<bool>, n: nat)
    ensures
        1 <= used_bytes(bits, n),
        n >= 1 ==> used_bytes(bits, n) <= n,
        forall|k: int| used_bytes(bits, n) <= k < n ==> #[trigger] byte_of(bits, k) == 0,
        used_bytes(bits, n) > 1 ==> byte_of(bits, used_bytes(bits, n) - 1) != 0,
    decreases n,
{
    if n > 1 && byte_of(bits, n - 1) == 0 {
        lemma_used_bytes(bits, (n - 1) as nat);
    }
}

/// The bits past the bytes that are kept are clear.
pub proof fn lemma_rest_is_clear(bits: Seq<bool>, i: int)
    requires
        7 * used_bytes(bits, bytes_for(bits.len())) <= i,
    ensures
        !bit_or_clear(bits, i),
{
    let n = bytes_for(bits.len());
    lemma_used_bytes(bits, n);
    if i < bits.len() {
        let k = i / 7;
        assert(used_bytes(bits, n) <= k < n);
        assert(byte_of(bits, k) == 0);
        if bit_or_clear(bits, i) {
            assert(7 * k + i % 7 == i);
            lemma_set_bit(bits, k, i % 7);
        }
    }
}

/// A presence map is read back from its encoding: every bit of the map has its
/// value, and every bit past the end of what was read is clear. The encoding
/// never exceeds [`MAX_PMAP_BYTES`] bytes.
pub proof fn law_pmap_reads_back(before: Seq<u8>, bits: Seq<bool>, tail: Seq<u8>)
    requires
        bytes_for(bits.len()) <= MAX_PMAP_BYTES,
    ensures
        ({
            let read = read_pmap(before + pmap_bytes(bits) + tail, before.len());
            &&& read.result matches Ok(decoded)
            &&& read.offset == before.len() + pmap_bytes(bits).len()
            &&& forall|i: int| #[trigger] bit_or_clear(decoded, i) == bit_or_clear(bits, i)
        }),
        1 <= pmap_bytes(bits).len() <= MAX_PMAP_BYTES,
{
    let n = used_bytes(bits, bytes_for(bits.len()));
    let encoded = pmap_bytes(bits);
    let run = Seq::new(n, |k: int| byte_of(bits, k));
    lemma_used_bytes(bits, bytes_for(bits.len()));
    assert(all_ascii(run)) by {
        assert forall|k: int| 0 <= k < run.len() implies #[trigger] run[k] < 128 by {
            lemma_byte_of_bound(bits, k);
        }
    }
    assert(encoded =~= with_stop(run));
    lemma_run_in_stream(before, run, tail);
    let decoded = bits_of(encoded);
    assert forall|i: int| #[trigger] bit_or_clear(decoded, i) == bit_or_clear(bits, i) by {
        if 0 <= i < decoded.len() {
            lemma_byte_carries_bits(bits, i / 7, i % 7);
            assert(7 * (i / 7) + i % 7 == i);
        } else if i >= decoded.len() {
            lemma_rest_is_clear(bits, i);
        }
    }
}

/// No encoding of a presence map is shorter than the encoder's.
pub proof fn law_pmap_encoding_is_shortest(
    data: Seq<u8>,
    offset: nat,
    decoded: Seq<bool>,
    bits: Seq<bool>,
)
    requires
        read_pmap(data, offset).result == Ok::<_, FastError>(decoded),
        forall|i: int| #[trigger] bit_or_clear(decoded, i) == bit_or_clear(bits, i),
    ensures
        pmap_bytes(bits).len() <= read_pmap(data, offset).offset - offset,
{
    let rest = from_offset(data, offset);
    let at = stop_index(rest)->0;
    if exists|i: int| is_first_stop(rest, i) {
        assert(is_first_stop(rest, at));
    }
    let n = used_bytes(bits, bytes_for(bits.len()));
    lemma_used_bytes(bits, bytes_for(bits.len()));
    if n > 1 {
        let i = lemma_nonzero_byte(bits, n - 1);
        assert(bit_or_clear(decoded, 7 * (n - 1) + i));
        assert(decoded.len() == 7 * (at + 1));
    }
}

/// The bit that comes `j` places behind the next one, clear past the end.
pub open spec fn bit_ahead(map: PresenceMapView, j: nat) -> bool {
    bit_or_clear(map.bits, (map.position + j) as int)
}

/// Whether two maps give the same answer to every field that is still to come.
pub open spec fn agree_from_here(first: PresenceMapView, second: PresenceMapView) -> bool {
    forall|j: nat| #[trigger] bit_ahead(first, j) == bit_ahead(second, j)
}

/// Where the value of a field comes from, the map standing at its bit if it
/// owns one.
pub open spec fn field_transfer(
    map: PresenceMapView,
    operator: Operator,
    optional: bool,
) -> FieldTransfer {
    if owns_bit(operator, optional) {
        transfer_of(operator, Some(bit_or_clear(map.bits, map.position as int)))
    } else {
        transfer_of(operator, None)
    }
}

/// The map behind a field.
pub open spec fn after_field(
    map: PresenceMapView,
    operator: Operator,
    optional: bool,
) -> PresenceMapView {
    if owns_bit(operator, optional) {
        after_bit(map)
    } else {
        map
    }
}

/// Where the values of a template's fields come from, in order.
pub open spec fn template_transfers(
    map: PresenceMapView,
    fields: Seq<(Operator, bool)>,
) -> Seq<FieldTransfer>
    decreases fields.len(),
{
    if fields.len() == 0 {
        Seq::empty()
    } else {
        let (operator, optional) = fields[0];
        seq![field_transfer(map, operator, optional)] + template_transfers(
            after_field(map, operator, optional),
            fields.skip(1),
        )
    }
}

/// A field advances the map by one bit exactly where it owns one and the map
/// still holds one.
pub proof fn law_field_owns_at_most_one_bit(
    map: PresenceMapView,
    operator: Operator,
    optional: bool,
)
    requires
        map.position <= map.bits.len(),
    ensures
        ({
            let next = after_field(map, operator, optional);
            &&& next.bits == map.bits
            &&& map.position <= next.position <= map.bits.len()
            &&& next.position == if owns_bit(operator, optional) && map.position
                < map.bits.len() {
                map.position + 1
            } else {
                map.position
            }
        }),
{
}

/// A map that ends early is as good as one that is padded with clear bits: two
/// maps that agree send the values of every template the same way.
pub proof fn law_map_has_an_implied_zero_suffix(
    first: PresenceMapView,
    second: PresenceMapView,
    fields: Seq<(Operator, bool)>,
)
    requires
        agree_from_here(first, second),
    ensures
        template_transfers(first, fields) == template_transfers(second, fields),
    decreases fields.len(),
{
    if fields.len() > 0 {
        let (operator, optional) = fields[0];
        assert(bit_ahead(first, 0) == bit_ahead(second, 0));
        let a = after_field(first, operator, optional);
        let b = after_field(second, operator, optional);
        assert forall|j: nat| #[trigger] bit_ahead(a, j) == bit_ahead(b, j) by {
            assert(bit_ahead(first, j) == bit_ahead(second, j));
            assert(bit_ahead(first, j + 1) == bit_ahead(second, j + 1));
        }
        law_map_has_an_implied_zero_suffix(a, b, fields.skip(1));
    }
}

/// A presence map that was encoded and read back sends the values of every
/// template as the map that was encoded does.
pub proof fn law_encoded_map_keeps_fields_aligned(
    before: Seq<u8>,
    bits: Seq<bool>,
    tail: Seq<u8>,
    fields: Seq<(Operator, bool)>,
)
    requires
        bytes_for(bits.len()) <= MAX_PMAP_BYTES,
    ensures
        read_pmap(before + pmap_bytes(bits) + tail, before.len()).result matches Ok(decoded)
            && template_transfers((PresenceMapView { bits: decoded, position: 0 }), fields)
            == template_transfers((PresenceMapView { bits, position: 0 }), fields),
{
    law_pmap_reads_back(before, bits, tail);
    let decoded = read_pmap(before + pmap_bytes(bits) + tail, before.len()).result->Ok_0;
    law_map_has_an_implied_zero_suffix(
        PresenceMapView { bits: decoded, position: 0 },
        PresenceMapView { bits, position: 0 },
        fields,
    );
}

} // verus!

//! What the encodings are, byte by byte and bit by bit.

use crate::fast::decoder::{lookup, FastDecoderView};
use crate::fast::encoder::FastEncoderView;
use crate::fast::error::FastError;
use crate::fast::laws::{lemma_byte_carries_bits, lemma_rest_is_clear, lemma_used_bytes};
use crate::fast::operators::{
    after_bit, always_transferred, bytes_of, integer_of, keeps_state, owns_bit, transfer_of,
    DictionaryValue, Operator,
};
use crate::fast::pmap::{
    bit_or_clear, bits_of, byte_bit, bytes_for, lemma_byte_of_bound, pmap_bytes, read_pmap, used_bytes,
    PresenceMapView,
};
use crate::fast::stopbit::{
    all_ascii, ascii_bytes, from_offset, is_first_stop, is_stop, lemma_first_stop, lemma_no_stop,
    lemma_payload_bound, lemma_radix, lemma_radix_monotone, nullable_ascii_bytes, payload,
    payload_value, radix, read_ascii, read_bytes, read_int, read_nullable_ascii,
    read_nullable_bytes, read_nullable_int, read_nullable_uint, read_uint, signed_value, stop_index,
    IntRead,
};
use vstd::prelude::*;

verus! {

/// The payload bits of a byte, told by shifting.
proof fn lemma_byte_bit_is_shifted(byte: u8, i: int)
    requires
        0 <= i < 7,
    ensures
        byte_bit(byte, i) == ((byte >> ((6 - i) as u8)) & 1u8 == 1u8),
{
    assert((byte / 64) % 2 == 1 <==> (byte >> 6u8) & 1u8 == 1u8) by (bit_vector);
    assert((byte / 32) % 2 == 1 <==> (byte >> 5u8) & 1u8 == 1u8) by (bit_vector);
    assert((byte / 16) % 2 == 1 <==> (byte >> 4u8) & 1u8 == 1u8) by (bit_vector);
    assert((byte / 8) % 2 == 1 <==> (byte >> 3u8) & 1u8 == 1u8) by (bit_vector);
    assert((byte / 4) % 2 == 1 <==> (byte >> 2u8) & 1u8 == 1u8) by (bit_vector);
    assert((byte / 2) % 2 == 1 <==> (byte >> 1u8) & 1u8 == 1u8) by (bit_vector);
    assert((byte / 1) % 2 == 1 <==> (byte >> 0u8) & 1u8 == 1u8) by (bit_vector);
}

/// The bits of a map stand in wire order: seven to a byte, the most significant
/// one behind the stop bit first.
pub proof fn law_map_bits_stand_in_wire_order(bytes: Seq<u8>, k: int, i: int)
    requires
        0 <= k < bytes.len(),
        0 <= i < 7,
    ensures
        bits_of(bytes).len() == 7 * bytes.len(),
        bits_of(bytes)[7 * k + i] == ((bytes[k] >> ((6 - i) as u8)) & 1u8 == 1u8),
{
    lemma_byte_bit_is_shifted(bytes[k], i);
    assert((7 * k + i) / 7 == k && (7 * k + i) % 7 == i);
}

/// Whether the value at `offset` takes `n` bytes: a stop bit on the last one, and
/// on none before it.
pub open spec fn is_run(data: Seq<u8>, offset: nat, n: nat) -> bool {
    &&& 1 <= n
    &&& offset + n <= data.len()
    &&& data[offset + n - 1] >= 0x80
    &&& forall|j: int| 0 <= j < n - 1 ==> #[trigger] data[offset + j] < 0x80
}

/// A run ends at the first stop bit.
proof fn lemma_run(data: Seq<u8>, offset: nat, n: nat)
    requires
        is_run(data, offset, n),
    ensures
        stop_index(from_offset(data, offset)) == Some(n - 1),
        from_offset(data, offset).take(n as int) == data.subrange(
            offset as int,
            (offset + n) as int,
        ),
{
    let rest = from_offset(data, offset);
    assert forall|j: int| 0 <= j < n - 1 implies !is_stop(#[trigger] rest[j]) by {
        assert(rest[j] == data[offset + j]);
    }
    assert(is_first_stop(rest, n - 1));
    lemma_first_stop(rest, n - 1);
    assert(rest.take(n as int) =~= data.subrange(offset as int, (offset + n) as int));
}

/// Where the first `n` bytes carry no stop bit, none comes before them.
proof fn lemma_no_early_stop(data: Seq<u8>, offset: nat, n: nat)
    requires
        offset + n <= data.len(),
        forall|j: int| 0 <= j < n ==> #[trigger] data[offset + j] < 0x80,
    ensures
        stop_index(from_offset(data, offset)) matches Some(at) ==> at >= n,
{
    let rest = from_offset(data, offset);
    if let Some(at) = stop_index(rest) {
        assert(is_first_stop(rest, at));
        if at < n {
            assert(rest[at] == data[offset + at]);
        }
    }
}

/// A map of up to 64 bytes is read bit by bit, each byte giving seven bits, the
/// most significant one behind the stop bit first.
pub proof fn law_map_is_read_bit_by_bit(data: Seq<u8>, offset: nat, n: nat)
    requires
        is_run(data, offset, n),
        n <= 64,
    ensures
        ({
            let read = read_pmap(data, offset);
            &&& read.offset == offset + n
            &&& read.result matches Ok(bits)
            &&& bits.len() == 7 * n
            &&& forall|k: int, i: int|
                0 <= k < n && 0 <= i < 7 ==> #[trigger] bits[7 * k + i] == ((data[offset + k] >> ((6
                    - i) as u8)) & 1u8 == 1u8)
        }),
{
    lemma_run(data, offset, n);
    let run = data.subrange(offset as int, (offset + n) as int);
    let bits = bits_of(run);
    assert forall|k: int, i: int| 0 <= k < n && 0 <= i < 7 implies #[trigger] bits[7 * k + i] == ((
    data[offset + k] >> ((6 - i) as u8)) & 1u8 == 1u8) by {
        law_map_bits_stand_in_wire_order(run, k, i);
        assert(run[k] == data[offset + k]);
    }
}

/// A map that does not end within 64 bytes is refused, and so is one that ends
/// with the data before its stop bit.
pub proof fn law_unfinished_map_is_refused(data: Seq<u8>, offset: nat, n: nat)
    requires
        offset + n <= data.len(),
        forall|j: int| 0 <= j < n ==> #[trigger] data[offset + j] < 0x80,
    ensures
        n == 64 ==> read_pmap(data, offset).result == Err::<Seq<bool>, _>(
            FastError::PresenceMapTooLarge { max_bytes: 64 },
        ) && read_pmap(data, offset).offset == offset + 64,
        n < 64 && offset + n == data.len() ==> read_pmap(data, offset).result
            == Err::<Seq<bool>, _>(FastError::UnexpectedEof) && read_pmap(data, offset).offset
            == data.len(),
{
    lemma_no_early_stop(data, offset, n);
    if offset + n == data.len() {
        let rest = from_offset(data, offset);
        assert forall|j: int| 0 <= j < rest.len() implies !is_stop(#[trigger] rest[j]) by {
            assert(rest[j] == data[offset + j]);
        }
        lemma_no_stop(rest);
    }
}

/// A map is written bit by bit, seven bits to a byte, the most significant one
/// behind the stop bit first; the last byte carries the stop bit, the bits that
/// are not written are clear, and no byte more is written than that takes.
pub proof fn law_map_is_written_bit_by_bit(bits: Seq<bool>)
    ensures
        ({
            let bytes = pmap_bytes(bits);
            &&& bytes.len() >= 1
            &&& forall|k: int|
                0 <= k < bytes.len() ==> (#[trigger] bytes[k] >= 0x80 <==> k == bytes.len() - 1)
            &&& forall|k: int, i: int|
                0 <= k < bytes.len() && 0 <= i < 7 ==> ((#[trigger] (bytes[k] >> ((6 - i) as u8)))
                    & 1u8 == 1u8) == (7 * k + i < bits.len() && bits[7 * k + i])
            &&& forall|j: int| 7 * bytes.len() <= j < bits.len() ==> !#[trigger] bits[j]
            &&& bytes.len() > 1 ==> bytes.last() != 0x80
        }),
{
    let bytes = pmap_bytes(bits);
    let n = used_bytes(bits, bytes_for(bits.len()));
    lemma_used_bytes(bits, bytes_for(bits.len()));
    assert forall|k: int| 0 <= k < bytes.len() implies (#[trigger] bytes[k] >= 0x80 <==> k
        == bytes.len() - 1) by {
        lemma_byte_of_bound(bits, k);
    }
    assert forall|k: int, i: int| 0 <= k < bytes.len() && 0 <= i < 7 implies ((#[trigger] (bytes[k]
        >> ((6 - i) as u8))) & 1u8 == 1u8) == (7 * k + i < bits.len() && bits[7 * k + i]) by {
        lemma_byte_carries_bits(bits, k, i);
        lemma_byte_bit_is_shifted(bytes[k], i);
    }
    assert forall|j: int| 7 * bytes.len() <= j < bits.len() implies !#[trigger] bits[j] by {
        lemma_rest_is_clear(bits, j);
    }
    if bytes.len() > 1 {
        lemma_byte_of_bound(bits, n - 1);
    }
}

/// A map is refused on the way out where it has more than 448 bits, and only
/// there.
pub proof fn law_map_holds_up_to_448_bits(count: nat)
    ensures
        bytes_for(count) <= 64 <==> count <= 448,
        7 * (bytes_for(count) - 1) < count <= 7 * bytes_for(count) || count == bytes_for(count)
            == 0,
{
}

/// The bytes before the last one of a run, with the stop bit moved to their
/// last.
pub open spec fn shortened(head: Seq<u8>) -> Seq<u8> {
    head.drop_last().push((head.last() + 0x80) as u8)
}

/// What the payload bits of a run denote, from what those of the run without
/// its last byte denote.
proof fn lemma_one_more_group(head: Seq<u8>, last: u8)
    requires
        forall|j: int| 0 <= j < head.len() ==> #[trigger] head[j] < 0x80,
        last >= 0x80,
    ensures
        head.len() == 0 ==> payload_value(head.push(last)) == last - 0x80,
        head.len() == 0 ==> signed_value(head.push(last)) == (if last < 0xc0 {
            last - 0x80
        } else {
            last - 0x100
        }),
        head.len() > 0 ==> payload_value(head.push(last)) == 128 * payload_value(shortened(head)) + (
        last - 0x80),
        head.len() > 0 ==> signed_value(head.push(last)) == 128 * signed_value(shortened(head)) + (
        last - 0x80),
        head.len() > 0 ==> is_run(shortened(head), 0, head.len()),
{
    let run = head.push(last);
    assert(run.drop_last() =~= head);
    lemma_radix();
    if head.len() == 0 {
        assert(payload_value(head) == 0);
        assert(run[0] == last);
    } else {
        let shorter = shortened(head);
        assert(shorter.drop_last() =~= head.drop_last());
        assert(head.last() < 0x80) by {
            assert(head[head.len() - 1] < 0x80);
        }
        assert(payload(shorter.last()) == payload(head.last()));
        assert(payload_value(shorter) == payload_value(head));
        assert(payload(run[0]) == payload(head[0]));
        assert(payload(shorter[0]) == payload(head[0]));
        assert(radix(run.len()) == 128 * radix(head.len()));
        assert forall|j: int| 0 <= j < head.len() - 1 implies #[trigger] shorter[0 + j] < 0x80 by {
            assert(shorter[j] == head[j]);
        }
    }
}

/// An unsigned integer is read most significant group first, seven bits to a
/// byte: one more byte makes it 128 times as large, and adds its seven bits. It
/// is refused where it is too large for 64 bits, and only there. What stands
/// around it plays no part.
pub proof fn law_uint_is_read_most_significant_first(
    before: Seq<u8>,
    head: Seq<u8>,
    last: u8,
    tail: Seq<u8>,
)
    requires
        head.len() <= 9,
        forall|j: int| 0 <= j < head.len() ==> #[trigger] head[j] < 0x80,
        last >= 0x80,
    ensures
        ({
            let read = read_uint(before + head.push(last) + tail, before.len());
            &&& read.offset == before.len() + head.len() + 1
            &&& head.len() == 0 ==> read.result == Ok::<int, FastError>(last - 0x80)
            &&& head.len() > 0 ==> match read_uint(shortened(head), 0).result {
                Ok(v) => read.result == if 128 * v + (last - 0x80) <= u64::MAX {
                    Ok::<int, FastError>(128 * v + (last - 0x80))
                } else {
                    Err(FastError::IntegerOverflow)
                },
                Err(_) => read.result == Err::<int, FastError>(FastError::IntegerOverflow),
            }
        }),
{
    lemma_run_around(before, head, last, tail);
    lemma_one_more_group(head, last);
    if head.len() > 0 {
        lemma_run(shortened(head), 0, head.len());
        assert(shortened(head).subrange(0, head.len() as int) =~= shortened(head));
    }
}

/// A run, wherever it stands.
proof fn lemma_run_around(before: Seq<u8>, head: Seq<u8>, last: u8, tail: Seq<u8>)
    requires
        forall|j: int| 0 <= j < head.len() ==> #[trigger] head[j] < 0x80,
        last >= 0x80,
    ensures
        ({
            let data = before + head.push(last) + tail;
            let rest = from_offset(data, before.len());
            &&& stop_index(rest) == Some(head.len() as int)
            &&& rest.take(head.len() as int + 1) == head.push(last)
        }),
{
    let data = before + head.push(last) + tail;
    assert forall|j: int| 0 <= j < head.len() implies #[trigger] data[before.len() + j] < 0x80 by {
        assert(data[before.len() + j] == head[j]);
    }
    assert(is_run(data, before.len(), head.len() + 1));
    lemma_run(data, before.len(), head.len() + 1);
    assert(data.subrange(before.len() as int, (before.len() + head.len() + 1) as int) =~= head.push(last));
}

/// A signed integer is read most significant group first, in two's complement of
/// its own width: one byte is a number from -64 to 63, and one more byte makes
/// it 128 times as large, and adds its seven bits. It is refused where it is out
/// of the range of 64 bits, and only there.
pub proof fn law_int_is_read_most_significant_first(
    before: Seq<u8>,
    head: Seq<u8>,
    last: u8,
    tail: Seq<u8>,
)
    requires
        head.len() <= 9,
        forall|j: int| 0 <= j < head.len() ==> #[trigger] head[j] < 0x80,
        last >= 0x80,
    ensures
        ({
            let read = read_int(before + head.push(last) + tail, before.len());
            &&& read.offset == before.len() + head.len() + 1
            &&& head.len() == 0 ==> read.result == Ok::<int, FastError>(
                if last < 0xc0 {
                    last - 0x80
                } else {
                    last - 0x100
                },
            )
            &&& head.len() > 0 ==> match read_int(shortened(head), 0).result {
                Ok(v) => read.result == if i64::MIN <= 128 * v + (last - 0x80) <= i64::MAX {
                    Ok::<int, FastError>(128 * v + (last - 0x80))
                } else {
                    Err(FastError::IntegerOverflow)
                },
                Err(_) => read.result == Err::<int, FastError>(FastError::IntegerOverflow),
            }
        }),
{
    lemma_run_around(before, head, last, tail);
    lemma_one_more_group(head, last);
    if head.len() > 0 {
        lemma_run(shortened(head), 0, head.len());
        assert(shortened(head).subrange(0, head.len() as int) =~= shortened(head));
    }
}

/// An integer that does not end within ten bytes is refused, and so is one that
/// ends with the data before its stop bit.
pub proof fn law_unfinished_integer_is_refused(data: Seq<u8>, offset: nat, n: nat)
    requires
        offset + n <= data.len(),
        forall|j: int| 0 <= j < n ==> #[trigger] data[offset + j] < 0x80,
    ensures
        n == 10 ==> read_uint(data, offset) == (IntRead {
            result: Err(FastError::IntegerOverflow),
            offset: offset + 10,
        }) && read_int(data, offset) == (IntRead {
            result: Err(FastError::IntegerOverflow),
            offset: offset + 10,
        }),
        n < 10 && offset + n == data.len() ==> read_uint(data, offset) == (IntRead {
            result: Err(FastError::UnexpectedEof),
            offset: data.len(),
        }) && read_int(data, offset) == (IntRead {
            result: Err(FastError::UnexpectedEof),
            offset: data.len(),
        }),
{
    lemma_no_early_stop(data, offset, n);
    if offset + n == data.len() {
        let rest = from_offset(data, offset);
        assert forall|j: int| 0 <= j < rest.len() implies !is_stop(#[trigger] rest[j]) by {
            assert(rest[j] == data[offset + j]);
        }
        lemma_no_stop(rest);
    }
}

/// A nullable unsigned integer counts from one: 0 is NULL, and any other number
/// stands for the one before it.
pub proof fn law_nullable_uint_counts_from_one(data: Seq<u8>, offset: nat, n: int)
    requires
        read_uint(data, offset).result == Ok::<int, FastError>(n),
    ensures
        read_nullable_uint(data, offset).result == Ok::<Option<int>, FastError>(
            if n == 0 {
                None
            } else {
                Some(n - 1)
            },
        ),
        read_nullable_uint(data, offset).offset == read_uint(data, offset).offset,
{
}

/// A nullable unsigned integer goes one number beyond 64 bits on the wire, so
/// that every 64-bit number has a form, and no further.
pub proof fn law_nullable_uint_goes_one_further(data: Seq<u8>, offset: nat)
    ensures
        read_nullable_uint(data, offset).result matches Ok(Some(n)) ==> 0 <= n <= u64::MAX,
        read_uint(data, offset).result is Err ==> match read_nullable_uint(data, offset).result {
            Ok(value) => value == Some(u64::MAX as int),
            Err(e) => read_uint(data, offset).result == Err::<int, FastError>(e),
        },
        read_nullable_uint(data, offset).offset == read_uint(data, offset).offset,
{
    let rest = from_offset(data, offset);
    if let Some(at) = stop_index(rest) {
        if at < 10 {
            lemma_payload_bound(rest.take(at + 1));
            lemma_radix();
            lemma_radix_monotone((at + 1) as nat, 10);
        }
    }
}

/// A nullable signed integer makes room for NULL at 0 by moving the numbers that
/// are not negative up by one.
pub proof fn law_nullable_int_makes_room_for_null(data: Seq<u8>, offset: nat)
    ensures
        match read_int(data, offset).result {
            Ok(n) => read_nullable_int(data, offset).result == Ok::<Option<int>, FastError>(
                if n == 0 {
                    None
                } else if n > 0 {
                    Some(n - 1)
                } else {
                    Some(n)
                },
            ),
            Err(e) => read_nullable_int(data, offset).result == Err::<Option<int>, FastError>(e),
        },
        read_nullable_int(data, offset).offset == read_int(data, offset).offset,
{
}

/// Whether a string of these bytes can be written: it is ASCII, and does not
/// begin with NUL unless it is NUL alone.
pub open spec fn can_be_written(text: Seq<u8>) -> bool {
    &&& forall|i: int| 0 <= i < text.len() ==> #[trigger] text[i] < 0x80
    &&& text.len() > 1 ==> text[0] != 0
}

/// Whether `bytes` is `text`, byte for byte, with the stop bit on the last one.
pub open spec fn is_stopped(bytes: Seq<u8>, text: Seq<u8>) -> bool {
    &&& bytes.len() == text.len()
    &&& forall|i: int| 0 <= i < text.len() - 1 ==> #[trigger] bytes[i] == text[i]
    &&& bytes.last() == text.last() + 0x80
}

/// A string is written byte for byte, with the stop bit on its last byte; the
/// empty string and the string of one NUL have forms of their own. Every string
/// of ASCII can be written, however long, unless it begins with NUL and goes on.
pub proof fn law_string_is_written_byte_for_byte(text: Seq<u8>)
    ensures
        ascii_bytes(text) is Some <==> can_be_written(text),
        nullable_ascii_bytes(Some(text)) is Some <==> can_be_written(text),
        nullable_ascii_bytes(None) == Some(seq![0x80u8]),
        text.len() == 0 ==> ascii_bytes(text) == Some(seq![0x80u8]) && nullable_ascii_bytes(
            Some(text),
        ) == Some(seq![0u8, 0x80u8]),
        text == seq![0u8] ==> ascii_bytes(text) == Some(seq![0u8, 0x80u8])
            && nullable_ascii_bytes(Some(text)) == Some(seq![0u8, 0u8, 0x80u8]),
        text.len() > 0 && text[0] != 0 && can_be_written(text) ==> is_stopped(
            ascii_bytes(text)->0,
            text,
        ) && nullable_ascii_bytes(Some(text)) == ascii_bytes(text),
{
    if forall|i: int| 0 <= i < text.len() ==> #[trigger] text[i] < 0x80 {
        assert(all_ascii(text));
    }
    if all_ascii(text) && text.len() == 1 && text[0] == 0 {
        assert(text =~= seq![0u8]);
    }
    if text.len() > 0 && can_be_written(text) {
        assert(text[text.len() - 1] < 0x80);
    }
    if text == seq![0u8] {
        assert(text[0] == 0);
    }
}

/// A nullable string is refused where it begins with NUL and is none of the
/// forms that do, and where it ends with the data before its stop bit.
pub proof fn law_nullable_string_is_refused_only_for_cause(data: Seq<u8>, offset: nat)
    ensures
        read_nullable_ascii(data, offset).result matches Err(e) ==> {
            ||| e == FastError::InvalidString && offset + 1 < data.len() && data[offset as int] == 0
                && data[offset as int + 1] != 0x80 && (data[offset as int + 1] != 0 || (offset + 2
                < data.len() && data[offset as int + 2] != 0x80))
            ||| e == FastError::UnexpectedEof && forall|j: int|
                offset <= j < data.len() ==> #[trigger] data[j] < 0x80
        },
        read_nullable_ascii(data, offset).result is Err ==> read_nullable_ascii(data, offset).offset
            == offset,
{
    let rest = from_offset(data, offset);
    if read_nullable_ascii(data, offset).result is Err {
        assert forall|j: int| offset <= j < data.len() && stop_index(rest) is None implies
            #[trigger] data[j] < 0x80 by {
            if data[j] >= 0x80 {
                lemma_has_first_stop(rest, j - offset);
            }
        }
    }
}

/// A string is refused where it begins with NUL and goes on, and where it ends
/// with the data before its stop bit.
pub proof fn law_string_is_refused_only_for_cause(data: Seq<u8>, offset: nat)
    ensures
        read_ascii(data, offset).result matches Err(e) ==> {
            ||| e == FastError::InvalidString && offset + 1 < data.len() && data[offset as int] == 0
                && data[offset as int + 1] != 0x80
            ||| e == FastError::UnexpectedEof && forall|j: int|
                offset <= j < data.len() ==> #[trigger] data[j] < 0x80
        },
        read_ascii(data, offset).result is Err ==> read_ascii(data, offset).offset == offset,
{
    let rest = from_offset(data, offset);
    if read_ascii(data, offset).result is Err {
        assert forall|j: int| offset <= j < data.len() && stop_index(rest) is None implies
            #[trigger] data[j] < 0x80 by {
            if data[j] >= 0x80 {
                lemma_has_first_stop(rest, j - offset);
            }
        }
    }
}

/// Where a byte has a stop bit, one is the first.
proof fn lemma_has_first_stop(s: Seq<u8>, at: int)
    requires
        0 <= at < s.len(),
        s[at] >= 0x80,
    ensures
        stop_index(s) is Some,
    decreases at,
{
    if forall|j: int| 0 <= j < at ==> !is_stop(#[trigger] s[j]) {
        assert(is_first_stop(s, at));
    } else {
        let j = choose|j: int| 0 <= j < at && is_stop(#[trigger] s[j]);
        lemma_has_first_stop(s, j);
    }
}

/// A byte vector is the bytes behind its length, as many as the length says and
/// just as they stand, wherever the data has so many.
pub proof fn law_bytes_are_taken_as_they_stand(data: Seq<u8>, offset: nat, n: int)
    requires
        read_uint(data, offset).result == Ok::<int, FastError>(n),
    ensures
        ({
            let start = read_uint(data, offset).offset;
            let read = read_bytes(data, offset);
            if start + n <= data.len() {
                &&& read.result == Ok::<_, FastError>(data.subrange(start as int, start + n))
                &&& read.offset == start + n
            } else {
                &&& read.result == Err::<Seq<u8>, _>(FastError::UnexpectedEof)
                &&& read.offset == start
            }
        }),
{
}

/// A nullable byte vector is NULL, or the bytes behind its length.
pub proof fn law_nullable_bytes_are_taken_as_they_stand(
    data: Seq<u8>,
    offset: nat,
    length: Option<int>,
)
    requires
        read_nullable_uint(data, offset).result == Ok::<Option<int>, FastError>(length),
    ensures
        ({
            let start = read_nullable_uint(data, offset).offset;
            let read = read_nullable_bytes(data, offset);
            match length {
                None => read.result == Ok::<Option<Seq<u8>>, FastError>(None) && read.offset
                    == start,
                Some(n) => if start + n <= data.len() {
                    &&& read.result == Ok::<_, FastError>(
                        Some(data.subrange(start as int, start + n)),
                    )
                    &&& read.offset == start + n
                } else {
                    &&& read.result == Err::<Option<Seq<u8>>, _>(FastError::UnexpectedEof)
                    &&& read.offset == start
                },
            }
        }),
{
}

/// A value that is not a constant is in the stream wherever its field has no bit
/// or a set one. Where the bit is clear, a default gives the initial value, and
/// what is derived from the value before comes out of the dictionary. A constant
/// is never in the stream, and is absent where its bit is clear.
pub proof fn law_bit_selects_where_a_value_comes_from(operator: Operator, optional: bool, bit: bool)
    ensures
        ({
            let present = if owns_bit(operator, optional) {
                Some(bit)
            } else {
                None
            };
            let transfer = transfer_of(operator, present);
            &&& transfer is Stream <==> !(operator is Constant) && (operator is NoOperator
                || operator is Delta || bit)
            &&& transfer is Absent <==> operator is Constant && optional && !bit
            &&& transfer is Dictionary <==> (operator is Copy || operator is Increment
                || operator is Tail) && !bit
            &&& transfer is InitialValue <==> (operator is Default && !bit) || (
            operator is Constant && !(optional && !bit))
        }),
        owns_bit(operator, optional) <==> (operator is Default || operator is Copy
            || operator is Increment || operator is Tail || (operator is Constant && optional)),
        keeps_state(operator) <==> (operator is Copy || operator is Increment || operator is Delta
            || operator is Tail),
        always_transferred(operator) <==> (operator is NoOperator || operator is Delta),
{
}

/// A field takes the next bit of the map, and leaves the others for the fields
/// behind it.
pub proof fn law_bit_is_taken_once(map: PresenceMapView)
    requires
        map.position <= map.bits.len(),
    ensures
        after_bit(map).bits == map.bits,
        map.position < map.bits.len() ==> after_bit(map).position == map.position + 1,
        map.position == map.bits.len() ==> after_bit(map) == map,
        map.position < map.bits.len() ==> bit_or_clear(map.bits, map.position as int)
            == map.bits[map.position as int],
        map.position == map.bits.len() ==> !bit_or_clear(map.bits, map.position as int),
{
}

/// A dictionary gives back what was last filed under a key, and filing under one
/// key leaves the others as they are.
pub proof fn law_dictionary_gives_back_what_was_filed(
    dict: Map<Seq<char>, DictionaryValue>,
    key: Seq<char>,
    value: DictionaryValue,
    other: Seq<char>,
)
    ensures
        lookup(dict.insert(key, value), key) == Some(value),
        other != key ==> lookup(dict.insert(key, value), other) == lookup(dict, other),
        lookup(Map::empty(), key) is None,
{
}

/// A template that has no dictionary reads as one that is empty, and filing for
/// one template leaves the others as they are.
pub proof fn law_templates_are_kept_apart(
    decoder: FastDecoderView,
    template: u32,
    other: u32,
    dict: Map<Seq<char>, DictionaryValue>,
)
    ensures
        ({
            let after = FastDecoderView {
                templates: decoder.templates.insert(template, dict),
                ..decoder
            };
            &&& after.template(template) == dict
            &&& other != template ==> after.template(other) == decoder.template(other)
        }),
        !decoder.templates.contains_key(template) ==> decoder.template(template) == Map::<
            Seq<char>,
            DictionaryValue,
        >::empty(),
        decoder.templates.contains_key(template) ==> decoder.template(template)
            == decoder.templates[template],
{
}

/// An integer entry is read as the number it holds, whichever sign it was filed
/// with, and text is read as its bytes.
pub proof fn law_entry_is_what_was_filed(signed: i64, unsigned: u64)
    ensures
        integer_of(DictionaryValue::Int(signed)) == Some(signed as int),
        integer_of(DictionaryValue::UInt(unsigned)) == Some(unsigned as int),
        forall|text: String|
            integer_of(DictionaryValue::String(text)) is None && #[trigger] bytes_of(
                DictionaryValue::String(text),
            ) == Some(vstd::utf8::encode_utf8(text@)),
        forall|bytes: Vec<u8>|
            integer_of(DictionaryValue::Bytes(bytes)) is None && #[trigger] bytes_of(
                DictionaryValue::Bytes(bytes),
            ) == Some(bytes@),
        forall|mantissa: i64, exponent: i32|
            #[trigger] integer_of(DictionaryValue::Decimal(mantissa, exponent)) is None
                && bytes_of(DictionaryValue::Decimal(mantissa, exponent)) is None,
        integer_of(DictionaryValue::Undefined) is None,
        integer_of(DictionaryValue::Empty) is None,
        bytes_of(DictionaryValue::Int(signed)) is None,
        bytes_of(DictionaryValue::UInt(unsigned)) is None,
        bytes_of(DictionaryValue::Undefined) is None,
        bytes_of(DictionaryValue::Empty) is None,
{
}

/// An encoder appends what it is handed behind what it holds, and a fresh encoder
/// or decoder holds nothing.
pub proof fn law_nothing_is_held_at_first(encoder: FastEncoderView, more: Seq<u8>, template: u32)
    ensures
        encoder.append(more).bytes == encoder.bytes + more,
        encoder.append(more).global == encoder.global,
        encoder.append(more).templates == encoder.templates,
        FastEncoderView::fresh().bytes.len() == 0,
        FastEncoderView::fresh().global.dom().is_empty(),
        FastEncoderView::fresh().templates.dom().is_empty(),
        FastDecoderView::fresh().global.dom().is_empty(),
        FastDecoderView::fresh().template(template).dom().is_empty(),
        FastDecoderView::fresh().last_template_id is None,
{
}

} // verus!

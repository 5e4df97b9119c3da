//! What the codec promises of every stream.

use crate::outside::decimal::{decimal, lemma_decimal_digits};
use crate::outside::search::{is_first, lemma_first_index};
use crate::tagvalue::checksum::{checksum_digits, checksum_of, law_checksum_digits_read_back};
use crate::tagvalue::digits::{lemma_decimal_len, lemma_length_reads_back, ten_to};
use crate::tagvalue::frame::{
    begin_string_bytes, begin_string_rejection, body_bytes, covered_bytes, field_bytes, frame_bytes,
    frameable, header_bytes, trailer_bytes, Entry,
};
use crate::tagvalue::wire::SOH;
use crate::transport::framing::{
    frame_stream, has_trailer, header_window, is_candidate, is_first_candidate, read_header,
    read_trailer, resync, CodecError, Framed, Header, MAX_HEADER_LEN, MIN_FRAME_LEN, TRAILER_LEN,
};
use vstd::prelude::*;

verus! {

/// Resynchronising drops at least one byte and at most the whole buffer.
proof fn lemma_resync_bounds(src: Seq<u8>)
    requires
        src.len() >= 2,
    ensures
        1 <= resync(src) <= src.len(),
{
    if exists|at: int| is_first_candidate(src, at) {
        let at = choose|at: int| is_first_candidate(src, at);
        assert(is_candidate(src, at));
    }
}

/// A frame that the codec hands up is the beginning of the buffer, what is
/// left is the rest of it, and the frame is not larger than the limit.
pub proof fn law_frame_is_cut_off_the_front(
    src: Seq<u8>,
    max_size: nat,
    validate_checksum: bool,
    frame: Seq<u8>,
)
    requires
        frame_stream(src, max_size, validate_checksum).result == Ok::<_, CodecError>(Some(frame)),
    ensures
        src == frame + frame_stream(src, max_size, validate_checksum).rest,
        0 < frame.len() <= max_size,
{
    if let Header::BodyEnd(body_end) = read_header(src) {
        let total = (body_end + TRAILER_LEN) as int;
        assert(src =~= src.take(total) + src.skip(total));
    }
}

/// Every frame that the codec hands up ends with a well-formed trailer, whether
/// or not checksum values are compared.
pub proof fn law_frame_ends_with_a_trailer(
    src: Seq<u8>,
    max_size: nat,
    validate_checksum: bool,
    frame: Seq<u8>,
)
    requires
        frame_stream(src, max_size, validate_checksum).result == Ok::<_, CodecError>(Some(frame)),
    ensures
        has_trailer(frame, frame.len() - TRAILER_LEN),
        read_trailer(frame, frame.len() - TRAILER_LEN) is Ok,
        validate_checksum ==> read_trailer(frame, frame.len() - TRAILER_LEN) == Ok::<
            _,
            CodecError,
        >(checksum_of(frame.take(frame.len() - TRAILER_LEN))),
{
    if let Header::BodyEnd(body_end) = read_header(src) {
        let total = (body_end + TRAILER_LEN) as int;
        let end = body_end as int;
        assert(frame =~= src.take(total));
        assert(frame.subrange(end + 3, end + 6) =~= src.subrange(end + 3, end + 6));
        assert(frame.take(end) =~= src.take(end));
    }
}

/// Asking for more bytes leaves the buffer as it is. A buffer that could hold a
/// frame is waited for only up to the size limit, and beyond the header ceiling
/// only below that limit.
pub proof fn law_buffering_is_bounded(src: Seq<u8>, max_size: nat, validate_checksum: bool)
    requires
        frame_stream(src, max_size, validate_checksum).result == Ok::<_, CodecError>(
            None::<Seq<u8>>,
        ),
    ensures
        frame_stream(src, max_size, validate_checksum).rest == src,
        src.len() < MIN_FRAME_LEN || src.len() <= max_size,
        src.len() < MAX_HEADER_LEN || src.len() < max_size,
{
}

/// An error either leaves the buffer as it is, or drops at least one byte.
pub proof fn law_errors_that_consume_make_progress(
    src: Seq<u8>,
    max_size: nat,
    validate_checksum: bool,
    e: CodecError,
)
    requires
        frame_stream(src, max_size, validate_checksum).result == Err::<Option<Seq<u8>>, _>(e),
    ensures
        ({
            let rest = frame_stream(src, max_size, validate_checksum).rest;
            match e {
                CodecError::InvalidBeginString => rest.len() < src.len() && rest == src.skip(
                    resync(src),
                ),
                CodecError::InvalidTrailer { offset } => rest.len() < src.len() && rest
                    == src.skip(resync(src)),
                CodecError::InvalidChecksumFormat => rest.len() < src.len(),
                CodecError::ChecksumMismatch { calculated, declared } => rest.len() < src.len(),
                _ => rest == src,
            }
        }),
{
    lemma_resync_bounds(src);
}

/// After resynchronising, the buffer starts with an `8` that stood behind an
/// SOH, or holds at most an SOH.
pub proof fn law_resync_restarts_at_a_candidate(src: Seq<u8>)
    ensures
        ({
            let rest = src.skip(resync(src));
            ||| rest.len() == 0
            ||| rest == seq![SOH]
            ||| rest[0] == 0x38 && resync(src) >= 1 && src[resync(src) - 1] == SOH
        }),
{
    if exists|at: int| is_first_candidate(src, at) {
        let at = choose|at: int| is_first_candidate(src, at);
        assert(is_candidate(src, at));
    } else if src.len() > 0 && src.last() == SOH {
        assert(src.skip(src.len() - 1) =~= seq![SOH]);
    }
}

/// The header, byte by byte.
proof fn lemma_header_bytes(begin_string: Seq<u8>, body_len: nat)
    requires
        begin_string_rejection(begin_string) is None,
        body_len < 10_000_000_000,
    ensures
        ({
            let header = header_bytes(begin_string, body_len);
            let digits = decimal(body_len);
            let at = (2 + begin_string.len()) as int;
            &&& header.len() == at + 3 + digits.len() + 1
            &&& header.len() <= MAX_HEADER_LEN
            &&& digits.len() >= 1
            &&& header[0] == 0x38
            &&& header[1] == 0x3d
            &&& header[at] == SOH
            &&& header[at + 1] == 0x39
            &&& header[at + 2] == 0x3d
            &&& header.last() == SOH
            &&& header.subrange(at + 3, at + 3 + digits.len()) == digits
            &&& forall|j: int| 0 <= j < at ==> header[j] != SOH
            &&& forall|j: int| 0 <= j < digits.len() ==> #[trigger] digits[j] != SOH
        }),
{
    let header = header_bytes(begin_string, body_len);
    let digits = decimal(body_len);
    let at = (2 + begin_string.len()) as int;
    assert(decimal(8) =~= seq![0x38u8]);
    assert(decimal(9) =~= seq![0x39u8]);
    lemma_decimal_digits(body_len);
    assert(ten_to(10) == 10_000_000_000) by {
        reveal_with_fuel(ten_to, 11);
    }
    lemma_decimal_len(body_len, 10);
    assert(header =~= seq![0x38u8, 0x3du8] + begin_string + seq![SOH, 0x39u8, 0x3du8] + digits
        + seq![SOH]);
    assert(header.subrange(at + 3, at + 3 + digits.len()) =~= digits);
    assert forall|j: int| 0 <= j < at implies header[j] != SOH by {
        if j >= 2 {
            assert(header[j] == begin_string[j - 2]);
            assert(begin_string_bytes().has(begin_string[j - 2]));
        }
    }
}

/// A buffer that starts with the header of a frame is read up to the end of
/// the body.
proof fn lemma_header_is_read(src: Seq<u8>, begin_string: Seq<u8>, body_len: nat)
    requires
        begin_string_rejection(begin_string) is None,
        body_len < 10_000_000_000,
        header_bytes(begin_string, body_len).len() <= src.len(),
        src.take(header_bytes(begin_string, body_len).len() as int) == header_bytes(
            begin_string,
            body_len,
        ),
        header_bytes(begin_string, body_len).len() + body_len + TRAILER_LEN <= usize::MAX,
    ensures
        read_header(src) == Header::BodyEnd(
            header_bytes(begin_string, body_len).len() + body_len,
        ),
{
    lemma_header_bytes(begin_string, body_len);
    let header = header_bytes(begin_string, body_len);
    let digits = decimal(body_len);
    let at = (2 + begin_string.len()) as int;
    let window = header_window(src);
    assert forall|j: int| 0 <= j < header.len() implies window[j] == header[j] by {
        assert(src.take(header.len() as int)[j] == header[j]);
    }
    assert(is_first(window, SOH, at));
    lemma_first_index(window, SOH, at);
    let rest = window.skip(at + 3);
    assert forall|j: int| 0 <= j < digits.len() implies rest[j] == digits[j] by {
        assert(header.subrange(at + 3, at + 3 + digits.len())[j] == digits[j]);
    }
    assert(rest[digits.len() as int] == header.last());
    assert forall|j: int| 0 <= j < digits.len() implies rest[j] != SOH by {
        assert(rest[j] == digits[j]);
    }
    assert(is_first(rest, SOH, digits.len() as int));
    lemma_first_index(rest, SOH, digits.len() as int);
    assert(rest.take(digits.len() as int) =~= digits);
    lemma_length_reads_back(body_len);
}

/// A buffer that breaks off within the header of a frame is partial.
proof fn lemma_header_is_partial(src: Seq<u8>, begin_string: Seq<u8>, body_len: nat)
    requires
        begin_string_rejection(begin_string) is None,
        body_len < 10_000_000_000,
        src.len() < header_bytes(begin_string, body_len).len(),
        src == header_bytes(begin_string, body_len).take(src.len() as int),
    ensures
        read_header(src) == Header::Partial,
{
    lemma_header_bytes(begin_string, body_len);
    let header = header_bytes(begin_string, body_len);
    let digits = decimal(body_len);
    let at = (2 + begin_string.len()) as int;
    assert(header_window(src) == src);
    assert forall|j: int| 0 <= j < src.len() implies src[j] == header[j] by {
        assert(header.take(src.len() as int)[j] == header[j]);
    }
    if src.len() <= at {
        assert(!src.contains(SOH));
    } else {
        assert(is_first(src, SOH, at));
        lemma_first_index(src, SOH, at);
        if src.len() >= at + 3 {
            let rest = src.skip(at + 3);
            assert forall|j: int| 0 <= j < rest.len() implies rest[j] != SOH by {
                assert(rest[j] == header[at + 3 + j]);
                assert(header.subrange(at + 3, at + 3 + digits.len())[j] == digits[j]);
            }
            assert(!rest.contains(SOH));
        }
    }
}

/// A body that is not empty ends with SOH.
proof fn lemma_body_ends_with_soh(entries: Seq<Entry>)
    requires
        entries.len() > 0,
    ensures
        body_bytes(entries).len() > 0,
        body_bytes(entries).last() == SOH,
{
    let bytes = entries.last().bytes();
    assert(bytes.len() > 0 && bytes.last() == SOH) by {
        match entries.last() {
            Entry::Plain { tag, value } => {
                assert(field_bytes(tag, value).last() == SOH);
            },
            Entry::Counted { length_tag, data_tag, value } => {
                assert(field_bytes(data_tag, value).last() == SOH);
            },
        }
    }
}

/// The shortest frame is as long as the shortest buffer that is looked at.
proof fn lemma_frame_len(begin_string: Seq<u8>, entries: Seq<Entry>)
    requires
        frameable(begin_string, entries),
    ensures
        ({
            let frame = frame_bytes(begin_string, entries);
            let body = body_bytes(entries);
            let header = header_bytes(begin_string, body.len());
            &&& frame.len() == header.len() + body.len() + TRAILER_LEN
            &&& frame.len() >= MIN_FRAME_LEN
        }),
{
    let body = body_bytes(entries);
    assert(entries[0].valid());
    assert(decimal(1).len() == 1);
    assert(decimal(3).len() == 1);
    assert(decimal(8).len() == 1);
    assert(decimal(9).len() == 1);
    assert(decimal(10).len() == 2);
    assert(decimal(35).len() == 2);
    lemma_decimal_digits(body.len());
    crate::tagvalue::laws::lemma_body_starts_with(begin_string, entries);
}

/// A frame that an encoder yields, and that is not over the size limit, is
/// handed up whole, whatever follows it in the stream; what follows it is left.
pub proof fn law_encoded_frame_is_handed_up(
    begin_string: Seq<u8>,
    entries: Seq<Entry>,
    rest: Seq<u8>,
    max_size: nat,
    validate_checksum: bool,
)
    requires
        frameable(begin_string, entries),
        body_bytes(entries).len() < 10_000_000_000,
        frame_bytes(begin_string, entries).len() <= max_size <= usize::MAX,
    ensures
        frame_stream(
            frame_bytes(begin_string, entries) + rest,
            max_size,
            validate_checksum,
        ) == (Framed { result: Ok(Some(frame_bytes(begin_string, entries))), rest }),
{
    let body = body_bytes(entries);
    let header = header_bytes(begin_string, body.len());
    let covered = covered_bytes(begin_string, entries);
    let sum = checksum_of(covered);
    let digits = checksum_digits(sum);
    let frame = frame_bytes(begin_string, entries);
    let src = frame + rest;
    let end = (header.len() + body.len()) as int;
    lemma_frame_len(begin_string, entries);
    lemma_header_bytes(begin_string, body.len());
    assert(src.take(header.len() as int) =~= header);
    lemma_header_is_read(src, begin_string, body.len());
    lemma_body_ends_with_soh(entries);
    assert(src[end - 1] == body.last());
    let trailer = trailer_bytes(sum);
    assert(decimal(1) =~= seq![0x31u8]);
    assert(decimal(10) =~= seq![0x31u8, 0x30u8]);
    assert(trailer =~= seq![0x31u8, 0x30u8, 0x3du8] + digits + seq![SOH]);
    assert forall|j: int| 0 <= j < TRAILER_LEN implies src[end + j] == trailer[j] by {}
    assert(src[end] == trailer[0] && src[end + 1] == trailer[1] && src[end + 2] == trailer[2]
        && src[end + 6] == trailer[6]);
    assert(src.subrange(end + 3, end + 6) =~= digits) by {
        assert(src[end + 3] == trailer[3] && src[end + 4] == trailer[4] && src[end + 5]
            == trailer[5]);
    }
    law_checksum_digits_read_back(sum);
    assert(src.take(end) =~= covered);
    assert(src.take(frame.len() as int) =~= frame);
    assert(src.skip(frame.len() as int) =~= rest);
}

/// While a frame that is not over the size limit has arrived in part, the
/// codec waits and drops nothing.
pub proof fn law_partial_frame_is_waited_for(
    begin_string: Seq<u8>,
    entries: Seq<Entry>,
    arrived: int,
    max_size: nat,
    validate_checksum: bool,
)
    requires
        frameable(begin_string, entries),
        body_bytes(entries).len() < 10_000_000_000,
        frame_bytes(begin_string, entries).len() <= max_size <= usize::MAX,
        0 <= arrived < frame_bytes(begin_string, entries).len(),
    ensures
        frame_stream(
            frame_bytes(begin_string, entries).take(arrived),
            max_size,
            validate_checksum,
        ) == (Framed {
            result: Ok(None),
            rest: frame_bytes(begin_string, entries).take(arrived),
        }),
{
    let body = body_bytes(entries);
    let header = header_bytes(begin_string, body.len());
    let frame = frame_bytes(begin_string, entries);
    let src = frame.take(arrived);
    lemma_frame_len(begin_string, entries);
    lemma_header_bytes(begin_string, body.len());
    if src.len() >= MIN_FRAME_LEN {
        assert(src[0] == header[0] && src[1] == header[1]);
        if src.len() < header.len() {
            assert(src =~= header.take(src.len() as int));
            lemma_header_is_partial(src, begin_string, body.len());
        } else {
            assert(src.take(header.len() as int) =~= header);
            lemma_header_is_read(src, begin_string, body.len());
        }
    }
}

/// Two frames that arrive together are handed up one after the other.
pub proof fn law_consecutive_frames_are_handed_up(
    first_begin: Seq<u8>,
    first: Seq<Entry>,
    second_begin: Seq<u8>,
    second: Seq<Entry>,
    max_size: nat,
    validate_checksum: bool,
)
    requires
        frameable(first_begin, first),
        frameable(second_begin, second),
        body_bytes(first).len() < 10_000_000_000,
        body_bytes(second).len() < 10_000_000_000,
        frame_bytes(first_begin, first).len() <= max_size,
        frame_bytes(second_begin, second).len() <= max_size,
        max_size <= usize::MAX,
    ensures
        ({
            let src = frame_bytes(first_begin, first) + frame_bytes(second_begin, second);
            let one = frame_stream(src, max_size, validate_checksum);
            let two = frame_stream(one.rest, max_size, validate_checksum);
            &&& one.result == Ok::<_, CodecError>(Some(frame_bytes(first_begin, first)))
            &&& two.result == Ok::<_, CodecError>(Some(frame_bytes(second_begin, second)))
            &&& two.rest == Seq::<u8>::empty()
        }),
{
    let two = frame_bytes(second_begin, second);
    law_encoded_frame_is_handed_up(first_begin, first, two, max_size, validate_checksum);
    law_encoded_frame_is_handed_up(
        second_begin,
        second,
        Seq::empty(),
        max_size,
        validate_checksum,
    );
    assert(two + Seq::<u8>::empty() =~= two);
}

} // verus!

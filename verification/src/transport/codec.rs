//! The framing codec.
//!
//! Every byte that the codec sees is chosen by the counterparty. A frame is
//! never accumulated past [`FixCodec::with_max_message_size`], and the header
//! region is capped, so a peer that never sends a delimiter cannot grow the
//! read buffer. The trailer implied by the declared `BodyLength` is checked
//! before any frame is handed up, independently of whether checksum *values*
//! are verified.

use crate::outside::buffer::{advance, as_slice, buffered, put_slice, reserve, split_to};
use crate::outside::search::find;
use crate::tagvalue::checksum::{calculate_checksum, parse_checksum};
use crate::tagvalue::digits::parse_length;
use crate::tagvalue::wire::SOH;
pub use crate::transport::framing::CodecError;
use crate::transport::framing::{
    frame_stream, header_window, is_candidate, is_first_candidate, partial_header, read_header,
    read_trailer, resync, Header, MAX_HEADER_LEN, MIN_FRAME_LEN, TRAILER_LEN,
};
use bytes::BytesMut;
use vstd::prelude::*;
use vstd::slice::slice_subrange;

verus! {

/// Default maximum message size, in bytes (1 MiB).
const DEFAULT_MAX_MESSAGE_SIZE: usize = 1048576;

/// Codec for FIX message framing.
#[derive(Debug)]
pub struct FixCodec {
    /// Maximum message size in bytes.
    max_message_size: usize,
    /// Whether to validate checksums.
    validate_checksum: bool,
}

/// The settings of a [`FixCodec`].
#[verifier::ext_equal]
pub struct FixCodecView {
    pub max_message_size: nat,
    pub validate_checksum: bool,
}

impl View for FixCodec {
    type V = FixCodecView;

    closed spec fn view(&self) -> FixCodecView {
        FixCodecView {
            max_message_size: self.max_message_size as nat,
            validate_checksum: self.validate_checksum,
        }
    }
}

impl Clone for FixCodec {
    fn clone(&self) -> (copy: Self)
        ensures
            copy == *self,
    {
        FixCodec {
            max_message_size: self.max_message_size,
            validate_checksum: self.validate_checksum,
        }
    }
}

impl FixCodec {
    /// Creates a new codec with default settings: a 1 MiB maximum message size
    /// and checksum validation enabled.
    pub fn new() -> (codec: Self)
        ensures
            codec@ == (FixCodecView { max_message_size: 1048576, validate_checksum: true }),
    {
        FixCodec { max_message_size: DEFAULT_MAX_MESSAGE_SIZE, validate_checksum: true }
    }

    /// Sets the maximum message size.
    ///
    /// The limit applies in both directions: a larger frame is neither
    /// accumulated on decode nor written on encode.
    pub fn with_max_message_size(self, size: usize) -> (codec: Self)
        ensures
            codec@ == (FixCodecView { max_message_size: size as nat, ..self@ }),
    {
        FixCodec { max_message_size: size, validate_checksum: self.validate_checksum }
    }

    /// Sets whether to validate checksums.
    ///
    /// This governs only whether the checksum *value* is compared. The presence
    /// and shape of the trailer are always verified.
    pub fn with_checksum_validation(self, validate: bool) -> (codec: Self)
        ensures
            codec@ == (FixCodecView { validate_checksum: validate, ..self@ }),
    {
        FixCodec { max_message_size: self.max_message_size, validate_checksum: validate }
    }

    /// Decides what an incomplete header means for a buffer of `src_len` bytes.
    ///
    /// # Errors
    /// * [`CodecError::MessageTooLarge`] - the buffer already exceeds the
    ///   configured maximum message size.
    /// * [`CodecError::HeaderTooLong`] - no complete header within the
    ///   header-region ceiling.
    fn header_needs_more(&self, src_len: usize) -> (more: Result<Option<BytesMut>, CodecError>)
        ensures
            match more {
                Ok(frame) => frame is None && partial_header(
                    src_len as nat,
                    self@.max_message_size,
                ) is None,
                Err(e) => partial_header(src_len as nat, self@.max_message_size) == Some(e),
            },
    {
        if src_len > self.max_message_size {
            return Err(
                CodecError::MessageTooLarge { size: src_len, max_size: self.max_message_size },
            );
        }
        if src_len >= MAX_HEADER_LEN {
            return Err(CodecError::HeaderTooLong { max_header_len: MAX_HEADER_LEN });
        }
        Ok(None)
    }

    /// Extracts one complete FIX frame from `src`.
    ///
    /// `Ok(None)` asks for more bytes and leaves `src` as it is.
    ///
    /// # Errors
    /// A [`CodecError`] for any malformed frame; see that type for which
    /// variants consume bytes from `src`.
    pub fn decode(&self, src: &mut BytesMut) -> (frame: Result<Option<BytesMut>, CodecError>)
        ensures
            ({
                let framed = frame_stream(
                    buffered(*old(src)),
                    self@.max_message_size,
                    self@.validate_checksum,
                );
                &&& buffered(*final(src)) == framed.rest
                &&& match frame {
                    Ok(Some(bytes)) => framed.result == Ok::<_, CodecError>(
                        Some(buffered(bytes)),
                    ),
                    Ok(None) => framed.result == Ok::<_, CodecError>(None::<Seq<u8>>),
                    Err(e) => framed.result == Err::<Option<Seq<u8>>, _>(e),
                }
            }),
    {
        let ghost before = buffered(*src);
        let len: usize = as_slice(src).len();
        if len < MIN_FRAME_LEN {
            return Ok(None);
        }
        let bytes = as_slice(src);
        if bytes[0] != 0x38 || bytes[1] != 0x3d {
            let discarded: usize = resync_offset(bytes);
            advance(src, discarded);
            return Err(CodecError::InvalidBeginString);
        }
        let body_end: usize = match find_body_end(bytes) {
            Ok(Some(body_end)) => body_end,
            Ok(None) => {
                return self.header_needs_more(len);
            },
            Err(error) => {
                return Err(error);
            },
        };
        let total_length: usize = body_end + TRAILER_LEN;
        if total_length > self.max_message_size {
            return Err(
                CodecError::MessageTooLarge {
                    size: total_length,
                    max_size: self.max_message_size,
                },
            );
        }
        if len < total_length {
            if total_length <= isize::MAX as usize {
                reserve(src, total_length - len);
            }
            return Ok(None);
        }
        let declared = match verify_trailer(as_slice(src), body_end) {
            Ok(declared) => declared,
            Err(CodecError::InvalidTrailer { offset }) => {
                let discarded: usize = resync_offset(as_slice(src));
                advance(src, discarded);
                return Err(CodecError::InvalidTrailer { offset });
            },
            Err(error) => {
                advance(src, total_length);
                return Err(error);
            },
        };
        if self.validate_checksum {
            let covered = slice_subrange(as_slice(src), 0, body_end);
            assert(covered@ =~= before.take(body_end as int));
            let calculated = calculate_checksum(covered);
            if calculated != declared {
                advance(src, total_length);
                return Err(CodecError::ChecksumMismatch { calculated, declared });
            }
        }
        let message = split_to(src, total_length);
        Ok(Some(message))
    }

    /// Appends `item` to `dst` verbatim.
    ///
    /// # Errors
    /// [`CodecError::MessageTooLarge`] when `item` exceeds the configured
    /// maximum message size, so the codec never transmits a frame it would
    /// refuse to receive; `dst` is then left as it is.
    pub fn encode(&self, item: &[u8], dst: &mut BytesMut) -> (written: Result<(), CodecError>)
        requires
            item@.len() <= self@.max_message_size ==> buffered(*old(dst)).len() + item@.len()
                <= isize::MAX,
        ensures
            match written {
                Ok(()) => item@.len() <= self@.max_message_size && buffered(*final(dst))
                    == buffered(*old(dst)) + item@,
                Err(e) => item@.len() > self@.max_message_size && e == (
                CodecError::MessageTooLarge {
                    size: item@.len() as usize,
                    max_size: self@.max_message_size as usize,
                }) && buffered(*final(dst)) == buffered(*old(dst)),
            },
    {
        if item.len() > self.max_message_size {
            return Err(
                CodecError::MessageTooLarge { size: item.len(), max_size: self.max_message_size },
            );
        }
        reserve(dst, item.len());
        put_slice(dst, item);
        Ok(())
    }
}

impl Default for FixCodec {
    fn default() -> (codec: Self)
        ensures
            codec@ == (FixCodecView { max_message_size: 1048576, validate_checksum: true }),
    {
        Self::new()
    }
}

/// Returns how many bytes to discard so the buffer restarts at a candidate
/// frame.
///
/// Anchoring on `<SOH>8` rather than on a bare `8=` keeps the scan off the
/// middle of a field such as `18=` or `58=`.
pub fn resync_offset(src: &[u8]) -> (discarded: usize)
    ensures
        discarded == resync(src@),
        discarded <= src@.len(),
{
    let mut from: usize = 0;
    while from < src.len()
        invariant
            from <= src@.len(),
            from > 0 ==> !is_candidate(src@, from as int),
            forall|j: int| #![trigger is_candidate(src@, j)] j <= from ==> !is_candidate(src@, j),
            from == src@.len() ==> from == 0 || src@.last() != SOH,
        decreases src@.len() - from,
    {
        let rest = slice_subrange(src, from, src.len());
        let soh: usize = match find(SOH, rest) {
            Some(relative) => from + relative,
            None => {
                proof {
                    lemma_no_soh(src@, from as int);
                }
                return src.len();
            },
        };
        let candidate: usize = soh + 1;
        proof {
            assert forall|j: int| #![trigger is_candidate(src@, j)] j <= soh implies !is_candidate(
                src@,
                j,
            ) by {
                if from < j {
                    assert(rest@[j - 1 - from] != SOH);
                }
            }
        }
        if candidate == src.len() {
            proof {
                lemma_no_candidate(src@);
            }
            return soh;
        }
        if src[candidate] == 0x38 {
            proof {
                assert(is_first_candidate(src@, candidate as int));
                lemma_first_candidate(src@, candidate as int);
            }
            return candidate;
        }
        from = candidate;
    }
    proof {
        lemma_no_candidate(src@);
    }
    src.len()
}

/// The first candidate is unique.
proof fn lemma_first_candidate(src: Seq<u8>, at: int)
    requires
        is_first_candidate(src, at),
    ensures
        resync(src) == at,
{
    let other = choose|i: int| is_first_candidate(src, i);
    assert(is_first_candidate(src, other));
    assert(!(other < at) && !(at < other));
}

/// Where there is no candidate, only a trailing SOH is kept.
proof fn lemma_no_candidate(src: Seq<u8>)
    requires
        forall|j: int| #![trigger is_candidate(src, j)] j < src.len() ==> !is_candidate(src, j),
    ensures
        resync(src) == if src.len() > 0 && src.last() == SOH {
            src.len() - 1
        } else {
            src.len() as int
        },
{
    if exists|at: int| is_first_candidate(src, at) {
        let at = choose|at: int| is_first_candidate(src, at);
        assert(is_candidate(src, at));
    }
}

/// Without an SOH from `from` on there is no candidate behind it.
proof fn lemma_no_soh(src: Seq<u8>, from: int)
    requires
        0 <= from < src.len(),
        !src.subrange(from, src.len() as int).contains(SOH),
        forall|j: int| #![trigger is_candidate(src, j)] j <= from ==> !is_candidate(src, j),
    ensures
        resync(src) == src.len(),
{
    let rest = src.subrange(from, src.len() as int);
    assert forall|j: int| #![trigger is_candidate(src, j)] j < src.len() implies !is_candidate(
        src,
        j,
    ) by {
        if from < j {
            assert(rest[j - 1 - from] != SOH);
        }
    }
    assert(rest[src.len() - 1 - from] != SOH);
    lemma_no_candidate(src);
}

/// Reads the header of a buffer that starts with `8=` and returns the offset
/// at which the body ends, or `None` where the header is not complete.
fn find_body_end(src: &[u8]) -> (body_end: Result<Option<usize>, CodecError>)
    ensures
        match body_end {
            Ok(Some(end)) => read_header(src@) == Header::BodyEnd(end as nat) && end + TRAILER_LEN
                <= usize::MAX,
            Ok(None) => read_header(src@) == Header::Partial,
            Err(e) => read_header(src@) == Header::Malformed(e),
        },
{
    let header = if src.len() > MAX_HEADER_LEN {
        slice_subrange(src, 0, MAX_HEADER_LEN)
    } else {
        src
    };
    assert(header@ =~= header_window(src@));
    let first_soh: usize = match find(SOH, header) {
        Some(at) => at,
        None => {
            return Ok(None);
        },
    };
    let start: usize = first_soh + 1;
    if header.len() - start < 2 {
        return Ok(None);
    }
    if header[start] != 0x39 || header[start + 1] != 0x3d {
        return Err(CodecError::MissingBodyLength);
    }
    let digits_start: usize = start + 2;
    let rest = slice_subrange(header, digits_start, header.len());
    assert(rest@ =~= header@.skip(digits_start as int));
    let digits_len: usize = match find(SOH, rest) {
        Some(at) => at,
        None => {
            return Ok(None);
        },
    };
    let digits = slice_subrange(rest, 0, digits_len);
    assert(digits@ =~= rest@.take(digits_len as int));
    let body_length: usize = match parse_length(digits) {
        Some(length) => length,
        None => {
            return Err(CodecError::InvalidBodyLength);
        },
    };
    let body_start: usize = digits_start + digits_len + 1;
    match body_start.checked_add(body_length) {
        None => Err(CodecError::InvalidBodyLength),
        Some(body_end) => match body_end.checked_add(TRAILER_LEN) {
            None => Err(CodecError::InvalidBodyLength),
            Some(_) => Ok(Some(body_end)),
        },
    }
}

/// Verifies the `<SOH>10=NNN<SOH>` trailer at `body_end` and returns the
/// declared checksum.
///
/// # Errors
/// * [`CodecError::InvalidTrailer`] - the `CheckSum` literal or either
///   surrounding SOH is absent at the offsets `BodyLength` implies.
/// * [`CodecError::InvalidChecksumFormat`] - the three digits are not a decimal
///   value in `0..=255`.
fn verify_trailer(src: &[u8], body_end: usize) -> (declared: Result<u8, CodecError>)
    requires
        body_end + TRAILER_LEN <= src@.len(),
    ensures
        declared == read_trailer(src@, body_end as int),
{
    if body_end == 0 || src[body_end - 1] != SOH {
        return Err(CodecError::InvalidTrailer { offset: body_end });
    }
    if src[body_end] != 0x31 || src[body_end + 1] != 0x30 || src[body_end + 2] != 0x3d {
        return Err(CodecError::InvalidTrailer { offset: body_end });
    }
    if src[body_end + 6] != SOH {
        return Err(CodecError::InvalidTrailer { offset: body_end });
    }
    match parse_checksum(slice_subrange(src, body_end + 3, body_end + 6)) {
        Some(checksum) => Ok(checksum),
        None => Err(CodecError::InvalidChecksumFormat),
    }
}

} // verus!

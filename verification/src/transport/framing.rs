//! Where a frame ends in a byte stream, and what is dropped of bytes that are
//! no frame.

use crate::outside::decimal::{ascii_chars, decimal, format_uint};
use crate::outside::search::first_index;
use crate::tagvalue::checksum::{checksum_of, declared_checksum};
use crate::tagvalue::digits::length_of;
use crate::tagvalue::wire::SOH;
use vstd::prelude::*;

verus! {

/// Shortest byte count that a frame is looked for in.
///
/// The smallest legal FIX message is 26 bytes, so no conforming peer is kept
/// waiting.
pub const MIN_FRAME_LEN: usize = 20;

/// Maximum size of the header region `8=..<SOH>9=..<SOH>`, in bytes.
///
/// The header of a legal frame is at most 25 bytes, so a buffer that has not
/// produced both delimiters within this many bytes is already malformed.
pub const MAX_HEADER_LEN: usize = 64;

/// Length of the `10=NNN<SOH>` trailer in bytes.
pub const TRAILER_LEN: usize = 7;

/// Errors that can occur when a byte stream is framed.
///
/// # Effect on the read buffer
///
/// | Variant | Bytes consumed |
/// |---|---|
/// | [`Self::InvalidBeginString`] | up to and including the `<SOH>` of the next `<SOH>8` pair, so the buffer restarts at the `8` (the whole buffer if there is no such pair, minus a trailing `<SOH>` that may still be the start of one) |
/// | [`Self::InvalidTrailer`] | the same: nothing corroborates the declared length |
/// | [`Self::InvalidChecksumFormat`], [`Self::ChecksumMismatch`] | the whole declared frame: the trailer stands exactly where `BodyLength` said |
/// | all other variants | none: the frame boundary is unknown |
#[derive(Debug, PartialEq, Eq)]
#[non_exhaustive]
pub enum CodecError {
    /// Message is incomplete.
    ///
    /// Never emitted: incomplete input is signalled by `Ok(None)`.
    Incomplete,
    /// The buffer does not start with `8=`.
    InvalidBeginString,
    /// The second field is not `BodyLength` (9).
    MissingBodyLength,
    /// `BodyLength` (9) is not a byte count.
    InvalidBodyLength,
    /// No complete `8=..<SOH>9=..<SOH>` header within the header-region
    /// ceiling.
    HeaderTooLong {
        /// Header-region ceiling in bytes.
        max_header_len: usize,
    },
    /// The bytes at the offsets implied by `BodyLength` are not a `CheckSum`
    /// trailer.
    InvalidTrailer {
        /// Offset at which the `CheckSum` field was expected to start.
        offset: usize,
    },
    /// The `CheckSum` value is not three decimal digits in `0..=255`.
    InvalidChecksumFormat,
    /// The declared checksum is not that of the message.
    ChecksumMismatch {
        /// Calculated checksum.
        calculated: u8,
        /// Checksum declared in the message.
        declared: u8,
    },
    /// The message exceeds the maximum size.
    MessageTooLarge {
        /// Actual message size.
        size: usize,
        /// Maximum allowed size.
        max_size: usize,
    },
    /// Reading or writing the stream failed.
    Io(String),
}

impl Clone for CodecError {
    fn clone(&self) -> (copy: Self)
        ensures
            copy == *self,
    {
        match self {
            CodecError::Incomplete => CodecError::Incomplete,
            CodecError::InvalidBeginString => CodecError::InvalidBeginString,
            CodecError::MissingBodyLength => CodecError::MissingBodyLength,
            CodecError::InvalidBodyLength => CodecError::InvalidBodyLength,
            CodecError::HeaderTooLong { max_header_len } => CodecError::HeaderTooLong {
                max_header_len: *max_header_len,
            },
            CodecError::InvalidTrailer { offset } => CodecError::InvalidTrailer {
                offset: *offset,
            },
            CodecError::InvalidChecksumFormat => CodecError::InvalidChecksumFormat,
            CodecError::ChecksumMismatch { calculated, declared } => CodecError::ChecksumMismatch {
                calculated: *calculated,
                declared: *declared,
            },
            CodecError::MessageTooLarge { size, max_size } => CodecError::MessageTooLarge {
                size: *size,
                max_size: *max_size,
            },
            CodecError::Io(reason) => CodecError::Io(reason.clone()),
        }
    }
}

/// The text of a [`CodecError`].
pub open spec fn codec_error_text(error: CodecError) -> Seq<char> {
    match error {
        CodecError::Incomplete => "incomplete message"@,
        CodecError::InvalidBeginString => "invalid begin string: message must start with 8="@,
        CodecError::MissingBodyLength => "missing body length field (tag 9)"@,
        CodecError::InvalidBodyLength => "invalid body length value"@,
        CodecError::HeaderTooLong { max_header_len } =>
            "malformed header: no complete BeginString/BodyLength header in the first "@
            + ascii_chars(decimal(max_header_len as nat)) + " bytes"@,
        CodecError::InvalidTrailer { offset } =>
            "invalid trailer: expected <SOH>10=NNN<SOH> at offset "@ + ascii_chars(
            decimal(offset as nat),
        ),
        CodecError::InvalidChecksumFormat =>
            "invalid checksum format: tag 10 is not three decimal digits in 0..=255"@,
        CodecError::ChecksumMismatch { calculated, declared } => "checksum mismatch: calculated "@
            + ascii_chars(decimal(calculated as nat)) + ", declared "@ + ascii_chars(
            decimal(declared as nat),
        ),
        CodecError::MessageTooLarge { size, max_size } => "message too large: "@ + ascii_chars(
            decimal(size as nat),
        ) + " bytes exceeds maximum "@ + ascii_chars(decimal(max_size as nat)),
        CodecError::Io(reason) => "io error: "@ + reason@,
    }
}

impl CodecError {
    /// Returns the error as text.
    pub fn to_string(&self) -> (text: String)
        ensures
            text@ == codec_error_text(*self),
    {
        match self {
            CodecError::Incomplete => String::from_str("incomplete message"),
            CodecError::InvalidBeginString => String::from_str(
                "invalid begin string: message must start with 8=",
            ),
            CodecError::MissingBodyLength => String::from_str("missing body length field (tag 9)"),
            CodecError::InvalidBodyLength => String::from_str("invalid body length value"),
            CodecError::HeaderTooLong { max_header_len } => {
                let mut text = String::from_str(
                    "malformed header: no complete BeginString/BodyLength header in the first ",
                );
                text.append(format_uint(*max_header_len as u64).as_str());
                text.append(" bytes");
                text
            },
            CodecError::InvalidTrailer { offset } => {
                let mut text = String::from_str(
                    "invalid trailer: expected <SOH>10=NNN<SOH> at offset ",
                );
                text.append(format_uint(*offset as u64).as_str());
                text
            },
            CodecError::InvalidChecksumFormat => String::from_str(
                "invalid checksum format: tag 10 is not three decimal digits in 0..=255",
            ),
            CodecError::ChecksumMismatch { calculated, declared } => {
                let mut text = String::from_str("checksum mismatch: calculated ");
                text.append(format_uint(*calculated as u64).as_str());
                text.append(", declared ");
                text.append(format_uint(*declared as u64).as_str());
                text
            },
            CodecError::MessageTooLarge { size, max_size } => {
                let mut text = String::from_str("message too large: ");
                text.append(format_uint(*size as u64).as_str());
                text.append(" bytes exceeds maximum ");
                text.append(format_uint(*max_size as u64).as_str());
                text
            },
            CodecError::Io(reason) => {
                let mut text = String::from_str("io error: ");
                text.append(reason.as_str());
                text
            },
        }
    }
}

/// Whether a frame may start at `at`, right behind an SOH.
pub open spec fn is_candidate(src: Seq<u8>, at: int) -> bool {
    1 <= at < src.len() && src[at - 1] == SOH && src[at] == 0x38
}

/// Whether `at` is the first offset where a frame may start.
pub open spec fn is_first_candidate(src: Seq<u8>, at: int) -> bool {
    &&& is_candidate(src, at)
    &&& forall|j: int| #![trigger is_candidate(src, j)] j < at ==> !is_candidate(src, j)
}

/// How many bytes to drop so that the buffer restarts where a frame may start.
///
/// Where there is no such place the whole buffer is garbage, except for a
/// trailing SOH, whose `8` may not have arrived yet.
pub open spec fn resync(src: Seq<u8>) -> int {
    if exists|at: int| is_first_candidate(src, at) {
        choose|at: int| is_first_candidate(src, at)
    } else if src.len() > 0 && src.last() == SOH {
        src.len() - 1
    } else {
        src.len() as int
    }
}

/// What the header of a buffer says.
#[verifier::ext_equal]
pub enum Header {
    /// The header is not complete.
    Partial,
    /// The header is malformed.
    Malformed(CodecError),
    /// The body ends at this offset, and the trailer follows.
    BodyEnd(nat),
}

/// The part of the buffer that the header must lie in.
pub open spec fn header_window(src: Seq<u8>) -> Seq<u8> {
    if src.len() > MAX_HEADER_LEN {
        src.take(MAX_HEADER_LEN as int)
    } else {
        src
    }
}

/// Reads `BodyLength` (9) at `start`, right behind the SOH of `BeginString`.
pub open spec fn read_body_length(window: Seq<u8>, start: int) -> Header {
    if start + 2 > window.len() {
        Header::Partial
    } else if window[start] != 0x39 || window[start + 1] != 0x3d {
        Header::Malformed(CodecError::MissingBodyLength)
    } else {
        let rest = window.skip(start + 2);
        match first_index(rest, SOH) {
            None => Header::Partial,
            Some(len) => match length_of(rest.take(len)) {
                None => Header::Malformed(CodecError::InvalidBodyLength),
                Some(body_length) => {
                    let body_end = start + 2 + len + 1 + body_length;
                    if body_end + TRAILER_LEN > usize::MAX {
                        Header::Malformed(CodecError::InvalidBodyLength)
                    } else {
                        Header::BodyEnd(body_end as nat)
                    }
                },
            },
        }
    }
}

/// Reads the header of a buffer that starts with `8=`.
pub open spec fn read_header(src: Seq<u8>) -> Header {
    let window = header_window(src);
    match first_index(window, SOH) {
        None => Header::Partial,
        Some(at) => read_body_length(window, at + 1),
    }
}

/// What an incomplete header means for a buffer of `len` bytes: an error once
/// the buffer cannot become a legal frame any more, and a wait until then.
pub open spec fn partial_header(len: nat, max_size: nat) -> Option<CodecError> {
    if len > max_size {
        Some(CodecError::MessageTooLarge { size: len as usize, max_size: max_size as usize })
    } else if len >= MAX_HEADER_LEN {
        Some(CodecError::HeaderTooLong { max_header_len: MAX_HEADER_LEN })
    } else {
        None
    }
}

/// Whether `10=???<SOH>` stands at `body_end`, right behind an SOH.
pub open spec fn has_trailer(src: Seq<u8>, body_end: int) -> bool {
    &&& 1 <= body_end
    &&& body_end + TRAILER_LEN <= src.len()
    &&& src[body_end - 1] == SOH
    &&& src[body_end] == 0x31
    &&& src[body_end + 1] == 0x30
    &&& src[body_end + 2] == 0x3d
    &&& src[body_end + 6] == SOH
}

/// The checksum that the trailer at `body_end` declares.
pub open spec fn read_trailer(src: Seq<u8>, body_end: int) -> Result<u8, CodecError> {
    if !has_trailer(src, body_end) {
        Err(CodecError::InvalidTrailer { offset: body_end as usize })
    } else {
        match declared_checksum(src.subrange(body_end + 3, body_end + 6)) {
            Some(checksum) => Ok(checksum),
            None => Err(CodecError::InvalidChecksumFormat),
        }
    }
}

/// What framing a buffer gives, and what is left of the buffer.
#[verifier::ext_equal]
pub struct Framed {
    /// The frame, `None` where it is not complete yet, or why there is none.
    pub result: Result<Option<Seq<u8>>, CodecError>,
    /// The bytes that are left.
    pub rest: Seq<u8>,
}

/// Takes the frame that the header declares to end `TRAILER_LEN` bytes behind
/// `body_end`.
pub open spec fn take_frame(
    src: Seq<u8>,
    body_end: nat,
    max_size: nat,
    validate_checksum: bool,
) -> Framed {
    let total = (body_end + TRAILER_LEN) as nat;
    if total > max_size {
        Framed {
            result: Err(
                CodecError::MessageTooLarge { size: total as usize, max_size: max_size as usize },
            ),
            rest: src,
        }
    } else if src.len() < total {
        Framed { result: Ok(None), rest: src }
    } else {
        match read_trailer(src, body_end as int) {
            Err(CodecError::InvalidTrailer { offset }) => Framed {
                result: Err(CodecError::InvalidTrailer { offset }),
                rest: src.skip(resync(src)),
            },
            Err(e) => Framed { result: Err(e), rest: src.skip(total as int) },
            Ok(declared) => {
                let calculated = checksum_of(src.take(body_end as int));
                if validate_checksum && calculated != declared {
                    Framed {
                        result: Err(CodecError::ChecksumMismatch { calculated, declared }),
                        rest: src.skip(total as int),
                    }
                } else {
                    Framed {
                        result: Ok(Some(src.take(total as int))),
                        rest: src.skip(total as int),
                    }
                }
            },
        }
    }
}

/// Takes the first frame out of a buffer.
pub open spec fn frame_stream(src: Seq<u8>, max_size: nat, validate_checksum: bool) -> Framed {
    if src.len() < MIN_FRAME_LEN {
        Framed { result: Ok(None), rest: src }
    } else if src[0] != 0x38 || src[1] != 0x3d {
        Framed { result: Err(CodecError::InvalidBeginString), rest: src.skip(resync(src)) }
    } else {
        match read_header(src) {
            Header::Partial => Framed {
                result: match partial_header(src.len(), max_size) {
                    Some(e) => Err(e),
                    None => Ok(None),
                },
                rest: src,
            },
            Header::Malformed(e) => Framed { result: Err(e), rest: src },
            Header::BodyEnd(body_end) => take_frame(src, body_end, max_size, validate_checksum),
        }
    }
}

} // verus!

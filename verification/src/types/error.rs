//! Typed errors of the tag=value layer and of the message store.

use crate::outside::decimal::{ascii_chars, decimal, format_uint};
use crate::outside::text::{hex_chars, hex_text};
use vstd::prelude::*;

verus! {

/// Reason a `MsgType` (35) value cannot be used.
#[derive(Debug, Clone, Copy, PartialEq, Eq, Structural)]
pub enum MsgTypeError {
    /// The value is empty.
    Empty,
    /// The value is longer than the bound on a message type code.
    TooLong {
        /// Length of the value, in bytes.
        len: usize,
        /// The maximum accepted, in bytes.
        max_len: usize,
    },
    /// The value carries a byte that cannot appear in a message type code.
    IllegalByte {
        /// The byte that was refused.
        byte: u8,
        /// Its zero-based position in the value.
        position: usize,
    },
}

/// The text of a [`MsgTypeError`].
pub open spec fn msg_type_error_text(error: MsgTypeError) -> Seq<char> {
    match error {
        MsgTypeError::Empty => "msg type is empty"@,
        MsgTypeError::TooLong { len, max_len } => "msg type is "@ + ascii_chars(decimal(len as nat))
            + " bytes, over the "@ + ascii_chars(decimal(max_len as nat)) + "-byte maximum"@,
        MsgTypeError::IllegalByte { byte, position } => "msg type contains illegal byte 0x"@
            + hex_chars(byte) + " at position "@ + ascii_chars(decimal(position as nat)),
    }
}

impl MsgTypeError {
    /// Returns the reason as text.
    pub fn to_string(&self) -> (text: String)
        ensures
            text@ == msg_type_error_text(*self),
    {
        match self {
            MsgTypeError::Empty => String::from_str("msg type is empty"),
            MsgTypeError::TooLong { len, max_len } => {
                let mut text = String::from_str("msg type is ");
                text.append(format_uint(*len as u64).as_str());
                text.append(" bytes, over the ");
                text.append(format_uint(*max_len as u64).as_str());
                text.append("-byte maximum");
                text
            },
            MsgTypeError::IllegalByte { byte, position } => {
                let mut text = String::from_str("msg type contains illegal byte 0x");
                text.append(hex_text(*byte).as_str());
                text.append(" at position ");
                text.append(format_uint(*position as u64).as_str());
                text
            },
        }
    }
}

/// Reason a frame, or a field of it, cannot be decoded.
#[derive(Debug, PartialEq, Eq)]
#[allow(inconsistent_fields)]
#[non_exhaustive]
pub enum DecodeError {
    /// The input ends before the message does.
    Incomplete,
    /// The first field is not `BeginString` (8).
    InvalidBeginString,
    /// The second field is not `BodyLength` (9).
    MissingBodyLength,
    /// `BodyLength` (9) is not a byte count, or is not the length of the body.
    InvalidBodyLength,
    /// The third field is not `MsgType` (35).
    MissingMsgType,
    /// `MsgType` (35) holds a value that is not a message type code.
    InvalidMsgType(MsgTypeError),
    /// The bytes before `=` are not a tag number, or there is no `=`.
    ///
    /// Carries the leading bytes of the offending input as text.
    InvalidTag(String),
    /// The value of the field is not terminated by SOH.
    UnterminatedField {
        /// Tag of the field.
        tag: u32,
    },
    /// A `LENGTH` field declares a count that its `DATA` field does not have.
    InvalidDataLength {
        /// Tag of the `DATA` field.
        data_tag: u32,
        /// The declared byte count.
        declared: usize,
        /// The bytes that the value may take at most.
        available: usize,
    },
    /// The value of a field is malformed.
    InvalidFieldValue {
        /// Tag of the field.
        tag: u32,
        /// What is wrong with the value.
        reason: String,
    },
    /// The declared `CheckSum` (10) is not that of the message.
    ChecksumMismatch {
        /// The checksum of the message.
        calculated: u8,
        /// The checksum that tag 10 declares.
        declared: u8,
    },
    /// A range of the message lies outside its buffer.
    RangeOutOfBounds {
        /// Start of the range.
        start: usize,
        /// End of the range.
        end: usize,
        /// Length of the buffer.
        buffer_len: usize,
    },
    /// A value that is read as text is not valid UTF-8.
    InvalidUtf8(core::str::Utf8Error),
}

/// What a [`DecodeError`] says, with text as a sequence of characters.
#[verifier::ext_equal]
#[allow(inconsistent_fields)]
pub enum DecodeErrorView {
    Incomplete,
    InvalidBeginString,
    MissingBodyLength,
    InvalidBodyLength,
    MissingMsgType,
    InvalidMsgType(MsgTypeError),
    InvalidTag(Seq<char>),
    UnterminatedField { tag: u32 },
    InvalidDataLength { data_tag: u32, declared: nat, available: nat },
    InvalidFieldValue { tag: u32, reason: Seq<char> },
    ChecksumMismatch { calculated: u8, declared: u8 },
    RangeOutOfBounds { start: nat, end: nat, buffer_len: nat },
    InvalidUtf8,
}

impl View for DecodeError {
    type V = DecodeErrorView;

    open spec fn view(&self) -> DecodeErrorView {
        match *self {
            DecodeError::Incomplete => DecodeErrorView::Incomplete,
            DecodeError::InvalidBeginString => DecodeErrorView::InvalidBeginString,
            DecodeError::MissingBodyLength => DecodeErrorView::MissingBodyLength,
            DecodeError::InvalidBodyLength => DecodeErrorView::InvalidBodyLength,
            DecodeError::MissingMsgType => DecodeErrorView::MissingMsgType,
            DecodeError::InvalidMsgType(error) => DecodeErrorView::InvalidMsgType(error),
            DecodeError::InvalidTag(shown) => DecodeErrorView::InvalidTag(shown@),
            DecodeError::UnterminatedField { tag } => DecodeErrorView::UnterminatedField { tag },
            DecodeError::InvalidDataLength { data_tag, declared, available } =>
                DecodeErrorView::InvalidDataLength {
                data_tag,
                declared: declared as nat,
                available: available as nat,
            },
            DecodeError::InvalidFieldValue { tag, reason } => DecodeErrorView::InvalidFieldValue {
                tag,
                reason: reason@,
            },
            DecodeError::ChecksumMismatch { calculated, declared } =>
                DecodeErrorView::ChecksumMismatch { calculated, declared },
            DecodeError::RangeOutOfBounds { start, end, buffer_len } =>
                DecodeErrorView::RangeOutOfBounds {
                start: start as nat,
                end: end as nat,
                buffer_len: buffer_len as nat,
            },
            DecodeError::InvalidUtf8(_) => DecodeErrorView::InvalidUtf8,
        }
    }
}

/// Reason a field cannot be written, or a frame cannot be produced.
#[derive(Debug, PartialEq, Eq)]
#[non_exhaustive]
pub enum EncodeError {
    /// A field that every message carries was not written where it belongs.
    MissingRequiredField {
        /// Tag of the field.
        tag: u32,
    },
    /// The value of a field cannot be written.
    InvalidFieldValue {
        /// Tag of the field.
        tag: u32,
        /// What is wrong with the value.
        reason: String,
    },
    /// The value of a field is longer than the field allows.
    FieldTooLong {
        /// Tag of the field.
        tag: u32,
        /// Length of the value, in bytes.
        length: usize,
        /// The maximum accepted, in bytes.
        max_length: usize,
    },
    /// The frame does not fit its buffer.
    BufferOverflow {
        /// Bytes that were to be written.
        needed: usize,
        /// Bytes that there was room for.
        available: usize,
    },
}

/// What an [`EncodeError`] says, with text as a sequence of characters.
#[verifier::ext_equal]
pub enum EncodeErrorView {
    MissingRequiredField { tag: u32 },
    InvalidFieldValue { tag: u32, reason: Seq<char> },
    FieldTooLong { tag: u32, length: nat, max_length: nat },
    BufferOverflow { needed: nat, available: nat },
}

impl View for EncodeError {
    type V = EncodeErrorView;

    open spec fn view(&self) -> EncodeErrorView {
        match *self {
            EncodeError::MissingRequiredField { tag } => EncodeErrorView::MissingRequiredField {
                tag,
            },
            EncodeError::InvalidFieldValue { tag, reason } => EncodeErrorView::InvalidFieldValue {
                tag,
                reason: reason@,
            },
            EncodeError::FieldTooLong { tag, length, max_length } =>
                EncodeErrorView::FieldTooLong {
                tag,
                length: length as nat,
                max_length: max_length as nat,
            },
            EncodeError::BufferOverflow { needed, available } => EncodeErrorView::BufferOverflow {
                needed: needed as nat,
                available: available as nat,
            },
        }
    }
}

impl Clone for EncodeError {
    fn clone(&self) -> (copy: Self)
        ensures
            copy == *self,
    {
        match self {
            EncodeError::MissingRequiredField { tag } => EncodeError::MissingRequiredField {
                tag: *tag,
            },
            EncodeError::InvalidFieldValue { tag, reason } => EncodeError::InvalidFieldValue {
                tag: *tag,
                reason: reason.clone(),
            },
            EncodeError::FieldTooLong { tag, length, max_length } => EncodeError::FieldTooLong {
                tag: *tag,
                length: *length,
                max_length: *max_length,
            },
            EncodeError::BufferOverflow { needed, available } => EncodeError::BufferOverflow {
                needed: *needed,
                available: *available,
            },
        }
    }
}

/// Reason a message store cannot answer a request.
#[derive(Debug, Clone, Copy, PartialEq, Eq, Structural)]
#[non_exhaustive]
pub enum StoreError {
    /// The requested range names no messages: it starts at 0 or ends before
    /// it starts.
    InvalidRange {
        /// First sequence number of the range.
        begin: u64,
        /// Last sequence number of the range.
        end: u64,
    },
    /// The requested range is legal and holds no stored message.
    RangeNotAvailable {
        /// First sequence number of the range.
        begin: u64,
        /// Last sequence number of the range.
        end: u64,
    },
    /// The store failed for a reason of its own.
    Failed,
}

} // verus!

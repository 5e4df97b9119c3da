//! What an encoder writes: fields, frames, and the reasons a write is refused.

use crate::outside::decimal::{ascii_chars, decimal};
use crate::outside::search::first_index;
use crate::outside::text::hex_chars;
use crate::tagvalue::checksum::{checksum_digits, checksum_of};
use crate::tagvalue::pairs::{is_data, is_length, is_pair};
use crate::tagvalue::wire::{EQUALS, SOH};
use crate::types::charset::Charset;
use crate::types::error::{msg_type_error_text, EncodeErrorView, MsgTypeError};
use crate::types::field::FieldView;
use crate::types::message::{code_error, written_code};
use vstd::prelude::*;
use vstd::utf8::valid_utf8;

verus! {

/// Maximum length of a `BeginString` (8) value in bytes.
///
/// The longest that reaches the wire, `FIXT.1.1`, is eight bytes. A longer
/// value is refused, never truncated.
pub const BEGIN_STRING_MAX_LEN: usize = 16;

/// Maximum number of digits a `BodyLength` (9) value can need.
pub const MAX_BODY_LENGTH_DIGITS: usize = 20;

/// Bytes reserved at the front of the buffer for `8=..<SOH>9=..<SOH>`: `8=`, a
/// `BeginString` of [`BEGIN_STRING_MAX_LEN`] bytes, SOH, `9=`,
/// [`MAX_BODY_LENGTH_DIGITS`] digits, SOH.
pub const HEADER_RESERVE: usize = 42;

/// Length of the `10=NNN<SOH>` trailer in bytes.
pub const TRAILER_LEN: usize = 7;

/// What one successful write puts into the body.
#[verifier::ext_equal]
pub enum Entry {
    /// An ordinary field.
    Plain { tag: u32, value: Seq<u8> },
    /// A `DATA` field, preceded by the `LENGTH` field that declares its count.
    Counted { length_tag: u32, data_tag: u32, value: Seq<u8> },
}

/// The bytes `tag=value<SOH>`.
pub open spec fn field_bytes(tag: u32, value: Seq<u8>) -> Seq<u8> {
    decimal(tag as nat) + seq![EQUALS] + value + seq![SOH]
}

impl Entry {
    /// The bytes that the entry puts into the body.
    pub open spec fn bytes(self) -> Seq<u8> {
        match self {
            Entry::Plain { tag, value } => field_bytes(tag, value),
            Entry::Counted { length_tag, data_tag, value } => field_bytes(
                length_tag,
                decimal(value.len()),
            ) + field_bytes(data_tag, value),
        }
    }

    /// The fields that the entry consists of.
    pub open spec fn fields(self) -> Seq<FieldView> {
        match self {
            Entry::Plain { tag, value } => seq![FieldView { tag, value }],
            Entry::Counted { length_tag, data_tag, value } => seq![
                FieldView { tag: length_tag, value: decimal(value.len()) },
                FieldView { tag: data_tag, value },
            ],
        }
    }

    /// The tag of the first field of the entry.
    pub open spec fn first_tag(self) -> u32 {
        match self {
            Entry::Plain { tag, value } => tag,
            Entry::Counted { length_tag, data_tag, value } => length_tag,
        }
    }

    /// Whether the entry may stand in a body.
    pub open spec fn valid(self) -> bool {
        match self {
            Entry::Plain { tag, value } => plain_rejection(tag, value) is None,
            Entry::Counted { length_tag, data_tag, value } => counted_rejection(
                length_tag,
                data_tag,
                value,
            ) is None,
        }
    }
}

/// The bytes of a body.
pub open spec fn body_bytes(entries: Seq<Entry>) -> Seq<u8>
    decreases entries.len(),
{
    if entries.len() == 0 {
        Seq::empty()
    } else {
        body_bytes(entries.drop_last()) + entries.last().bytes()
    }
}

/// The fields of a body.
pub open spec fn body_fields(entries: Seq<Entry>) -> Seq<FieldView>
    decreases entries.len(),
{
    if entries.len() == 0 {
        Seq::empty()
    } else {
        body_fields(entries.drop_last()) + entries.last().fields()
    }
}

/// The bytes `8=<begin_string><SOH>9=<body_len><SOH>`.
pub open spec fn header_bytes(begin_string: Seq<u8>, body_len: nat) -> Seq<u8> {
    field_bytes(8, begin_string) + field_bytes(9, decimal(body_len))
}

/// The bytes `10=<checksum><SOH>`.
pub open spec fn trailer_bytes(checksum: u8) -> Seq<u8> {
    field_bytes(10, checksum_digits(checksum))
}

/// The bytes that the checksum of a frame covers: the header and the body.
pub open spec fn covered_bytes(begin_string: Seq<u8>, entries: Seq<Entry>) -> Seq<u8> {
    header_bytes(begin_string, body_bytes(entries).len()) + body_bytes(entries)
}

/// The bytes of a frame.
pub open spec fn frame_bytes(begin_string: Seq<u8>, entries: Seq<Entry>) -> Seq<u8> {
    let covered = covered_bytes(begin_string, entries);
    covered + trailer_bytes(checksum_of(covered))
}

/// The bytes that a `BeginString` consists of: graphic ASCII except `=`.
pub open spec fn begin_string_bytes() -> Charset {
    Charset { space: false, equals: false }
}

/// Whether the first field of a body is `MsgType` (35).
pub open spec fn starts_with_msg_type(entries: Seq<Entry>) -> bool {
    entries.len() > 0 && entries[0].first_tag() == 35
}

/// Whether a frame can be made of `begin_string` and `entries`.
pub open spec fn frameable(begin_string: Seq<u8>, entries: Seq<Entry>) -> bool {
    &&& begin_string_rejection(begin_string) is None
    &&& starts_with_msg_type(entries)
    &&& forall|i: int| 0 <= i < entries.len() ==> (#[trigger] entries[i]).valid()
}

/// The decimal notation of `n`, as text.
pub open spec fn number_text(n: nat) -> Seq<char> {
    ascii_chars(decimal(n))
}

pub open spec fn zero_tag() -> EncodeErrorView {
    EncodeErrorView::InvalidFieldValue {
        tag: 0,
        reason: "0 is not a legal FIX field tag: tags are positive integers starting at 1"@,
    }
}

pub open spec fn framing_tag(tag: u32) -> EncodeErrorView {
    EncodeErrorView::InvalidFieldValue {
        tag,
        reason: "tag "@ + number_text(tag as nat)
            + " is stamped by the encoder itself; writing it into the body would give the frame two of it"@,
    }
}

pub open spec fn data_tag_needs_pair(tag: u32) -> EncodeErrorView {
    EncodeErrorView::InvalidFieldValue {
        tag,
        reason: "tag "@ + number_text(tag as nat)
            + " belongs to a LENGTH/DATA field pair and must be written with put_data, which derives the declared count from the payload"@,
    }
}

pub open spec fn unpaired_data_tag(length_tag: u32, data_tag: u32) -> EncodeErrorView {
    EncodeErrorView::InvalidFieldValue {
        tag: data_tag,
        reason: "tag "@ + number_text(data_tag as nat)
            + " is not the DATA field the FIX specification pairs with LENGTH field "@
            + number_text(length_tag as nat)
            + "; a decoder frames a DATA value by the count in its own paired LENGTH field"@,
    }
}

pub open spec fn empty_value(tag: u32) -> EncodeErrorView {
    EncodeErrorView::InvalidFieldValue {
        tag,
        reason: "value is empty; a FIX field carries at least one byte"@,
    }
}

pub open spec fn soh_in_value(tag: u32, position: nat) -> EncodeErrorView {
    EncodeErrorView::InvalidFieldValue {
        tag,
        reason: "value contains the SOH delimiter at offset "@ + number_text(position)
            + ", which would terminate the field early and inject the remainder as further fields"@,
    }
}

pub open spec fn illegal_begin_string_byte(byte: u8, position: nat) -> EncodeErrorView {
    EncodeErrorView::InvalidFieldValue {
        tag: 8,
        reason: "begin string contains illegal byte 0x"@ + hex_chars(byte) + " at offset "@
            + number_text(position)
            + ": only printable ASCII (0x21..=0x7e) except '=' is allowed"@,
    }
}

pub open spec fn already_finished(tag: u32) -> EncodeErrorView {
    EncodeErrorView::InvalidFieldValue {
        tag,
        reason: "the frame is already finished; call clear() before encoding the next message"@,
    }
}

/// Why `value` is refused as a `MsgType` (35).
pub open spec fn msg_type_rejection(value: Seq<u8>) -> Option<EncodeErrorView> {
    if !valid_utf8(value) {
        Some(
            EncodeErrorView::InvalidFieldValue { tag: 35, reason: "msg type is not valid UTF-8"@ },
        )
    } else {
        match code_error(value, written_code()) {
            None => None,
            Some(MsgTypeError::TooLong { len, max_len }) => Some(
                EncodeErrorView::FieldTooLong {
                    tag: 35,
                    length: len as nat,
                    max_length: max_len as nat,
                },
            ),
            Some(error) => Some(
                EncodeErrorView::InvalidFieldValue { tag: 35, reason: msg_type_error_text(error) },
            ),
        }
    }
}

/// Why `tag` is refused as the tag of an ordinary field.
pub open spec fn body_tag_rejection(tag: u32) -> Option<EncodeErrorView> {
    if tag == 0 {
        Some(zero_tag())
    } else if 8 <= tag <= 10 {
        Some(framing_tag(tag))
    } else if is_length(tag) || is_data(tag) {
        Some(data_tag_needs_pair(tag))
    } else {
        None
    }
}

/// Why an ordinary field is refused.
pub open spec fn plain_rejection(tag: u32, value: Seq<u8>) -> Option<EncodeErrorView> {
    if body_tag_rejection(tag) is Some {
        body_tag_rejection(tag)
    } else if value.len() == 0 {
        Some(empty_value(tag))
    } else {
        match first_index(value, SOH) {
            Some(position) => Some(soh_in_value(tag, position as nat)),
            None => if tag == 35 {
                msg_type_rejection(value)
            } else {
                None
            },
        }
    }
}

/// Why a `LENGTH`/`DATA` pair is refused.
pub open spec fn counted_rejection(
    length_tag: u32,
    data_tag: u32,
    value: Seq<u8>,
) -> Option<EncodeErrorView> {
    if length_tag == 0 || data_tag == 0 {
        Some(zero_tag())
    } else if !is_pair(length_tag, data_tag) {
        Some(unpaired_data_tag(length_tag, data_tag))
    } else if value.len() == 0 {
        Some(empty_value(data_tag))
    } else {
        None
    }
}

/// Why a `BeginString` is refused.
pub open spec fn begin_string_rejection(value: Seq<u8>) -> Option<EncodeErrorView> {
    if value.len() == 0 {
        Some(empty_value(8))
    } else if value.len() > BEGIN_STRING_MAX_LEN {
        Some(
            EncodeErrorView::FieldTooLong {
                tag: 8,
                length: value.len(),
                max_length: BEGIN_STRING_MAX_LEN as nat,
            },
        )
    } else {
        match begin_string_bytes().first_outside(value) {
            Some(at) => Some(illegal_begin_string_byte(value[at], at as nat)),
            None => None,
        }
    }
}

/// The state of an encoder.
#[verifier::ext_equal]
pub struct EncoderView {
    /// The `BeginString` of the frames, empty where it was refused.
    pub begin_string: Seq<u8>,
    /// What was written into the body so far.
    pub entries: Seq<Entry>,
    /// Whether the frame was stamped.
    pub finished: bool,
    /// Why the `BeginString` was refused.
    pub begin_string_error: Option<EncodeErrorView>,
    /// The first write of the current message that was refused.
    pub error: Option<EncodeErrorView>,
}

impl EncoderView {
    /// An encoder that nothing was written to.
    pub open spec fn fresh(begin_string: Seq<u8>) -> EncoderView {
        EncoderView {
            begin_string: match begin_string_rejection(begin_string) {
                None => begin_string,
                Some(_) => Seq::empty(),
            },
            entries: Seq::empty(),
            finished: false,
            begin_string_error: begin_string_rejection(begin_string),
            error: None,
        }
    }

    /// The refusal that keeps the frame from being produced.
    pub open spec fn first_error(self) -> Option<EncodeErrorView> {
        match self.begin_string_error {
            Some(e) => Some(e),
            None => self.error,
        }
    }

    /// Remembers the first refused write.
    pub open spec fn record(self, e: EncodeErrorView) -> EncoderView {
        EncoderView {
            error: match self.error {
                Some(first) => Some(first),
                None => Some(e),
            },
            ..self
        }
    }

    /// Whether `extra` more bytes of body fit into a buffer.
    pub open spec fn fits(self, extra: nat) -> bool {
        HEADER_RESERVE + body_bytes(self.entries).len() + extra + TRAILER_LEN <= isize::MAX
    }

    /// Appends an entry that is not refused; `needed` is the length of its
    /// value. An entry that no buffer can hold is a refused write.
    pub open spec fn write(self, entry: Entry, needed: nat) -> EncoderView {
        if self.fits(entry.bytes().len()) {
            EncoderView { entries: self.entries.push(entry), ..self }
        } else {
            self.record(EncodeErrorView::BufferOverflow { needed, available: 0 })
        }
    }

    /// Writes an ordinary field, or says why it is refused.
    pub open spec fn try_plain(self, tag: u32, value: Seq<u8>) -> Result<
        EncoderView,
        EncodeErrorView,
    > {
        if self.finished {
            Err(already_finished(tag))
        } else {
            match plain_rejection(tag, value) {
                Some(e) => Err(e),
                None => Ok(self.write(Entry::Plain { tag, value }, value.len())),
            }
        }
    }

    /// Writes an ordinary field, or remembers that it is refused.
    pub open spec fn plain(self, tag: u32, value: Seq<u8>) -> EncoderView {
        match self.try_plain(tag, value) {
            Ok(next) => next,
            Err(e) => self.record(e),
        }
    }

    /// Writes a `LENGTH`/`DATA` pair, or says why it is refused.
    pub open spec fn try_counted(self, length_tag: u32, data_tag: u32, value: Seq<u8>) -> Result<
        EncoderView,
        EncodeErrorView,
    > {
        if self.finished {
            Err(already_finished(data_tag))
        } else {
            match counted_rejection(length_tag, data_tag, value) {
                Some(e) => Err(e),
                None => Ok(self.write(Entry::Counted { length_tag, data_tag, value }, value.len())),
            }
        }
    }

    /// Writes a `LENGTH`/`DATA` pair, or remembers that it is refused.
    pub open spec fn counted(self, length_tag: u32, data_tag: u32, value: Seq<u8>) -> EncoderView {
        match self.try_counted(length_tag, data_tag, value) {
            Ok(next) => next,
            Err(e) => self.record(e),
        }
    }

    /// The frame, or the reason there is none.
    pub open spec fn frame(self) -> Result<Seq<u8>, EncodeErrorView> {
        match self.first_error() {
            Some(e) => Err(e),
            None => if starts_with_msg_type(self.entries) {
                Ok(frame_bytes(self.begin_string, self.entries))
            } else {
                Err(EncodeErrorView::MissingRequiredField { tag: 35 })
            },
        }
    }

    /// The encoder after the frame was asked for.
    pub open spec fn after_finish(self) -> EncoderView {
        EncoderView { finished: self.finished || self.frame() is Ok, ..self }
    }

    /// The encoder at the start of the next message.
    pub open spec fn cleared(self) -> EncoderView {
        EncoderView { entries: Seq::empty(), finished: false, error: None, ..self }
    }
}

} // verus!

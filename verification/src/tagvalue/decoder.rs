//! Zero-copy FIX message decoder.
//!
//! Field values are slices of the input buffer. The decoder parses untrusted
//! input: every malformed frame maps to a typed [`DecodeError`].

use crate::outside::search::find;
use crate::outside::small::{fields_in, no_fields, push_field, Small};
use crate::outside::text::lossy_text;
use crate::tagvalue::checksum::{calculate_checksum, parse_checksum};
use crate::tagvalue::digits::{parse_length, parse_tag};
use crate::tagvalue::pairs::paired_data_tag;
pub use crate::tagvalue::wire::{EQUALS, SOH};
use crate::tagvalue::wire::{
    bad_length, bad_tag, decode_frame, lemma_read_field_advances, read_field, scan, shown,
    Announced, Outcome, ScanEnd, MAX_TAG_DIAGNOSTIC_LEN,
};
use crate::types::error::{DecodeError, DecodeErrorView};
use crate::types::field::FieldRef;
use crate::types::message::{MsgType, RawMessage};
use vstd::prelude::*;
use vstd::slice::slice_subrange;
use vstd::utf8::encode_utf8_decode_utf8;

verus! {

/// A `DATA` field announced by the `LENGTH` field just consumed.
#[derive(Debug, Clone, Copy)]
struct PendingData {
    /// Tag of the `DATA` field expected next.
    data_tag: u32,
    /// Byte count declared by the `LENGTH` field.
    declared: usize,
}

impl View for PendingData {
    type V = Announced;

    closed spec fn view(&self) -> Announced {
        Announced { data_tag: self.data_tag, declared: self.declared as nat }
    }
}

/// The state of a [`Decoder`].
#[verifier::ext_equal]
pub struct DecoderView {
    /// The whole input.
    pub input: Seq<u8>,
    /// Offset of the first byte that is not consumed.
    pub offset: nat,
    /// Whether the value of `CheckSum` (10) is verified.
    pub validate_checksum: bool,
    /// What the field before the offset announced.
    pub announced: Option<Announced>,
}

/// Zero-copy FIX message decoder.
#[derive(Debug)]
pub struct Decoder<'a> {
    /// Input buffer.
    input: &'a [u8],
    /// Current position in the buffer.
    offset: usize,
    /// Whether to validate checksums.
    validate_checksum: bool,
    /// `DATA` field framing announced by the previous `LENGTH` field.
    pending_data: Option<PendingData>,
}

impl View for Decoder<'_> {
    type V = DecoderView;

    closed spec fn view(&self) -> DecoderView {
        DecoderView {
            input: self.input@,
            offset: self.offset as nat,
            validate_checksum: self.validate_checksum,
            announced: match self.pending_data {
                Some(pending) => Some(pending@),
                None => None,
            },
        }
    }
}

impl<'a> Decoder<'a> {
    #[verifier::type_invariant]
    spec fn offset_in_input(self) -> bool {
        self.offset <= self.input@.len()
    }

    /// Creates a new decoder for the given input buffer.
    ///
    /// Checksums are validated unless
    /// [`Decoder::with_checksum_validation`] says otherwise.
    pub fn new(input: &'a [u8]) -> (decoder: Self)
        ensures
            decoder@ == (DecoderView {
                input: input@,
                offset: 0,
                validate_checksum: true,
                announced: None,
            }),
    {
        Decoder { input, offset: 0, validate_checksum: true, pending_data: None }
    }

    /// Sets whether to validate checksums during decoding.
    pub fn with_checksum_validation(self, validate: bool) -> (decoder: Self)
        ensures
            decoder@ == (DecoderView { validate_checksum: validate, ..self@ }),
    {
        proof {
            use_type_invariant(&self);
        }
        Decoder {
            input: self.input,
            offset: self.offset,
            validate_checksum: validate,
            pending_data: self.pending_data,
        }
    }

    /// Decodes a complete FIX message from the buffer.
    ///
    /// The decoder can be called repeatedly to read consecutive messages out
    /// of a single buffer; the ranges of the returned [`RawMessage`] are
    /// relative to that message's own slice, not to the whole input.
    ///
    /// # Errors
    /// [`DecodeError`] if the message is malformed or incomplete.
    #[verifier::rlimit(60)]
    pub fn decode(&mut self) -> (message: Result<RawMessage<'a>, DecodeError>)
        ensures
            ({
                let run = decode_frame(old(self)@.input, old(self)@.offset, old(
                    self,
                )@.validate_checksum);
                &&& final(self)@ == (DecoderView {
                    offset: run.offset,
                    announced: run.announced,
                    ..old(self)@
                })
                &&& match message {
                    Ok(m) => run.result == Ok::<_, DecodeErrorView>(m@),
                    Err(e) => run.result == Err::<crate::types::message::RawMessageView, _>(e@),
                }
            }),
    {
        proof {
            use_type_invariant(&*self);
        }
        let start_offset: usize = self.offset;
        // What a LENGTH field announces never carries across a message.
        self.pending_data = None;

        let begin_string_field = match self.next_field_bounded(None) {
            Ok(Some(field)) => field,
            Ok(None) => {
                return Err(DecodeError::Incomplete);
            },
            Err(error) => {
                return Err(error);
            },
        };
        proof {
            lemma_read_field_advances(self.input@, start_offset as nat, None, None);
        }
        if begin_string_field.tag != 8 {
            return Err(DecodeError::InvalidBeginString);
        }
        let value_end: usize = self.offset - 1 - start_offset;
        let begin_string = (value_end - begin_string_field.value.len())..value_end;

        let ghost begin = (self@.offset, self@.announced);
        let body_length_field = match self.next_field_bounded(None) {
            Ok(Some(field)) => field,
            Ok(None) => {
                return Err(DecodeError::MissingBodyLength);
            },
            Err(error) => {
                return Err(error);
            },
        };
        proof {
            lemma_read_field_advances(self.input@, begin.0, begin.1, None);
        }
        if body_length_field.tag != 9 {
            return Err(DecodeError::MissingBodyLength);
        }
        let body_length: usize = match parse_length(body_length_field.value) {
            Some(length) => length,
            None => {
                return Err(DecodeError::InvalidBodyLength);
            },
        };

        // Every field that follows is bounded by the end of the body: a counted
        // value must not reach past it into the trailer.
        let body_start: usize = self.offset;
        let body_end: usize = match body_start.checked_add(body_length) {
            Some(end) => end,
            None => {
                return Err(DecodeError::InvalidBodyLength);
            },
        };
        let limit: Option<usize> = Some(body_end);

        let ghost length = (self@.offset, self@.announced);
        let msg_type_field = match self.next_field_bounded(limit) {
            Ok(Some(field)) => field,
            Ok(None) => {
                return Err(DecodeError::MissingMsgType);
            },
            Err(error) => {
                return Err(error);
            },
        };
        proof {
            lemma_read_field_advances(self.input@, length.0, length.1, Some(body_end as int));
        }
        if msg_type_field.tag != 35 {
            return Err(DecodeError::MissingMsgType);
        }
        let code = match msg_type_field.as_str() {
            Ok(code) => code,
            Err(error) => {
                return Err(error);
            },
        };
        proof {
            encode_utf8_decode_utf8(code@);
        }
        let msg_type = match MsgType::parse(code) {
            Ok(msg_type) => msg_type,
            Err(error) => {
                return Err(DecodeError::InvalidMsgType(error));
            },
        };

        let mut fields = no_fields();
        push_field(&mut fields, begin_string_field);
        push_field(&mut fields, body_length_field);
        push_field(&mut fields, msg_type_field);
        proof {
            assert(fields_in(fields) =~= seq![
                begin_string_field@,
                body_length_field@,
            ].push(msg_type_field@));
        }
        let (checksum_value, checksum_start) = match self.collect_fields(body_end, &mut fields) {
            Ok(Some(found)) => found,
            Ok(None) => {
                return Err(DecodeError::Incomplete);
            },
            Err(error) => {
                return Err(error);
            },
        };

        // A well-formed frame declares exactly the bytes between the SOH of
        // BodyLength and the start of the CheckSum field.
        if body_end != checksum_start {
            return Err(DecodeError::InvalidBodyLength);
        }
        proof {
            use_type_invariant(&*self);
        }
        if self.validate_checksum {
            let declared = match parse_checksum(checksum_value) {
                Some(declared) => declared,
                None => {
                    return Err(
                        DecodeError::InvalidFieldValue {
                            tag: 10,
                            reason: String::from_str("invalid checksum format"),
                        },
                    );
                },
            };
            let calculated = calculate_checksum(
                slice_subrange(self.input, start_offset, checksum_start),
            );
            if calculated != declared {
                return Err(DecodeError::ChecksumMismatch { calculated, declared });
            }
        }
        let body = (body_start - start_offset)..(body_end - start_offset);
        let buffer = slice_subrange(self.input, start_offset, self.offset);
        RawMessage::new(buffer, begin_string, body, msg_type, fields)
    }

    /// Reads the fields up to and including `CheckSum` (10), appends those
    /// before it to `fields`, and returns the value of `CheckSum` and the
    /// offset of its first byte.
    fn collect_fields(
        &mut self,
        body_end: usize,
        fields: &mut Small<FieldRef<'a>, 32>,
    ) -> (found: Result<Option<(&'a [u8], usize)>, DecodeError>)
        ensures
            ({
                let run = scan(
                    old(self)@.input,
                    old(self)@.offset,
                    old(self)@.announced,
                    Some(body_end as int),
                    fields_in(*old(fields)),
                );
                &&& final(self)@ == (DecoderView {
                    offset: run.offset,
                    announced: run.announced,
                    ..old(self)@
                })
                &&& fields_in(*final(fields)) == run.fields
                &&& final(self)@.offset <= old(self)@.input.len()
                &&& match found {
                    Ok(Some((value, at))) => run.end == (ScanEnd::CheckSum {
                        value: value@,
                        at: at as nat,
                    }) && old(self)@.offset <= at < final(self)@.offset,
                    Ok(None) => run.end == ScanEnd::Exhausted,
                    Err(e) => run.end == ScanEnd::Fail(e@),
                }
            }),
    {
        proof {
            use_type_invariant(&*self);
        }
        let ghost before = self@;
        loop
            invariant
                self@.input == before.input,
                self@.validate_checksum == before.validate_checksum,
                before.offset <= self@.offset <= before.input.len(),
                before == old(self)@,
                scan(
                    before.input,
                    before.offset,
                    before.announced,
                    Some(body_end as int),
                    fields_in(*old(fields)),
                ) == scan(
                    self@.input,
                    self@.offset,
                    self@.announced,
                    Some(body_end as int),
                    fields_in(*fields),
                ),
            decreases before.input.len() - self@.offset,
        {
            let field_start: usize = self.offset;
            let ghost announced = self@.announced;
            let next = self.next_field_bounded(Some(body_end));
            proof {
                lemma_read_field_advances(
                    before.input,
                    field_start as nat,
                    announced,
                    Some(body_end as int),
                );
            }
            match next {
                Ok(Some(field)) => {
                    if field.tag == 10 {
                        return Ok(Some((field.value, field_start)));
                    }
                    push_field(fields, field);
                },
                Ok(None) => {
                    return Ok(None);
                },
                Err(error) => {
                    return Err(error);
                },
            }
        }
    }

    /// Parses the next field from the buffer.
    ///
    /// A field is `tag=value<SOH>`. A value belonging to a `DATA` tag is framed
    /// by the count declared in the `LENGTH` field immediately before it, so it
    /// may legally contain SOH and `=`; without a frame, it is bounded only by
    /// the buffer.
    ///
    /// Returns `Ok(None)` when the buffer is exhausted.
    ///
    /// # Errors
    /// * [`DecodeError::InvalidTag`] - the tag is empty, non-numeric, too long,
    ///   or the field has no `=` delimiter.
    /// * [`DecodeError::UnterminatedField`] - the value is not terminated by
    ///   SOH.
    /// * [`DecodeError::InvalidDataLength`] - a `LENGTH` field declares a count
    ///   the remaining buffer cannot satisfy.
    /// * [`DecodeError::InvalidFieldValue`] - a `LENGTH` field value is not a
    ///   valid byte count.
    pub fn next_field(&mut self) -> (field: Result<Option<FieldRef<'a>>, DecodeError>)
        ensures
            ({
                let step = read_field(
                    old(self)@.input,
                    old(self)@.offset,
                    old(self)@.announced,
                    None,
                );
                &&& final(self)@ == (DecoderView {
                    offset: step.offset,
                    announced: step.announced,
                    ..old(self)@
                })
                &&& match field {
                    Ok(Some(f)) => step.outcome == Outcome::Field(f@),
                    Ok(None) => step.outcome == Outcome::End,
                    Err(e) => step.outcome == Outcome::Fail(e@),
                }
            }),
    {
        self.next_field_bounded(None)
    }

    /// Parses the next field, optionally bounded by the frame's declared body
    /// end.
    fn next_field_bounded(&mut self, body_limit: Option<usize>) -> (field: Result<
        Option<FieldRef<'a>>,
        DecodeError,
    >)
        ensures
            ({
                let limit = match body_limit {
                    Some(end) => Some(end as int),
                    None => None,
                };
                let step = read_field(
                    old(self)@.input,
                    old(self)@.offset,
                    old(self)@.announced,
                    limit,
                );
                &&& final(self)@ == (DecoderView {
                    offset: step.offset,
                    announced: step.announced,
                    ..old(self)@
                })
                &&& final(self)@.offset <= final(self)@.input.len()
                &&& match field {
                    Ok(Some(f)) => step.outcome == Outcome::Field(f@) && f.value@.len() + 1
                        <= step.offset - old(self)@.offset,
                    Ok(None) => step.outcome == Outcome::End,
                    Err(e) => step.outcome == Outcome::Fail(e@),
                }
            }),
    {
        proof {
            use_type_invariant(&*self);
        }
        let ghost input = self.input@;
        let remaining = slice_subrange(self.input, self.offset, self.input.len());
        assert(remaining@ =~= input.skip(self.offset as int));
        if remaining.is_empty() {
            return Ok(None);
        }
        let eq_pos: usize = match find(EQUALS, remaining) {
            Some(at) => at,
            None => {
                return Err(invalid_tag(remaining));
            },
        };
        let tag_bytes = slice_subrange(remaining, 0, eq_pos);
        assert(tag_bytes@ =~= remaining@.take(eq_pos as int));
        let tag: u32 = match parse_tag(tag_bytes) {
            Some(tag) => tag,
            None => {
                return Err(invalid_tag(tag_bytes));
            },
        };
        let value_start: usize = eq_pos + 1;
        let value_bytes = slice_subrange(remaining, value_start, remaining.len());
        let value_offset: usize = self.offset + value_start;
        assert(value_bytes@ =~= input.skip(value_offset as int));

        // What was announced is taken whatever the tag is, so it never leaks
        // past the field that it describes.
        let counted: Option<usize> = match self.pending_data {
            Some(pending) => if pending.data_tag == tag {
                Some(pending.declared)
            } else {
                None
            },
            None => None,
        };
        self.pending_data = None;

        let value_len: usize = match counted {
            Some(declared) => {
                let mut available: usize = value_bytes.len();
                if let Some(limit) = body_limit {
                    if limit < value_offset {
                        return Err(DecodeError::InvalidBodyLength);
                    }
                    if limit - value_offset < available {
                        available = limit - value_offset;
                    }
                }
                if declared >= available || value_bytes[declared] != SOH {
                    return Err(
                        DecodeError::InvalidDataLength { data_tag: tag, declared, available },
                    );
                }
                declared
            },
            None => match find(SOH, value_bytes) {
                Some(at) => at,
                None => {
                    return Err(DecodeError::UnterminatedField { tag });
                },
            },
        };
        let value = slice_subrange(value_bytes, 0, value_len);
        assert(value@ =~= value_bytes@.take(value_len as int));
        self.offset = value_offset + value_len + 1;

        if let Some(data_tag) = paired_data_tag(tag) {
            match parse_length(value) {
                Some(declared) => {
                    self.pending_data = Some(PendingData { data_tag, declared });
                },
                None => {
                    return Err(invalid_length(tag));
                },
            }
        }
        Ok(Some(FieldRef::new(tag, value)))
    }

    /// Returns the current offset in the buffer.
    pub fn offset(&self) -> (offset: usize)
        ensures
            offset == self@.offset,
            offset <= self@.input.len(),
    {
        proof {
            use_type_invariant(self);
        }
        self.offset
    }

    /// Returns the remaining bytes in the buffer.
    pub fn remaining(&self) -> (rest: &'a [u8])
        ensures
            rest@ == self@.input.skip(self@.offset as int),
    {
        proof {
            use_type_invariant(self);
        }
        let rest = slice_subrange(self.input, self.offset, self.input.len());
        assert(rest@ =~= self@.input.skip(self@.offset as int));
        rest
    }

    /// Returns true if the buffer has been fully consumed.
    pub fn is_empty(&self) -> (empty: bool)
        ensures
            empty == (self@.offset >= self@.input.len()),
    {
        self.offset >= self.input.len()
    }

    /// Resets the decoder to the beginning of the buffer.
    pub fn reset(&mut self)
        ensures
            final(self)@ == (DecoderView { offset: 0, announced: None, ..old(self)@ }),
    {
        self.offset = 0;
        self.pending_data = None;
    }
}

/// Builds a [`DecodeError::InvalidTag`] with a bounded diagnostic.
fn invalid_tag(bytes: &[u8]) -> (error: DecodeError)
    ensures
        error@ == bad_tag(bytes@),
{
    let leading = if bytes.len() > MAX_TAG_DIAGNOSTIC_LEN {
        slice_subrange(bytes, 0, MAX_TAG_DIAGNOSTIC_LEN)
    } else {
        bytes
    };
    assert(leading@ =~= shown(bytes@));
    DecodeError::InvalidTag(lossy_text(leading))
}

/// Builds a [`DecodeError::InvalidFieldValue`] for an unparseable `LENGTH`
/// field value.
fn invalid_length(tag: u32) -> (error: DecodeError)
    ensures
        error@ == bad_length(tag),
{
    DecodeError::InvalidFieldValue {
        tag,
        reason: String::from_str("length field value is not a valid byte count"),
    }
}

} // verus!

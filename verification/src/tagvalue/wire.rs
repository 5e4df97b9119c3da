//! The tag=value wire format: what a field is, where it ends, and what a frame
//! is made of.

use crate::outside::search::{first_index, is_first, lemma_first_index_exists};
use crate::outside::text::utf8_lossy;
use crate::tagvalue::checksum::{checksum_of, declared_checksum};
use crate::tagvalue::digits::{length_of, tag_of};
use crate::tagvalue::pairs::data_tag_of;
use crate::types::error::DecodeErrorView;
use crate::types::field::FieldView;
use crate::types::message::{code_error, msg_type_of, read_code, RawMessageView};
use vstd::prelude::*;
use vstd::utf8::{decode_utf8, valid_utf8};

verus! {

/// SOH, the byte that terminates a field.
pub const SOH: u8 = 0x01;

/// `=`, the byte between a tag and its value.
pub const EQUALS: u8 = 0x3d;

/// Maximum number of input bytes that an error message shows.
pub const MAX_TAG_DIAGNOSTIC_LEN: usize = 16;

/// A `DATA` field that the `LENGTH` field just read announces.
#[verifier::ext_equal]
pub struct Announced {
    /// Tag of the `DATA` field.
    pub data_tag: u32,
    /// The byte count that the `LENGTH` field declares.
    pub declared: nat,
}

/// What reading one field gives.
#[verifier::ext_equal]
pub enum Outcome {
    /// The input is exhausted.
    End,
    /// A field.
    Field(FieldView),
    /// The input does not hold a field here.
    Fail(DecodeErrorView),
}

/// What reading one field gives, and where the reader then stands.
#[verifier::ext_equal]
pub struct Step {
    pub outcome: Outcome,
    pub offset: nat,
    pub announced: Option<Announced>,
}

/// The leading bytes that an error message shows of `bytes`.
pub open spec fn shown(bytes: Seq<u8>) -> Seq<u8> {
    if bytes.len() > MAX_TAG_DIAGNOSTIC_LEN {
        bytes.take(MAX_TAG_DIAGNOSTIC_LEN as int)
    } else {
        bytes
    }
}

/// The error for bytes that should be a tag and are not.
pub open spec fn bad_tag(bytes: Seq<u8>) -> DecodeErrorView {
    DecodeErrorView::InvalidTag(utf8_lossy(shown(bytes)))
}

/// The error for a `LENGTH` field whose value is not a byte count.
pub open spec fn bad_length(tag: u32) -> DecodeErrorView {
    DecodeErrorView::InvalidFieldValue {
        tag,
        reason: "length field value is not a valid byte count"@,
    }
}

/// The bytes that a counted value may take at most, terminator included: those
/// that are left in the input, and before `limit` where there is one.
/// `None` where the value starts behind `limit`.
pub open spec fn room(value_offset: int, left: int, limit: Option<int>) -> Option<nat> {
    match limit {
        None => Some(left as nat),
        Some(end) => if end < value_offset {
            None
        } else if end - value_offset < left {
            Some((end - value_offset) as nat)
        } else {
            Some(left as nat)
        },
    }
}

/// The length of the value that starts at `rest[0]`, for a field with the
/// given tag.
///
/// A value whose count was declared is framed by that count: the count must
/// leave room for the terminating SOH, which must stand right behind it.
/// Any other value ends at the first SOH.
pub open spec fn value_len(
    rest: Seq<u8>,
    tag: u32,
    declared: Option<nat>,
    room: Option<nat>,
) -> Result<nat, DecodeErrorView> {
    match (declared, room) {
        (Some(_), None) => Err(DecodeErrorView::InvalidBodyLength),
        (Some(n), Some(available)) => if n < available && rest[n as int] == SOH {
            Ok(n)
        } else {
            Err(DecodeErrorView::InvalidDataLength { data_tag: tag, declared: n, available })
        },
        (None, _) => match first_index(rest, SOH) {
            Some(at) => Ok(at as nat),
            None => Err(DecodeErrorView::UnterminatedField { tag }),
        },
    }
}

/// The count that was announced for a field with the given tag.
pub open spec fn declared_for(announced: Option<Announced>, tag: u32) -> Option<nat> {
    match announced {
        Some(a) => if a.data_tag == tag {
            Some(a.declared)
        } else {
            None
        },
        None => None,
    }
}

/// Reads the value behind `tag=`, where `start` is the offset of the value in
/// the input.
pub open spec fn read_value(
    input: Seq<u8>,
    offset: nat,
    start: nat,
    tag: u32,
    declared: Option<nat>,
    limit: Option<int>,
) -> Step {
    let rest = input.skip(start as int);
    match value_len(rest, tag, declared, room(start as int, rest.len() as int, limit)) {
        Err(e) => Step { outcome: Outcome::Fail(e), offset, announced: None },
        Ok(len) => {
            let value = rest.take(len as int);
            let next = start + len + 1;
            match data_tag_of(tag) {
                None => Step {
                    outcome: Outcome::Field(FieldView { tag, value }),
                    offset: next,
                    announced: None,
                },
                Some(data_tag) => match length_of(value) {
                    None => Step {
                        outcome: Outcome::Fail(bad_length(tag)),
                        offset: next,
                        announced: None,
                    },
                    Some(count) => Step {
                        outcome: Outcome::Field(FieldView { tag, value }),
                        offset: next,
                        announced: Some(Announced { data_tag, declared: count }),
                    },
                },
            }
        },
    }
}

/// Reads the field that starts at `offset`.
///
/// A field is `tag=value<SOH>`. `announced` is what the field before it
/// announced, and `limit` the offset of the first byte behind the body where
/// the frame declares one.
pub open spec fn read_field(
    input: Seq<u8>,
    offset: nat,
    announced: Option<Announced>,
    limit: Option<int>,
) -> Step {
    let rest = input.skip(offset as int);
    if rest.len() == 0 {
        Step { outcome: Outcome::End, offset, announced }
    } else {
        match first_index(rest, EQUALS) {
            None => Step { outcome: Outcome::Fail(bad_tag(rest)), offset, announced },
            Some(eq) => match tag_of(rest.take(eq)) {
                None => Step {
                    outcome: Outcome::Fail(bad_tag(rest.take(eq))),
                    offset,
                    announced,
                },
                Some(tag) => read_value(
                    input,
                    offset,
                    (offset + eq + 1) as nat,
                    tag,
                    declared_for(announced, tag),
                    limit,
                ),
            },
        }
    }
}

/// Reading a field moves the reader forward, and never past the input.
pub proof fn lemma_read_field_advances(
    input: Seq<u8>,
    offset: nat,
    announced: Option<Announced>,
    limit: Option<int>,
)
    requires
        offset <= input.len(),
    ensures
        ({
            let step = read_field(input, offset, announced, limit);
            &&& offset <= step.offset <= input.len()
            &&& step.outcome is Field ==> offset < step.offset
        }),
{
    let rest = input.skip(offset as int);
    if rest.len() > 0 && rest.contains(EQUALS) {
        lemma_first_index_exists(rest, EQUALS);
        let eq = first_index(rest, EQUALS)->0;
        assert(is_first(rest, EQUALS, eq));
        let start = offset + eq + 1;
        let value_rest = input.skip(start);
        if value_rest.contains(SOH) {
            lemma_first_index_exists(value_rest, SOH);
        }
    }
}

/// Where reading the fields of a message ends.
#[verifier::ext_equal]
pub enum ScanEnd {
    /// At the `CheckSum` (10) field with this value, which starts at `at`.
    CheckSum { value: Seq<u8>, at: nat },
    /// At the end of the input.
    Exhausted,
    /// At bytes that are not a field.
    Fail(DecodeErrorView),
}

/// The fields before `CheckSum` (10), and where the reader then stands.
#[verifier::ext_equal]
pub struct Scan {
    pub end: ScanEnd,
    pub fields: Seq<FieldView>,
    pub offset: nat,
    pub announced: Option<Announced>,
}

/// Reads fields up to and including `CheckSum` (10) and collects those before
/// it behind `fields`.
pub open spec fn scan(
    input: Seq<u8>,
    offset: nat,
    announced: Option<Announced>,
    limit: Option<int>,
    fields: Seq<FieldView>,
) -> Scan
    decreases input.len() - offset,
    when offset <= input.len()
{
    proof {
        lemma_read_field_advances(input, offset, announced, limit);
    }
    let step = read_field(input, offset, announced, limit);
    match step.outcome {
        Outcome::End => Scan {
            end: ScanEnd::Exhausted,
            fields,
            offset: step.offset,
            announced: step.announced,
        },
        Outcome::Fail(e) => Scan {
            end: ScanEnd::Fail(e),
            fields,
            offset: step.offset,
            announced: step.announced,
        },
        Outcome::Field(field) => if field.tag == 10 {
            Scan {
                end: ScanEnd::CheckSum { value: field.value, at: offset },
                fields,
                offset: step.offset,
                announced: step.announced,
            }
        } else {
            scan(input, step.offset, step.announced, limit, fields.push(field))
        },
    }
}

/// What decoding a message gives, and where the decoder then stands.
#[verifier::ext_equal]
pub struct Decoded {
    pub result: Result<RawMessageView, DecodeErrorView>,
    pub offset: nat,
    pub announced: Option<Announced>,
}

/// A failure right after `step`.
pub open spec fn failed(e: DecodeErrorView, step: Step) -> Decoded {
    Decoded { result: Err(e), offset: step.offset, announced: step.announced }
}

/// The message of the frame that starts at `start`.
///
/// `BeginString` (8) and `BodyLength` (9) come first; the body starts behind
/// them with `MsgType` (35), is as long as `BodyLength` says, and is followed
/// by `CheckSum` (10).
pub open spec fn decode_frame(input: Seq<u8>, start: nat, validate_checksum: bool) -> Decoded {
    let step = read_field(input, start, None, None);
    match step.outcome {
        Outcome::End => failed(DecodeErrorView::Incomplete, step),
        Outcome::Fail(e) => failed(e, step),
        Outcome::Field(field) => if field.tag != 8 {
            failed(DecodeErrorView::InvalidBeginString, step)
        } else {
            let value_end = (step.offset - 1 - start) as nat;
            let begin_string = ((value_end - field.value.len()) as nat, value_end);
            decode_length(input, start, validate_checksum, begin_string, field, step)
        },
    }
}

/// The message behind `BeginString` (8).
pub open spec fn decode_length(
    input: Seq<u8>,
    start: nat,
    validate_checksum: bool,
    begin_string: (nat, nat),
    begin_field: FieldView,
    begin: Step,
) -> Decoded {
    let step = read_field(input, begin.offset, begin.announced, None);
    match step.outcome {
        Outcome::End => failed(DecodeErrorView::MissingBodyLength, step),
        Outcome::Fail(e) => failed(e, step),
        Outcome::Field(field) => if field.tag != 9 {
            failed(DecodeErrorView::MissingBodyLength, step)
        } else {
            match length_of(field.value) {
                None => failed(DecodeErrorView::InvalidBodyLength, step),
                Some(body_length) => if step.offset + body_length > usize::MAX {
                    failed(DecodeErrorView::InvalidBodyLength, step)
                } else {
                    decode_body(
                        input,
                        start,
                        validate_checksum,
                        begin_string,
                        seq![begin_field, field],
                        step,
                        step.offset + body_length,
                    )
                },
            }
        },
    }
}

/// The message behind `BodyLength` (9), whose body ends at `body_end`.
pub open spec fn decode_body(
    input: Seq<u8>,
    start: nat,
    validate_checksum: bool,
    begin_string: (nat, nat),
    header: Seq<FieldView>,
    length: Step,
    body_end: nat,
) -> Decoded {
    let limit = Some(body_end as int);
    let step = read_field(input, length.offset, length.announced, limit);
    match step.outcome {
        Outcome::End => failed(DecodeErrorView::MissingMsgType, step),
        Outcome::Fail(e) => failed(e, step),
        Outcome::Field(field) => if field.tag != 35 {
            failed(DecodeErrorView::MissingMsgType, step)
        } else if !valid_utf8(field.value) {
            failed(DecodeErrorView::InvalidUtf8, step)
        } else {
            match code_error(field.value, read_code()) {
                Some(e) => failed(DecodeErrorView::InvalidMsgType(e), step),
                None => {
                    let found = scan(
                        input,
                        step.offset,
                        step.announced,
                        limit,
                        header.push(field),
                    );
                    Decoded {
                        result: check_frame(
                            input,
                            start,
                            validate_checksum,
                            body_end,
                            found,
                            RawMessageView {
                                buffer: input.subrange(start as int, found.offset as int),
                                begin_string,
                                body: ((length.offset - start) as nat, (body_end - start) as nat),
                                msg_type: msg_type_of(decode_utf8(field.value)),
                                fields: found.fields,
                            },
                        ),
                        offset: found.offset,
                        announced: found.announced,
                    }
                },
            }
        },
    }
}

/// Whether the fields that were found make up a frame whose body ends at
/// `body_end`; `message` is the message that they make up.
pub open spec fn check_frame(
    input: Seq<u8>,
    start: nat,
    validate_checksum: bool,
    body_end: nat,
    found: Scan,
    message: RawMessageView,
) -> Result<RawMessageView, DecodeErrorView> {
    match found.end {
        ScanEnd::Fail(e) => Err(e),
        ScanEnd::Exhausted => Err(DecodeErrorView::Incomplete),
        ScanEnd::CheckSum { value, at } => if at != body_end {
            Err(DecodeErrorView::InvalidBodyLength)
        } else if !validate_checksum {
            Ok(message)
        } else {
            match declared_checksum(value) {
                None => Err(
                    DecodeErrorView::InvalidFieldValue {
                        tag: 10,
                        reason: "invalid checksum format"@,
                    },
                ),
                Some(declared) => {
                    let calculated = checksum_of(input.subrange(start as int, at as int));
                    if calculated == declared {
                        Ok(message)
                    } else {
                        Err(DecodeErrorView::ChecksumMismatch { calculated, declared })
                    }
                },
            }
        },
    }
}

} // verus!

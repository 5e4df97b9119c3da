//! What the encoder accepts, and what it then writes.

use crate::outside::decimal::{ascii_chars, decimal, lemma_ascii_bytes};
use crate::outside::search::{first_index, lemma_first_index_exists};
use crate::tagvalue::checksum::{checksum_digits, checksum_of};
use crate::tagvalue::frame::{
    begin_string_bytes, begin_string_rejection, body_bytes, body_fields, body_tag_rejection,
    msg_type_rejection, plain_rejection, EncoderView, Entry,
};
use crate::tagvalue::pairs::{is_data, is_length, is_pair};
use crate::tagvalue::wire::SOH;
use crate::types::error::EncodeErrorView;
use crate::types::field::FieldView;
use crate::types::message::written_code;
use vstd::prelude::*;
use vstd::utf8::{encode_utf8_valid_utf8, valid_utf8};

verus! {

/// Whether every byte is graphic ASCII and not `=`.
pub open spec fn is_graphic(bytes: Seq<u8>) -> bool {
    forall|i: int|
        0 <= i < bytes.len() ==> 0x21 <= #[trigger] bytes[i] <= 0x7e && bytes[i] != 0x3d
}

/// Whether `tag` is one half of a `LENGTH`/`DATA` pair.
pub open spec fn is_half_of_a_pair(tag: u32) -> bool {
    ||| exists|other: u32| is_pair(tag, other)
    ||| exists|other: u32| is_pair(other, tag)
}

/// An ordinary field that the encoder accepts is appended to the body as
/// `tag=value<SOH>`, with the value as it was handed in and whatever its length,
/// as long as a buffer can hold the frame. Nothing else changes.
pub proof fn law_accepted_field_is_appended(
    encoder: EncoderView,
    tag: u32,
    value: Seq<u8>,
    next: EncoderView,
)
    requires
        encoder.try_plain(tag, value) == Ok::<_, EncodeErrorView>(next),
        body_bytes(encoder.entries).len() + decimal(tag as nat).len() + value.len() + 51
            <= isize::MAX,
    ensures
        body_bytes(next.entries) == body_bytes(encoder.entries) + (decimal(tag as nat) + seq![
            0x3du8,
        ] + value + seq![0x01u8]),
        body_fields(next.entries) == body_fields(encoder.entries).push(FieldView { tag, value }),
        next.begin_string == encoder.begin_string,
        next.begin_string_error == encoder.begin_string_error,
        next.error == encoder.error,
        next.finished == encoder.finished,
        encoder.plain(tag, value) == next,
{
    let entry = Entry::Plain { tag, value };
    assert(encoder.entries.push(entry).drop_last() =~= encoder.entries);
    assert(body_fields(encoder.entries) + entry.fields() =~= body_fields(encoder.entries).push(
        FieldView { tag, value },
    ));
}

/// A `LENGTH`/`DATA` pair that the encoder accepts is appended to the body as
/// `length_tag=<count><SOH>data_tag=value<SOH>`, with the value as it was handed
/// in, the count of its bytes before it, and whatever its length, as long as a
/// buffer can hold the frame. Nothing else changes.
pub proof fn law_accepted_pair_is_appended(
    encoder: EncoderView,
    length_tag: u32,
    data_tag: u32,
    value: Seq<u8>,
    next: EncoderView,
)
    requires
        encoder.try_counted(length_tag, data_tag, value) == Ok::<_, EncodeErrorView>(next),
        body_bytes(encoder.entries).len() + decimal(length_tag as nat).len() + decimal(
            value.len(),
        ).len() + decimal(data_tag as nat).len() + value.len() + 53 <= isize::MAX,
    ensures
        body_bytes(next.entries) == body_bytes(encoder.entries) + (decimal(length_tag as nat)
            + seq![0x3du8] + decimal(value.len()) + seq![0x01u8]) + (decimal(data_tag as nat)
            + seq![0x3du8] + value + seq![0x01u8]),
        body_fields(next.entries) == body_fields(encoder.entries).push(
            FieldView { tag: length_tag, value: decimal(value.len()) },
        ).push(FieldView { tag: data_tag, value }),
        next.begin_string == encoder.begin_string,
        next.begin_string_error == encoder.begin_string_error,
        next.error == encoder.error,
        next.finished == encoder.finished,
        encoder.counted(length_tag, data_tag, value) == next,
{
    let entry = Entry::Counted { length_tag, data_tag, value };
    assert(encoder.entries.push(entry).drop_last() =~= encoder.entries);
    assert(body_fields(encoder.entries) + entry.fields() =~= body_fields(encoder.entries).push(
        FieldView { tag: length_tag, value: decimal(value.len()) },
    ).push(FieldView { tag: data_tag, value }));
    assert(body_bytes(encoder.entries) + entry.bytes() =~= body_bytes(encoder.entries) + (decimal(
        length_tag as nat,
    ) + seq![0x3du8] + decimal(value.len()) + seq![0x01u8]) + (decimal(data_tag as nat) + seq![
        0x3du8,
    ] + value + seq![0x01u8]));
}

/// Graphic ASCII is text.
proof fn lemma_graphic_is_text(bytes: Seq<u8>)
    requires
        is_graphic(bytes),
    ensures
        valid_utf8(bytes),
{
    lemma_ascii_bytes(bytes);
    encode_utf8_valid_utf8(ascii_chars(bytes));
}

/// A message type is refused only where it has no bytes, more than eight, or one
/// that is not graphic ASCII or is `=`.
proof fn lemma_msg_type_is_graphic(value: Seq<u8>)
    ensures
        msg_type_rejection(value) is None <==> 1 <= value.len() <= 8 && is_graphic(value),
{
    if is_graphic(value) {
        lemma_graphic_is_text(value);
        assert(written_code().has_all(value));
    }
    if written_code().has_all(value) {
        assert forall|i: int| 0 <= i < value.len() implies 0x21 <= #[trigger] value[i] <= 0x7e
            && value[i] != 0x3d by {
            assert(written_code().has(value[i]));
        }
    }
}

/// An ordinary field is refused where it may not stand in a body, and only
/// there: its tag is 0, a framing tag or half of a pair, its value is empty or
/// holds an SOH, it is a message type that is no code, or the frame is finished.
/// How long a value is plays no part.
pub proof fn law_field_is_refused_only_for_cause(encoder: EncoderView, tag: u32, value: Seq<u8>)
    ensures
        encoder.try_plain(tag, value) is Err <==> {
            ||| encoder.finished
            ||| tag == 0
            ||| tag == 8
            ||| tag == 9
            ||| tag == 10
            ||| is_half_of_a_pair(tag)
            ||| value.len() == 0
            ||| value.contains(0x01u8)
            ||| tag == 35 && !(value.len() <= 8 && is_graphic(value))
        },
        encoder.try_plain(tag, value) is Err ==> encoder.plain(tag, value) == encoder.record(
            encoder.try_plain(tag, value)->Err_0,
        ),
{
    lemma_msg_type_is_graphic(value);
    if value.contains(SOH) {
        lemma_first_index_exists(value, SOH);
    }
    assert(is_half_of_a_pair(tag) <==> is_length(tag) || is_data(tag));
    assert(first_index(value, SOH) is Some <==> value.contains(0x01u8));
    assert(body_tag_rejection(tag) is Some <==> tag == 0 || tag == 8 || tag == 9 || tag == 10
        || is_half_of_a_pair(tag));
    assert(plain_rejection(tag, value) is Some <==> body_tag_rejection(tag) is Some || value.len()
        == 0 || value.contains(0x01u8) || (tag == 35 && msg_type_rejection(value) is Some));
}

/// A pair is refused where its tags are no `LENGTH` and its `DATA`, its value is
/// empty, or the frame is finished, and only there. What the value holds and how
/// long it is plays no part.
pub proof fn law_pair_is_refused_only_for_cause(
    encoder: EncoderView,
    length_tag: u32,
    data_tag: u32,
    value: Seq<u8>,
)
    ensures
        encoder.try_counted(length_tag, data_tag, value) is Err <==> {
            ||| encoder.finished
            ||| !is_pair(length_tag, data_tag)
            ||| value.len() == 0
        },
        encoder.try_counted(length_tag, data_tag, value) is Err ==> encoder.counted(
            length_tag,
            data_tag,
            value,
        ) == encoder.record(encoder.try_counted(length_tag, data_tag, value)->Err_0),
{
}

/// The first write that is refused is what the frame is refused for; it leaves
/// the body as it is.
pub proof fn law_refused_write_is_reported(
    encoder: EncoderView,
    tag: u32,
    length_tag: u32,
    value: Seq<u8>,
)
    requires
        encoder.begin_string_error is None,
        encoder.error is None,
    ensures
        encoder.try_plain(tag, value) matches Err(e) ==> {
            let next = encoder.plain(tag, value);
            &&& next.error == Some(e)
            &&& next.frame() == Err::<Seq<u8>, _>(e)
            &&& body_bytes(next.entries) == body_bytes(encoder.entries)
        },
        encoder.try_counted(length_tag, tag, value) matches Err(e) ==> {
            let next = encoder.counted(length_tag, tag, value);
            &&& next.error == Some(e)
            &&& next.frame() == Err::<Seq<u8>, _>(e)
            &&& body_bytes(next.entries) == body_bytes(encoder.entries)
        },
{
}

/// A `BeginString` is accepted where it is 1 to 16 bytes of graphic ASCII
/// without `=`, and only there. An encoder starts with an empty body and nothing
/// refused.
pub proof fn law_begin_string_is_graphic(begin_string: Seq<u8>)
    ensures
        ({
            let encoder = EncoderView::fresh(begin_string);
            &&& encoder.begin_string_error is None <==> 1 <= begin_string.len() <= 16
                && is_graphic(begin_string)
            &&& encoder.begin_string_error is None ==> encoder.begin_string == begin_string
            &&& encoder.error is None
            &&& body_bytes(encoder.entries).len() == 0
            &&& body_fields(encoder.entries).len() == 0
            &&& !encoder.finished
        }),
{
    if is_graphic(begin_string) {
        assert(begin_string_bytes().has_all(begin_string));
    }
    if begin_string_bytes().has_all(begin_string) {
        assert forall|i: int| 0 <= i < begin_string.len() implies 0x21
            <= #[trigger] begin_string[i] <= 0x7e && begin_string[i] != 0x3d by {
            assert(begin_string_bytes().has(begin_string[i]));
        }
    }
    assert(begin_string_rejection(begin_string) is None
        == EncoderView::fresh(begin_string).begin_string_error is None);
}

/// A frame is `8=<BeginString><SOH>9=<count><SOH>`, the body as it was written,
/// and `10=<checksum><SOH>`, where the count is that of the body's bytes and the
/// checksum is that of all bytes before its field.
pub proof fn law_frame_is_laid_out_in_order(encoder: EncoderView, frame: Seq<u8>)
    requires
        encoder.frame() == Ok::<_, EncodeErrorView>(frame),
    ensures
        ({
            let body = body_bytes(encoder.entries);
            let covered = seq![0x38u8, 0x3du8] + encoder.begin_string + seq![
                0x01u8,
                0x39u8,
                0x3du8,
            ] + decimal(body.len()) + seq![0x01u8] + body;
            frame == covered + seq![0x31u8, 0x30u8, 0x3du8] + checksum_digits(checksum_of(covered))
                + seq![0x01u8]
        }),
{
    let body = body_bytes(encoder.entries);
    let covered = seq![0x38u8, 0x3du8] + encoder.begin_string + seq![0x01u8, 0x39u8, 0x3du8]
        + decimal(body.len()) + seq![0x01u8] + body;
    assert(decimal(1) =~= seq![0x31u8]);
    assert(decimal(8) =~= seq![0x38u8]);
    assert(decimal(9) =~= seq![0x39u8]);
    assert(decimal(10) =~= seq![0x31u8, 0x30u8]);
    assert(crate::tagvalue::frame::covered_bytes(encoder.begin_string, encoder.entries)
        =~= covered);
    assert(frame =~= covered + seq![0x31u8, 0x30u8, 0x3du8] + checksum_digits(checksum_of(covered))
        + seq![0x01u8]);
}

/// A frame is produced where nothing was refused and the first field of the body
/// is `MsgType` (35), and only there; how much was written plays no part.
pub proof fn law_frame_is_refused_only_for_cause(encoder: EncoderView)
    ensures
        encoder.frame() is Ok <==> {
            &&& encoder.begin_string_error is None
            &&& encoder.error is None
            &&& body_fields(encoder.entries).len() > 0
            &&& body_fields(encoder.entries)[0].tag == 35
        },
{
    lemma_first_field(encoder.entries);
}

/// The first field of a body is the first field of its first entry.
proof fn lemma_first_field(entries: Seq<Entry>)
    ensures
        entries.len() == 0 <==> body_fields(entries).len() == 0,
        entries.len() > 0 ==> body_fields(entries)[0].tag == entries[0].first_tag(),
    decreases entries.len(),
{
    if entries.len() > 0 {
        let earlier = entries.drop_last();
        lemma_first_field(earlier);
        if earlier.len() > 0 {
            assert(body_fields(entries)[0] == body_fields(earlier)[0]);
        } else {
            assert(body_fields(earlier) =~= Seq::empty());
            assert(body_fields(entries) =~= entries[0].fields());
        }
    }
}

/// A refusal names the field that was refused. A field is too long only where it
/// is a message type of more than eight bytes.
pub proof fn law_refusal_names_the_field(
    encoder: EncoderView,
    tag: u32,
    length_tag: u32,
    value: Seq<u8>,
)
    requires
        value.len() <= usize::MAX,
    ensures
        encoder.try_plain(tag, value) matches Err(e) ==> match e {
            EncodeErrorView::InvalidFieldValue { tag: named, reason } => named == tag,
            EncodeErrorView::FieldTooLong { tag: named, length, max_length } => {
                &&& named == tag == 35
                &&& length == value.len()
                &&& length > max_length == 8
            },
            _ => false,
        },
        length_tag != 0 && tag != 0 ==> (encoder.try_counted(length_tag, tag, value) matches Err(
            e,
        ) ==> e matches EncodeErrorView::InvalidFieldValue { tag: named, reason } && named == tag),
{
}

/// Asking for the frame closes the encoder where there is a frame, and changes
/// nothing else.
pub proof fn law_finishing_closes_the_frame(encoder: EncoderView)
    ensures
        ({
            let after = encoder.after_finish();
            &&& after.finished <==> encoder.finished || encoder.frame() is Ok
            &&& after.entries == encoder.entries
            &&& after.begin_string == encoder.begin_string
            &&& after.begin_string_error == encoder.begin_string_error
            &&& after.error == encoder.error
        }),
{
}

} // verus!

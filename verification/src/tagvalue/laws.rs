//! What the encoder and the decoder promise together.

use crate::outside::decimal::{ascii_chars, decimal, lemma_ascii_bytes, lemma_decimal_digits};
use crate::outside::search::{
    first_index, is_first, lemma_first_index, lemma_first_index_exists,
};
use crate::outside::text::utf8_lossy;
use crate::tagvalue::checksum::{
    checksum_digits, checksum_of, declared_checksum, law_checksum_digits_read_back,
};
use crate::tagvalue::digits::{
    law_tag_is_up_to_ten_digits, length_of, lemma_length_is_refused, lemma_length_reads_back,
    lemma_tag_reads_back, tag_of,
};
use crate::tagvalue::frame::{
    begin_string_bytes, body_bytes, body_fields, covered_bytes, field_bytes, frame_bytes, frameable,
    header_bytes, trailer_bytes, EncoderView, Entry,
};
use crate::tagvalue::pairs::{
    data_tag_of, is_data, is_length, is_pair, law_framing_tags_are_unpaired,
    law_no_tag_is_length_and_data, lemma_data_tag_of,
};
use crate::tagvalue::wire::{
    bad_tag, check_frame, declared_for, decode_body, decode_frame, decode_length, lemma_read_field_advances,
    read_field, scan, Announced, Decoded, Outcome, Scan, ScanEnd, Step, EQUALS, SOH,
};
use crate::types::error::{DecodeErrorView, EncodeErrorView};
use crate::types::field::FieldView;
use crate::types::message::{
    code_error, law_code_is_graphic, law_written_code_is_readable, msg_type_of, read_code, RawMessageView,
};
use vstd::prelude::*;
use vstd::utf8::{decode_utf8, encode_utf8_decode_utf8, valid_utf8};

verus! {

/// The tag of a field is found where it was written.
proof fn lemma_tag_found(rest: Seq<u8>, tag: u32, more: Seq<u8>)
    requires
        rest == decimal(tag as nat) + seq![EQUALS] + more,
    ensures
        first_index(rest, EQUALS) == Some(decimal(tag as nat).len() as int),
        tag_of(rest.take(decimal(tag as nat).len() as int)) == Some(tag),
{
    let digits = decimal(tag as nat);
    lemma_decimal_digits(tag as nat);
    assert(rest[digits.len() as int] == EQUALS);
    assert forall|j: int| 0 <= j < digits.len() implies rest[j] != EQUALS by {
        assert(rest[j] == digits[j]);
    }
    assert(is_first(rest, EQUALS, digits.len() as int));
    lemma_first_index(rest, EQUALS, digits.len() as int);
    assert(rest.take(digits.len() as int) =~= digits);
    lemma_tag_reads_back(tag);
}

/// Reading a field that is framed by SOH.
proof fn lemma_read_plain(
    input: Seq<u8>,
    offset: nat,
    limit: Option<int>,
    tag: u32,
    value: Seq<u8>,
    tail: Seq<u8>,
)
    requires
        offset <= input.len(),
        input.skip(offset as int) == field_bytes(tag, value) + tail,
        !value.contains(SOH),
    ensures
        read_field(input, offset, None, limit) == (match data_tag_of(tag) {
            None => Step {
                outcome: Outcome::Field(FieldView { tag, value }),
                offset: offset + field_bytes(tag, value).len(),
                announced: None,
            },
            Some(data_tag) => match length_of(value) {
                None => Step {
                    outcome: Outcome::Fail(crate::tagvalue::wire::bad_length(tag)),
                    offset: offset + field_bytes(tag, value).len(),
                    announced: None,
                },
                Some(count) => Step {
                    outcome: Outcome::Field(FieldView { tag, value }),
                    offset: offset + field_bytes(tag, value).len(),
                    announced: Some(Announced { data_tag, declared: count }),
                },
            },
        }),
{
    let rest = input.skip(offset as int);
    let digits = decimal(tag as nat);
    let more = value + seq![SOH] + tail;
    assert(rest =~= digits + seq![EQUALS] + more);
    lemma_tag_found(rest, tag, more);
    let start = (offset + digits.len() + 1) as nat;
    let value_rest = input.skip(start as int);
    assert(value_rest =~= more) by {
        assert forall|i: int| 0 <= i < more.len() implies value_rest[i] == more[i] by {
            assert(rest[digits.len() + 1 + i] == value_rest[i]);
        }
    }
    assert(value_rest[value.len() as int] == SOH);
    assert forall|j: int| 0 <= j < value.len() implies value_rest[j] != SOH by {
        assert(value_rest[j] == value[j]);
    }
    assert(is_first(value_rest, SOH, value.len() as int));
    lemma_first_index(value_rest, SOH, value.len() as int);
    assert(value_rest.take(value.len() as int) =~= value);
}

/// Reading a `DATA` field whose count was announced.
proof fn lemma_read_counted(
    input: Seq<u8>,
    offset: nat,
    limit: int,
    tag: u32,
    value: Seq<u8>,
    tail: Seq<u8>,
)
    requires
        offset <= input.len(),
        input.skip(offset as int) == field_bytes(tag, value) + tail,
        offset + field_bytes(tag, value).len() <= limit,
        data_tag_of(tag) is None,
    ensures
        read_field(
            input,
            offset,
            Some(Announced { data_tag: tag, declared: value.len() }),
            Some(limit),
        ) == (Step {
            outcome: Outcome::Field(FieldView { tag, value }),
            offset: offset + field_bytes(tag, value).len(),
            announced: None,
        }),
{
    let rest = input.skip(offset as int);
    let digits = decimal(tag as nat);
    let more = value + seq![SOH] + tail;
    assert(rest =~= digits + seq![EQUALS] + more);
    lemma_tag_found(rest, tag, more);
    let start = (offset + digits.len() + 1) as nat;
    let value_rest = input.skip(start as int);
    assert(value_rest =~= more) by {
        assert forall|i: int| 0 <= i < more.len() implies value_rest[i] == more[i] by {
            assert(rest[digits.len() + 1 + i] == value_rest[i]);
        }
    }
    assert(value_rest[value.len() as int] == SOH);
    assert(value_rest.take(value.len() as int) =~= value);
}

/// The body of two lists of entries is the one body behind the other.
proof fn lemma_body_concat(first: Seq<Entry>, second: Seq<Entry>)
    ensures
        body_bytes(first + second) == body_bytes(first) + body_bytes(second),
    decreases second.len(),
{
    if second.len() == 0 {
        assert(first + second =~= first);
        assert(body_bytes(first) + body_bytes(second) =~= body_bytes(first));
    } else {
        lemma_body_concat(first, second.drop_last());
        assert((first + second).drop_last() =~= first + second.drop_last());
        assert(body_bytes(first + second) =~= body_bytes(first) + body_bytes(second));
    }
}

/// The body around entry `k`.
proof fn lemma_body_around(entries: Seq<Entry>, k: int)
    requires
        0 <= k < entries.len(),
    ensures
        body_bytes(entries) == body_bytes(entries.take(k)) + entries[k].bytes() + body_bytes(
            entries.skip(k + 1),
        ),
        body_bytes(entries.take(k + 1)) == body_bytes(entries.take(k)) + entries[k].bytes(),
        body_fields(entries.take(k + 1)) == body_fields(entries.take(k)) + entries[k].fields(),
{
    let upto = entries.take(k + 1);
    assert(upto.drop_last() =~= entries.take(k));
    lemma_body_concat(upto, entries.skip(k + 1));
    assert(upto + entries.skip(k + 1) =~= entries);
}

/// A byte count in decimal holds no SOH.
proof fn lemma_count_has_no_soh(n: nat)
    ensures
        !decimal(n).contains(SOH),
{
    lemma_decimal_digits(n);
    if decimal(n).contains(SOH) {
        let i = choose|i: int| 0 <= i < decimal(n).len() && decimal(n)[i] == SOH;
        assert(48 <= decimal(n)[i]);
    }
}

/// An ordinary field that may be written belongs to no pair, frames nothing,
/// and holds no SOH.
proof fn lemma_valid_plain(tag: u32, value: Seq<u8>)
    requires
        (Entry::Plain { tag, value }).valid(),
    ensures
        data_tag_of(tag) is None,
        tag != 10,
        !value.contains(SOH),
{
}

/// A `DATA` tag announces nothing itself, and neither tag of a pair is that of
/// `CheckSum` (10).
proof fn lemma_valid_counted(length_tag: u32, data_tag: u32, value: Seq<u8>)
    requires
        (Entry::Counted { length_tag, data_tag, value }).valid(),
    ensures
        data_tag_of(length_tag) == Some(data_tag),
        data_tag_of(data_tag) is None,
        length_tag != 10,
        data_tag != 10,
{
    assert(is_pair(length_tag, data_tag));
    lemma_data_tag_of(length_tag, data_tag);
    assert(is_data(data_tag));
    assert(is_length(length_tag));
    law_no_tag_is_length_and_data(data_tag);
    law_framing_tags_are_unpaired(10);
}

/// Scanning moves over a field.
proof fn lemma_scan_step(
    input: Seq<u8>,
    offset: nat,
    announced: Option<Announced>,
    limit: Option<int>,
    fields: Seq<FieldView>,
    field: FieldView,
    step: Step,
)
    requires
        offset <= input.len(),
        step == read_field(input, offset, announced, limit),
        step.outcome == Outcome::Field(field),
        field.tag != 10,
    ensures
        scan(input, offset, announced, limit, fields) == scan(
            input,
            step.offset,
            step.announced,
            limit,
            fields.push(field),
        ),
{
    lemma_read_field_advances(input, offset, announced, limit);
    reveal_with_fuel(scan, 2);
}

/// What follows a prefix of the rest of the input.
proof fn lemma_skip_over(input: Seq<u8>, offset: nat, head: Seq<u8>, tail: Seq<u8>)
    requires
        offset <= input.len(),
        input.skip(offset as int) == head + tail,
    ensures
        offset + head.len() <= input.len(),
        input.skip((offset + head.len()) as int) == tail,
{
    let rest = input.skip(offset as int);
    assert(rest.len() == head.len() + tail.len());
    assert(input.skip((offset + head.len()) as int) =~= tail) by {
        assert forall|i: int| 0 <= i < tail.len() implies input.skip(
            (offset + head.len()) as int,
        )[i] == tail[i] by {
            assert(rest[head.len() + i] == (head + tail)[head.len() + i]);
        }
    }
}

/// Scanning moves over an entry.
proof fn lemma_scan_one(
    input: Seq<u8>,
    offset: nat,
    end: nat,
    entry: Entry,
    tail: Seq<u8>,
    fields: Seq<FieldView>,
)
    requires
        offset <= input.len(),
        input.skip(offset as int) == entry.bytes() + tail,
        offset + entry.bytes().len() <= end,
        entry.valid(),
        entry.bytes().len() < 10_000_000_000,
        input.len() <= usize::MAX,
    ensures
        offset + entry.bytes().len() <= input.len(),
        scan(input, offset, None, Some(end as int), fields) == scan(
            input,
            offset + entry.bytes().len(),
            None,
            Some(end as int),
            fields + entry.fields(),
        ),
{
    let limit = Some(end as int);
    lemma_skip_over(input, offset, entry.bytes(), tail);
    match entry {
        Entry::Plain { tag, value } => {
            lemma_valid_plain(tag, value);
            lemma_read_plain(input, offset, limit, tag, value, tail);
            let step = read_field(input, offset, None, limit);
            lemma_scan_step(input, offset, None, limit, fields, FieldView { tag, value }, step);
            assert(fields.push(FieldView { tag, value }) =~= fields + entry.fields());
        },
        Entry::Counted { length_tag, data_tag, value } => {
            lemma_valid_counted(length_tag, data_tag, value);
            let count = decimal(value.len());
            let first = field_bytes(length_tag, count);
            let second = field_bytes(data_tag, value);
            assert(input.skip(offset as int) =~= first + (second + tail));
            lemma_skip_over(input, offset, first, second + tail);
            lemma_count_has_no_soh(value.len());
            lemma_length_reads_back(value.len());
            lemma_read_plain(input, offset, limit, length_tag, count, second + tail);
            let one = FieldView { tag: length_tag, value: count };
            lemma_scan_step(
                input,
                offset,
                None,
                limit,
                fields,
                one,
                read_field(input, offset, None, limit),
            );
            let middle = offset + first.len();
            let announced = Some(Announced { data_tag, declared: value.len() });
            lemma_read_counted(input, middle, end as int, data_tag, value, tail);
            let two = FieldView { tag: data_tag, value };
            lemma_scan_step(
                input,
                middle,
                announced,
                limit,
                fields.push(one),
                two,
                read_field(input, middle, announced, limit),
            );
            assert(fields.push(one).push(two) =~= fields + entry.fields());
        },
    }
}

/// What stands in the input at entry `k` of a body that starts at `base`.
proof fn lemma_at_entry(input: Seq<u8>, base: nat, entries: Seq<Entry>, k: int)
    requires
        0 <= k < entries.len(),
        base + body_bytes(entries).len() <= input.len(),
        input.subrange(base as int, (base + body_bytes(entries).len()) as int) == body_bytes(
            entries,
        ),
    ensures
        ({
            let end = base + body_bytes(entries).len();
            let offset = base + body_bytes(entries.take(k)).len();
            let tail = body_bytes(entries.skip(k + 1)) + input.skip(end as int);
            &&& offset + entries[k].bytes().len() <= end
            &&& input.skip(offset as int) == entries[k].bytes() + tail
        }),
{
    lemma_body_around(entries, k);
    let body = body_bytes(entries);
    let bytes = entries[k].bytes();
    let end = base + body.len();
    let offset = base + body_bytes(entries.take(k)).len();
    let tail = body_bytes(entries.skip(k + 1)) + input.skip(end as int);
    let window = input.subrange(base as int, end as int);
    let here = input.skip(offset as int);
    let there = bytes + tail;
    assert forall|i: int| 0 <= i < here.len() implies here[i] == there[i] by {
        if offset + i < end {
            assert(here[i] == window[offset - base + i]);
            assert(window[offset - base + i] == body[offset - base + i]);
        }
    }
    assert(here =~= there);
}

/// Scanning moves over entry `k` of a body that starts at `base`.
proof fn lemma_scan_entry(
    input: Seq<u8>,
    base: nat,
    entries: Seq<Entry>,
    k: int,
    fields: Seq<FieldView>,
)
    requires
        0 <= k < entries.len(),
        entries[k].valid(),
        base + body_bytes(entries).len() <= input.len(),
        input.subrange(base as int, (base + body_bytes(entries).len()) as int) == body_bytes(
            entries,
        ),
        body_bytes(entries).len() < 10_000_000_000,
        input.len() <= usize::MAX,
    ensures
        ({
            let limit = Some((base + body_bytes(entries).len()) as int);
            scan(
                input,
                base + body_bytes(entries.take(k)).len(),
                None,
                limit,
                fields + body_fields(entries.take(k)),
            ) == scan(
                input,
                base + body_bytes(entries.take(k + 1)).len(),
                None,
                limit,
                fields + body_fields(entries.take(k + 1)),
            )
        }),
{
    lemma_body_around(entries, k);
    lemma_at_entry(input, base, entries, k);
    let end = base + body_bytes(entries).len();
    let offset = base + body_bytes(entries.take(k)).len();
    let entry = entries[k];
    let tail = body_bytes(entries.skip(k + 1)) + input.skip(end as int);
    let so_far = fields + body_fields(entries.take(k));
    lemma_scan_one(input, offset, end, entry, tail, so_far);
    assert(so_far + entry.fields() =~= fields + body_fields(entries.take(k + 1)));
}

/// Scanning moves over the entries of a body from entry `k` on.
proof fn lemma_scan_body(
    input: Seq<u8>,
    base: nat,
    entries: Seq<Entry>,
    k: int,
    fields: Seq<FieldView>,
)
    requires
        0 <= k <= entries.len(),
        forall|i: int| 0 <= i < entries.len() ==> (#[trigger] entries[i]).valid(),
        base + body_bytes(entries).len() <= input.len(),
        input.subrange(base as int, (base + body_bytes(entries).len()) as int) == body_bytes(entries),
        body_bytes(entries).len() < 10_000_000_000,
        input.len() <= usize::MAX,
    ensures
        ({
            let limit = Some((base + body_bytes(entries).len()) as int);
            scan(
                input,
                base + body_bytes(entries.take(k)).len(),
                None,
                limit,
                fields + body_fields(entries.take(k)),
            ) == scan(
                input,
                base + body_bytes(entries).len(),
                None,
                limit,
                fields + body_fields(entries),
            )
        }),
    decreases entries.len() - k,
{
    if k < entries.len() {
        lemma_scan_entry(input, base, entries, k, fields);
        lemma_scan_body(input, base, entries, k + 1, fields);
    } else {
        assert(entries.take(k) =~= entries);
    }
}

/// Scanning ends at the trailer.
proof fn lemma_scan_trailer(
    input: Seq<u8>,
    offset: nat,
    limit: Option<int>,
    checksum: u8,
    tail: Seq<u8>,
    fields: Seq<FieldView>,
)
    requires
        offset <= input.len(),
        input.skip(offset as int) == trailer_bytes(checksum) + tail,
    ensures
        scan(input, offset, None, limit, fields) == (Scan {
            end: ScanEnd::CheckSum { value: checksum_digits(checksum), at: offset },
            fields,
            offset: offset + trailer_bytes(checksum).len(),
            announced: None,
        }),
{
    let digits = checksum_digits(checksum);
    assert(!digits.contains(SOH)) by {
        assert(digits[0] >= 48 && digits[1] >= 48 && digits[2] >= 48);
    }
    law_framing_tags_are_unpaired(10);
    lemma_read_plain(input, offset, limit, 10, digits, tail);
}

/// A graphic string holds no SOH, and is the text of its bytes.
proof fn lemma_graphic(bytes: Seq<u8>)
    requires
        begin_string_bytes().has_all(bytes),
    ensures
        !bytes.contains(SOH),
        valid_utf8(bytes),
        decode_utf8(bytes) == ascii_chars(bytes),
{
    if bytes.contains(SOH) {
        let i = choose|i: int| 0 <= i < bytes.len() && bytes[i] == SOH;
        assert(begin_string_bytes().has(bytes[i]));
    }
    assert forall|i: int| 0 <= i < bytes.len() implies #[trigger] bytes[i] < 128 by {
        assert(begin_string_bytes().has(bytes[i]));
    }
    lemma_ascii_bytes(bytes);
    vstd::utf8::encode_utf8_valid_utf8(ascii_chars(bytes));
    encode_utf8_decode_utf8(ascii_chars(bytes));
}

/// The value of the first entry of a body.
pub open spec fn first_value(entries: Seq<Entry>) -> Seq<u8> {
    match entries[0] {
        Entry::Plain { tag, value } => value,
        Entry::Counted { length_tag, data_tag, value } => value,
    }
}

/// The first entry of a frame is the `MsgType` (35) field, whose value is a
/// code that a decoder accepts.
proof fn lemma_first_entry(begin_string: Seq<u8>, entries: Seq<Entry>)
    requires
        frameable(begin_string, entries),
    ensures
        entries[0] == (Entry::Plain { tag: 35, value: first_value(entries) }),
        data_tag_of(35) is None,
        valid_utf8(first_value(entries)),
        decode_utf8(first_value(entries)) == ascii_chars(first_value(entries)),
        code_error(first_value(entries), read_code()) is None,
        !first_value(entries).contains(SOH),
{
    assert(entries[0].valid());
    law_framing_tags_are_unpaired(35);
    match entries[0] {
        Entry::Counted { length_tag, data_tag, value } => {
            assert(is_pair(35, data_tag));
            assert(is_length(35));
        },
        Entry::Plain { tag, value } => {
            law_written_code_is_readable(value);
            lemma_graphic(value);
        },
    }
}

/// The body of a frame starts with its `MsgType` (35) field, which is at least
/// five bytes long.
pub proof fn lemma_body_starts_with(begin_string: Seq<u8>, entries: Seq<Entry>)
    requires
        frameable(begin_string, entries),
    ensures
        body_bytes(entries).len() >= field_bytes(35, first_value(entries)).len() >= 5,
{
    lemma_first_entry(begin_string, entries);
    lemma_body_around(entries, 0);
    assert(decimal(3).len() == 1);
    assert(decimal(35).len() == 2);
}

/// The message that a frame carries.
pub open spec fn message_of(begin_string: Seq<u8>, entries: Seq<Entry>) -> RawMessageView {
    let body_len = body_bytes(entries).len();
    let header_len = header_bytes(begin_string, body_len).len();
    RawMessageView {
        buffer: frame_bytes(begin_string, entries),
        begin_string: (2, 2 + begin_string.len()),
        body: (header_len, header_len + body_len),
        msg_type: msg_type_of(ascii_chars(first_value(entries))),
        fields: seq![
            FieldView { tag: 8, value: begin_string },
            FieldView { tag: 9, value: decimal(body_len) },
        ] + body_fields(entries),
    }
}

/// A frame in the middle of the input, piece by piece.
proof fn lemma_frame_in_input(
    before: Seq<u8>,
    begin_string: Seq<u8>,
    entries: Seq<Entry>,
    after: Seq<u8>,
)
    ensures
        ({
            let body = body_bytes(entries);
            let count = decimal(body.len());
            let covered = covered_bytes(begin_string, entries);
            let frame = frame_bytes(begin_string, entries);
            let input = before + frame + after;
            let trailer = trailer_bytes(checksum_of(covered));
            let start = before.len();
            let one = start + field_bytes(8, begin_string).len();
            let two = one + field_bytes(9, count).len();
            let three = two + body.len();
            &&& two == start + header_bytes(begin_string, body.len()).len()
            &&& three + trailer.len() == start + frame.len() <= input.len()
            &&& input.skip(start as int) == field_bytes(8, begin_string) + (field_bytes(9, count)
                + body + trailer + after)
            &&& input.skip(one as int) == field_bytes(9, count) + (body + trailer + after)
            &&& input.subrange(two as int, three as int) == body
            &&& input.skip(three as int) == trailer + after
            &&& input.subrange(start as int, three as int) == covered
            &&& input.subrange(start as int, (start + frame.len()) as int) == frame
        }),
{
    let body = body_bytes(entries);
    let count = decimal(body.len());
    let covered = covered_bytes(begin_string, entries);
    let frame = frame_bytes(begin_string, entries);
    let input = before + frame + after;
    let trailer = trailer_bytes(checksum_of(covered));
    let start = before.len();
    let one = start + field_bytes(8, begin_string).len();
    let two = one + field_bytes(9, count).len();
    let three = two + body.len();
    let first = field_bytes(8, begin_string);
    let second = field_bytes(9, count);
    assert(covered =~= first + second + body);
    assert(input =~= before + first + second + body + trailer + after);
    assert(input.skip(start as int) =~= first + (second + body + trailer + after));
    assert(input.skip(one as int) =~= second + (body + trailer + after));
    assert(input.subrange(two as int, three as int) =~= body);
    assert(input.skip(three as int) =~= trailer + after);
    assert(input.subrange(start as int, three as int) =~= covered);
    assert(input.subrange(start as int, (start + frame.len()) as int) =~= frame);
}

/// The fields of a body, behind those of the header, and the trailer.
proof fn lemma_scan_frame(
    input: Seq<u8>,
    base: nat,
    begin_string: Seq<u8>,
    entries: Seq<Entry>,
    checksum: u8,
    after: Seq<u8>,
    header: Seq<FieldView>,
)
    requires
        frameable(begin_string, entries),
        body_bytes(entries).len() < 10_000_000_000,
        input.len() <= usize::MAX,
        base + body_bytes(entries).len() <= input.len(),
        input.subrange(base as int, (base + body_bytes(entries).len()) as int) == body_bytes(
            entries,
        ),
        input.skip((base + body_bytes(entries).len()) as int) == trailer_bytes(checksum) + after,
    ensures
        ({
            let end = base + body_bytes(entries).len();
            let limit = Some(end as int);
            let field = FieldView { tag: 35, value: first_value(entries) };
            let step = read_field(input, base, None, limit);
            &&& step.outcome == Outcome::Field(field)
            &&& step.announced is None
            &&& scan(input, step.offset, None, limit, header.push(field)) == (Scan {
                end: ScanEnd::CheckSum { value: checksum_digits(checksum), at: end },
                fields: header + body_fields(entries),
                offset: end + trailer_bytes(checksum).len(),
                announced: None,
            })
        }),
{
    let end = base + body_bytes(entries).len();
    let limit = Some(end as int);
    let value = first_value(entries);
    let field = FieldView { tag: 35, value };
    lemma_first_entry(begin_string, entries);
    lemma_at_entry(input, base, entries, 0);
    lemma_body_around(entries, 0);
    assert(entries.take(0) =~= Seq::<Entry>::empty());
    assert(body_bytes(entries.take(0)) =~= Seq::<u8>::empty());
    assert(body_fields(entries.take(0)) =~= Seq::<FieldView>::empty());
    lemma_read_plain(
        input,
        base,
        limit,
        35,
        value,
        body_bytes(entries.skip(1)) + input.skip(end as int),
    );
    assert(body_bytes(entries.take(1)) =~= entries[0].bytes());
    assert(header.push(field) =~= header + body_fields(entries.take(1)));
    lemma_scan_body(input, base, entries, 1, header);
    lemma_scan_trailer(input, end, limit, checksum, after, header + body_fields(entries));
}

/// Decoding behind `BodyLength` (9).
proof fn lemma_decode_body(
    input: Seq<u8>,
    start: nat,
    length: Step,
    begin_string: Seq<u8>,
    entries: Seq<Entry>,
    after: Seq<u8>,
    header: Seq<FieldView>,
    validate_checksum: bool,
    begin_range: (nat, nat),
)
    requires
        frameable(begin_string, entries),
        body_bytes(entries).len() < 10_000_000_000,
        input.len() <= usize::MAX,
        length.announced is None,
        start <= length.offset,
        length.offset + body_bytes(entries).len() <= input.len(),
        input.subrange(length.offset as int, (length.offset + body_bytes(entries).len()) as int)
            == body_bytes(entries),
        ({
            let end = (length.offset + body_bytes(entries).len()) as int;
            let sum = checksum_of(input.subrange(start as int, end));
            input.skip(end) == trailer_bytes(sum) + after
        }),
    ensures
        ({
            let end = length.offset + body_bytes(entries).len();
            let sum = checksum_of(input.subrange(start as int, end as int));
            let stop = end + trailer_bytes(sum).len();
            decode_body(
                input,
                start,
                validate_checksum,
                begin_range,
                header,
                length,
                end,
            ) == (Decoded {
                result: Ok(
                    RawMessageView {
                        buffer: input.subrange(start as int, stop as int),
                        begin_string: begin_range,
                        body: ((length.offset - start) as nat, (end - start) as nat),
                        msg_type: msg_type_of(ascii_chars(first_value(entries))),
                        fields: header + body_fields(entries),
                    },
                ),
                offset: stop,
                announced: None,
            })
        }),
{
    let end = length.offset + body_bytes(entries).len();
    let sum = checksum_of(input.subrange(start as int, end as int));
    lemma_first_entry(begin_string, entries);
    lemma_scan_frame(input, length.offset, begin_string, entries, sum, after, header);
    law_checksum_digits_read_back(sum);
}

/// Decoding behind `BeginString` (8).
proof fn lemma_decode_length(
    input: Seq<u8>,
    start: nat,
    begin: Step,
    begin_string: Seq<u8>,
    entries: Seq<Entry>,
    after: Seq<u8>,
    validate_checksum: bool,
    begin_range: (nat, nat),
    begin_field: FieldView,
)
    requires
        frameable(begin_string, entries),
        body_bytes(entries).len() < 10_000_000_000,
        input.len() <= usize::MAX,
        begin.announced is None,
        start <= begin.offset <= input.len(),
        ({
            let body = body_bytes(entries);
            let count = decimal(body.len());
            let base = begin.offset + field_bytes(9, count).len();
            let end = base + body.len();
            let sum = checksum_of(input.subrange(start as int, end as int));
            &&& end <= input.len()
            &&& input.skip(begin.offset as int) == field_bytes(9, count) + (body + trailer_bytes(
                sum,
            ) + after)
            &&& input.subrange(base as int, end as int) == body
            &&& input.skip(end as int) == trailer_bytes(sum) + after
        }),
    ensures
        ({
            let body = body_bytes(entries);
            let count = decimal(body.len());
            let base = begin.offset + field_bytes(9, count).len();
            let end = base + body.len();
            let sum = checksum_of(input.subrange(start as int, end as int));
            let stop = end + trailer_bytes(sum).len();
            decode_length(
                input,
                start,
                validate_checksum,
                begin_range,
                begin_field,
                begin,
            ) == (Decoded {
                result: Ok(
                    RawMessageView {
                        buffer: input.subrange(start as int, stop as int),
                        begin_string: begin_range,
                        body: ((base - start) as nat, (end - start) as nat),
                        msg_type: msg_type_of(ascii_chars(first_value(entries))),
                        fields: seq![begin_field, FieldView { tag: 9, value: count }] + body_fields(
                            entries,
                        ),
                    },
                ),
                offset: stop,
                announced: None,
            })
        }),
{
    let body = body_bytes(entries);
    let count = decimal(body.len());
    let base = begin.offset + field_bytes(9, count).len();
    let end = base + body.len();
    let sum = checksum_of(input.subrange(start as int, end as int));
    law_framing_tags_are_unpaired(9);
    lemma_count_has_no_soh(body.len());
    lemma_read_plain(input, begin.offset, None, 9, count, body + trailer_bytes(sum) + after);
    lemma_length_reads_back(body.len());
    let length = read_field(input, begin.offset, None, None);
    lemma_decode_body(
        input,
        start,
        length,
        begin_string,
        entries,
        after,
        seq![begin_field, FieldView { tag: 9, value: count }],
        validate_checksum,
        begin_range,
    );
}

/// Decoding a frame that starts at `start`.
proof fn lemma_decode_at(
    input: Seq<u8>,
    start: nat,
    begin_string: Seq<u8>,
    entries: Seq<Entry>,
    after: Seq<u8>,
    validate_checksum: bool,
)
    requires
        frameable(begin_string, entries),
        body_bytes(entries).len() < 10_000_000_000,
        input.len() <= usize::MAX,
        start <= input.len(),
        ({
            let body = body_bytes(entries);
            let count = decimal(body.len());
            let covered = covered_bytes(begin_string, entries);
            let trailer = trailer_bytes(checksum_of(covered));
            let one = start + field_bytes(8, begin_string).len();
            let two = one + field_bytes(9, count).len();
            let three = two + body.len();
            &&& one <= input.len()
            &&& three <= input.len()
            &&& input.skip(start as int) == field_bytes(8, begin_string) + (field_bytes(9, count)
                + body + trailer + after)
            &&& input.skip(one as int) == field_bytes(9, count) + (body + trailer + after)
            &&& input.subrange(two as int, three as int) == body
            &&& input.skip(three as int) == trailer + after
            &&& input.subrange(start as int, three as int) == covered
            &&& two == start + header_bytes(begin_string, body.len()).len()
            &&& three + trailer.len() == start + frame_bytes(begin_string, entries).len()
            &&& input.subrange(
                start as int,
                (start + frame_bytes(begin_string, entries).len()) as int,
            ) == frame_bytes(begin_string, entries)
        }),
    ensures
        decode_frame(input, start, validate_checksum) == (Decoded {
            result: Ok(message_of(begin_string, entries)),
            offset: start + frame_bytes(begin_string, entries).len(),
            announced: None,
        }),
{
    let body = body_bytes(entries);
    let count = decimal(body.len());
    let trailer = trailer_bytes(checksum_of(covered_bytes(begin_string, entries)));
    law_framing_tags_are_unpaired(8);
    lemma_graphic(begin_string);
    lemma_read_plain(
        input,
        start,
        None,
        8,
        begin_string,
        field_bytes(9, count) + body + trailer + after,
    );
    assert(decimal(8).len() == 1);
    let begin = read_field(input, start, None, None);
    let begin_field = FieldView { tag: 8, value: begin_string };
    lemma_decode_length(
        input,
        start,
        begin,
        begin_string,
        entries,
        after,
        validate_checksum,
        (2, 2 + begin_string.len()),
        begin_field,
    );
}

/// Every frame that an encoder yields decodes, wherever it stands in the
/// input, to the `BeginString`, message type, body and fields that were
/// written; the decoder then stands right behind it, ready for the next frame.
///
/// A `BodyLength` (9) of more than ten digits is the one thing that can be
/// written and not be read.
pub proof fn law_encoded_frame_decodes(
    before: Seq<u8>,
    begin_string: Seq<u8>,
    entries: Seq<Entry>,
    after: Seq<u8>,
    validate_checksum: bool,
)
    requires
        frameable(begin_string, entries),
        body_bytes(entries).len() < 10_000_000_000,
        (before + frame_bytes(begin_string, entries) + after).len() <= usize::MAX,
    ensures
        decode_frame(
            before + frame_bytes(begin_string, entries) + after,
            before.len(),
            validate_checksum,
        ) == (Decoded {
            result: Ok(message_of(begin_string, entries)),
            offset: before.len() + frame_bytes(begin_string, entries).len(),
            announced: None,
        }),
{
    let input = before + frame_bytes(begin_string, entries) + after;
    lemma_frame_in_input(before, begin_string, entries, after);
    lemma_decode_at(input, before.len(), begin_string, entries, after, validate_checksum);
}

/// Two frames, one behind the other, decode one after the other.
pub proof fn law_consecutive_frames_decode(
    first_begin: Seq<u8>,
    first: Seq<Entry>,
    second_begin: Seq<u8>,
    second: Seq<Entry>,
    validate_checksum: bool,
)
    requires
        frameable(first_begin, first),
        frameable(second_begin, second),
        body_bytes(first).len() < 10_000_000_000,
        body_bytes(second).len() < 10_000_000_000,
        frame_bytes(first_begin, first).len() + frame_bytes(second_begin, second).len()
            <= usize::MAX,
    ensures
        ({
            let input = frame_bytes(first_begin, first) + frame_bytes(second_begin, second);
            let one = decode_frame(input, 0, validate_checksum);
            let two = decode_frame(input, one.offset, validate_checksum);
            &&& one.result == Ok::<_, crate::types::error::DecodeErrorView>(
                message_of(first_begin, first),
            )
            &&& two.result == Ok::<_, crate::types::error::DecodeErrorView>(
                message_of(second_begin, second),
            )
            &&& two.offset == input.len()
        }),
{
    let one = frame_bytes(first_begin, first);
    let two = frame_bytes(second_begin, second);
    let none = Seq::<u8>::empty();
    assert(none + one + two =~= one + two);
    assert(one + two + none =~= one + two);
    law_encoded_frame_decodes(none, first_begin, first, two, validate_checksum);
    law_encoded_frame_decodes(one, second_begin, second, none, validate_checksum);
}

/// A value that is framed by a declared count never reaches past the end of
/// the body.
pub proof fn law_counted_value_stays_in_body(
    input: Seq<u8>,
    offset: nat,
    announced: Announced,
    body_end: int,
)
    requires
        offset <= input.len(),
        ({
            let step = read_field(input, offset, Some(announced), Some(body_end));
            step.outcome matches Outcome::Field(field) && field.tag == announced.data_tag
        }),
    ensures
        read_field(input, offset, Some(announced), Some(body_end)).offset <= body_end,
{
    lemma_read_field_advances(input, offset, Some(announced), Some(body_end));
}

/// Whether `text` is the field `tag=value<SOH>`, for some way to write its tag.
pub open spec fn spells(text: Seq<u8>, field: FieldView) -> bool {
    exists|tag: Seq<u8>| #[trigger]
        tag_of(tag) == Some(field.tag) && text == tag + seq![EQUALS] + field.value + seq![SOH]
}

/// Whether `text` is the given fields, spelled one after the other, and nothing
/// else.
pub open spec fn spells_all(text: Seq<u8>, fields: Seq<FieldView>) -> bool
    decreases fields.len(),
{
    if fields.len() == 0 {
        text.len() == 0
    } else {
        exists|at: int|
            0 <= at <= text.len() && spells_all(#[trigger] text.take(at), fields.drop_last())
                && spells(text.skip(at), fields.last())
    }
}

/// A field that stands right behind others continues their spelling.
proof fn lemma_spelling_goes_on(
    input: Seq<u8>,
    start: nat,
    middle: nat,
    end: nat,
    fields: Seq<FieldView>,
    field: FieldView,
)
    requires
        start <= middle <= end <= input.len(),
        spells_all(input.subrange(start as int, middle as int), fields),
        spells(input.subrange(middle as int, end as int), field),
    ensures
        spells_all(input.subrange(start as int, end as int), fields.push(field)),
{
    let text = input.subrange(start as int, end as int);
    let at = middle - start;
    assert(text.take(at) =~= input.subrange(start as int, middle as int));
    assert(text.skip(at) =~= input.subrange(middle as int, end as int));
    assert(fields.push(field).drop_last() =~= fields);
    assert(spells_all(text.take(at), fields.push(field).drop_last()));
}

/// A field is read from the bytes that spell it.
proof fn lemma_field_is_spelled(
    input: Seq<u8>,
    offset: nat,
    announced: Option<Announced>,
    limit: Option<int>,
)
    requires
        offset <= input.len(),
    ensures
        ({
            let step = read_field(input, offset, announced, limit);
            step.outcome matches Outcome::Field(field) ==> spells(
                input.subrange(offset as int, step.offset as int),
                field,
            )
        }),
{
    lemma_read_field_advances(input, offset, announced, limit);
    let step = read_field(input, offset, announced, limit);
    if let Outcome::Field(field) = step.outcome {
        let rest = input.skip(offset as int);
        lemma_first_index_exists(rest, EQUALS);
        let eq = first_index(rest, EQUALS)->0;
        assert(is_first(rest, EQUALS, eq));
        let value_rest = input.skip(offset + eq + 1);
        if value_rest.contains(SOH) {
            lemma_first_index_exists(value_rest, SOH);
        }
        let text = input.subrange(offset as int, step.offset as int);
        let tag = rest.take(eq);
        assert(tag_of(tag) == Some(field.tag));
        assert(text =~= tag + seq![EQUALS] + field.value + seq![SOH]);
    }
}

/// Reading fields keeps those that were read before, adds none that is
/// `CheckSum` (10), and stays in the input. The fields before `CheckSum` are all
/// that stands between `start` and it.
proof fn lemma_scan_shape(
    input: Seq<u8>,
    start: nat,
    offset: nat,
    announced: Option<Announced>,
    limit: Option<int>,
    fields: Seq<FieldView>,
)
    requires
        start <= offset <= input.len(),
        spells_all(input.subrange(start as int, offset as int), fields),
    ensures
        ({
            let run = scan(input, offset, announced, limit, fields);
            &&& offset <= run.offset <= input.len()
            &&& fields.len() <= run.fields.len()
            &&& run.fields.take(fields.len() as int) == fields
            &&& forall|i: int|
                fields.len() <= i < run.fields.len() ==> (#[trigger] run.fields[i]).tag != 10
            &&& run.end matches ScanEnd::CheckSum { value, at } ==> {
                &&& offset <= at < run.offset
                &&& spells_all(input.subrange(start as int, at as int), run.fields)
                &&& spells(
                    input.subrange(at as int, run.offset as int),
                    FieldView { tag: 10, value },
                )
            }
        }),
    decreases input.len() - offset,
{
    lemma_read_field_advances(input, offset, announced, limit);
    lemma_field_is_spelled(input, offset, announced, limit);
    let step = read_field(input, offset, announced, limit);
    match step.outcome {
        Outcome::Field(field) => {
            if field.tag != 10 {
                lemma_spelling_goes_on(input, start, offset, step.offset, fields, field);
                lemma_scan_shape(
                    input,
                    start,
                    step.offset,
                    step.announced,
                    limit,
                    fields.push(field),
                );
                let run = scan(input, step.offset, step.announced, limit, fields.push(field));
                assert(run.fields.take(fields.len() as int) =~= fields) by {
                    assert forall|i: int| 0 <= i < fields.len() implies run.fields[i]
                        == fields[i] by {
                        assert(run.fields.take(fields.len() as int + 1)[i] == fields.push(field)[i]);
                    }
                }
                assert(run.fields[fields.len() as int] == field) by {
                    assert(run.fields.take(fields.len() as int + 1)[fields.len() as int] == fields.push(
                        field,
                    )[fields.len() as int]);
                }
            } else {
                assert(fields.take(fields.len() as int) =~= fields);
            }
        },
        _ => {
            assert(fields.take(fields.len() as int) =~= fields);
        },
    }
}

/// The first three fields of a message are all that stands before the fourth.
proof fn lemma_header_is_spelled(input: Seq<u8>, start: nat, limit: Option<int>)
    requires
        start <= input.len(),
    ensures
        ({
            let one = read_field(input, start, None, None);
            let two = read_field(input, one.offset, one.announced, None);
            let three = read_field(input, two.offset, two.announced, limit);
            one.outcome matches Outcome::Field(first) ==> two.outcome matches Outcome::Field(
                second,
            ) ==> three.outcome matches Outcome::Field(third) ==> {
                &&& spells_all(
                    input.subrange(start as int, two.offset as int),
                    seq![first, second],
                )
                &&& spells_all(
                    input.subrange(start as int, three.offset as int),
                    seq![first, second].push(third),
                )
            }
        }),
{
    let one = read_field(input, start, None, None);
    lemma_read_field_advances(input, start, None, None);
    lemma_field_is_spelled(input, start, None, None);
    let two = read_field(input, one.offset, one.announced, None);
    lemma_read_field_advances(input, one.offset, one.announced, None);
    lemma_field_is_spelled(input, one.offset, one.announced, None);
    let three = read_field(input, two.offset, two.announced, limit);
    lemma_read_field_advances(input, two.offset, two.announced, limit);
    lemma_field_is_spelled(input, two.offset, two.announced, limit);
    if let (Outcome::Field(first), Outcome::Field(second), Outcome::Field(third)) = (
        one.outcome,
        two.outcome,
        three.outcome,
    ) {
        let none = Seq::<FieldView>::empty();
        assert(spells_all(input.subrange(start as int, start as int), none));
        lemma_spelling_goes_on(input, start, start, one.offset, none, first);
        lemma_spelling_goes_on(input, start, one.offset, two.offset, none.push(first), second);
        assert(none.push(first).push(second) =~= seq![first, second]);
        lemma_spelling_goes_on(
            input,
            start,
            two.offset,
            three.offset,
            seq![first, second],
            third,
        );
    }
}

/// Whatever the input holds, decoding moves the decoder forward and never past
/// the input.
pub proof fn law_decoding_stays_in_the_input(input: Seq<u8>, start: nat, validate_checksum: bool)
    requires
        start <= input.len(),
    ensures
        start <= decode_frame(input, start, validate_checksum).offset <= input.len(),
{
    lemma_read_field_advances(input, start, None, None);
    let begin = read_field(input, start, None, None);
    lemma_read_field_advances(input, begin.offset, begin.announced, None);
    let length = read_field(input, begin.offset, begin.announced, None);
    if let Outcome::Field(length_field) = length.outcome {
        if let Some(body_length) = length_of(length_field.value) {
            let limit = Some((length.offset + body_length) as int);
            lemma_read_field_advances(input, length.offset, length.announced, limit);
            let msg_type = read_field(input, length.offset, length.announced, limit);
            if let (Outcome::Field(begin_field), Outcome::Field(msg_type_field)) = (
                begin.outcome,
                msg_type.outcome,
            ) {
                lemma_header_is_spelled(input, start, limit);
                lemma_scan_shape(
                    input,
                    start,
                    msg_type.offset,
                    msg_type.announced,
                    limit,
                    seq![begin_field, length_field].push(msg_type_field),
                );
            }
        }
    }
}

/// A decoded message is the bytes from where the decoder stood to where it then
/// stands. Its first fields are `BeginString` (8), `BodyLength` (9) and
/// `MsgType` (35), and none of its fields is `CheckSum` (10). The bytes up to the
/// end of the body are its fields, spelled one after the other, the first two of
/// them before the body. Its body is as long as `BodyLength` says. Behind the body stands a `CheckSum` field and
/// nothing else; where checksums are validated, that field declares the
/// checksum of everything before it.
pub proof fn law_decoded_message_is_well_formed(
    input: Seq<u8>,
    start: nat,
    validate_checksum: bool,
    message: RawMessageView,
)
    requires
        start <= input.len(),
        decode_frame(input, start, validate_checksum).result == Ok::<_, DecodeErrorView>(message),
    ensures
        message.buffer == input.subrange(
            start as int,
            decode_frame(input, start, validate_checksum).offset as int,
        ),
        message.fields.len() >= 3,
        message.fields[0].tag == 8,
        message.fields[1].tag == 9,
        message.fields[2].tag == 35,
        forall|i: int| 0 <= i < message.fields.len() ==> (#[trigger] message.fields[i]).tag != 10,
        spells_all(message.buffer.take(message.body.1 as int), message.fields),
        spells_all(message.buffer.take(message.body.0 as int), message.fields.take(2)),
        message.body.0 <= message.body.1 < message.buffer.len(),
        length_of(message.fields[1].value) == Some((message.body.1 - message.body.0) as nat),
        message.begin_string.0 <= message.begin_string.1 <= message.buffer.len(),
        message.buffer.subrange(
            message.begin_string.0 as int,
            message.begin_string.1 as int,
        ) == message.fields[0].value,
        exists|declared: Seq<u8>|
            #[trigger] spells(
                message.buffer.skip(message.body.1 as int),
                FieldView { tag: 10, value: declared },
            ) && (validate_checksum ==> declared_checksum(declared) == Some(
                checksum_of(message.buffer.take(message.body.1 as int)),
            )),
{
    lemma_read_field_advances(input, start, None, None);
    let begin = read_field(input, start, None, None);
    let begin_field = begin.outcome->Field_0;
    lemma_read_field_advances(input, begin.offset, begin.announced, None);
    let length = read_field(input, begin.offset, begin.announced, None);
    let length_field = length.outcome->Field_0;
    let body_length = length_of(length_field.value)->0;
    let body_end = length.offset + body_length;
    let limit = Some(body_end as int);
    lemma_read_field_advances(input, length.offset, length.announced, limit);
    let msg_type = read_field(input, length.offset, length.announced, limit);
    let msg_type_field = msg_type.outcome->Field_0;
    let header = seq![begin_field, length_field].push(msg_type_field);
    lemma_header_is_spelled(input, start, limit);
    lemma_scan_shape(input, start, msg_type.offset, msg_type.announced, limit, header);
    let run = scan(input, msg_type.offset, msg_type.announced, limit, header);
    assert(run.fields.take(3)[0] == begin_field && run.fields.take(3)[1] == length_field
        && run.fields.take(3)[2] == msg_type_field);
    lemma_field_is_spelled(input, start, None, None);
    let text = input.subrange(start as int, begin.offset as int);
    let tag = choose|tag: Seq<u8>| #[trigger]
        tag_of(tag) == Some(begin_field.tag) && text == tag + seq![EQUALS] + begin_field.value
            + seq![SOH];
    assert(text.len() == tag.len() + begin_field.value.len() + 2);
    assert(text.subrange(tag.len() as int + 1, text.len() - 1) =~= begin_field.value);
    assert(message.buffer.subrange(
        message.begin_string.0 as int,
        message.begin_string.1 as int,
    ) =~= text.subrange(tag.len() as int + 1, text.len() - 1));
    assert(message.fields.take(2) =~= seq![begin_field, length_field]);
    assert(message.buffer.take(message.body.0 as int) =~= input.subrange(
        start as int,
        length.offset as int,
    ));
    let covered = input.subrange(start as int, body_end as int);
    assert(message.buffer.take(message.body.1 as int) =~= covered);
    let trailer = input.subrange(body_end as int, run.offset as int);
    assert(message.buffer.skip(message.body.1 as int) =~= trailer);
    assert(spells(trailer, FieldView { tag: 10, value: run.end->value }));
}

/// A field that was read is read the same way when more input follows.
proof fn lemma_field_in_longer_input(
    input: Seq<u8>,
    more: Seq<u8>,
    offset: nat,
    announced: Option<Announced>,
    limit: Option<int>,
)
    requires
        offset <= input.len(),
        read_field(input, offset, announced, limit).outcome is Field,
    ensures
        read_field(input + more, offset, announced, limit) == read_field(
            input,
            offset,
            announced,
            limit,
        ),
{
    let longer = input + more;
    let rest = input.skip(offset as int);
    let longer_rest = longer.skip(offset as int);
    assert(longer_rest =~= rest + more);
    lemma_first_index_exists(rest, EQUALS);
    let eq = first_index(rest, EQUALS)->0;
    assert(is_first(rest, EQUALS, eq));
    assert(is_first(longer_rest, EQUALS, eq));
    lemma_first_index(longer_rest, EQUALS, eq);
    assert(longer_rest.take(eq) =~= rest.take(eq));
    let value_start = offset + eq + 1;
    let value_rest = input.skip(value_start);
    let longer_value_rest = longer.skip(value_start);
    assert(longer_value_rest =~= value_rest + more);
    let tag = tag_of(rest.take(eq))->0;
    if declared_for(announced, tag) is None {
        lemma_first_index_exists(value_rest, SOH);
        let at = first_index(value_rest, SOH)->0;
        assert(is_first(longer_value_rest, SOH, at));
        lemma_first_index(longer_value_rest, SOH, at);
    }
    let len = read_field(input, offset, announced, limit).outcome->Field_0.value.len() as int;
    assert(longer_value_rest.take(len) =~= value_rest.take(len));
}

/// Fields that were read up to `CheckSum` (10) are read the same way when more
/// input follows.
proof fn lemma_scan_in_longer_input(
    input: Seq<u8>,
    more: Seq<u8>,
    offset: nat,
    announced: Option<Announced>,
    limit: Option<int>,
    fields: Seq<FieldView>,
)
    requires
        offset <= input.len(),
        scan(input, offset, announced, limit, fields).end is CheckSum,
    ensures
        scan(input + more, offset, announced, limit, fields) == scan(
            input,
            offset,
            announced,
            limit,
            fields,
        ),
    decreases input.len() - offset,
{
    lemma_read_field_advances(input, offset, announced, limit);
    lemma_field_in_longer_input(input, more, offset, announced, limit);
    let step = read_field(input, offset, announced, limit);
    let field = step.outcome->Field_0;
    if field.tag != 10 {
        lemma_scan_in_longer_input(
            input,
            more,
            step.offset,
            step.announced,
            limit,
            fields.push(field),
        );
    }
}

/// What stands behind a message plays no part in it: a message that was decoded
/// decodes the same way when more input follows.
#[verifier::rlimit(40)]
pub proof fn law_what_follows_a_message_plays_no_part(
    input: Seq<u8>,
    more: Seq<u8>,
    start: nat,
    validate_checksum: bool,
)
    requires
        start <= input.len(),
        decode_frame(input, start, validate_checksum).result is Ok,
    ensures
        decode_frame(input + more, start, validate_checksum) == decode_frame(
            input,
            start,
            validate_checksum,
        ),
{
    let longer = input + more;
    lemma_read_field_advances(input, start, None, None);
    lemma_field_in_longer_input(input, more, start, None, None);
    let begin = read_field(input, start, None, None);
    lemma_read_field_advances(input, begin.offset, begin.announced, None);
    lemma_field_in_longer_input(input, more, begin.offset, begin.announced, None);
    let length = read_field(input, begin.offset, begin.announced, None);
    let body_end = length.offset + length_of(length.outcome->Field_0.value)->0;
    let limit = Some(body_end as int);
    lemma_read_field_advances(input, length.offset, length.announced, limit);
    lemma_field_in_longer_input(input, more, length.offset, length.announced, limit);
    let msg_type = read_field(input, length.offset, length.announced, limit);
    let header = seq![begin.outcome->Field_0, length.outcome->Field_0].push(
        msg_type.outcome->Field_0,
    );
    lemma_scan_in_longer_input(
        input,
        more,
        msg_type.offset,
        msg_type.announced,
        limit,
        header,
    );
    law_decoding_stays_in_the_input(input, start, validate_checksum);
    let stop = decode_frame(input, start, validate_checksum).offset as int;
    law_decoded_message_is_well_formed(
        input,
        start,
        validate_checksum,
        decode_frame(input, start, validate_checksum).result->Ok_0,
    );
    assert(longer.subrange(start as int, stop) =~= input.subrange(start as int, stop));
    assert(longer.subrange(start as int, body_end as int) =~= input.subrange(
        start as int,
        body_end as int,
    ));
}

/// Input whose second field is a `BodyLength` (9) that denotes no byte count is
/// not decoded.
proof fn lemma_bad_length_is_refused(input: Seq<u8>, start: nat, validate_checksum: bool)
    requires
        ({
            let begin = read_field(input, start, None, None);
            let length = read_field(input, begin.offset, begin.announced, None);
            &&& begin.outcome is Field
            &&& length.outcome matches Outcome::Field(field) && length_of(field.value) is None
        }),
    ensures
        decode_frame(input, start, validate_checksum).result is Err,
{
}

/// A frame whose `BodyLength` (9) takes more than ten digits is not decoded.
#[verifier::rlimit(40)]
proof fn lemma_overlong_frame_is_refused(
    before: Seq<u8>,
    begin_string: Seq<u8>,
    entries: Seq<Entry>,
    validate_checksum: bool,
)
    requires
        frameable(begin_string, entries),
        body_bytes(entries).len() >= 10_000_000_000,
    ensures
        decode_frame(
            before + frame_bytes(begin_string, entries),
            before.len(),
            validate_checksum,
        ).result is Err,
{
    let none = Seq::<u8>::empty();
    let input = before + frame_bytes(begin_string, entries) + none;
    assert(input =~= before + frame_bytes(begin_string, entries));
    let body = body_bytes(entries);
    let count = decimal(body.len());
    let trailer = trailer_bytes(checksum_of(covered_bytes(begin_string, entries)));
    let begin = read_field(input, before.len(), None, None);
    let length = read_field(input, begin.offset, begin.announced, None);
    assert(begin.outcome == Outcome::Field(FieldView { tag: 8, value: begin_string })
        && begin.offset == before.len() + field_bytes(8, begin_string).len()
        && begin.announced is None) by {
        lemma_frame_in_input(before, begin_string, entries, none);
        law_framing_tags_are_unpaired(8);
        lemma_graphic(begin_string);
        lemma_read_plain(
            input,
            before.len(),
            None,
            8,
            begin_string,
            field_bytes(9, count) + body + trailer + none,
        );
    }
    assert(length.outcome == Outcome::Field(FieldView { tag: 9, value: count })) by {
        lemma_frame_in_input(before, begin_string, entries, none);
        law_framing_tags_are_unpaired(9);
        lemma_count_has_no_soh(body.len());
        lemma_read_plain(input, begin.offset, None, 9, count, body + trailer + none);
    }
    lemma_length_is_refused(body.len());
    lemma_bad_length_is_refused(input, before.len(), validate_checksum);
}

/// Every truncated frame is refused: what is left of the input holds a frame
/// that an encoder yields, but for one byte or more at its end.
pub proof fn law_truncated_frame_is_refused(
    before: Seq<u8>,
    begin_string: Seq<u8>,
    entries: Seq<Entry>,
    count: int,
    validate_checksum: bool,
)
    requires
        frameable(begin_string, entries),
        0 <= count < frame_bytes(begin_string, entries).len(),
        (before + frame_bytes(begin_string, entries)).len() <= usize::MAX,
    ensures
        decode_frame(
            before + frame_bytes(begin_string, entries).take(count),
            before.len(),
            validate_checksum,
        ).result is Err,
{
    let frame = frame_bytes(begin_string, entries);
    let input = before + frame.take(count);
    if decode_frame(input, before.len(), validate_checksum).result is Ok {
        law_what_follows_a_message_plays_no_part(
            input,
            frame.skip(count),
            before.len(),
            validate_checksum,
        );
        assert(input + frame.skip(count) =~= before + frame);
        law_decoding_stays_in_the_input(input, before.len(), validate_checksum);
        if body_bytes(entries).len() < 10_000_000_000 {
            assert(before + frame + Seq::<u8>::empty() =~= before + frame);
            law_encoded_frame_decodes(
                before,
                begin_string,
                entries,
                Seq::empty(),
                validate_checksum,
            );
        } else {
            lemma_overlong_frame_is_refused(before, begin_string, entries, validate_checksum);
        }
    }
}

/// Asking for the frame again gives the same frame, and changes nothing.
pub proof fn law_finish_is_repeatable(encoder: EncoderView)
    ensures
        encoder.after_finish().frame() == encoder.frame(),
        encoder.after_finish().after_finish() == encoder.after_finish(),
{
}

/// A cleared encoder knows nothing of the message before: it is as it was when
/// it was created.
pub proof fn law_clear_starts_afresh(begin_string: Seq<u8>, encoder: EncoderView)
    requires
        encoder.begin_string == EncoderView::fresh(begin_string).begin_string,
        encoder.begin_string_error == EncoderView::fresh(begin_string).begin_string_error,
    ensures
        encoder.cleared() == EncoderView::fresh(begin_string),
{
}

/// A refused write leaves the body as it is.
pub proof fn law_refused_write_writes_nothing(
    encoder: EncoderView,
    tag: u32,
    length_tag: u32,
    value: Seq<u8>,
)
    ensures
        encoder.try_plain(tag, value) is Err ==> encoder.plain(tag, value).entries
            == encoder.entries,
        encoder.try_counted(length_tag, tag, value) is Err ==> encoder.counted(
            length_tag,
            tag,
            value,
        ).entries == encoder.entries,
{
}

/// Once a write was refused, the frame is refused for the same reason, whatever
/// is written after it, until the encoder is cleared.
pub proof fn law_first_refusal_is_reported(
    encoder: EncoderView,
    e: EncodeErrorView,
    tag: u32,
    length_tag: u32,
    value: Seq<u8>,
)
    requires
        encoder.first_error() == Some(e),
    ensures
        encoder.frame() == Err::<Seq<u8>, _>(e),
        encoder.plain(tag, value).first_error() == Some(e),
        encoder.counted(length_tag, tag, value).first_error() == Some(e),
        encoder.after_finish().first_error() == Some(e),
{
}

/// An encoder whose `BeginString` was refused never yields a frame, not even
/// after it was cleared.
pub proof fn law_refused_begin_string_survives_clear(encoder: EncoderView, e: EncodeErrorView)
    requires
        encoder.begin_string_error == Some(e),
    ensures
        encoder.cleared().begin_string_error == Some(e),
        encoder.cleared().frame() == Err::<Seq<u8>, _>(e),
{
}

/// A finished frame takes no further field.
pub proof fn law_finished_frame_is_closed(
    encoder: EncoderView,
    tag: u32,
    length_tag: u32,
    value: Seq<u8>,
)
    requires
        encoder.finished,
    ensures
        encoder.try_plain(tag, value) is Err,
        encoder.try_counted(length_tag, tag, value) is Err,
{
}

/// A field whose value no count was announced for ends at the next SOH,
/// whatever else its value holds and however long it is; a `LENGTH` field then
/// announces the count of its `DATA` field, and any other field announces none.
pub proof fn law_field_ends_at_the_next_soh(
    input: Seq<u8>,
    offset: nat,
    announced: Option<Announced>,
    limit: Option<int>,
    tag_text: Seq<u8>,
    tag: u32,
    value: Seq<u8>,
    tail: Seq<u8>,
)
    requires
        offset <= input.len(),
        input.skip(offset as int) == tag_text + seq![0x3du8] + value + seq![0x01u8] + tail,
        tag_of(tag_text) == Some(tag),
        !value.contains(0x01u8),
        announced matches Some(a) ==> a.data_tag != tag,
    ensures
        ({
            let step = read_field(input, offset, announced, limit);
            let next = offset + tag_text.len() + value.len() + 2;
            &&& step.offset == next
            &&& !is_length(tag) ==> step.outcome == Outcome::Field(FieldView { tag, value })
                && step.announced is None
            &&& forall|data_tag: u32| #[trigger]
                is_pair(tag, data_tag) ==> (length_of(value) matches Some(count) ==> step.outcome
                    == Outcome::Field(FieldView { tag, value }) && step.announced == Some(
                    Announced { data_tag, declared: count },
                ))
            &&& is_length(tag) && length_of(value) is None ==> step.outcome is Fail
        }),
{
    lemma_spelled_value(input, offset, tag_text, tag, value, tail);
    let rest = input.skip(offset as int);
    let start = offset + tag_text.len() + 1;
    let value_rest = input.skip(start as int);
    assert(value_rest[value.len() as int] == SOH);
    assert forall|j: int| 0 <= j < value.len() implies value_rest[j] != SOH by {
        assert(value_rest[j] == value[j]);
    }
    assert(is_first(value_rest, SOH, value.len() as int));
    lemma_first_index(value_rest, SOH, value.len() as int);
    assert(value_rest.take(value.len() as int) =~= value);
    assert forall|data_tag: u32| is_pair(tag, data_tag) implies data_tag_of(tag) == Some(
        data_tag,
    ) by {
        lemma_data_tag_of(tag, data_tag);
    }
}

/// A field whose count was announced is as long as the count says, whatever its
/// value holds, where an SOH follows and the body has room for it.
pub proof fn law_counted_field_ends_at_its_count(
    input: Seq<u8>,
    offset: nat,
    limit: Option<int>,
    tag_text: Seq<u8>,
    tag: u32,
    value: Seq<u8>,
    tail: Seq<u8>,
)
    requires
        offset <= input.len(),
        input.skip(offset as int) == tag_text + seq![0x3du8] + value + seq![0x01u8] + tail,
        tag_of(tag_text) == Some(tag),
        !is_length(tag),
        limit matches Some(end) ==> offset + tag_text.len() + value.len() + 2 <= end,
    ensures
        read_field(
            input,
            offset,
            Some(Announced { data_tag: tag, declared: value.len() }),
            limit,
        ) == (Step {
            outcome: Outcome::Field(FieldView { tag, value }),
            offset: offset + tag_text.len() + value.len() + 2,
            announced: None,
        }),
{
    lemma_spelled_value(input, offset, tag_text, tag, value, tail);
    let start = offset + tag_text.len() + 1;
    let value_rest = input.skip(start as int);
    assert(value_rest[value.len() as int] == SOH);
    assert(value_rest.take(value.len() as int) =~= value);
}

/// The tag of a spelled field is found, and its value stands behind it.
proof fn lemma_spelled_value(
    input: Seq<u8>,
    offset: nat,
    tag_text: Seq<u8>,
    tag: u32,
    value: Seq<u8>,
    tail: Seq<u8>,
)
    requires
        offset <= input.len(),
        input.skip(offset as int) == tag_text + seq![0x3du8] + value + seq![0x01u8] + tail,
        tag_of(tag_text) == Some(tag),
    ensures
        ({
            let rest = input.skip(offset as int);
            let start = offset + tag_text.len() + 1;
            &&& rest.len() > 0
            &&& first_index(rest, EQUALS) == Some(tag_text.len() as int)
            &&& rest.take(tag_text.len() as int) == tag_text
            &&& start <= input.len()
            &&& input.skip(start as int) == value + seq![0x01u8] + tail
        }),
{
    let rest = input.skip(offset as int);
    law_tag_is_up_to_ten_digits(tag_text, tag);
    assert forall|j: int| 0 <= j < tag_text.len() implies rest[j] != EQUALS by {
        assert(rest[j] == tag_text[j]);
    }
    assert(rest[tag_text.len() as int] == EQUALS);
    assert(is_first(rest, EQUALS, tag_text.len() as int));
    lemma_first_index(rest, EQUALS, tag_text.len() as int);
    assert(rest.take(tag_text.len() as int) =~= tag_text);
    let head = tag_text + seq![0x3du8];
    let more = value + seq![0x01u8] + tail;
    assert(rest =~= head + more);
    lemma_skip_over(input, offset, head, more);
}

/// A field that was read is the bytes that spell it: `tag=value<SOH>`, up to the
/// next SOH where no count was announced for it, and as many bytes as were
/// announced otherwise.
pub proof fn law_field_that_was_read_is_spelled(
    input: Seq<u8>,
    offset: nat,
    announced: Option<Announced>,
    limit: Option<int>,
    field: FieldView,
)
    requires
        offset <= input.len(),
        read_field(input, offset, announced, limit).outcome == Outcome::Field(field),
    ensures
        ({
            let step = read_field(input, offset, announced, limit);
            &&& offset < step.offset <= input.len()
            &&& spells(input.subrange(offset as int, step.offset as int), field)
            &&& match announced {
                Some(a) if a.data_tag == field.tag => field.value.len() == a.declared,
                _ => !field.value.contains(0x01u8),
            }
        }),
{
    lemma_read_field_advances(input, offset, announced, limit);
    lemma_field_is_spelled(input, offset, announced, limit);
    let rest = input.skip(offset as int);
    lemma_first_index_exists(rest, EQUALS);
    let eq = first_index(rest, EQUALS)->0;
    assert(is_first(rest, EQUALS, eq));
    let value_rest = input.skip(offset + eq + 1);
    if declared_for(announced, field.tag) is None {
        lemma_first_index_exists(value_rest, SOH);
        let at = first_index(value_rest, SOH)->0;
        if field.value.contains(SOH) {
            let j = choose|j: int| 0 <= j < field.value.len() && field.value[j] == SOH;
            assert(value_rest[j] == SOH);
        }
    }
}

/// The bytes `tag=value<SOH>` of each field, one after the other.
pub open spec fn text_of(fields: Seq<FieldView>) -> Seq<u8>
    decreases fields.len(),
{
    if fields.len() == 0 {
        Seq::empty()
    } else {
        decimal(fields[0].tag as nat) + seq![0x3du8] + fields[0].value + seq![0x01u8] + text_of(
            fields.skip(1),
        )
    }
}

/// Whether a field can stand in a body and is framed by SOH alone.
pub open spec fn is_plain(field: FieldView) -> bool {
    field.tag != 10 && !is_length(field.tag) && !field.value.contains(0x01u8)
}

/// Plain fields are read in order.
proof fn lemma_scan_plain(
    input: Seq<u8>,
    offset: nat,
    limit: Option<int>,
    fields: Seq<FieldView>,
    read: Seq<FieldView>,
    tail: Seq<u8>,
)
    requires
        offset <= input.len(),
        input.skip(offset as int) == text_of(fields) + tail,
        forall|i: int| 0 <= i < fields.len() ==> is_plain(#[trigger] fields[i]),
    ensures
        offset + text_of(fields).len() <= input.len(),
        input.skip((offset + text_of(fields).len()) as int) == tail,
        scan(input, offset, None, limit, read) == scan(
            input,
            offset + text_of(fields).len(),
            None,
            limit,
            read + fields,
        ),
    decreases fields.len(),
{
    if fields.len() == 0 {
        assert(read + fields =~= read);
        assert(text_of(fields) + tail =~= tail);
    } else {
        let field = fields[0];
        let others = fields.skip(1);
        let digits = decimal(field.tag as nat);
        let head = digits + seq![0x3du8] + field.value + seq![0x01u8];
        assert(is_plain(field));
        assert(input.skip(offset as int) =~= digits + seq![0x3du8] + field.value + seq![0x01u8] + (
        text_of(others) + tail));
        lemma_tag_reads_back(field.tag);
        law_field_ends_at_the_next_soh(
            input,
            offset,
            None,
            limit,
            digits,
            field.tag,
            field.value,
            text_of(others) + tail,
        );
        assert(input.skip(offset as int) =~= head + (text_of(others) + tail));
        lemma_skip_over(input, offset, head, text_of(others) + tail);
        assert forall|i: int| 0 <= i < others.len() implies is_plain(#[trigger] others[i]) by {
            assert(others[i] == fields[i + 1]);
        }
        lemma_scan_plain(input, offset + head.len(), limit, others, read.push(field), tail);
        assert(read.push(field) + others =~= read + fields);
        assert(text_of(fields) =~= head + text_of(others));
    }
}

/// Whether the bytes are a message type code that a decoder accepts: 1 to 8
/// bytes of graphic ASCII.
pub open spec fn is_code(bytes: Seq<u8>) -> bool {
    &&& 1 <= bytes.len() <= 8
    &&& forall|i: int| 0 <= i < bytes.len() ==> 0x21 <= #[trigger] bytes[i] <= 0x7e
}

/// A message type code that a decoder accepts is text.
proof fn lemma_code(bytes: Seq<u8>)
    requires
        is_code(bytes),
    ensures
        code_error(bytes, read_code()) is None,
        valid_utf8(bytes),
        decode_utf8(bytes) == ascii_chars(bytes),
{
    assert(read_code().has_all(bytes));
    lemma_ascii_bytes(bytes);
    vstd::utf8::encode_utf8_valid_utf8(ascii_chars(bytes));
    encode_utf8_decode_utf8(ascii_chars(bytes));
}

/// The bytes of a message, up to its `CheckSum` (10) field.
pub open spec fn message_text(
    begin_string: Seq<u8>,
    count: nat,
    fields: Seq<FieldView>,
) -> Seq<u8> {
    seq![0x38u8, 0x3du8] + begin_string + seq![0x01u8, 0x39u8, 0x3du8] + decimal(count) + seq![
        0x01u8,
    ] + text_of(fields)
}

/// Decoding, from the fields that are read on the way.
proof fn lemma_decode_by_steps(
    input: Seq<u8>,
    start: nat,
    validate_checksum: bool,
    begin_string: Seq<u8>,
    digits: Seq<u8>,
    count: nat,
    first: FieldView,
    one: nat,
    two: nat,
    three: nat,
    found: Scan,
)
    requires
        read_field(input, start, None, None) == (Step {
            outcome: Outcome::Field(FieldView { tag: 8, value: begin_string }),
            offset: one,
            announced: None,
        }),
        read_field(input, one, None, None) == (Step {
            outcome: Outcome::Field(FieldView { tag: 9, value: digits }),
            offset: two,
            announced: None,
        }),
        length_of(digits) == Some(count),
        two + count <= usize::MAX,
        read_field(input, two, None, Some((two + count) as int)) == (Step {
            outcome: Outcome::Field(first),
            offset: three,
            announced: None,
        }),
        first.tag == 35,
        valid_utf8(first.value),
        code_error(first.value, read_code()) is None,
        scan(
            input,
            three,
            None,
            Some((two + count) as int),
            seq![
                FieldView { tag: 8, value: begin_string },
                FieldView { tag: 9, value: digits },
            ].push(first),
        ) == found,
    ensures
        decode_frame(input, start, validate_checksum) == (Decoded {
            result: check_frame(
                input,
                start,
                validate_checksum,
                two + count,
                found,
                RawMessageView {
                    buffer: input.subrange(start as int, found.offset as int),
                    begin_string: (
                        ((one - 1 - start) as nat - begin_string.len()) as nat,
                        (one - 1 - start) as nat,
                    ),
                    body: ((two - start) as nat, (two + count - start) as nat),
                    msg_type: msg_type_of(decode_utf8(first.value)),
                    fields: found.fields,
                },
            ),
            offset: found.offset,
            announced: found.announced,
        }),
{
}

/// One plain field, where it stands in the input.
proof fn lemma_read_one(
    input: Seq<u8>,
    offset: nat,
    limit: Option<int>,
    tag: u32,
    value: Seq<u8>,
    tail: Seq<u8>,
)
    requires
        offset <= input.len(),
        input.skip(offset as int) == decimal(tag as nat) + seq![0x3du8] + value + seq![0x01u8]
            + tail,
        !value.contains(0x01u8),
        !is_length(tag),
    ensures
        ({
            let next = offset + decimal(tag as nat).len() + value.len() + 2;
            &&& read_field(input, offset, None, limit) == (Step {
                outcome: Outcome::Field(FieldView { tag, value }),
                offset: next,
                announced: None,
            })
            &&& next <= input.len()
            &&& input.skip(next as int) == tail
        }),
{
    let digits = decimal(tag as nat);
    let head = digits + seq![0x3du8] + value + seq![0x01u8];
    lemma_tag_reads_back(tag);
    law_field_ends_at_the_next_soh(input, offset, None, limit, digits, tag, value, tail);
    lemma_skip_over(input, offset, head, tail);
}

/// The fields of a message of plain fields, where they stand in the input.
proof fn lemma_plain_message_is_scanned(
    input: Seq<u8>,
    start: nat,
    begin_string: Seq<u8>,
    count: nat,
    fields: Seq<FieldView>,
    check: Seq<u8>,
    after: Seq<u8>,
)
    requires
        start <= input.len(),
        input.skip(start as int) == decimal(8) + seq![0x3du8] + begin_string + seq![0x01u8] + (
        decimal(9) + seq![0x3du8] + decimal(count) + seq![0x01u8] + (text_of(fields) + (decimal(10)
            + seq![0x3du8] + check + seq![0x01u8] + after))),
        !begin_string.contains(0x01u8),
        fields.len() > 0,
        fields[0].tag == 35,
        forall|i: int| 0 <= i < fields.len() ==> is_plain(#[trigger] fields[i]),
        !check.contains(0x01u8),
    ensures
        ({
            let one = start + decimal(8).len() + begin_string.len() + 2;
            let two = one + decimal(9).len() + decimal(count).len() + 2;
            let three = two + decimal(35).len() + fields[0].value.len() + 2;
            let end = two + text_of(fields).len();
            let header = seq![
                FieldView { tag: 8, value: begin_string },
                FieldView { tag: 9, value: decimal(count) },
            ];
            &&& read_field(input, start, None, None) == (Step {
                outcome: Outcome::Field(FieldView { tag: 8, value: begin_string }),
                offset: one,
                announced: None,
            })
            &&& read_field(input, one, None, None) == (Step {
                outcome: Outcome::Field(FieldView { tag: 9, value: decimal(count) }),
                offset: two,
                announced: None,
            })
            &&& read_field(input, two, None, Some((two + count) as int)) == (Step {
                outcome: Outcome::Field(fields[0]),
                offset: three,
                announced: None,
            })
            &&& scan(input, three, None, Some((two + count) as int), header.push(fields[0])) == (
            Scan {
                end: ScanEnd::CheckSum { value: check, at: end },
                fields: header + fields,
                offset: end + decimal(10).len() + check.len() + 2,
                announced: None,
            })
        }),
{
    let trailer = decimal(10) + seq![0x3du8] + check + seq![0x01u8] + after;
    let others = fields.skip(1);
    let one = start + decimal(8).len() + begin_string.len() + 2;
    let two = one + decimal(9).len() + decimal(count).len() + 2;
    let limit = Some((two + count) as int);
    law_framing_tags_are_unpaired(8);
    law_framing_tags_are_unpaired(9);
    law_framing_tags_are_unpaired(10);
    lemma_count_has_no_soh(count);
    lemma_read_one(
        input,
        start,
        None,
        8,
        begin_string,
        decimal(9) + seq![0x3du8] + decimal(count) + seq![0x01u8] + (text_of(fields) + trailer),
    );
    lemma_read_one(input, one, None, 9, decimal(count), text_of(fields) + trailer);
    assert(is_plain(fields[0]));
    assert(text_of(fields) + trailer =~= decimal(35) + seq![0x3du8] + fields[0].value + seq![0x01u8]
        + (text_of(others) + trailer));
    lemma_read_one(input, two, limit, 35, fields[0].value, text_of(others) + trailer);
    let three = two + decimal(35).len() + fields[0].value.len() + 2;
    assert forall|i: int| 0 <= i < others.len() implies is_plain(#[trigger] others[i]) by {
        assert(others[i] == fields[i + 1]);
    }
    let header = seq![
        FieldView { tag: 8, value: begin_string },
        FieldView { tag: 9, value: decimal(count) },
    ];
    lemma_scan_plain(input, three, limit, others, header.push(fields[0]), trailer);
    assert(header.push(fields[0]) + others =~= header + fields);
    let end = three + text_of(others).len();
    assert(text_of(fields).len() == decimal(35).len() + fields[0].value.len() + 2 + text_of(
        others,
    ).len());
    lemma_read_one(input, end, limit, 10, check, after);
}

/// Where the parts of a message stand in the input.
proof fn lemma_message_in_input(
    before: Seq<u8>,
    begin_string: Seq<u8>,
    count: nat,
    fields: Seq<FieldView>,
    check: Seq<u8>,
    after: Seq<u8>,
)
    ensures
        ({
            let text = message_text(begin_string, count, fields);
            let whole = text + seq![0x31u8, 0x30u8, 0x3du8] + check + seq![0x01u8];
            let input = before + text + seq![0x31u8, 0x30u8, 0x3du8] + check + seq![0x01u8] + after;
            let start = before.len();
            &&& decimal(8).len() == 1
            &&& decimal(9).len() == 1
            &&& decimal(10).len() == 2
            &&& start <= input.len()
            &&& text.len() == begin_string.len() + decimal(count).len() + text_of(fields).len() + 6
            &&& whole.len() == text.len() + check.len() + 4
            &&& input.len() == start + whole.len() + after.len()
            &&& input.skip(start as int) == decimal(8) + seq![0x3du8] + begin_string + seq![0x01u8]
                + (decimal(9) + seq![0x3du8] + decimal(count) + seq![0x01u8] + (text_of(fields) + (
            decimal(10) + seq![0x3du8] + check + seq![0x01u8] + after)))
            &&& input.subrange(start as int, (start + text.len()) as int) == text
            &&& input.subrange(start as int, (start + whole.len()) as int) == whole
        }),
{
    let text = message_text(begin_string, count, fields);
    let whole = text + seq![0x31u8, 0x30u8, 0x3du8] + check + seq![0x01u8];
    let input = before + text + seq![0x31u8, 0x30u8, 0x3du8] + check + seq![0x01u8] + after;
    let start = before.len();
    assert(decimal(1) =~= seq![0x31u8]);
    assert(decimal(8) =~= seq![0x38u8]);
    assert(decimal(9) =~= seq![0x39u8]);
    assert(decimal(10) =~= seq![0x31u8, 0x30u8]);
    assert(input.subrange(start as int, (start + text.len()) as int) =~= text);
    assert(input.subrange(start as int, (start + whole.len()) as int) =~= whole);
    assert(input.skip(start as int) =~= decimal(8) + seq![0x3du8] + begin_string + seq![0x01u8] + (
    decimal(9) + seq![0x3du8] + decimal(count) + seq![0x01u8] + (text_of(fields) + (decimal(10)
        + seq![0x3du8] + check + seq![0x01u8] + after))));
}

/// How a message of plain fields is judged, where its parts are known.
#[verifier::rlimit(40)]
proof fn lemma_message_is_judged(
    input: Seq<u8>,
    start: nat,
    text: Seq<u8>,
    whole: Seq<u8>,
    begin_string: Seq<u8>,
    count: nat,
    fields: Seq<FieldView>,
    check: Seq<u8>,
    after: Seq<u8>,
    validate_checksum: bool,
)
    requires
        !begin_string.contains(0x01u8),
        count < 10_000_000_000,
        fields.len() > 0,
        fields[0].tag == 35,
        is_code(fields[0].value),
        forall|i: int| 0 <= i < fields.len() ==> is_plain(#[trigger] fields[i]),
        !check.contains(0x01u8),
        input.len() + count <= usize::MAX,
        decimal(8).len() == 1,
        decimal(9).len() == 1,
        decimal(10).len() == 2,
        start <= input.len(),
        text.len() == begin_string.len() + decimal(count).len() + text_of(fields).len() + 6,
        whole.len() == text.len() + check.len() + 4,
        input.len() == start + whole.len() + after.len(),
        input.skip(start as int) == decimal(8) + seq![0x3du8] + begin_string + seq![0x01u8] + (
        decimal(9) + seq![0x3du8] + decimal(count) + seq![0x01u8] + (text_of(fields) + (decimal(10)
            + seq![0x3du8] + check + seq![0x01u8] + after))),
        input.subrange(start as int, (start + text.len()) as int) == text,
        input.subrange(start as int, (start + whole.len()) as int) == whole,
    ensures
        ({
            let decoded = decode_frame(input, start, validate_checksum);
            let message = RawMessageView {
                buffer: whole,
                begin_string: (2, 2 + begin_string.len()),
                body: ((text.len() - text_of(fields).len()) as nat, text.len()),
                msg_type: msg_type_of(ascii_chars(fields[0].value)),
                fields: seq![
                    FieldView { tag: 8, value: begin_string },
                    FieldView { tag: 9, value: decimal(count) },
                ] + fields,
            };
            &&& decoded.offset == start + whole.len()
            &&& decoded.announced is None
            &&& if count != text_of(fields).len() {
                decoded.result == Err::<RawMessageView, _>(DecodeErrorView::InvalidBodyLength)
            } else if !validate_checksum {
                decoded.result == Ok::<_, DecodeErrorView>(message)
            } else {
                match declared_checksum(check) {
                    None => decoded.result is Err,
                    Some(declared) => if declared == checksum_of(text) {
                        decoded.result == Ok::<_, DecodeErrorView>(message)
                    } else {
                        decoded.result == Err::<RawMessageView, _>(
                            DecodeErrorView::ChecksumMismatch {
                                calculated: checksum_of(text),
                                declared,
                            },
                        )
                    },
                }
            }
        }),
{
    lemma_plain_message_is_scanned(input, start, begin_string, count, fields, check, after);
    lemma_length_reads_back(count);
    lemma_code(fields[0].value);
    let one = start + begin_string.len() + 3;
    let two = one + decimal(count).len() + 3;
    let three = two + decimal(35).len() + fields[0].value.len() + 2;
    let end = two + text_of(fields).len();
    assert(end == start + text.len());
    let found = Scan {
        end: ScanEnd::CheckSum { value: check, at: end },
        fields: seq![
            FieldView { tag: 8, value: begin_string },
            FieldView { tag: 9, value: decimal(count) },
        ] + fields,
        offset: start + whole.len(),
        announced: None,
    };
    lemma_decode_by_steps(
        input,
        start,
        validate_checksum,
        begin_string,
        decimal(count),
        count,
        fields[0],
        one,
        two,
        three,
        found,
    );
}

/// A message of plain fields is judged by three things: its `BodyLength` (9)
/// must be the count of the bytes between that field and `CheckSum` (10), and,
/// where checksums are validated, the value of `CheckSum` must be three digits
/// that denote the checksum of everything before it. Nothing else decides: not
/// how many fields there are, how long they are, or what stands around the
/// message. A message that is accepted is given with all its fields, in order.
pub proof fn law_message_of_plain_fields_is_judged(
    before: Seq<u8>,
    begin_string: Seq<u8>,
    count: nat,
    fields: Seq<FieldView>,
    check: Seq<u8>,
    after: Seq<u8>,
    validate_checksum: bool,
)
    requires
        !begin_string.contains(0x01u8),
        count < 10_000_000_000,
        fields.len() > 0,
        fields[0].tag == 35,
        is_code(fields[0].value),
        forall|i: int| 0 <= i < fields.len() ==> is_plain(#[trigger] fields[i]),
        !check.contains(0x01u8),
        (before + message_text(begin_string, count, fields) + seq![0x31u8, 0x30u8, 0x3du8] + check
            + seq![0x01u8] + after).len() + count <= usize::MAX,
    ensures
        ({
            let text = message_text(begin_string, count, fields);
            let whole = text + seq![0x31u8, 0x30u8, 0x3du8] + check + seq![0x01u8];
            let input = before + text + seq![0x31u8, 0x30u8, 0x3du8] + check + seq![0x01u8] + after;
            let decoded = decode_frame(input, before.len(), validate_checksum);
            let message = RawMessageView {
                buffer: whole,
                begin_string: (2, 2 + begin_string.len()),
                body: ((text.len() - text_of(fields).len()) as nat, text.len()),
                msg_type: msg_type_of(ascii_chars(fields[0].value)),
                fields: seq![
                    FieldView { tag: 8, value: begin_string },
                    FieldView { tag: 9, value: decimal(count) },
                ] + fields,
            };
            &&& decoded.offset == before.len() + whole.len()
            &&& decoded.announced is None
            &&& if count != text_of(fields).len() {
                decoded.result == Err::<RawMessageView, _>(DecodeErrorView::InvalidBodyLength)
            } else if !validate_checksum {
                decoded.result == Ok::<_, DecodeErrorView>(message)
            } else {
                match declared_checksum(check) {
                    None => decoded.result is Err,
                    Some(declared) => if declared == checksum_of(text) {
                        decoded.result == Ok::<_, DecodeErrorView>(message)
                    } else {
                        decoded.result == Err::<RawMessageView, _>(
                            DecodeErrorView::ChecksumMismatch {
                                calculated: checksum_of(text),
                                declared,
                            },
                        )
                    },
                }
            }
        }),
{
    let text = message_text(begin_string, count, fields);
    let whole = text + seq![0x31u8, 0x30u8, 0x3du8] + check + seq![0x01u8];
    let input = before + text + seq![0x31u8, 0x30u8, 0x3du8] + check + seq![0x01u8] + after;
    lemma_message_in_input(before, begin_string, count, fields, check, after);
    lemma_message_is_judged(
        input,
        before.len(),
        text,
        whole,
        begin_string,
        count,
        fields,
        check,
        after,
        validate_checksum,
    );
}

/// A message starts with `BeginString` (8), `BodyLength` (9) and `MsgType` (35),
/// in this order: where another field or nothing stands in the place of one, the
/// message is refused for it.
pub proof fn law_header_comes_in_order(input: Seq<u8>, start: nat, validate_checksum: bool)
    ensures
        ({
            let result = decode_frame(input, start, validate_checksum).result;
            let one = read_field(input, start, None, None);
            let two = read_field(input, one.offset, one.announced, None);
            let count = length_of(two.outcome->Field_0.value);
            let three = read_field(
                input,
                two.offset,
                two.announced,
                Some((two.offset + count->0) as int),
            );
            &&& one.outcome is End ==> result == Err::<RawMessageView, _>(
                DecodeErrorView::Incomplete,
            )
            &&& one.outcome matches Outcome::Field(first) ==> if first.tag != 8 {
                result == Err::<RawMessageView, _>(DecodeErrorView::InvalidBeginString)
            } else if two.outcome is End {
                result == Err::<RawMessageView, _>(DecodeErrorView::MissingBodyLength)
            } else {
                two.outcome matches Outcome::Field(second) ==> if second.tag != 9 {
                    result == Err::<RawMessageView, _>(DecodeErrorView::MissingBodyLength)
                } else if count is None || two.offset + count->0 > usize::MAX {
                    result == Err::<RawMessageView, _>(DecodeErrorView::InvalidBodyLength)
                } else if three.outcome is End {
                    result == Err::<RawMessageView, _>(DecodeErrorView::MissingMsgType)
                } else {
                    three.outcome matches Outcome::Field(third) ==> third.tag != 35 ==> result
                        == Err::<RawMessageView, _>(DecodeErrorView::MissingMsgType)
                }
            }
        }),
{
}

/// A decoded message has a type: the value of its `MsgType` (35) field, which is
/// 1 to 8 bytes of graphic ASCII.
pub proof fn law_decoded_message_has_a_type(
    input: Seq<u8>,
    start: nat,
    validate_checksum: bool,
    message: RawMessageView,
)
    requires
        start <= input.len(),
        decode_frame(input, start, validate_checksum).result == Ok::<_, DecodeErrorView>(message),
    ensures
        message.fields.len() >= 3,
        is_code(message.fields[2].value),
        message.msg_type == msg_type_of(ascii_chars(message.fields[2].value)),
{
    law_decoded_message_is_well_formed(input, start, validate_checksum, message);
    lemma_read_field_advances(input, start, None, None);
    let begin = read_field(input, start, None, None);
    lemma_read_field_advances(input, begin.offset, begin.announced, None);
    let length = read_field(input, begin.offset, begin.announced, None);
    let body_end = length.offset + length_of(length.outcome->Field_0.value)->0;
    let limit = Some(body_end as int);
    lemma_read_field_advances(input, length.offset, length.announced, limit);
    let msg_type = read_field(input, length.offset, length.announced, limit);
    let field = msg_type.outcome->Field_0;
    let header = seq![begin.outcome->Field_0, length.outcome->Field_0].push(field);
    lemma_header_is_spelled(input, start, limit);
    lemma_scan_shape(input, start, msg_type.offset, msg_type.announced, limit, header);
    let run = scan(input, msg_type.offset, msg_type.announced, limit, header);
    assert(run.fields.take(3)[2] == field);
    law_code_is_graphic(field.value);
    lemma_code(field.value);
}

/// A count that the input or the body has no room for is refused, and so is one
/// behind which no SOH stands; the refusal names the count and the room.
pub proof fn law_count_must_fit(
    input: Seq<u8>,
    offset: nat,
    limit: Option<int>,
    tag_text: Seq<u8>,
    tag: u32,
    rest: Seq<u8>,
    count: nat,
)
    requires
        offset <= input.len(),
        input.skip(offset as int) == tag_text + seq![0x3du8] + rest,
        tag_of(tag_text) == Some(tag),
        limit matches Some(end) ==> end >= offset + tag_text.len() + 1 + rest.len(),
        count >= rest.len() || rest[count as int] != 0x01,
    ensures
        read_field(input, offset, Some(Announced { data_tag: tag, declared: count }), limit) == (
        Step {
            outcome: Outcome::Fail(
                DecodeErrorView::InvalidDataLength {
                    data_tag: tag,
                    declared: count,
                    available: rest.len(),
                },
            ),
            offset,
            announced: None,
        }),
{
    let all = input.skip(offset as int);
    law_tag_is_up_to_ten_digits(tag_text, tag);
    assert forall|j: int| 0 <= j < tag_text.len() implies all[j] != EQUALS by {
        assert(all[j] == tag_text[j]);
    }
    assert(all[tag_text.len() as int] == EQUALS);
    assert(is_first(all, EQUALS, tag_text.len() as int));
    lemma_first_index(all, EQUALS, tag_text.len() as int);
    assert(all.take(tag_text.len() as int) =~= tag_text);
    lemma_skip_over(input, offset, tag_text + seq![0x3du8], rest);
}

/// A field without a tag number, and a field that does not end, are refused.
pub proof fn law_unfinished_field_is_refused(
    input: Seq<u8>,
    offset: nat,
    limit: Option<int>,
    tag_text: Seq<u8>,
    rest: Seq<u8>,
)
    requires
        offset <= input.len(),
        input.skip(offset as int) == tag_text + seq![0x3du8] + rest,
        !tag_text.contains(0x3du8),
    ensures
        tag_of(tag_text) is None ==> read_field(input, offset, None, limit).outcome is Fail,
        tag_of(tag_text) matches Some(tag) ==> !rest.contains(0x01u8) ==> read_field(
            input,
            offset,
            None,
            limit,
        ).outcome == Outcome::Fail(DecodeErrorView::UnterminatedField { tag }),
{
    let all = input.skip(offset as int);
    assert forall|j: int| 0 <= j < tag_text.len() implies all[j] != EQUALS by {
        assert(all[j] == tag_text[j]);
    }
    assert(all[tag_text.len() as int] == EQUALS);
    assert(is_first(all, EQUALS, tag_text.len() as int));
    lemma_first_index(all, EQUALS, tag_text.len() as int);
    assert(all.take(tag_text.len() as int) =~= tag_text);
    lemma_skip_over(input, offset, tag_text + seq![0x3du8], rest);
}

/// Bytes that are no tag number are shown as text, but no more than 16 of them,
/// so that an error does not grow with the input.
pub proof fn law_bad_tag_is_shown_in_part(bytes: Seq<u8>)
    ensures
        bytes.len() <= 16 ==> bad_tag(bytes) == DecodeErrorView::InvalidTag(utf8_lossy(bytes)),
        bytes.len() > 16 ==> bad_tag(bytes) == DecodeErrorView::InvalidTag(
            utf8_lossy(bytes.take(16)),
        ),
{
}

} // verus!

//! FIX message encoder.
//!
//! [`Encoder`] builds a complete tag=value frame,
//! `8=<BeginString><SOH>9=<BodyLength><SOH>` to `10=<CheckSum><SOH>`, in one
//! buffer. The buffer opens with a reserved prefix, the body is written behind
//! it, and [`Encoder::finish`] writes the header into the tail of the prefix,
//! so that the frame is contiguous and the body is never moved.
//!
//! A value that would corrupt the frame is refused. The `put_*` methods
//! remember the first refusal, and [`Encoder::finish`] then returns it and
//! yields no bytes; [`Encoder::try_put_raw`] and [`Encoder::try_put_data`]
//! report it at once.

use crate::outside::buffer::{
    as_mut_slice, as_slice, buffered, clear, put_slice, put_u8, reserve, resize, with_capacity,
};
use crate::outside::decimal::{decimal, format_bytes, format_uint, signed_decimal};
use crate::outside::search::find;
use crate::outside::text::{char_bytes, hex_text};
use crate::tagvalue::checksum::{calculate_checksum, checksum_digits, format_checksum};
use crate::tagvalue::digits::{lemma_decimal_len, ten_to};
use crate::tagvalue::frame;
use crate::tagvalue::frame::{
    begin_string_rejection, body_bytes, body_tag_rejection, covered_bytes, field_bytes, frame_bytes,
    frameable, header_bytes, msg_type_rejection, starts_with_msg_type, trailer_bytes, EncoderView,
    Entry, BEGIN_STRING_MAX_LEN, HEADER_RESERVE, MAX_BODY_LENGTH_DIGITS, TRAILER_LEN,
};
use crate::tagvalue::pairs::{is_data_tag, lemma_data_tag_of, paired_data_tag};
pub use crate::tagvalue::wire::{EQUALS, SOH};
use crate::types::charset::Charset;
use crate::types::error::{EncodeError, EncodeErrorView, MsgTypeError};
use crate::types::message::MsgType;
use bytes::BytesMut;
use vstd::prelude::*;
use vstd::slice::slice_subrange;
use vstd::string::StringSliceAdditionalSpecFns;
use vstd::utf8::encode_utf8;

verus! {

/// Default body capacity of a new encoder, in bytes.
const DEFAULT_BODY_CAPACITY: usize = 256;

/// FIX message encoder.
///
/// The encoder appends body fields in tag=value form and stamps
/// `BeginString` (8), `BodyLength` (9) and `CheckSum` (10) itself.
pub struct Encoder {
    /// Frame buffer: `HEADER_RESERVE` bytes of header space, then the body,
    /// then the trailer once [`Encoder::finish`] has stamped it.
    buf: BytesMut,
    /// Validated `BeginString` bytes, held inline.
    begin_string: [u8; BEGIN_STRING_MAX_LEN],
    /// Number of leading bytes of `begin_string` in use.
    begin_string_len: usize,
    /// Bytes of body written so far, the value stamped into tag 9.
    body_len: usize,
    /// Tag of the first body field, which FIX requires to be MsgType (35).
    first_tag: Option<u32>,
    /// Offset of the frame's first byte once the header has been stamped.
    frame_start: Option<usize>,
    /// Refusal remembered when the `BeginString` was set.
    ///
    /// Survives [`Encoder::clear`]: an encoder built with an unusable
    /// BeginString cannot frame any message, not just the current one.
    begin_string_error: Option<EncodeError>,
    /// First refused write of the current message.
    error: Option<EncodeError>,
    /// What was written into the body.
    entries: Ghost<Seq<Entry>>,
}

/// What an optional error says.
pub open spec fn error_view(error: Option<EncodeError>) -> Option<EncodeErrorView> {
    match error {
        Some(e) => Some(e@),
        None => None,
    }
}

impl View for Encoder {
    type V = EncoderView;

    closed spec fn view(&self) -> EncoderView {
        EncoderView {
            begin_string: self.begin_string@.take(self.begin_string_len as int),
            entries: self.entries@,
            finished: self.frame_start is Some,
            begin_string_error: error_view(self.begin_string_error),
            error: error_view(self.error),
        }
    }
}

impl Encoder {
    /// Whether the buffer holds what was written.
    pub closed spec fn wf(&self) -> bool {
        let bytes = buffered(self.buf);
        let body = body_bytes(self.entries@);
        &&& self.begin_string_len <= BEGIN_STRING_MAX_LEN
        &&& self.begin_string_error is None ==> begin_string_rejection(
            self@.begin_string,
        ) is None
        &&& self.body_len == body.len()
        &&& HEADER_RESERVE + self.body_len + TRAILER_LEN <= isize::MAX
        &&& self.first_tag == (if self.entries@.len() == 0 {
            None
        } else {
            Some(self.entries@[0].first_tag())
        })
        &&& forall|i: int|
            0 <= i < self.entries@.len() ==> (#[trigger] self.entries@[i]).valid()
        &&& match self.frame_start {
            None => bytes.len() == HEADER_RESERVE + body.len() && bytes.skip(HEADER_RESERVE as int)
                == body,
            Some(start) => {
                &&& start <= bytes.len()
                &&& bytes.skip(start as int) == frame_bytes(self@.begin_string, self.entries@)
                &&& self.begin_string_error is None
                &&& starts_with_msg_type(self.entries@)
            },
        }
    }

    /// Creates a new encoder with the specified `BeginString`.
    ///
    /// A `BeginString` that is empty, longer than [`BEGIN_STRING_MAX_LEN`], or
    /// carries a byte that cannot appear in tag 8 is remembered and reported
    /// by [`Encoder::finish`]; no such frame is ever produced.
    pub fn new(begin_string: &str) -> (encoder: Self)
        ensures
            encoder.wf(),
            encoder@ == EncoderView::fresh(begin_string.spec_bytes()),
    {
        Self::with_capacity(begin_string, DEFAULT_BODY_CAPACITY)
    }

    /// Creates a new encoder with a pre-allocated body capacity.
    ///
    /// A message whose body fits in `capacity` bytes is encoded without the
    /// buffer growing. A capacity that cannot be allocated falls back to the
    /// frame overhead alone.
    pub fn with_capacity(begin_string: &str, capacity: usize) -> (encoder: Self)
        ensures
            encoder.wf(),
            encoder@ == EncoderView::fresh(begin_string.spec_bytes()),
    {
        let overhead: usize = HEADER_RESERVE + TRAILER_LEN;
        let total: usize = if capacity <= isize::MAX as usize - overhead {
            overhead + capacity
        } else {
            overhead
        };
        let mut buf = with_capacity(total);
        resize(&mut buf, HEADER_RESERVE, 0);
        let mut slot: [u8; BEGIN_STRING_MAX_LEN] = [0; BEGIN_STRING_MAX_LEN];
        let (begin_string_len, begin_string_error) = match copy_begin_string(
            begin_string,
            &mut slot,
        ) {
            Ok(len) => (len, None),
            Err(error) => (0, Some(error)),
        };
        let encoder = Encoder {
            buf,
            begin_string: slot,
            begin_string_len,
            body_len: 0,
            first_tag: None,
            frame_start: None,
            begin_string_error,
            error: None,
            entries: Ghost(Seq::empty()),
        };
        proof {
            assert(buffered(encoder.buf).skip(HEADER_RESERVE as int) =~= Seq::<u8>::empty());
            if encoder.begin_string_error is Some {
                assert(encoder.begin_string@.take(0) =~= Seq::<u8>::empty());
            }
        }
        encoder
    }

    /// Appends a field with a string value.
    ///
    /// A refused value is remembered and surfaced by [`Encoder::finish`]; see
    /// [`Encoder::try_put_raw`] for what is refused.
    pub fn put_str(&mut self, tag: u32, value: &str)
        requires
            old(self).wf(),
        ensures
            final(self).wf(),
            final(self)@ == old(self)@.plain(tag, value.spec_bytes()),
    {
        self.put_raw(tag, value.as_bytes());
    }

    /// Appends a field with an integer value.
    pub fn put_int(&mut self, tag: u32, value: i64)
        requires
            old(self).wf(),
        ensures
            final(self).wf(),
            final(self)@ == old(self)@.plain(tag, signed_decimal(value as int)),
    {
        let digits = format_bytes(value as i128);
        self.put_raw(tag, digits.as_slice());
    }

    /// Appends a field with an unsigned integer value.
    pub fn put_uint(&mut self, tag: u32, value: u64)
        requires
            old(self).wf(),
        ensures
            final(self).wf(),
            final(self)@ == old(self)@.plain(tag, decimal(value as nat)),
    {
        let digits = format_bytes(value as i128);
        self.put_raw(tag, digits.as_slice());
    }

    /// Appends a field with a boolean value (Y/N).
    pub fn put_bool(&mut self, tag: u32, value: bool)
        requires
            old(self).wf(),
        ensures
            final(self).wf(),
            final(self)@ == old(self)@.plain(
                tag,
                if value {
                    seq![0x59u8]
                } else {
                    seq![0x4eu8]
                },
            ),
    {
        let letter: [u8; 1] = if value {
            [0x59]
        } else {
            [0x4e]
        };
        assert(letter@ =~= if value {
            seq![0x59u8]
        } else {
            seq![0x4eu8]
        });
        self.put_raw(tag, letter.as_slice());
    }

    /// Appends a field with a single character value.
    pub fn put_char(&mut self, tag: u32, value: char)
        requires
            old(self).wf(),
        ensures
            final(self).wf(),
            final(self)@ == old(self)@.plain(tag, encode_utf8(seq![value])),
    {
        let bytes = char_bytes(value);
        self.put_raw(tag, bytes.as_slice());
    }

    /// Appends a field with raw bytes.
    ///
    /// A refused value is remembered and surfaced by [`Encoder::finish`]; see
    /// [`Encoder::try_put_raw`] for what is refused.
    pub fn put_raw(&mut self, tag: u32, value: &[u8])
        requires
            old(self).wf(),
        ensures
            final(self).wf(),
            final(self)@ == old(self)@.plain(tag, value@),
    {
        if let Err(error) = self.try_put_raw(tag, value) {
            self.record(error);
        }
    }

    /// Appends a field with raw bytes, reporting a refusal immediately.
    ///
    /// Nothing is written when this returns `Err`, and the refusal is **not**
    /// remembered: the caller has it.
    ///
    /// # Errors
    /// [`EncodeError::InvalidFieldValue`] if:
    /// * `tag` is `0`, which is not a legal FIX tag;
    /// * `tag` is `8`, `9` or `10`, the framing fields that
    ///   [`Encoder::finish`] stamps itself;
    /// * `tag` is a `LENGTH` or `DATA` field of a pair, which must be written
    ///   together through [`Encoder::put_data`];
    /// * `value` is empty;
    /// * `value` contains SOH, which would terminate the field early;
    /// * `tag` is 35 and `value` is not a message type code;
    /// * the frame is already finished: call [`Encoder::clear`] first.
    ///
    /// [`EncodeError::FieldTooLong`] if `tag` is 35 and `value` is longer than
    /// a message type code.
    ///
    /// A `=` byte inside a value is **accepted**: a decoder splits a field at
    /// its first `=`.
    pub fn try_put_raw(&mut self, tag: u32, value: &[u8]) -> (written: Result<(), EncodeError>)
        requires
            old(self).wf(),
        ensures
            final(self).wf(),
            match written {
                Ok(()) => old(self)@.try_plain(tag, value@) == Ok::<_, EncodeErrorView>(
                    final(self)@,
                ),
                Err(e) => old(self)@.try_plain(tag, value@) == Err::<EncoderView, _>(e@)
                    && final(self)@ == old(self)@,
            },
    {
        if self.frame_start.is_some() {
            return Err(already_finished(tag));
        }
        if let Some(error) = check_body_tag(tag) {
            return Err(error);
        }
        if value.is_empty() {
            return Err(empty_value(tag));
        }
        if let Some(position) = find(SOH, value) {
            return Err(soh_in_value(tag, position));
        }
        if tag == 35 {
            if let Some(error) = check_msg_type(value) {
                return Err(error);
            }
        }
        self.write_plain(tag, value);
        Ok(())
    }

    /// Appends a `LENGTH`/`DATA` field pair.
    ///
    /// Emits `length_tag=<value.len()><SOH>data_tag=<value><SOH>`. The count is
    /// derived from `value`, so the declared length and the payload cannot
    /// disagree, and `value` may contain SOH and `=`.
    ///
    /// A refused pair is remembered and surfaced by [`Encoder::finish`]; see
    /// [`Encoder::try_put_data`] for what is refused.
    pub fn put_data(&mut self, length_tag: u32, data_tag: u32, value: &[u8])
        requires
            old(self).wf(),
        ensures
            final(self).wf(),
            final(self)@ == old(self)@.counted(length_tag, data_tag, value@),
    {
        if let Err(error) = self.try_put_data(length_tag, data_tag, value) {
            self.record(error);
        }
    }

    /// Appends a `LENGTH`/`DATA` field pair, reporting a refusal immediately.
    ///
    /// Nothing is written when this returns `Err`.
    ///
    /// # Errors
    /// [`EncodeError::InvalidFieldValue`] if either tag is `0`, if `data_tag`
    /// is not the `DATA` field that pairs with `length_tag`, if `value` is
    /// empty, or if the frame is already finished.
    pub fn try_put_data(&mut self, length_tag: u32, data_tag: u32, value: &[u8]) -> (written: Result<
        (),
        EncodeError,
    >)
        requires
            old(self).wf(),
        ensures
            final(self).wf(),
            match written {
                Ok(()) => old(self)@.try_counted(length_tag, data_tag, value@) == Ok::<
                    _,
                    EncodeErrorView,
                >(final(self)@),
                Err(e) => old(self)@.try_counted(length_tag, data_tag, value@) == Err::<
                    EncoderView,
                    _,
                >(e@) && final(self)@ == old(self)@,
            },
    {
        if self.frame_start.is_some() {
            return Err(already_finished(data_tag));
        }
        if length_tag == 0 || data_tag == 0 {
            return Err(zero_tag());
        }
        proof {
            lemma_data_tag_of(length_tag, data_tag);
        }
        match paired_data_tag(length_tag) {
            Some(paired) => {
                if paired != data_tag {
                    return Err(unpaired_data_tag(length_tag, data_tag));
                }
            },
            None => {
                return Err(unpaired_data_tag(length_tag, data_tag));
            },
        }
        if value.is_empty() {
            return Err(empty_value(data_tag));
        }
        self.write_counted(length_tag, data_tag, value);
        Ok(())
    }

    /// Stamps the frame and returns it.
    ///
    /// Writes `8=<BeginString><SOH>9=<BodyLength><SOH>` into the reserved
    /// prefix so that it ends exactly where the body starts, then appends
    /// `10=<CheckSum><SOH>`. The returned slice borrows the encoder's own
    /// buffer.
    ///
    /// Calling it again returns the same frame; call [`Encoder::clear`] to
    /// start the next message.
    ///
    /// # Errors
    /// * The first refusal remembered by any `put_*` call, or by
    ///   [`Encoder::new`] for an unusable `BeginString`.
    /// * [`EncodeError::MissingRequiredField`] for tag 35 if no field was
    ///   written, or if the first body field is not `MsgType`.
    pub fn finish(&mut self) -> (frame: Result<&[u8], EncodeError>)
        requires
            old(self).wf(),
        ensures
            final(self).wf(),
            final(self)@ == old(self)@.after_finish(),
            match frame {
                Ok(bytes) => old(self)@.frame() == Ok::<_, EncodeErrorView>(bytes@) && frameable(
                    old(self)@.begin_string,
                    old(self)@.entries,
                ),
                Err(e) => old(self)@.frame() == Err::<Seq<u8>, _>(e@),
            },
    {
        match self.error() {
            Some(error) => {
                return Err(error.clone());
            },
            None => {},
        }
        let start: usize = match self.frame_start {
            Some(start) => start,
            None => {
                match self.first_tag {
                    Some(35) => {},
                    _ => {
                        return Err(EncodeError::MissingRequiredField { tag: 35 });
                    },
                }
                self.stamp()
            },
        };
        let bytes = as_slice(&self.buf);
        let frame = slice_subrange(bytes, start, bytes.len());
        assert(frame@ =~= buffered(self.buf).skip(start as int));
        Ok(frame)
    }

    /// Stamps the frame and appends it to `dst`.
    ///
    /// The encoder's own buffer is left holding the finished frame, so
    /// [`Encoder::clear`] still retains its capacity.
    ///
    /// # Errors
    /// The same refusals as [`Encoder::finish`]; `dst` is left untouched.
    pub fn finish_into(&mut self, dst: &mut BytesMut) -> (written: Result<(), EncodeError>)
        requires
            old(self).wf(),
            old(self)@.frame() matches Ok(frame) ==> buffered(*old(dst)).len() + frame.len()
                <= isize::MAX,
        ensures
            final(self).wf(),
            final(self)@ == old(self)@.after_finish(),
            match written {
                Ok(()) => old(self)@.frame() is Ok && buffered(*final(dst)) == buffered(*old(dst))
                    + old(self)@.frame()->Ok_0,
                Err(e) => old(self)@.frame() == Err::<Seq<u8>, _>(e@) && buffered(*final(dst))
                    == buffered(*old(dst)),
            },
    {
        match self.finish() {
            Ok(frame) => {
                reserve(dst, frame.len());
                put_slice(dst, frame);
                Ok(())
            },
            Err(error) => Err(error),
        }
    }

    /// Returns the current body length in bytes, the value stamped into
    /// `BodyLength` (9).
    pub fn body_len(&self) -> (len: usize)
        requires
            self.wf(),
        ensures
            len == body_bytes(self@.entries).len(),
    {
        self.body_len
    }

    /// Returns the first refusal remembered so far, if any.
    ///
    /// A refused `BeginString` comes before any refused write.
    pub fn error(&self) -> (error: Option<&EncodeError>)
        ensures
            match error {
                Some(e) => self@.first_error() == Some(e@),
                None => self@.first_error() is None,
            },
    {
        match &self.begin_string_error {
            Some(error) => Some(error),
            None => match &self.error {
                Some(error) => Some(error),
                None => None,
            },
        }
    }

    /// Clears the encoder for the next message, retaining its capacity.
    ///
    /// A refusal remembered for the `BeginString` is **not** cleared: it makes
    /// every message this encoder could build unframeable, not just the one
    /// being discarded.
    pub fn clear(&mut self)
        requires
            old(self).wf(),
        ensures
            final(self).wf(),
            final(self)@ == old(self)@.cleared(),
    {
        clear(&mut self.buf);
        resize(&mut self.buf, HEADER_RESERVE, 0);
        self.body_len = 0;
        self.first_tag = None;
        self.frame_start = None;
        self.error = None;
        self.entries = Ghost(Seq::empty());
        proof {
            assert(buffered(self.buf).skip(HEADER_RESERVE as int) =~= Seq::<u8>::empty());
        }
    }

    /// Remembers the first refused write; later ones are dropped.
    fn record(&mut self, error: EncodeError)
        requires
            old(self).wf(),
        ensures
            final(self).wf(),
            final(self)@ == old(self)@.record(error@),
    {
        if self.error.is_none() {
            self.error = Some(error);
        }
    }

    /// Returns whether a field with a tag of `tag_len` digits and a value of
    /// `value_len` bytes can still be appended, and the body length it makes.
    fn grown(&self, tag_len: usize, value_len: usize, already: usize) -> (len: Option<usize>)
        requires
            self.wf(),
            tag_len <= 20,
            already <= 60,
        ensures
            match len {
                Some(n) => n == already + tag_len + value_len + 2 && self@.fits(n as nat),
                None => !self@.fits((already + tag_len + value_len + 2) as nat),
            },
    {
        let room: usize = isize::MAX as usize - HEADER_RESERVE - TRAILER_LEN - self.body_len;
        let fixed: usize = already + tag_len + 2;
        if fixed > room || value_len > room - fixed {
            None
        } else {
            Some(fixed + value_len)
        }
    }

    /// Appends `tag=value<SOH>` to the body. The caller has validated both.
    fn write_plain(&mut self, tag: u32, value: &[u8])
        requires
            old(self).wf(),
            !old(self)@.finished,
            (Entry::Plain { tag, value: value@ }).valid(),
        ensures
            final(self).wf(),
            final(self)@ == old(self)@.write(Entry::Plain { tag, value: value@ }, value@.len()),
    {
        let ghost entry = Entry::Plain { tag, value: value@ };
        let digits = format_tag(tag);
        let extra: usize = match self.grown(digits.len(), value.len(), 0) {
            Some(extra) => extra,
            None => {
                self.record(EncodeError::BufferOverflow { needed: value.len(), available: 0 });
                return;
            },
        };
        let ghost before = *self;
        append_field(&mut self.buf, tag, digits.as_slice(), value);
        if self.first_tag.is_none() {
            self.first_tag = Some(tag);
        }
        self.body_len = self.body_len + extra;
        self.entries = Ghost(self.entries@.push(entry));
        proof {
            lemma_appended(before, *self, entry);
        }
    }

    /// Appends `length_tag=<value.len()><SOH>data_tag=value<SOH>` to the body.
    /// The caller has validated both tags and the value.
    fn write_counted(&mut self, length_tag: u32, data_tag: u32, value: &[u8])
        requires
            old(self).wf(),
            !old(self)@.finished,
            (Entry::Counted { length_tag, data_tag, value: value@ }).valid(),
        ensures
            final(self).wf(),
            final(self)@ == old(self)@.write(
                Entry::Counted { length_tag, data_tag, value: value@ },
                value@.len(),
            ),
    {
        let ghost entry = Entry::Counted { length_tag, data_tag, value: value@ };
        let length_digits = format_tag(length_tag);
        let data_digits = format_tag(data_tag);
        let count = format_bytes(value.len() as i128);
        proof {
            lemma_usize_digits(value@.len() as usize);
        }
        let first: usize = length_digits.len() + count.len() + 2;
        let extra: usize = match self.grown(data_digits.len(), value.len(), first) {
            Some(extra) => extra,
            None => {
                self.record(EncodeError::BufferOverflow { needed: value.len(), available: 0 });
                return;
            },
        };
        let ghost before = *self;
        append_field(&mut self.buf, length_tag, length_digits.as_slice(), count.as_slice());
        append_field(&mut self.buf, data_tag, data_digits.as_slice(), value);
        if self.first_tag.is_none() {
            self.first_tag = Some(length_tag);
        }
        self.body_len = self.body_len + extra;
        self.entries = Ghost(self.entries@.push(entry));
        proof {
            assert(buffered(self.buf) =~= buffered(before.buf) + entry.bytes());
            lemma_appended(before, *self, entry);
        }
    }

    /// Writes the header into the reserved prefix, appends the trailer, and
    /// returns the offset of the frame's first byte.
    fn stamp(&mut self) -> (start: usize)
        requires
            old(self).wf(),
            !old(self)@.finished,
            old(self)@.first_error() is None,
            starts_with_msg_type(old(self)@.entries),
        ensures
            final(self).wf(),
            final(self).frame_start == Some(start),
            final(self)@ == (EncoderView { finished: true, ..old(self)@ }),
    {
        let ghost begin = self@.begin_string;
        let ghost body = body_bytes(self.entries@);
        let ghost before = buffered(self.buf);
        let begin_string = slice_subrange(self.begin_string.as_slice(), 0, self.begin_string_len);
        assert(begin_string@ =~= begin);
        let count = format_bytes(self.body_len as i128);
        proof {
            lemma_usize_digits(self.body_len);
        }
        // `8=` + BeginString + SOH + `9=` + digits + SOH, right-aligned so that
        // its last byte is the SOH immediately before the body.
        let header_len: usize = 2 + begin_string.len() + 1 + 2 + count.len() + 1;
        let start: usize = HEADER_RESERVE - header_len;
        write_header(as_mut_slice(&mut self.buf), start, begin_string, count.as_slice());
        let ghost covered = covered_bytes(begin, self.entries@);
        proof {
            lemma_header(begin, body.len());
            assert(before.skip(HEADER_RESERVE as int) == body);
            assert(buffered(self.buf).skip(start as int) =~= covered);
        }
        let checksum = {
            let bytes = as_slice(&self.buf);
            let span = slice_subrange(bytes, start, bytes.len());
            assert(span@ =~= covered);
            calculate_checksum(span)
        };
        let digits = format_checksum(checksum);
        put_slice(&mut self.buf, [0x31u8, 0x30u8, EQUALS].as_slice());
        put_slice(&mut self.buf, digits.as_slice());
        put_u8(&mut self.buf, SOH);
        proof {
            lemma_trailer(checksum);
            assert(buffered(self.buf).skip(start as int) =~= frame_bytes(begin, self.entries@));
        }
        self.frame_start = Some(start);
        start
    }
}

impl Default for Encoder {
    fn default() -> (encoder: Self)
        ensures
            encoder.wf(),
            encoder@ == EncoderView::fresh("FIX.4.4".spec_bytes()),
    {
        Self::new("FIX.4.4")
    }
}

/// Appending the bytes of a valid entry to the buffer of an open encoder keeps
/// it well-formed.
proof fn lemma_appended(before: Encoder, after: Encoder, entry: Entry)
    requires
        before.wf(),
        !before@.finished,
        entry.valid(),
        before@.fits(entry.bytes().len()),
        buffered(after.buf) == buffered(before.buf) + entry.bytes(),
        after.entries@ == before.entries@.push(entry),
        after.body_len == before.body_len + entry.bytes().len(),
        after.first_tag == (match before.first_tag {
            Some(tag) => Some(tag),
            None => Some(entry.first_tag()),
        }),
        after.begin_string == before.begin_string,
        after.begin_string_len == before.begin_string_len,
        after.begin_string_error == before.begin_string_error,
        after.error == before.error,
        after.frame_start == before.frame_start,
    ensures
        after.wf(),
        after@ == (EncoderView { entries: before@.entries.push(entry), ..before@ }),
{
    assert(after.entries@.drop_last() =~= before.entries@);
    assert(body_bytes(after.entries@) == body_bytes(before.entries@) + entry.bytes());
    assert(buffered(after.buf).skip(HEADER_RESERVE as int) =~= body_bytes(after.entries@));
    assert forall|i: int| 0 <= i < after.entries@.len() implies (
    #[trigger] after.entries@[i]).valid() by {
        if i < before.entries@.len() {
            assert(after.entries@[i] == before.entries@[i]);
        }
    }
}

/// The header, spelled out.
proof fn lemma_header(begin_string: Seq<u8>, body_len: nat)
    ensures
        header_bytes(begin_string, body_len) == seq![0x38u8, EQUALS] + begin_string + seq![
            SOH,
            0x39u8,
            EQUALS,
        ] + decimal(body_len) + seq![SOH],
{
    assert(decimal(8) =~= seq![0x38u8]);
    assert(decimal(9) =~= seq![0x39u8]);
    assert(header_bytes(begin_string, body_len) =~= seq![0x38u8, EQUALS] + begin_string + seq![
        SOH,
        0x39u8,
        EQUALS,
    ] + decimal(body_len) + seq![SOH]);
}

/// The trailer, spelled out.
proof fn lemma_trailer(checksum: u8)
    ensures
        trailer_bytes(checksum) == seq![0x31u8, 0x30u8, EQUALS] + checksum_digits(checksum) + seq![
            SOH,
        ],
{
    assert(decimal(1) =~= seq![0x31u8]);
    assert(decimal(10) =~= seq![0x31u8, 0x30u8]);
    assert(trailer_bytes(checksum) =~= seq![0x31u8, 0x30u8, EQUALS] + checksum_digits(checksum)
        + seq![SOH]);
}

/// A `usize` takes at most twenty digits.
proof fn lemma_usize_digits(n: usize)
    ensures
        1 <= decimal(n as nat).len() <= MAX_BODY_LENGTH_DIGITS,
{
    assert(ten_to(20) == 100_000_000_000_000_000_000) by {
        reveal_with_fuel(ten_to, 21);
    }
    lemma_decimal_len(n as nat, 20);
}

/// The decimal digits of a tag.
fn format_tag(tag: u32) -> (digits: Vec<u8>)
    ensures
        digits@ == decimal(tag as nat),
        digits@.len() <= 10,
{
    proof {
        assert(ten_to(10) == 10_000_000_000) by {
            reveal_with_fuel(ten_to, 11);
        }
        lemma_decimal_len(tag as nat, 10);
    }
    format_bytes(tag as i128)
}

/// Appends `tag=value<SOH>` to `buf`, where `digits` are those of `tag`.
fn append_field(buf: &mut BytesMut, tag: u32, digits: &[u8], value: &[u8])
    requires
        digits@ == decimal(tag as nat),
        buffered(*old(buf)).len() + digits@.len() + value@.len() + 2 <= isize::MAX,
    ensures
        buffered(*final(buf)) == buffered(*old(buf)) + field_bytes(tag, value@),
{
    let ghost before = buffered(*buf);
    put_slice(buf, digits);
    put_u8(buf, EQUALS);
    put_slice(buf, value);
    put_u8(buf, SOH);
    assert(buffered(*buf) =~= before + field_bytes(tag, value@));
}

/// Writes `8=<begin_string><SOH>9=<count><SOH>` into `dst` at `start`.
fn write_header(dst: &mut [u8], start: usize, begin_string: &[u8], count: &[u8])
    requires
        start + begin_string@.len() + count@.len() + 6 <= old(dst)@.len(),
    ensures
        final(dst)@ == old(dst)@.take(start as int) + (seq![0x38u8, EQUALS] + begin_string@ + seq![
            SOH,
            0x39u8,
            EQUALS,
        ] + count@ + seq![SOH]) + old(dst)@.skip(
            start + begin_string@.len() + count@.len() + 6,
        ),
{
    let ghost before = dst@;
    let mut at: usize = start;
    let open: [u8; 2] = [0x38, EQUALS];
    push_bytes(dst, &mut at, open.as_slice());
    let ghost one = seq![0x38u8, EQUALS];
    assert(dst@ =~= before.take(start as int) + one + before.skip(at as int));
    push_bytes(dst, &mut at, begin_string);
    let ghost two = one + begin_string@;
    assert(dst@ =~= before.take(start as int) + two + before.skip(at as int));
    let middle: [u8; 3] = [SOH, 0x39, EQUALS];
    push_bytes(dst, &mut at, middle.as_slice());
    let ghost three = two + seq![SOH, 0x39u8, EQUALS];
    assert(dst@ =~= before.take(start as int) + three + before.skip(at as int));
    push_bytes(dst, &mut at, count);
    let ghost four = three + count@;
    assert(dst@ =~= before.take(start as int) + four + before.skip(at as int));
    let close: [u8; 1] = [SOH];
    push_bytes(dst, &mut at, close.as_slice());
    let ghost five = four + seq![SOH];
    assert(dst@ =~= before.take(start as int) + five + before.skip(at as int));
}

/// Writes `src` into `dst` at `*at` and advances it.
fn push_bytes(dst: &mut [u8], at: &mut usize, src: &[u8])
    requires
        *old(at) + src@.len() <= old(dst)@.len(),
    ensures
        *final(at) == *old(at) + src@.len(),
        final(dst)@ == old(dst)@.take(*old(at) as int) + src@ + old(dst)@.skip(
            *old(at) + src@.len(),
        ),
{
    let ghost before = dst@;
    let ghost from = *at as int;
    let mut k: usize = 0;
    while k < src.len()
        invariant
            k <= src@.len(),
            *at == from + k,
            from + src@.len() <= before.len(),
            dst@ == before.take(from) + src@.take(k as int) + before.skip(from + k),
            before == old(dst)@,
            from == *old(at),
        decreases src@.len() - k,
    {
        dst[*at] = src[k];
        *at = *at + 1;
        k += 1;
        assert(dst@ =~= before.take(from) + src@.take(k as int) + before.skip(from + k));
    }
    assert(src@.take(k as int) =~= src@);
}

/// Copies a validated `BeginString` into `slot` and returns its length.
///
/// # Errors
/// [`EncodeError::InvalidFieldValue`] for an empty value or an illegal byte,
/// [`EncodeError::FieldTooLong`] past [`BEGIN_STRING_MAX_LEN`].
fn copy_begin_string(value: &str, slot: &mut [u8; BEGIN_STRING_MAX_LEN]) -> (copied: Result<
    usize,
    EncodeError,
>)
    ensures
        match copied {
            Ok(len) => len <= BEGIN_STRING_MAX_LEN && begin_string_rejection(
                value.spec_bytes(),
            ) is None && final(slot)@.take(len as int) == value.spec_bytes(),
            Err(e) => begin_string_rejection(value.spec_bytes()) == Some(e@),
        },
{
    let bytes = value.as_bytes();
    if bytes.is_empty() {
        return Err(empty_value(8));
    }
    if bytes.len() > BEGIN_STRING_MAX_LEN {
        return Err(
            EncodeError::FieldTooLong {
                tag: 8,
                length: bytes.len(),
                max_length: BEGIN_STRING_MAX_LEN,
            },
        );
    }
    let charset = Charset { space: false, equals: false };
    if let Some(position) = charset.find_outside(bytes) {
        return Err(illegal_begin_string_byte(bytes[position], position));
    }
    let mut k: usize = 0;
    while k < bytes.len()
        invariant
            k <= bytes@.len() <= BEGIN_STRING_MAX_LEN,
            slot@.take(k as int) == bytes@.take(k as int),
        decreases bytes@.len() - k,
    {
        slot[k] = bytes[k];
        k += 1;
        assert(slot@.take(k as int) =~= bytes@.take(k as int));
    }
    assert(bytes@.take(k as int) =~= bytes@);
    Ok(bytes.len())
}

/// Refuses a `MsgType` (35) value that a decoder would refuse.
fn check_msg_type(value: &[u8]) -> (error: Option<EncodeError>)
    ensures
        error_view(error) == msg_type_rejection(value@),
{
    match core::str::from_utf8(value) {
        Err(_) => Some(invalid_msg_type(String::from_str("msg type is not valid UTF-8"))),
        Ok(code) => match MsgType::new(code) {
            Ok(_) => None,
            Err(MsgTypeError::TooLong { len, max_len }) => Some(
                EncodeError::FieldTooLong { tag: 35, length: len, max_length: max_len },
            ),
            Err(error) => Some(invalid_msg_type(error.to_string())),
        },
    }
}

/// Builds the refusal of an unrepresentable `MsgType` value.
fn invalid_msg_type(reason: String) -> (error: EncodeError)
    ensures
        error@ == (EncodeErrorView::InvalidFieldValue { tag: 35, reason: reason@ }),
{
    EncodeError::InvalidFieldValue { tag: 35, reason }
}

/// Refuses a tag that may not be written as an ordinary body field.
fn check_body_tag(tag: u32) -> (error: Option<EncodeError>)
    ensures
        error_view(error) == body_tag_rejection(tag),
{
    if tag == 0 {
        return Some(zero_tag());
    }
    if 8 <= tag && tag <= 10 {
        return Some(framing_tag(tag));
    }
    if paired_data_tag(tag).is_some() || is_data_tag(tag) {
        return Some(data_tag_needs_pair(tag));
    }
    None
}

/// Builds the refusal of tag `0`.
fn zero_tag() -> (error: EncodeError)
    ensures
        error@ == frame::zero_tag(),
{
    EncodeError::InvalidFieldValue {
        tag: 0,
        reason: String::from_str(
            "0 is not a legal FIX field tag: tags are positive integers starting at 1",
        ),
    }
}

/// `before`, the decimal notation of `n`, and `after`.
fn around(before: &str, n: u64, after: &str) -> (text: String)
    ensures
        text@ == before@ + frame::number_text(n as nat) + after@,
{
    let mut text = String::from_str(before);
    text.append(format_uint(n).as_str());
    text.append(after);
    text
}

/// Builds the refusal of a framing tag written as a body field.
fn framing_tag(tag: u32) -> (error: EncodeError)
    ensures
        error@ == frame::framing_tag(tag),
{
    let reason = around(
        "tag ",
        tag as u64,
        " is stamped by the encoder itself; writing it into the body would give the frame two of it",
    );
    EncodeError::InvalidFieldValue { tag, reason }
}

/// Builds the refusal of half of a `LENGTH`/`DATA` pair written alone.
fn data_tag_needs_pair(tag: u32) -> (error: EncodeError)
    ensures
        error@ == frame::data_tag_needs_pair(tag),
{
    let reason = around(
        "tag ",
        tag as u64,
        " belongs to a LENGTH/DATA field pair and must be written with put_data, which derives the declared count from the payload",
    );
    EncodeError::InvalidFieldValue { tag, reason }
}

/// Builds the refusal of a `DATA` tag that is not paired with the `LENGTH` tag
/// it was offered with.
fn unpaired_data_tag(length_tag: u32, data_tag: u32) -> (error: EncodeError)
    ensures
        error@ == frame::unpaired_data_tag(length_tag, data_tag),
{
    let mut reason = around(
        "tag ",
        data_tag as u64,
        " is not the DATA field the FIX specification pairs with LENGTH field ",
    );
    reason.append(format_uint(length_tag as u64).as_str());
    reason.append("; a decoder frames a DATA value by the count in its own paired LENGTH field");
    EncodeError::InvalidFieldValue { tag: data_tag, reason }
}

/// Builds the refusal of an empty field value.
fn empty_value(tag: u32) -> (error: EncodeError)
    ensures
        error@ == frame::empty_value(tag),
{
    EncodeError::InvalidFieldValue {
        tag,
        reason: String::from_str("value is empty; a FIX field carries at least one byte"),
    }
}

/// Builds the refusal of a value carrying the SOH delimiter.
fn soh_in_value(tag: u32, position: usize) -> (error: EncodeError)
    ensures
        error@ == frame::soh_in_value(tag, position as nat),
{
    let reason = around(
        "value contains the SOH delimiter at offset ",
        position as u64,
        ", which would terminate the field early and inject the remainder as further fields",
    );
    EncodeError::InvalidFieldValue { tag, reason }
}

/// Builds the refusal of an illegal `BeginString` byte.
fn illegal_begin_string_byte(byte: u8, position: usize) -> (error: EncodeError)
    ensures
        error@ == frame::illegal_begin_string_byte(byte, position as nat),
{
    let mut reason = String::from_str("begin string contains illegal byte 0x");
    reason.append(hex_text(byte).as_str());
    reason.append(" at offset ");
    reason.append(format_uint(position as u64).as_str());
    reason.append(": only printable ASCII (0x21..=0x7e) except '=' is allowed");
    EncodeError::InvalidFieldValue { tag: 8, reason }
}

/// Builds the refusal of a write into an already-stamped frame.
fn already_finished(tag: u32) -> (error: EncodeError)
    ensures
        error@ == frame::already_finished(tag),
{
    EncodeError::InvalidFieldValue {
        tag,
        reason: String::from_str(
            "the frame is already finished; call clear() before encoding the next message",
        ),
    }
}

} // verus!

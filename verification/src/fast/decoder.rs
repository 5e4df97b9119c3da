//! FAST protocol decoder.
//!
//! Every function here parses untrusted input: malformed input maps to a typed
//! [`FastError`], integers and presence maps have fixed size ceilings, and a
//! declared length is checked against the bytes that are there before it is
//! used.
//!
//! On error the read offset is left where the failure was detected. Every error
//! is fatal for the frame: restart from a known frame boundary instead of
//! resuming from the offset.

use crate::fast::error::FastError;
use crate::fast::operators::DictionaryValue;
use crate::fast::pmap::{read_pmap, PresenceMap};
pub use crate::fast::stopbit::MAX_INT_ENCODED_LEN;
use crate::fast::stopbit::{
    from_offset, is_first_stop, is_stop, lemma_first_stop, lemma_no_stop, lemma_payload_bound,
    lemma_payload_push, lemma_radix, lemma_radix_monotone, payload, payload_value, payloads, radix,
    read_ascii, read_bytes, read_int, read_nullable_ascii, read_nullable_bytes, read_nullable_int,
    read_nullable_uint, read_run, read_uint, read_wide, signed_value, take_at, STOP_BIT,
};
use crate::outside::decimal::ascii_chars;
use crate::types::charset::ascii_string;
use std::collections::HashMap;
use vstd::hash_map::StringHashMap;
use vstd::prelude::*;
use vstd::slice::slice_subrange;

verus! {

/// Reads one byte and advances `offset`.
///
/// # Errors
/// [`FastError::UnexpectedEof`] if `offset` is at or past the end of `data`.
pub(crate) fn read_byte(data: &[u8], offset: &mut usize) -> (byte: Result<u8, FastError>)
    ensures
        match byte {
            Ok(b) => *old(offset) < data@.len() && b == data@[*old(offset) as int] && *final(offset)
                == *old(offset) + 1,
            Err(e) => *old(offset) >= data@.len() && e == FastError::UnexpectedEof && *final(offset)
                == *old(offset),
        },
{
    if *offset < data.len() {
        let byte = data[*offset];
        *offset = *offset + 1;
        Ok(byte)
    } else {
        Err(FastError::UnexpectedEof)
    }
}

/// The bits of a byte that the decoder looks at.
proof fn lemma_byte(byte: u8)
    ensures
        byte & 0x7f == payload(byte),
        byte & 0x80 != 0 <==> is_stop(byte),
        byte & 0x40 != 0 <==> payload(byte) >= 64,
{
    assert(byte & 0x7f == byte % 0x80) by (bit_vector);
    assert(byte & 0x80 != 0 <==> byte >= 0x80) by (bit_vector);
    assert(byte & 0x40 != 0 <==> byte % 0x80 >= 64) by (bit_vector);
}

/// After ten bytes without a stop bit an integer is refused.
proof fn lemma_too_long(data: Seq<u8>, offset: nat, signed: bool, min: int, max: int)
    requires
        from_offset(data, offset).len() >= MAX_INT_ENCODED_LEN,
        forall|j: int|
            0 <= j < MAX_INT_ENCODED_LEN ==> !is_stop(#[trigger] from_offset(data, offset)[j]),
    ensures
        crate::fast::stopbit::read_integer(data, offset, signed, min, max).result == Err::<int, _>(
            FastError::IntegerOverflow,
        ),
        crate::fast::stopbit::read_integer(data, offset, signed, min, max).offset == offset
            + MAX_INT_ENCODED_LEN,
{
    let rest = from_offset(data, offset);
    if exists|at: int| is_first_stop(rest, at) {
        let at = choose|at: int| is_first_stop(rest, at);
        assert(is_stop(rest[at]));
    }
}

/// The state of a [`FastDecoder`].
#[verifier::ext_equal]
pub struct FastDecoderView {
    /// The global dictionary.
    pub global: Map<Seq<char>, DictionaryValue>,
    /// The dictionaries of the templates that have one.
    pub templates: Map<u32, Map<Seq<char>, DictionaryValue>>,
    /// The last used template ID.
    pub last_template_id: Option<u32>,
}

/// What a map of dictionaries holds.
pub open spec fn dictionaries(dicts: Map<u32, StringHashMap<DictionaryValue>>) -> Map<
    u32,
    Map<Seq<char>, DictionaryValue>,
> {
    dicts.map_values(|dict: StringHashMap<DictionaryValue>| dict@)
}

/// FAST protocol decoder.
pub struct FastDecoder {
    /// Global dictionary for operator state.
    global_dict: StringHashMap<DictionaryValue>,
    /// Template-specific dictionaries.
    template_dicts: HashMap<u32, StringHashMap<DictionaryValue>>,
    /// Last used template ID.
    last_template_id: Option<u32>,
}

impl View for FastDecoder {
    type V = FastDecoderView;

    closed spec fn view(&self) -> FastDecoderView {
        FastDecoderView {
            global: self.global_dict@,
            templates: dictionaries(self.template_dicts@),
            last_template_id: self.last_template_id,
        }
    }
}

impl FastDecoderView {
    /// A decoder without any state.
    pub open spec fn fresh() -> FastDecoderView {
        FastDecoderView {
            global: Map::empty(),
            templates: Map::empty(),
            last_template_id: None,
        }
    }

    /// The dictionary of a template, empty where it has none.
    pub open spec fn template(self, template_id: u32) -> Map<Seq<char>, DictionaryValue> {
        if self.templates.contains_key(template_id) {
            self.templates[template_id]
        } else {
            Map::empty()
        }
    }
}

/// What a dictionary holds under a key.
pub open spec fn lookup(dict: Map<Seq<char>, DictionaryValue>, key: Seq<char>) -> Option<
    DictionaryValue,
> {
    if dict.contains_key(key) {
        Some(dict[key])
    } else {
        None
    }
}

impl FastDecoder {
    /// Creates a new FAST decoder.
    pub fn new() -> (decoder: Self)
        ensures
            decoder@ == FastDecoderView::fresh(),
    {
        let decoder = FastDecoder {
            global_dict: StringHashMap::new(),
            template_dicts: HashMap::new(),
            last_template_id: None,
        };
        assert(decoder@.templates =~= Map::empty());
        decoder
    }

    /// Resets the decoder state.
    pub fn reset(&mut self)
        ensures
            final(self)@ == FastDecoderView::fresh(),
    {
        self.global_dict.clear();
        self.template_dicts.clear();
        self.last_template_id = None;
        assert(self@.templates =~= Map::empty());
    }

    /// Decodes an unsigned integer using stop-bit encoding.
    ///
    /// Over-long encodings are tolerated up to [`MAX_INT_ENCODED_LEN`] bytes,
    /// which is the longest legal encoding of `u64::MAX`.
    ///
    /// # Errors
    /// [`FastError::UnexpectedEof`] if the stop bit is never reached before the
    /// end of `data`, or [`FastError::IntegerOverflow`] if the encoding is
    /// longer than [`MAX_INT_ENCODED_LEN`] bytes or denotes a value that does
    /// not fit in a `u64`.
    pub fn decode_uint(data: &[u8], offset: &mut usize) -> (value: Result<u64, FastError>)
        ensures
            ({
                let read = read_uint(data@, *old(offset) as nat);
                &&& *final(offset) == read.offset
                &&& match value {
                    Ok(n) => read.result == Ok::<_, FastError>(n as int),
                    Err(e) => read.result == Err::<int, _>(e),
                }
            }),
    {
        let ghost start = *offset as nat;
        let ghost rest = from_offset(data@, start);
        let mut result: u64 = 0;
        let mut consumed: usize = 0;
        proof {
            assert(rest.take(0) =~= Seq::<u8>::empty());
            lemma_radix();
        }
        loop
            invariant
                rest == from_offset(data@, start),
                start == *old(offset),
                consumed <= MAX_INT_ENCODED_LEN,
                consumed <= rest.len(),
                *offset == start + consumed,
                result == payload_value(rest.take(consumed as int)),
                forall|j: int| 0 <= j < consumed ==> !is_stop(#[trigger] rest[j]),
                radix(8) == 0x100_0000_0000_0000,
            decreases MAX_INT_ENCODED_LEN - consumed,
        {
            if consumed == MAX_INT_ENCODED_LEN {
                proof {
                    lemma_too_long(data@, start, false, 0, u64::MAX as int);
                }
                return Err(FastError::IntegerOverflow);
            }
            let byte = match read_byte(data, offset) {
                Ok(byte) => byte,
                Err(error) => {
                    proof {
                        lemma_no_stop(rest);
                    }
                    return Err(error);
                },
            };
            proof {
                lemma_byte(byte);
                lemma_payload_push(rest, consumed as int);
                lemma_payload_bound(rest.take(consumed as int));
                if consumed <= 8 {
                    lemma_radix_monotone(consumed as nat, 8);
                }
                if is_stop(byte) {
                    assert(is_first_stop(rest, consumed as int));
                    lemma_first_stop(rest, consumed as int);
                } else if consumed == 9 {
                    lemma_too_long(data@, start, false, 0, u64::MAX as int);
                }
            }
            let shifted: u64 = match result.checked_mul(128) {
                Some(shifted) => shifted,
                None => {
                    return Err(FastError::IntegerOverflow);
                },
            };
            result = shifted + (byte & 0x7f) as u64;
            if byte & STOP_BIT != 0 {
                return Ok(result);
            }
            consumed += 1;
        }
    }

    /// Decodes a signed integer using stop-bit encoding.
    ///
    /// The sign is taken from bit 6 of the first byte and the value is
    /// accumulated in two's complement, so a leading sign-carry byte (`0x00`
    /// for a positive value, `0x7F` for a negative one) decodes transparently.
    ///
    /// # Errors
    /// [`FastError::UnexpectedEof`] if the stop bit is never reached before the
    /// end of `data`, or [`FastError::IntegerOverflow`] if the encoding is
    /// longer than [`MAX_INT_ENCODED_LEN`] bytes or denotes a value that does
    /// not fit in an `i64`.
    pub fn decode_int(data: &[u8], offset: &mut usize) -> (value: Result<i64, FastError>)
        ensures
            ({
                let read = read_int(data@, *old(offset) as nat);
                &&& *final(offset) == read.offset
                &&& match value {
                    Ok(v) => read.result == Ok::<_, FastError>(v as int),
                    Err(e) => read.result == Err::<int, _>(e),
                }
            }),
    {
        let ghost start = *offset as nat;
        let ghost rest = from_offset(data@, start);
        if *offset >= data.len() {
            proof {
                lemma_no_stop(rest);
            }
            return Err(FastError::UnexpectedEof);
        }
        let first_byte = data[*offset];
        let negative = first_byte & 0x40 != 0;
        // Sign extension: a negative value starts from all ones.
        let mut result: i64 = if negative {
            -1
        } else {
            0
        };
        let mut consumed: usize = 0;
        proof {
            lemma_byte(first_byte);
            assert(rest[0] == first_byte);
            assert(rest.take(0) =~= Seq::<u8>::empty());
            lemma_radix();
        }
        let ghost bias: int = if negative {
            1
        } else {
            0
        };
        loop
            invariant
                rest == from_offset(data@, start),
                start == *old(offset),
                rest.len() > 0,
                negative == (payload(rest[0]) >= 64),
                bias == (if negative {
                    1int
                } else {
                    0int
                }),
                consumed <= MAX_INT_ENCODED_LEN,
                consumed <= rest.len(),
                *offset == start + consumed,
                result == payload_value(rest.take(consumed as int)) - bias * radix(
                    consumed as nat,
                ),
                forall|j: int| 0 <= j < consumed ==> !is_stop(#[trigger] rest[j]),
                radix(8) == 0x100_0000_0000_0000,
            decreases MAX_INT_ENCODED_LEN - consumed,
        {
            if consumed == MAX_INT_ENCODED_LEN {
                proof {
                    lemma_too_long(data@, start, true, i64::MIN as int, i64::MAX as int);
                }
                return Err(FastError::IntegerOverflow);
            }
            let byte = match read_byte(data, offset) {
                Ok(byte) => byte,
                Err(error) => {
                    proof {
                        lemma_no_stop(rest);
                    }
                    return Err(error);
                },
            };
            proof {
                lemma_byte(byte);
                lemma_payload_push(rest, consumed as int);
                lemma_payload_bound(rest.take(consumed as int));
                if consumed <= 8 {
                    lemma_radix_monotone(consumed as nat, 8);
                }
                assert(radix((consumed + 1) as nat) == 128 * radix(consumed as nat));
                assert(rest.take(consumed + 1)[0] == rest[0]);
                assert(bias * radix((consumed + 1) as nat) == 128 * (bias * radix(
                    consumed as nat,
                ))) by (nonlinear_arith)
                    requires
                        radix((consumed + 1) as nat) == 128 * radix(consumed as nat),
                ;
                if is_stop(byte) {
                    assert(is_first_stop(rest, consumed as int));
                    lemma_first_stop(rest, consumed as int);
                    let bytes = rest.take(consumed + 1);
                    assert(signed_value(bytes) == payload_value(bytes) - bias * radix(
                        (consumed + 1) as nat,
                    ));
                } else if consumed == 9 {
                    lemma_too_long(data@, start, true, i64::MIN as int, i64::MAX as int);
                }
            }
            let shifted: i64 = match result.checked_mul(128) {
                Some(shifted) => shifted,
                None => {
                    return Err(FastError::IntegerOverflow);
                },
            };
            assert(shifted <= i64::MAX - 127) by {
                assert(shifted == 128 * result);
            }
            result = shifted + (byte & 0x7f) as i64;
            if byte & STOP_BIT != 0 {
                return Ok(result);
            }
            consumed += 1;
        }
    }

    /// Decodes a stop-bit unsigned integer into a `u128`, which can hold the
    /// biased `2^64` that a nullable unsigned uses to denote `u64::MAX`.
    ///
    /// # Errors
    /// [`FastError::UnexpectedEof`] if the input ends mid-value, or
    /// [`FastError::IntegerOverflow`] if the encoding exceeds
    /// [`MAX_INT_ENCODED_LEN`] bytes.
    fn decode_uint_u128(data: &[u8], offset: &mut usize) -> (value: Result<u128, FastError>)
        ensures
            ({
                let read = read_wide(data@, *old(offset) as nat);
                &&& *final(offset) == read.offset
                &&& match value {
                    Ok(n) => read.result == Ok::<_, FastError>(n as int),
                    Err(e) => read.result == Err::<int, _>(e),
                }
            }),
    {
        let ghost start = *offset as nat;
        let ghost rest = from_offset(data@, start);
        let mut result: u128 = 0;
        let mut consumed: usize = 0;
        proof {
            assert(rest.take(0) =~= Seq::<u8>::empty());
            lemma_radix();
        }
        loop
            invariant
                rest == from_offset(data@, start),
                start == *old(offset),
                consumed <= MAX_INT_ENCODED_LEN,
                consumed <= rest.len(),
                *offset == start + consumed,
                result == payload_value(rest.take(consumed as int)),
                forall|j: int| 0 <= j < consumed ==> !is_stop(#[trigger] rest[j]),
                radix(10) == 0x40_0000_0000_0000_0000,
            decreases MAX_INT_ENCODED_LEN - consumed,
        {
            if consumed == MAX_INT_ENCODED_LEN {
                proof {
                    lemma_too_long(data@, start, false, 0, u128::MAX as int);
                }
                return Err(FastError::IntegerOverflow);
            }
            let byte = match read_byte(data, offset) {
                Ok(byte) => byte,
                Err(error) => {
                    proof {
                        lemma_no_stop(rest);
                    }
                    return Err(error);
                },
            };
            proof {
                lemma_byte(byte);
                lemma_payload_push(rest, consumed as int);
                lemma_payload_bound(rest.take(consumed as int));
                lemma_radix_monotone(consumed as nat, 10);
                if is_stop(byte) {
                    assert(is_first_stop(rest, consumed as int));
                    lemma_first_stop(rest, consumed as int);
                }
            }
            result = result * 128 + (byte & 0x7f) as u128;
            if byte & STOP_BIT != 0 {
                return Ok(result);
            }
            consumed += 1;
        }
    }

    /// Decodes a nullable unsigned integer.
    ///
    /// A lone stop byte is NULL, and any other value is the encoded value minus
    /// one. The domain is the full `0..=u64::MAX`.
    ///
    /// # Errors
    /// [`FastError::UnexpectedEof`] if the input ends mid-value, or
    /// [`FastError::IntegerOverflow`] if the value exceeds `u64::MAX` or the
    /// encoding exceeds [`MAX_INT_ENCODED_LEN`] bytes.
    pub fn decode_nullable_uint(data: &[u8], offset: &mut usize) -> (value: Result<
        Option<u64>,
        FastError,
    >)
        ensures
            ({
                let read = read_nullable_uint(data@, *old(offset) as nat);
                &&& *final(offset) == read.offset
                &&& match value {
                    Ok(Some(n)) => read.result == Ok::<_, FastError>(Some(n as int)),
                    Ok(None) => read.result == Ok::<_, FastError>(None::<int>),
                    Err(e) => read.result == Err::<Option<int>, _>(e),
                }
            }),
    {
        match Self::decode_uint_u128(data, offset) {
            Err(error) => Err(error),
            Ok(biased) => {
                if biased == 0 {
                    Ok(None)
                } else if biased - 1 <= u64::MAX as u128 {
                    Ok(Some((biased - 1) as u64))
                } else {
                    Err(FastError::IntegerOverflow)
                }
            },
        }
    }

    /// Decodes a nullable signed integer.
    ///
    /// Zero is NULL, a positive encoded value is one more than the value it
    /// denotes, and a negative encoded value denotes itself. The domain is
    /// `i64::MIN..=i64::MAX - 1`.
    ///
    /// # Errors
    /// [`FastError::UnexpectedEof`] if the input ends mid-value, or
    /// [`FastError::IntegerOverflow`] if the encoding is over-long or denotes a
    /// value outside `i64`.
    pub fn decode_nullable_int(data: &[u8], offset: &mut usize) -> (value: Result<
        Option<i64>,
        FastError,
    >)
        ensures
            ({
                let read = read_nullable_int(data@, *old(offset) as nat);
                &&& *final(offset) == read.offset
                &&& match value {
                    Ok(Some(v)) => read.result == Ok::<_, FastError>(Some(v as int)),
                    Ok(None) => read.result == Ok::<_, FastError>(None::<int>),
                    Err(e) => read.result == Err::<Option<int>, _>(e),
                }
            }),
    {
        match Self::decode_int(data, offset) {
            Err(error) => Err(error),
            Ok(raw) => {
                if raw == 0 {
                    Ok(None)
                } else if raw < 0 {
                    Ok(Some(raw))
                } else {
                    Ok(Some(raw - 1))
                }
            },
        }
    }

    /// Decodes a nullable ASCII string.
    ///
    /// A lone stop byte is NULL, `0x00 0x80` is the empty string, and
    /// `0x00 0x00 0x80` is the one-character NUL string. Any other encoding
    /// beginning with `0x00` is over-long and is rejected.
    ///
    /// # Errors
    /// [`FastError::UnexpectedEof`] if the stop bit is never reached before the
    /// end of `data`, or [`FastError::InvalidString`] for an over-long encoding
    /// with a leading `0x00`.
    pub fn decode_nullable_ascii(data: &[u8], offset: &mut usize) -> (text: Result<
        Option<String>,
        FastError,
    >)
        ensures
            ({
                let read = read_nullable_ascii(data@, *old(offset) as nat);
                &&& *final(offset) == read.offset
                &&& match text {
                    Ok(Some(s)) => read.result matches Ok(Some(bytes)) && s@ == ascii_chars(bytes),
                    Ok(None) => read.result == Ok::<_, FastError>(None::<Seq<u8>>),
                    Err(e) => read.result == Err::<Option<Seq<u8>>, _>(e),
                }
            }),
    {
        if *offset >= data.len() {
            return Err(FastError::UnexpectedEof);
        }
        let start: usize = *offset;
        let left: usize = data.len() - start;
        let first_byte = data[start];
        if first_byte == STOP_BIT {
            *offset = start + 1;
            return Ok(None);
        }
        if first_byte == 0x00 {
            if left < 2 {
                return Err(FastError::UnexpectedEof);
            }
            let second_byte = data[start + 1];
            if second_byte == STOP_BIT {
                *offset = start + 2;
                assert(ascii_chars(Seq::<u8>::empty()) =~= Seq::<char>::empty());
                return Ok(Some(String::new()));
            }
            if second_byte != 0x00 {
                return Err(FastError::InvalidString);
            }
            if left < 3 {
                return Err(FastError::UnexpectedEof);
            }
            if data[start + 2] != STOP_BIT {
                return Err(FastError::InvalidString);
            }
            *offset = start + 3;
            return Ok(Some(nul_string()));
        }
        match Self::read_ascii_run(data, offset) {
            Ok(text) => Ok(Some(text)),
            Err(error) => Err(error),
        }
    }

    /// Decodes an ASCII string using stop-bit encoding.
    ///
    /// A lone stop byte (`0x80`) is the empty string and `0x00 0x80` is the
    /// one-character NUL string. Any other encoding beginning with `0x00` is
    /// over-long and is rejected.
    ///
    /// # Errors
    /// [`FastError::UnexpectedEof`] if the stop bit is never reached before the
    /// end of `data`, or [`FastError::InvalidString`] for an over-long encoding
    /// with a leading `0x00`.
    pub fn decode_ascii(data: &[u8], offset: &mut usize) -> (text: Result<String, FastError>)
        ensures
            ({
                let read = read_ascii(data@, *old(offset) as nat);
                &&& *final(offset) == read.offset
                &&& match text {
                    Ok(s) => read.result matches Ok(bytes) && s@ == ascii_chars(bytes),
                    Err(e) => read.result == Err::<Seq<u8>, _>(e),
                }
            }),
    {
        if *offset >= data.len() {
            return Err(FastError::UnexpectedEof);
        }
        let start: usize = *offset;
        let left: usize = data.len() - start;
        let first_byte = data[start];
        if first_byte == STOP_BIT {
            *offset = start + 1;
            assert(ascii_chars(Seq::<u8>::empty()) =~= Seq::<char>::empty());
            return Ok(String::new());
        }
        if first_byte == 0x00 {
            if left < 2 {
                return Err(FastError::UnexpectedEof);
            }
            if data[start + 1] != STOP_BIT {
                return Err(FastError::InvalidString);
            }
            *offset = start + 2;
            return Ok(nul_string());
        }
        Self::read_ascii_run(data, offset)
    }

    /// Reads a stop-bit terminated run of ASCII characters.
    ///
    /// # Errors
    /// [`FastError::UnexpectedEof`] if the stop bit is never reached before the
    /// end of `data`.
    fn read_ascii_run(data: &[u8], offset: &mut usize) -> (text: Result<String, FastError>)
        requires
            *old(offset) < data@.len(),
        ensures
            ({
                let read = read_run(data@, *old(offset) as nat);
                &&& *final(offset) == read.offset
                &&& match text {
                    Ok(s) => read.result matches Ok(bytes) && s@ == ascii_chars(bytes),
                    Err(e) => read.result == Err::<Seq<u8>, _>(e),
                }
            }),
    {
        let start: usize = *offset;
        let ghost rest = from_offset(data@, start as nat);
        // The stop byte is located first, so a field without one is rejected
        // before anything is allocated.
        let mut stop: usize = start;
        while stop < data.len() && data[stop] & STOP_BIT == 0
            invariant
                rest == from_offset(data@, start as nat),
                start <= stop <= data@.len(),
                forall|j: int| 0 <= j < stop - start ==> !is_stop(#[trigger] rest[j]),
            decreases data@.len() - stop,
        {
            proof {
                lemma_byte(data@[stop as int]);
            }
            stop += 1;
        }
        if stop == data.len() {
            proof {
                lemma_no_stop(rest);
            }
            return Err(FastError::UnexpectedEof);
        }
        proof {
            lemma_byte(data@[stop as int]);
            assert(is_first_stop(rest, stop - start));
            lemma_first_stop(rest, stop - start);
        }
        let ghost run = rest.take(stop - start + 1);
        let mut bytes: Vec<u8> = Vec::with_capacity(stop - start + 1);
        let mut i: usize = start;
        while i <= stop
            invariant
                rest == from_offset(data@, start as nat),
                run == rest.take(stop - start + 1),
                start <= i <= stop + 1,
                stop < data@.len(),
                bytes@ == payloads(run).take(i - start),
            decreases stop + 1 - i,
        {
            let byte = data[i];
            proof {
                lemma_byte(byte);
            }
            bytes.push(byte & 0x7f);
            i += 1;
            assert(bytes@ =~= payloads(run).take(i - start));
        }
        assert(bytes@ =~= payloads(run));
        *offset = stop + 1;
        Ok(ascii_string(bytes.as_slice()))
    }

    /// Decodes a length-prefixed byte vector, borrowing it from the input.
    ///
    /// # Errors
    /// [`FastError::UnexpectedEof`] if the length prefix is truncated or
    /// declares more bytes than remain in `data`, or
    /// [`FastError::IntegerOverflow`] if the length prefix itself is not a
    /// valid unsigned integer.
    pub fn decode_bytes<'a>(data: &'a [u8], offset: &mut usize) -> (bytes: Result<
        &'a [u8],
        FastError,
    >)
        ensures
            ({
                let read = read_bytes(data@, *old(offset) as nat);
                &&& *final(offset) == read.offset
                &&& match bytes {
                    Ok(b) => read.result == Ok::<_, FastError>(b@),
                    Err(e) => read.result == Err::<Seq<u8>, _>(e),
                }
            }),
    {
        match Self::decode_uint(data, offset) {
            Ok(declared_length) => Self::take_bytes(data, offset, declared_length),
            Err(error) => Err(error),
        }
    }

    /// Decodes a nullable length-prefixed byte vector, borrowing it from the
    /// input.
    ///
    /// The length prefix is a nullable unsigned integer, so a lone stop byte is
    /// NULL and every other length is biased by one.
    ///
    /// # Errors
    /// [`FastError::UnexpectedEof`] if the length prefix is truncated or
    /// declares more bytes than remain in `data`, or
    /// [`FastError::IntegerOverflow`] if the length prefix is not a valid
    /// unsigned integer.
    pub fn decode_nullable_bytes<'a>(data: &'a [u8], offset: &mut usize) -> (bytes: Result<
        Option<&'a [u8]>,
        FastError,
    >)
        ensures
            ({
                let read = read_nullable_bytes(data@, *old(offset) as nat);
                &&& *final(offset) == read.offset
                &&& match bytes {
                    Ok(Some(b)) => read.result == Ok::<_, FastError>(Some(b@)),
                    Ok(None) => read.result == Ok::<_, FastError>(None::<Seq<u8>>),
                    Err(e) => read.result == Err::<Option<Seq<u8>>, _>(e),
                }
            }),
    {
        match Self::decode_nullable_uint(data, offset) {
            Ok(Some(declared_length)) => match Self::take_bytes(data, offset, declared_length) {
                Ok(bytes) => Ok(Some(bytes)),
                Err(error) => Err(error),
            },
            Ok(None) => Ok(None),
            Err(error) => Err(error),
        }
    }

    /// Borrows `declared_length` bytes from `data` at `offset`, validating the
    /// length against the bytes actually present before it is used.
    ///
    /// # Errors
    /// [`FastError::UnexpectedEof`] if `declared_length` exceeds the bytes
    /// remaining in `data`.
    fn take_bytes<'a>(data: &'a [u8], offset: &mut usize, declared_length: u64) -> (bytes: Result<
        &'a [u8],
        FastError,
    >)
        ensures
            ({
                let read = take_at(data@, *old(offset) as nat, declared_length as int);
                &&& *final(offset) == read.offset
                &&& match bytes {
                    Ok(b) => read.result == Ok::<_, FastError>(b@),
                    Err(e) => read.result == Err::<Seq<u8>, _>(e),
                }
            }),
    {
        let start: usize = *offset;
        if start > data.len() || declared_length > (data.len() - start) as u64 {
            return Err(FastError::UnexpectedEof);
        }
        let end: usize = start + declared_length as usize;
        *offset = end;
        Ok(slice_subrange(data, start, end))
    }

    /// Decodes a presence map.
    ///
    /// # Errors
    /// [`FastError::UnexpectedEof`] if the data is incomplete, or
    /// [`FastError::PresenceMapTooLarge`] if the map exceeds
    /// [`crate::fast::pmap::MAX_PMAP_BYTES`].
    pub fn decode_pmap(data: &[u8], offset: &mut usize) -> (map: Result<PresenceMap, FastError>)
        ensures
            ({
                let read = read_pmap(data@, *old(offset) as nat);
                &&& *final(offset) == read.offset
                &&& match map {
                    Ok(m) => read.result == Ok::<_, FastError>(m@.bits) && m@.position == 0,
                    Err(e) => read.result == Err::<Seq<bool>, _>(e),
                }
            }),
    {
        PresenceMap::decode(data, offset)
    }

    /// Gets a value from the global dictionary.
    pub fn get_global(&self, key: &str) -> (value: Option<&DictionaryValue>)
        ensures
            match value {
                Some(v) => lookup(self@.global, key@) == Some(*v),
                None => lookup(self@.global, key@) is None,
            },
    {
        self.global_dict.get(key)
    }

    /// Sets a value in the global dictionary.
    pub fn set_global(&mut self, key: &str, value: DictionaryValue)
        ensures
            final(self)@ == (FastDecoderView {
                global: old(self)@.global.insert(key@, value),
                ..old(self)@
            }),
    {
        store(&mut self.global_dict, key, value);
    }

    /// Gets a value from a template dictionary.
    pub fn get_template(&self, template_id: u32, key: &str) -> (value: Option<&DictionaryValue>)
        ensures
            match value {
                Some(v) => lookup(self@.template(template_id), key@) == Some(*v),
                None => lookup(self@.template(template_id), key@) is None,
            },
    {
        match self.template_dicts.get(&template_id) {
            Some(dict) => dict.get(key),
            None => None,
        }
    }

    /// Sets a value in a template dictionary.
    pub fn set_template(&mut self, template_id: u32, key: &str, value: DictionaryValue)
        ensures
            final(self)@ == (FastDecoderView {
                templates: old(self)@.templates.insert(
                    template_id,
                    old(self)@.template(template_id).insert(key@, value),
                ),
                ..old(self)@
            }),
    {
        let mut dict = match self.template_dicts.remove(&template_id) {
            Some(dict) => dict,
            None => StringHashMap::new(),
        };
        store(&mut dict, key, value);
        self.template_dicts.insert(template_id, dict);
        assert(self@.templates =~= old(self)@.templates.insert(
            template_id,
            old(self)@.template(template_id).insert(key@, value),
        ));
    }

    /// Returns the last used template ID.
    pub fn last_template_id(&self) -> (id: Option<u32>)
        ensures
            id == self@.last_template_id,
    {
        self.last_template_id
    }

    /// Sets the last used template ID.
    pub fn set_last_template_id(&mut self, id: u32)
        ensures
            final(self)@ == (FastDecoderView { last_template_id: Some(id), ..old(self)@ }),
    {
        self.last_template_id = Some(id);
    }
}

impl Default for FastDecoder {
    fn default() -> (decoder: Self)
        ensures
            decoder@ == FastDecoderView::fresh(),
    {
        Self::new()
    }
}

/// Writes `value` into `dict` under `key`.
pub(crate) fn store(dict: &mut StringHashMap<DictionaryValue>, key: &str, value: DictionaryValue)
    ensures
        final(dict)@ == old(dict)@.insert(key@, value),
{
    dict.insert(key.to_owned(), value);
}

/// The string of one NUL.
fn nul_string() -> (text: String)
    ensures
        text@ == ascii_chars(seq![0u8]),
{
    let nul: [u8; 1] = [0];
    assert(nul@ =~= seq![0u8]);
    ascii_string(nul.as_slice())
}

} // verus!

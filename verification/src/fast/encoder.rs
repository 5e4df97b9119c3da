//! FAST protocol encoder.
//!
//! Every encoding produced here is minimal, the shortest byte sequence that
//! decodes back to the same value, and never longer than
//! [`MAX_INT_ENCODED_LEN`] for an integer.

use crate::fast::decoder::{dictionaries, lookup, store};
use crate::fast::error::FastError;
use crate::fast::operators::DictionaryValue;
use crate::fast::stopbit::{
    all_ascii, ascii_bytes, groups, int_bytes, lemma_groups, lemma_signed_groups, null_bytes, nullable_ascii_bytes,
    nullable_int_bytes, nullable_uint_bytes, signed_groups, uint_bytes, with_stop,
    MAX_INT_ENCODED_LEN, STOP_BIT,
};
use crate::outside::small::{byte_slice, bytes_in, no_bytes, push_byte, Small};
use std::collections::HashMap;
use vstd::hash_map::StringHashMap;
use vstd::prelude::*;
use vstd::string::StringSliceAdditionalSpecFns;

verus! {

/// The state of a [`FastEncoder`].
#[verifier::ext_equal]
pub struct FastEncoderView {
    /// The bytes that were encoded.
    pub bytes: Seq<u8>,
    /// The global dictionary.
    pub global: Map<Seq<char>, DictionaryValue>,
    /// The dictionaries of the templates that have one.
    pub templates: Map<u32, Map<Seq<char>, DictionaryValue>>,
}

impl FastEncoderView {
    /// An encoder without any state.
    pub open spec fn fresh() -> FastEncoderView {
        FastEncoderView { bytes: Seq::empty(), global: Map::empty(), templates: Map::empty() }
    }

    /// The encoder after `more` was appended.
    pub open spec fn append(self, more: Seq<u8>) -> FastEncoderView {
        FastEncoderView { bytes: self.bytes + more, ..self }
    }
}

/// FAST protocol encoder.
pub struct FastEncoder {
    /// Output buffer.
    buffer: Vec<u8>,
    /// Global dictionary for operator state.
    global_dict: StringHashMap<DictionaryValue>,
    /// Template-specific dictionaries.
    template_dicts: HashMap<u32, StringHashMap<DictionaryValue>>,
}

impl View for FastEncoder {
    type V = FastEncoderView;

    closed spec fn view(&self) -> FastEncoderView {
        FastEncoderView {
            bytes: self.buffer@,
            global: self.global_dict@,
            templates: dictionaries(self.template_dicts@),
        }
    }
}

impl FastEncoder {
    /// Creates a new FAST encoder.
    pub fn new() -> (encoder: Self)
        ensures
            encoder@ == FastEncoderView::fresh(),
    {
        let encoder = FastEncoder {
            buffer: Vec::new(),
            global_dict: StringHashMap::new(),
            template_dicts: HashMap::new(),
        };
        assert(encoder@.templates =~= Map::empty());
        encoder
    }

    /// Creates a new encoder with pre-allocated capacity.
    pub fn with_capacity(capacity: usize) -> (encoder: Self)
        requires
            capacity <= isize::MAX,
        ensures
            encoder@ == FastEncoderView::fresh(),
    {
        let encoder = FastEncoder {
            buffer: Vec::with_capacity(capacity),
            global_dict: StringHashMap::new(),
            template_dicts: HashMap::new(),
        };
        assert(encoder@.templates =~= Map::empty());
        encoder
    }

    /// Encodes an unsigned integer using stop-bit encoding.
    ///
    /// The encoding is minimal: `0` is a single stop byte and `u64::MAX`
    /// occupies [`MAX_INT_ENCODED_LEN`] bytes.
    pub fn encode_uint(&mut self, value: u64)
        ensures
            final(self)@ == old(self)@.append(uint_bytes(value as nat)),
    {
        let mut bytes = no_bytes();
        let mut remaining: u64 = value;
        assert(groups(value as nat) =~= groups(remaining as nat) + bytes_in(bytes).reverse());
        loop
            invariant_except_break
                groups(value as nat) == groups(remaining as nat) + bytes_in(bytes).reverse(),
            ensures
                groups(value as nat) == bytes_in(bytes).reverse(),
                bytes_in(bytes).len() > 0,
            decreases remaining,
        {
            let ghost before = bytes_in(bytes);
            let ghost rest = remaining;
            proof {
                assert(remaining & 0x7f == remaining % 128) by (bit_vector);
                assert(remaining >> 7 == remaining / 128) by (bit_vector);
            }
            push_byte(&mut bytes, (remaining & 0x7f) as u8);
            remaining = remaining >> 7;
            proof {
                lemma_reverse_push(before, (rest % 128) as u8);
                assert(groups(value as nat) =~= (if remaining == 0 {
                    Seq::empty()
                } else {
                    groups(remaining as nat)
                }) + bytes_in(bytes).reverse());
            }
            if remaining == 0 {
                break;
            }
        }
        proof {
            lemma_groups(value as nat);
        }
        Self::flush_stop_bit_encoded(&mut self.buffer, &bytes);
    }

    /// Encodes a signed integer using stop-bit encoding.
    ///
    /// The value is emitted in two's complement, seven bits per byte, most
    /// significant byte first, with as many leading bytes as the sign needs:
    /// without them the decoder would read the value back with the opposite
    /// sign.
    ///
    /// The encoding is minimal and never exceeds [`MAX_INT_ENCODED_LEN`] bytes.
    pub fn encode_int(&mut self, value: i64)
        ensures
            final(self)@ == old(self)@.append(int_bytes(value as int)),
    {
        let mut bytes = no_bytes();
        let mut remaining: i64 = value;
        assert(signed_groups(value as int) =~= signed_groups(remaining as int) + bytes_in(
            bytes,
        ).reverse());
        loop
            invariant_except_break
                signed_groups(value as int) == signed_groups(remaining as int) + bytes_in(
                    bytes,
                ).reverse(),
            ensures
                signed_groups(value as int) == bytes_in(bytes).reverse(),
                bytes_in(bytes).len() > 0,
            decreases
                    (if remaining < 0 {
                        -remaining
                    } else {
                        remaining as int
                    }),
        {
            let ghost before = bytes_in(bytes);
            let ghost rest = remaining;
            proof {
                lemma_signed_group(remaining);
            }
            let group: u8 = (remaining & 0x7f) as u8;
            // The sign is carried by bit 6 of the group once nothing but sign
            // bits is left.
            let last = -64 <= remaining && remaining < 64;
            push_byte(&mut bytes, group);
            // Arithmetic shift: converges to 0 for a positive value and to -1
            // for a negative one.
            remaining = remaining >> 7;
            proof {
                lemma_reverse_push(before, group);
                assert(signed_groups(value as int) =~= (if last {
                    Seq::empty()
                } else {
                    signed_groups(remaining as int)
                }) + bytes_in(bytes).reverse());
            }
            if last {
                break;
            }
        }
        proof {
            lemma_signed_groups(value as int);
        }
        Self::flush_stop_bit_encoded(&mut self.buffer, &bytes);
    }

    /// Encodes an ASCII string using stop-bit encoding.
    ///
    /// The empty string is a lone stop byte (`0x80`) and the one-character NUL
    /// string is `0x00 0x80`. A longer string beginning with NUL has no legal
    /// representation and is refused.
    ///
    /// # Errors
    /// [`FastError::InvalidString`] if `value` contains a non-ASCII character,
    /// or if it begins with a NUL and is longer than one character.
    pub fn encode_ascii(&mut self, value: &str) -> (encoded: Result<(), FastError>)
        ensures
            match encoded {
                Ok(()) => ascii_bytes(value.spec_bytes()) is Some && final(self)@ == old(
                    self,
                )@.append(ascii_bytes(value.spec_bytes())->0),
                Err(e) => ascii_bytes(value.spec_bytes()) is None && e == FastError::InvalidString
                    && final(self)@ == old(self)@,
            },
    {
        let bytes = value.as_bytes();
        if !is_ascii_slice(bytes) {
            return Err(FastError::InvalidString);
        }
        let ghost before = self.buffer@;
        if bytes.len() == 0 {
            self.buffer.push(STOP_BIT);
            assert(self.buffer@ =~= before + seq![STOP_BIT]);
            return Ok(());
        }
        if bytes[0] == 0x00 {
            if bytes.len() == 1 {
                assert(bytes@ =~= seq![0u8]);
                self.buffer.push(0x00);
                self.buffer.push(STOP_BIT);
                assert(self.buffer@ =~= before + seq![0u8, STOP_BIT]);
                return Ok(());
            }
            assert(bytes@.len() != seq![0u8].len());
            return Err(FastError::InvalidString);
        }
        assert(bytes@ != seq![0u8]) by {
            assert(seq![0u8][0] == 0u8);
        }
        self.append_with_stop(bytes);
        Ok(())
    }

    /// Encodes a byte vector with a stop-bit encoded length prefix.
    pub fn encode_bytes(&mut self, value: &[u8])
        ensures
            final(self)@ == old(self)@.append(uint_bytes(value@.len()) + value@),
    {
        let ghost before = self.buffer@;
        self.encode_uint(value.len() as u64);
        self.buffer.extend_from_slice(value);
        assert(self.buffer@ =~= before + (uint_bytes(value@.len()) + value@));
    }

    /// Encodes a `u128` using stop-bit encoding.
    fn encode_uint_u128(&mut self, value: u128)
        ensures
            final(self)@ == old(self)@.append(uint_bytes(value as nat)),
    {
        let mut bytes = no_bytes();
        let mut remaining: u128 = value;
        assert(groups(value as nat) =~= groups(remaining as nat) + bytes_in(bytes).reverse());
        loop
            invariant_except_break
                groups(value as nat) == groups(remaining as nat) + bytes_in(bytes).reverse(),
            ensures
                groups(value as nat) == bytes_in(bytes).reverse(),
                bytes_in(bytes).len() > 0,
            decreases remaining,
        {
            let ghost before = bytes_in(bytes);
            let ghost rest = remaining;
            proof {
                assert(remaining & 0x7f == remaining % 128) by (bit_vector);
                assert(remaining >> 7 == remaining / 128) by (bit_vector);
            }
            push_byte(&mut bytes, (remaining & 0x7f) as u8);
            remaining = remaining >> 7;
            proof {
                lemma_reverse_push(before, (rest % 128) as u8);
                assert(groups(value as nat) =~= (if remaining == 0 {
                    Seq::empty()
                } else {
                    groups(remaining as nat)
                }) + bytes_in(bytes).reverse());
            }
            if remaining == 0 {
                break;
            }
        }
        proof {
            lemma_groups(value as nat);
        }
        Self::flush_stop_bit_encoded(&mut self.buffer, &bytes);
    }

    /// Encodes a nullable unsigned integer.
    ///
    /// The single stop byte `0x80` is reserved for `None`, and every other
    /// value is encoded one higher than it is. The full `0..=u64::MAX` domain
    /// is representable, so this never fails.
    pub fn encode_nullable_uint(&mut self, value: Option<u64>) -> (encoded: Result<(), FastError>)
        ensures
            encoded is Ok,
            final(self)@ == old(self)@.append(nullable_uint_bytes(value)),
    {
        match value {
            Some(v) => {
                self.encode_uint_u128(v as u128 + 1);
            },
            None => {
                self.append_null();
            },
        }
        Ok(())
    }

    /// Encodes a nullable signed integer.
    ///
    /// `None` is the single stop byte `0x80`, a non-negative value is encoded
    /// one higher than it is, and a negative value is encoded as itself. The
    /// domain is `i64::MIN..=i64::MAX - 1`.
    ///
    /// # Errors
    /// [`FastError::IntegerOverflow`] for `Some(i64::MAX)`.
    pub fn encode_nullable_int(&mut self, value: Option<i64>) -> (encoded: Result<(), FastError>)
        ensures
            match encoded {
                Ok(()) => nullable_int_bytes(value) is Some && final(self)@ == old(self)@.append(
                    nullable_int_bytes(value)->0,
                ),
                Err(e) => nullable_int_bytes(value) is None && e == FastError::IntegerOverflow
                    && final(self)@ == old(self)@,
            },
    {
        match value {
            Some(v) => {
                if v < 0 {
                    self.encode_int(v);
                } else {
                    match v.checked_add(1) {
                        Some(biased) => {
                            self.encode_int(biased);
                        },
                        None => {
                            return Err(FastError::IntegerOverflow);
                        },
                    }
                }
            },
            None => {
                self.append_null();
            },
        }
        Ok(())
    }

    /// Encodes a nullable ASCII string.
    ///
    /// `None` is a lone stop byte (`0x80`), the empty string is `0x00 0x80`,
    /// and the one-character NUL string is `0x00 0x00 0x80`. A longer string
    /// beginning with NUL has no legal representation and is refused.
    ///
    /// # Errors
    /// [`FastError::InvalidString`] if `value` contains a non-ASCII character,
    /// or if it begins with a NUL and is longer than one character.
    pub fn encode_nullable_ascii(&mut self, value: Option<&str>) -> (encoded: Result<
        (),
        FastError,
    >)
        ensures
            ({
                let bytes = nullable_ascii_bytes(
                    match value {
                        Some(s) => Some(s.spec_bytes()),
                        None => None,
                    },
                );
                match encoded {
                    Ok(()) => bytes is Some && final(self)@ == old(self)@.append(bytes->0),
                    Err(e) => bytes is None && e == FastError::InvalidString && final(self)@
                        == old(self)@,
                }
            }),
    {
        let value = match value {
            Some(value) => value,
            None => {
                self.append_null();
                return Ok(());
            },
        };
        let bytes = value.as_bytes();
        if !is_ascii_slice(bytes) {
            return Err(FastError::InvalidString);
        }
        let ghost before = self.buffer@;
        if bytes.len() == 0 {
            self.buffer.push(0x00);
            self.buffer.push(STOP_BIT);
            assert(self.buffer@ =~= before + seq![0u8, STOP_BIT]);
            return Ok(());
        }
        if bytes[0] == 0x00 {
            if bytes.len() == 1 {
                assert(bytes@ =~= seq![0u8]);
                self.buffer.push(0x00);
                self.buffer.push(0x00);
                self.buffer.push(STOP_BIT);
                assert(self.buffer@ =~= before + seq![0u8, 0u8, STOP_BIT]);
                return Ok(());
            }
            assert(bytes@.len() != seq![0u8].len());
            return Err(FastError::InvalidString);
        }
        assert(bytes@ != seq![0u8]) by {
            assert(seq![0u8][0] == 0u8);
        }
        self.append_with_stop(bytes);
        Ok(())
    }

    /// Encodes a nullable byte vector with a nullable length prefix.
    ///
    /// `None` is a lone stop byte; any other value carries a length prefix
    /// biased by one. Every length is representable, so this never fails.
    pub fn encode_nullable_bytes(&mut self, value: Option<&[u8]>) -> (encoded: Result<
        (),
        FastError,
    >)
        ensures
            encoded is Ok,
            final(self)@ == old(self)@.append(
                match value {
                    Some(bytes) => uint_bytes(bytes@.len() + 1) + bytes@,
                    None => null_bytes(),
                },
            ),
    {
        let ghost before = self.buffer@;
        match value {
            Some(bytes) => {
                self.encode_uint_u128(bytes.len() as u128 + 1);
                self.buffer.extend_from_slice(bytes);
                assert(self.buffer@ =~= before + (uint_bytes(bytes@.len() + 1) + bytes@));
            },
            None => {
                self.append_null();
            },
        }
        Ok(())
    }

    /// Returns the encoded bytes.
    pub fn finish(self) -> (bytes: Vec<u8>)
        ensures
            bytes@ == self@.bytes,
    {
        self.buffer
    }

    /// Returns a reference to the current buffer.
    pub fn as_bytes(&self) -> (bytes: &[u8])
        ensures
            bytes@ == self@.bytes,
    {
        self.buffer.as_slice()
    }

    /// Returns the current buffer length.
    pub fn len(&self) -> (len: usize)
        ensures
            len == self@.bytes.len(),
    {
        self.buffer.len()
    }

    /// Returns true if the buffer is empty.
    pub fn is_empty(&self) -> (empty: bool)
        ensures
            empty == (self@.bytes.len() == 0),
    {
        self.buffer.is_empty()
    }

    /// Clears the buffer for reuse; the dictionaries are kept.
    pub fn clear(&mut self)
        ensures
            final(self)@ == (FastEncoderView { bytes: Seq::empty(), ..old(self)@ }),
    {
        self.buffer.clear();
    }

    /// Resets the encoder including dictionaries.
    pub fn reset(&mut self)
        ensures
            final(self)@ == FastEncoderView::fresh(),
    {
        self.buffer.clear();
        self.global_dict.clear();
        self.template_dicts.clear();
        assert(self@.templates =~= Map::empty());
    }

    /// Gets a value from the global dictionary.
    pub fn get_global(&self, key: &str) -> (value: Option<&DictionaryValue>)
        ensures
            match value {
                Some(v) => lookup(self@.global, key@) == Some(*v),
                None => lookup(self@.global, key@) is None,
            },
    {
        self.global_dict.get(key)
    }

    /// Sets a value in the global dictionary.
    pub fn set_global(&mut self, key: &str, value: DictionaryValue)
        ensures
            final(self)@ == (FastEncoderView {
                global: old(self)@.global.insert(key@, value),
                ..old(self)@
            }),
    {
        store(&mut self.global_dict, key, value);
    }

    /// Appends the encoding of NULL.
    fn append_null(&mut self)
        ensures
            final(self)@ == old(self)@.append(null_bytes()),
    {
        let ghost before = self.buffer@;
        self.buffer.push(STOP_BIT);
        assert(self.buffer@ =~= before + null_bytes());
    }

    /// Appends ASCII bytes with the stop bit set on the last one.
    fn append_with_stop(&mut self, bytes: &[u8])
        requires
            bytes@.len() > 0,
            all_ascii(bytes@),
        ensures
            final(self)@ == old(self)@.append(with_stop(bytes@)),
    {
        let ghost before = self.buffer@;
        let last: usize = bytes.len() - 1;
        let mut i: usize = 0;
        while i < last
            invariant
                i <= last,
                last == bytes@.len() - 1,
                self.buffer@ == before + bytes@.take(i as int),
                self.global_dict == old(self).global_dict,
                self.template_dicts == old(self).template_dicts,
            decreases last - i,
        {
            self.buffer.push(bytes[i]);
            i += 1;
            assert(self.buffer@ =~= before + bytes@.take(i as int));
        }
        let byte = bytes[last];
        proof {
            lemma_set_stop(byte);
        }
        self.buffer.push(byte | STOP_BIT);
        assert(self.buffer@ =~= before + with_stop(bytes@));
    }

    /// Appends `bytes`, accumulated least significant byte first, to `out` in
    /// wire order with the stop bit set on the final byte.
    fn flush_stop_bit_encoded(out: &mut Vec<u8>, bytes: &Small<u8, 10>)
        requires
            bytes_in(*bytes).len() > 0,
            all_ascii(bytes_in(*bytes).reverse()),
        ensures
            final(out)@ == old(out)@ + with_stop(bytes_in(*bytes).reverse()),
    {
        let scratch = byte_slice(bytes);
        let ghost before = out@;
        let ghost wire = scratch@.reverse();
        let mut left: usize = scratch.len();
        while left > 1
            invariant
                1 <= left <= scratch@.len(),
                wire == scratch@.reverse(),
                out@ == before + wire.take(scratch@.len() - left),
            decreases left,
        {
            left = left - 1;
            out.push(scratch[left]);
            assert(out@ =~= before + wire.take(scratch@.len() - left));
        }
        let byte = scratch[0];
        proof {
            assert(wire.last() == byte);
            lemma_set_stop(byte);
        }
        out.push(byte | STOP_BIT);
        assert(out@ =~= before + with_stop(wire));
    }
}

impl Default for FastEncoder {
    fn default() -> (encoder: Self)
        ensures
            encoder@ == FastEncoderView::fresh(),
    {
        Self::new()
    }
}

/// Setting the stop bit of an ASCII byte adds it.
proof fn lemma_set_stop(byte: u8)
    requires
        byte < 128,
    ensures
        byte | STOP_BIT == byte + STOP_BIT,
{
    assert(byte < 0x80 ==> byte | 0x80 == byte + 0x80) by (bit_vector);
}

/// The group of seven bits that a signed value ends with, and what is left.
proof fn lemma_signed_group(v: i64)
    ensures
        (v & 0x7f) == v as int % 128,
        0 <= (v & 0x7f) < 128,
        (v >> 7) == v as int / 128,
{
    assert((v & 0x7f) == (v as int) % 128 && (v >> 7) == (v as int) / 128 && 0 <= (v & 0x7f)
        && (v & 0x7f) < 128) by (bit_vector);
}

/// Reversing a sequence that grew at its end.
proof fn lemma_reverse_push(s: Seq<u8>, byte: u8)
    ensures
        s.push(byte).reverse() == seq![byte] + s.reverse(),
{
    assert(s.push(byte).reverse() =~= seq![byte] + s.reverse());
}

/// Returns whether every byte is ASCII.
fn is_ascii_slice(bytes: &[u8]) -> (answer: bool)
    ensures
        answer == all_ascii(bytes@),
{
    let mut i: usize = 0;
    while i < bytes.len()
        invariant
            i <= bytes@.len(),
            forall|j: int| 0 <= j < i ==> #[trigger] bytes@[j] < 128,
        decreases bytes@.len() - i,
    {
        if bytes[i] >= 128 {
            return false;
        }
        i += 1;
    }
    true
}

} // verus!

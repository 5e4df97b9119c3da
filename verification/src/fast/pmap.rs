//! FAST presence map handling.
//!
//! The presence map is a bitmap that indicates which optional fields are
//! present in a FAST message, seven bits to a stop-bit encoded byte. Its
//! encoded size is capped by [`MAX_PMAP_BYTES`], and running off the end of the
//! map is an explicit [`FastError::PresenceMapExhausted`]. On the way out,
//! [`PresenceMap::encode`] emits the minimal form: no trailing all-absent
//! bytes.

use crate::fast::decoder::read_byte;
use crate::fast::error::FastError;
use crate::fast::stopbit::{
    end_offset, from_offset, is_first_stop, is_stop, lemma_first_stop, lemma_no_stop, stop_index,
    STOP_BIT,
};
use crate::outside::small::{
    clone_flags, flag_slice, flags_from_vec, flags_in, no_flags, push_flag, Small,
};
use vstd::prelude::*;

verus! {

/// Maximum number of encoded bytes a presence map may occupy.
///
/// Each byte carries seven field bits, so this ceiling admits presence maps of
/// up to 448 fields. It applies to [`PresenceMap::decode`] and to
/// [`PresenceMap::encode`]; a map that the caller builds is not bounded by it.
pub const MAX_PMAP_BYTES: usize = 64;

/// What bit `i` of the seven payload bits is worth, most significant first.
pub open spec fn weight(i: int) -> int {
    if i == 0 {
        64
    } else if i == 1 {
        32
    } else if i == 2 {
        16
    } else if i == 3 {
        8
    } else if i == 4 {
        4
    } else if i == 5 {
        2
    } else {
        1
    }
}

/// Bit `i` of the seven payload bits of `byte`, most significant first.
pub open spec fn byte_bit(byte: u8, i: int) -> bool {
    (byte as int / weight(i)) % 2 == 1
}

/// The payload bits of `bytes`.
pub open spec fn bits_of(bytes: Seq<u8>) -> Seq<bool> {
    Seq::new(7 * bytes.len(), |i: int| byte_bit(bytes[i / 7], i % 7))
}

/// Bit `i` of a map, where the bits past its end are clear.
pub open spec fn bit_or_clear(bits: Seq<bool>, i: int) -> bool {
    0 <= i < bits.len() && bits[i]
}

/// What bit `i` adds to a byte.
pub open spec fn bit_worth(bits: Seq<bool>, base: int, i: int) -> int {
    if bit_or_clear(bits, base + i) {
        weight(i)
    } else {
        0
    }
}

/// The byte that carries the seven bits from `7 * k` on.
pub open spec fn byte_of(bits: Seq<bool>, k: int) -> u8 {
    (bit_worth(bits, 7 * k, 0) + bit_worth(bits, 7 * k, 1) + bit_worth(bits, 7 * k, 2) + bit_worth(
        bits,
        7 * k,
        3,
    ) + bit_worth(bits, 7 * k, 4) + bit_worth(bits, 7 * k, 5) + bit_worth(bits, 7 * k, 6)) as u8
}

/// How many bytes carry `count` bits.
pub open spec fn bytes_for(count: nat) -> nat {
    ((count + 6) / 7) as nat
}

/// How many of the first `n` bytes are left when trailing all-absent bytes are
/// dropped; a map is never zero bytes.
pub open spec fn used_bytes(bits: Seq<bool>, n: nat) -> nat
    decreases n,
{
    if n <= 1 {
        1
    } else if byte_of(bits, n - 1) == 0 {
        used_bytes(bits, (n - 1) as nat)
    } else {
        n
    }
}

/// The minimal encoding of a map.
pub open spec fn pmap_bytes(bits: Seq<bool>) -> Seq<u8> {
    let n = used_bytes(bits, bytes_for(bits.len()));
    Seq::new(
        n,
        |k: int|
            if k == n - 1 {
                (byte_of(bits, k) + STOP_BIT) as u8
            } else {
                byte_of(bits, k)
            },
    )
}

/// What reading a presence map gives, and where the reader then stands.
#[verifier::ext_equal]
pub struct PmapRead {
    pub result: Result<Seq<bool>, FastError>,
    pub offset: nat,
}

/// Reads a presence map at `offset`: seven bits from each byte up to the stop
/// bit, which must come within [`MAX_PMAP_BYTES`] bytes.
pub open spec fn read_pmap(data: Seq<u8>, offset: nat) -> PmapRead {
    let rest = from_offset(data, offset);
    match stop_index(rest) {
        Some(at) if at < MAX_PMAP_BYTES => PmapRead {
            result: Ok(bits_of(rest.take(at + 1))),
            offset: (offset + at + 1) as nat,
        },
        _ => if rest.len() >= MAX_PMAP_BYTES {
            PmapRead {
                result: Err(FastError::PresenceMapTooLarge { max_bytes: MAX_PMAP_BYTES }),
                offset: (offset + MAX_PMAP_BYTES) as nat,
            }
        } else {
            PmapRead { result: Err(FastError::UnexpectedEof), offset: end_offset(data, offset) }
        },
    }
}

/// The state of a [`PresenceMap`].
#[verifier::ext_equal]
pub struct PresenceMapView {
    /// The bits of the map.
    pub bits: Seq<bool>,
    /// How many of them were consumed.
    pub position: nat,
}

/// FAST presence map.
///
/// Bits are consumed in order as fields are decoded.
#[derive(Debug, PartialEq, Eq)]
pub struct PresenceMap {
    /// The raw bits of the presence map.
    bits: Small<bool, 56>,
    /// Current bit position.
    position: usize,
}

impl View for PresenceMap {
    type V = PresenceMapView;

    closed spec fn view(&self) -> PresenceMapView {
        PresenceMapView { bits: flags_in(self.bits), position: self.position as nat }
    }
}

impl Clone for PresenceMap {
    fn clone(&self) -> (copy: Self)
        ensures
            copy@ == self@,
    {
        proof {
            use_type_invariant(self);
        }
        PresenceMap { bits: clone_flags(&self.bits), position: self.position }
    }
}

impl PresenceMap {
    #[verifier::type_invariant]
    spec fn position_in_map(self) -> bool {
        self.position <= flags_in(self.bits).len()
    }

    /// Creates an empty presence map.
    pub fn new() -> (map: Self)
        ensures
            map@ == (PresenceMapView { bits: Seq::empty(), position: 0 }),
    {
        PresenceMap { bits: no_flags(), position: 0 }
    }

    /// Creates a presence map from raw bits.
    pub fn from_bits(bits: Vec<bool>) -> (map: Self)
        ensures
            map@ == (PresenceMapView { bits: bits@, position: 0 }),
    {
        PresenceMap { bits: flags_from_vec(bits), position: 0 }
    }

    /// Decodes a presence map from a byte slice.
    ///
    /// # Errors
    /// [`FastError::UnexpectedEof`] if the stop bit is never reached before the
    /// end of `data`, or [`FastError::PresenceMapTooLarge`] if the map would
    /// exceed [`MAX_PMAP_BYTES`] encoded bytes.
    pub fn decode(data: &[u8], offset: &mut usize) -> (map: Result<Self, FastError>)
        ensures
            ({
                let read = read_pmap(data@, *old(offset) as nat);
                &&& *final(offset) == read.offset
                &&& match map {
                    Ok(m) => read.result == Ok::<_, FastError>(m@.bits) && m@.position == 0,
                    Err(e) => read.result == Err::<Seq<bool>, _>(e),
                }
            }),
    {
        let ghost start = *offset as nat;
        let ghost rest = from_offset(data@, start);
        let mut bits = no_flags();
        let mut consumed: usize = 0;
        assert(flags_in(bits) =~= bits_of(rest.take(0)));
        loop
            invariant
                rest == from_offset(data@, start),
                start == *old(offset),
                consumed <= MAX_PMAP_BYTES,
                consumed <= rest.len(),
                *offset == start + consumed,
                flags_in(bits) == bits_of(rest.take(consumed as int)),
                forall|j: int| 0 <= j < consumed ==> !is_stop(#[trigger] rest[j]),
            decreases MAX_PMAP_BYTES - consumed,
        {
            if consumed == MAX_PMAP_BYTES {
                proof {
                    if exists|at: int| is_first_stop(rest, at) {
                        let at = choose|at: int| is_first_stop(rest, at);
                        assert(is_stop(rest[at]));
                    }
                }
                return Err(FastError::PresenceMapTooLarge { max_bytes: MAX_PMAP_BYTES });
            }
            let byte = match read_byte(data, offset) {
                Ok(byte) => byte,
                Err(error) => {
                    proof {
                        lemma_no_stop(rest);
                    }
                    return Err(error);
                },
            };
            let ghost before = flags_in(bits);
            push_byte_bits(&mut bits, byte);
            proof {
                assert(flags_in(bits) =~= bits_of(rest.take(consumed + 1))) by {
                    let longer = bits_of(rest.take(consumed + 1));
                    assert forall|i: int| 0 <= i < longer.len() implies flags_in(bits)[i]
                        == longer[i] by {
                        if i < 7 * consumed {
                            assert(before[i] == bits_of(rest.take(consumed as int))[i]);
                            assert(rest.take(consumed + 1)[i / 7] == rest.take(consumed as int)[i
                                / 7]);
                        } else {
                            assert(i / 7 == consumed);
                            assert(i % 7 == i - 7 * consumed);
                        }
                    }
                }
                assert(byte & 0x80 != 0 <==> byte >= 0x80) by (bit_vector);
            }
            if byte & STOP_BIT != 0 {
                proof {
                    assert(is_first_stop(rest, consumed as int));
                    lemma_first_stop(rest, consumed as int);
                }
                return Ok(PresenceMap { bits, position: 0 });
            }
            consumed += 1;
        }
    }

    /// Consumes and returns the next bit from the presence map.
    ///
    /// A decoded map always holds a multiple of seven bits, so the padding bits
    /// of its last byte read as absent, and exhaustion is reported at a
    /// seven-bit boundary only.
    ///
    /// # Errors
    /// [`FastError::PresenceMapExhausted`] once every decoded bit has been
    /// consumed.
    pub fn next_bit(&mut self) -> (bit: Result<bool, FastError>)
        ensures
            match bit {
                Ok(b) => old(self)@.position < old(self)@.bits.len() && b == old(self)@.bits[old(
                    self,
                )@.position as int] && final(self)@ == (PresenceMapView {
                    position: old(self)@.position + 1,
                    ..old(self)@
                }),
                Err(e) => old(self)@.position >= old(self)@.bits.len() && e
                    == FastError::PresenceMapExhausted && final(self)@ == old(self)@,
            },
    {
        proof {
            use_type_invariant(&*self);
        }
        let flags = flag_slice(&self.bits);
        if self.position < flags.len() {
            let bit = flags[self.position];
            self.position = self.position + 1;
            Ok(bit)
        } else {
            Err(FastError::PresenceMapExhausted)
        }
    }

    /// Returns the bit at the specified position without consuming it.
    ///
    /// `None` if `index` is past the end of the map.
    pub fn bit(&self, index: usize) -> (bit: Option<bool>)
        ensures
            bit == (if index < self@.bits.len() {
                Some(self@.bits[index as int])
            } else {
                None
            }),
    {
        let flags = flag_slice(&self.bits);
        if index < flags.len() {
            Some(flags[index])
        } else {
            None
        }
    }

    /// Returns the number of bits in the presence map.
    pub fn len(&self) -> (len: usize)
        ensures
            len == self@.bits.len(),
    {
        flag_slice(&self.bits).len()
    }

    /// Returns true if the presence map is empty.
    pub fn is_empty(&self) -> (empty: bool)
        ensures
            empty == (self@.bits.len() == 0),
    {
        flag_slice(&self.bits).is_empty()
    }

    /// Returns true if every bit has been consumed.
    pub fn is_exhausted(&self) -> (exhausted: bool)
        ensures
            exhausted == (self@.position >= self@.bits.len()),
    {
        self.position >= flag_slice(&self.bits).len()
    }

    /// Returns the current position in the presence map.
    pub fn position(&self) -> (position: usize)
        ensures
            position == self@.position,
            position <= self@.bits.len(),
    {
        proof {
            use_type_invariant(self);
        }
        self.position
    }

    /// Resets the position to the beginning.
    pub fn reset(&mut self)
        ensures
            final(self)@ == (PresenceMapView { position: 0, ..old(self)@ }),
    {
        self.position = 0;
    }

    /// Encodes the presence map to bytes.
    ///
    /// The encoding is **minimal**: trailing bytes in which every bit is clear
    /// are dropped, so a map of fourteen absent fields is the single byte
    /// `0x80`. A decoded map is therefore as short as the last set bit allows,
    /// and every bit past its end is absent.
    ///
    /// # Errors
    /// [`FastError::PresenceMapTooLarge`] if the map holds more bits than
    /// [`MAX_PMAP_BYTES`] can carry.
    pub fn encode(&self) -> (bytes: Result<Vec<u8>, FastError>)
        ensures
            match bytes {
                Ok(b) => bytes_for(self@.bits.len()) <= MAX_PMAP_BYTES && b@ == pmap_bytes(
                    self@.bits,
                ),
                Err(e) => bytes_for(self@.bits.len()) > MAX_PMAP_BYTES && e == (
                FastError::PresenceMapTooLarge { max_bytes: MAX_PMAP_BYTES }),
            },
    {
        let flags = flag_slice(&self.bits);
        let ghost bits = self@.bits;
        let byte_len: usize = flags.len() / 7 + (if flags.len() % 7 == 0 {
            0
        } else {
            1usize
        });
        assert(byte_len == bytes_for(bits.len()));
        if byte_len > MAX_PMAP_BYTES {
            return Err(FastError::PresenceMapTooLarge { max_bytes: MAX_PMAP_BYTES });
        }
        let mut result: Vec<u8> = Vec::with_capacity(byte_len);
        let mut k: usize = 0;
        while k < byte_len
            invariant
                k <= byte_len <= MAX_PMAP_BYTES,
                flags@ == bits,
                result@.len() == k,
                forall|j: int| 0 <= j < k ==> #[trigger] result@[j] == byte_of(bits, j),
            decreases byte_len - k,
        {
            let byte = pack_bits(flags, 7 * k);
            result.push(byte);
            k += 1;
        }
        while result.len() > 1 && result[result.len() - 1] == 0
            invariant
                byte_len == bytes_for(bits.len()),
                result@.len() <= byte_len,
                byte_len > 0 ==> result@.len() >= 1,
                forall|j: int|
                    0 <= j < result@.len() ==> #[trigger] result@[j] == byte_of(bits, j),
                used_bytes(bits, result@.len()) == used_bytes(bits, byte_len as nat),
            decreases result@.len(),
        {
            result.pop();
        }
        if result.is_empty() {
            result.push(0);
            assert(bits.len() == 0);
            assert(byte_of(bits, 0) == 0);
        }
        let last: usize = result.len() - 1;
        let byte = result[last];
        proof {
            lemma_byte_of_bound(bits, last as int);
            assert(byte < 0x80 ==> byte | 0x80 == byte + 0x80) by (bit_vector);
        }
        result.set(last, byte | STOP_BIT);
        assert(result@ =~= pmap_bytes(bits));
        Ok(result)
    }
}

impl Default for PresenceMap {
    fn default() -> (map: Self)
        ensures
            map@ == (PresenceMapView { bits: Seq::empty(), position: 0 }),
    {
        Self::new()
    }
}

/// Seven bits denote less than 128.
pub proof fn lemma_byte_of_bound(bits: Seq<bool>, k: int)
    ensures
        byte_of(bits, k) < 128,
{
}

/// Appends the seven payload bits of `byte`, most significant first.
fn push_byte_bits(bits: &mut Small<bool, 56>, byte: u8)
    ensures
        flags_in(*final(bits)) == flags_in(*old(bits)) + Seq::new(7, |i: int| byte_bit(byte, i)),
{
    let ghost before = flags_in(*bits);
    let mut i: usize = 0;
    let mut worth: u8 = 64;
    while i < 7
        invariant
            i <= 7,
            i < 7 ==> worth == weight(i as int),
            flags_in(*bits) == before + Seq::new(i as nat, |j: int| byte_bit(byte, j)),
            before == flags_in(*old(bits)),
        decreases 7 - i,
    {
        push_flag(bits, (byte / worth) % 2 == 1);
        proof {
            assert(flags_in(*bits) =~= before + Seq::new((i + 1) as nat, |j: int| byte_bit(byte, j)));
        }
        worth = worth / 2;
        i += 1;
    }
}

/// Packs the seven flags from `base` on into one byte, most significant first.
fn pack_bits(flags: &[bool], base: usize) -> (byte: u8)
    requires
        base % 7 == 0,
        base + 7 <= usize::MAX,
    ensures
        byte == byte_of(flags@, base as int / 7),
{
    let mut byte: u8 = 0;
    let mut i: usize = 0;
    let mut worth: u8 = 64;
    while i < 7
        invariant
            i <= 7,
            base + 7 <= usize::MAX,
            i < 7 ==> worth == weight(i as int),
            byte == packed(flags@, base as int, i as int),
            byte <= 128 - (if i == 7 {
                1
            } else {
                2 * worth
            }),
        decreases 7 - i,
    {
        if base + i < flags.len() && flags[base + i] {
            byte = byte + worth;
        }
        worth = worth / 2;
        i += 1;
    }
    proof {
        reveal_with_fuel(packed, 8);
        assert(7 * (base as int / 7) == base);
    }
    byte
}

/// What the first `n` of the seven bits from `base` on add to a byte.
spec fn packed(bits: Seq<bool>, base: int, n: int) -> int
    decreases n,
{
    if n <= 0 {
        0
    } else {
        packed(bits, base, n - 1) + bit_worth(bits, base, n - 1)
    }
}

/// Builder for constructing presence maps.
#[derive(Debug)]
pub struct PresenceMapBuilder {
    bits: Small<bool, 56>,
}

impl View for PresenceMapBuilder {
    type V = Seq<bool>;

    closed spec fn view(&self) -> Seq<bool> {
        flags_in(self.bits)
    }
}

impl Default for PresenceMapBuilder {
    fn default() -> (builder: Self)
        ensures
            builder@ == Seq::<bool>::empty(),
    {
        PresenceMapBuilder { bits: no_flags() }
    }
}

impl PresenceMapBuilder {
    /// Creates a new builder.
    pub fn new() -> (builder: Self)
        ensures
            builder@ == Seq::<bool>::empty(),
    {
        PresenceMapBuilder { bits: no_flags() }
    }

    /// Adds a bit to the presence map.
    pub fn bit(self, present: bool) -> (builder: Self)
        ensures
            builder@ == self@.push(present),
    {
        let mut bits = self.bits;
        push_flag(&mut bits, present);
        PresenceMapBuilder { bits }
    }

    /// Builds the presence map.
    pub fn build(self) -> (map: PresenceMap)
        ensures
            map@ == (PresenceMapView { bits: self@, position: 0 }),
    {
        PresenceMap { bits: self.bits, position: 0 }
    }
}

} // verus!

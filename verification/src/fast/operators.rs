//! FAST field operators.
//!
//! The presence map is positional: a field that takes a bit it should not have,
//! or skips one it should have taken, shifts every later bit. Which operators
//! occupy a bit is decided in [`Operator::requires_pmap`] and applied in
//! [`Operator::transfer`]; it depends on whether the field is optional.

use crate::fast::error::FastError;
use crate::fast::pmap::{bit_or_clear, PresenceMap, PresenceMapView};
use vstd::prelude::*;
use vstd::utf8::encode_utf8;

verus! {

/// FAST field operator types.
#[derive(Debug, Clone, Copy, PartialEq, Eq, Hash, Structural)]
pub enum Operator {
    /// No operator - value is always present in stream.
    NoOperator,
    /// Constant - value is never in stream, always uses initial value.
    Constant,
    /// Default - if absent, use initial value.
    Default,
    /// Copy - if absent, use previous value from dictionary.
    Copy,
    /// Increment - if absent, increment previous value by 1.
    Increment,
    /// Delta - value in stream is delta from previous value.
    Delta,
    /// Tail - value in stream replaces tail of previous value.
    Tail,
}

impl Default for Operator {
    fn default() -> (operator: Self)
        ensures
            operator == Operator::NoOperator,
    {
        Operator::NoOperator
    }
}

/// Where the value of a field comes from, once the presence map has been
/// consulted.
#[derive(Debug, Clone, Copy, PartialEq, Eq, Hash, Structural)]
pub enum FieldTransfer {
    /// The value is encoded in the stream and must be read from it.
    ///
    /// For an optional field this is the nullable representation, so the value
    /// read may itself be NULL.
    Stream,
    /// The value is the initial value declared for the field in the template.
    InitialValue,
    /// The value is derived from the operator's dictionary entry, the previous
    /// value of the field.
    Dictionary,
    /// The field has no value in this message.
    Absent,
}

/// Whether the operator decodes against the previous value of the field.
pub open spec fn keeps_state(operator: Operator) -> bool {
    operator == Operator::Copy || operator == Operator::Increment || operator == Operator::Delta
        || operator == Operator::Tail
}

/// Whether the value always travels in the stream.
pub open spec fn always_transferred(operator: Operator) -> bool {
    operator == Operator::NoOperator || operator == Operator::Delta
}

/// Whether a field with the operator occupies a bit in the presence map.
///
/// A value that always travels needs none. A constant never travels, and needs
/// one only where the field is optional, to tell present from absent.
pub open spec fn owns_bit(operator: Operator, optional: bool) -> bool {
    if always_transferred(operator) {
        false
    } else if operator == Operator::Constant {
        optional
    } else {
        true
    }
}

/// Where the value of a field comes from, where `present` is its bit, and
/// `None` where it owns none.
pub open spec fn transfer_of(operator: Operator, present: Option<bool>) -> FieldTransfer {
    if always_transferred(operator) {
        FieldTransfer::Stream
    } else if operator == Operator::Constant {
        if present == Some(false) {
            FieldTransfer::Absent
        } else {
            FieldTransfer::InitialValue
        }
    } else if present == Some(true) {
        FieldTransfer::Stream
    } else if operator == Operator::Default {
        FieldTransfer::InitialValue
    } else {
        FieldTransfer::Dictionary
    }
}

/// The map after a field consumed its bit; a field past the end of the map
/// reads a clear bit and leaves the map at its end.
pub open spec fn after_bit(map: PresenceMapView) -> PresenceMapView {
    if map.position < map.bits.len() {
        PresenceMapView { position: map.position + 1, ..map }
    } else {
        map
    }
}

impl Operator {
    /// Returns true if this operator keeps state in the operator dictionary.
    pub fn uses_dictionary(&self) -> (answer: bool)
        ensures
            answer == keeps_state(*self),
    {
        matches!(self, Operator::Copy | Operator::Increment | Operator::Delta | Operator::Tail)
    }

    /// Returns true if a field with this operator occupies a bit in the
    /// presence map.
    ///
    /// | Operator | Mandatory | Optional | Why |
    /// |---|---|---|---|
    /// | [`Operator::NoOperator`] | no | no | the value is always in the stream |
    /// | [`Operator::Constant`] | no | **yes** | the value is never in the stream; when optional, the bit distinguishes the constant from absent |
    /// | [`Operator::Default`] | yes | yes | the bit selects between a value in the stream and the initial value |
    /// | [`Operator::Copy`] | yes | yes | the bit selects between a value in the stream and the previous value |
    /// | [`Operator::Increment`] | yes | yes | the bit selects between a value in the stream and the previous value plus one |
    /// | [`Operator::Delta`] | no | no | the delta is always in the stream |
    /// | [`Operator::Tail`] | yes | yes | the bit selects between a tail in the stream and the previous value |
    pub fn requires_pmap(&self, optional: bool) -> (answer: bool)
        ensures
            answer == owns_bit(*self, optional),
    {
        match self {
            Operator::NoOperator | Operator::Delta => false,
            Operator::Constant => optional,
            Operator::Default | Operator::Copy | Operator::Increment | Operator::Tail => true,
        }
    }

    /// Returns true if the field's value may be omitted from the stream.
    ///
    /// A constant value is never transferred; a delta is always transferred, as
    /// is a field with no operator. The remaining operators omit the value
    /// whenever their presence map bit is clear.
    pub fn can_be_absent(&self) -> (answer: bool)
        ensures
            answer == !always_transferred(*self),
    {
        match self {
            Operator::NoOperator | Operator::Delta => false,
            Operator::Constant | Operator::Default | Operator::Copy | Operator::Increment
            | Operator::Tail => true,
        }
    }

    /// Consumes this field's presence map bit, if it has one, and reports where
    /// its value comes from.
    ///
    /// A presence map carries an infinite implied suffix of zero bits: a field
    /// whose bit lies past the encoded map is absent, and does not advance the
    /// map. This never fails.
    pub fn transfer(&self, optional: bool, pmap: &mut PresenceMap) -> (transfer: Result<
        FieldTransfer,
        FastError,
    >)
        ensures
            transfer is Ok,
            if owns_bit(*self, optional) {
                &&& transfer == Ok::<_, FastError>(
                    transfer_of(
                        *self,
                        Some(bit_or_clear(old(pmap)@.bits, old(pmap)@.position as int)),
                    ),
                )
                &&& final(pmap)@ == after_bit(old(pmap)@)
            } else {
                &&& transfer == Ok::<_, FastError>(transfer_of(*self, None))
                &&& final(pmap)@ == old(pmap)@
            },
    {
        // The bit is consumed first, and exactly once, so the map stays aligned
        // whichever arm below answers.
        let present: Option<bool> = if self.requires_pmap(optional) {
            match pmap.next_bit() {
                Ok(bit) => Some(bit),
                Err(FastError::PresenceMapExhausted) => Some(false),
                Err(other) => {
                    return Err(other);
                },
            }
        } else {
            None
        };
        Ok(
            match (self, present) {
                (Operator::NoOperator | Operator::Delta, _) => FieldTransfer::Stream,
                (Operator::Constant, None | Some(true)) => FieldTransfer::InitialValue,
                (Operator::Constant, Some(false)) => FieldTransfer::Absent,
                (Operator::Default, Some(true)) => FieldTransfer::Stream,
                (Operator::Default, Some(false) | None) => FieldTransfer::InitialValue,
                (Operator::Copy | Operator::Increment | Operator::Tail, Some(true)) =>
                    FieldTransfer::Stream,
                (Operator::Copy | Operator::Increment | Operator::Tail, Some(false) | None) =>
                    FieldTransfer::Dictionary,
            },
        )
    }
}

/// Dictionary scope for operator state.
///
/// Only [`DictionaryScope::Global`] and [`DictionaryScope::Template`] are
/// backed by storage.
#[derive(Debug, Clone, Copy, PartialEq, Eq, Hash, Structural)]
pub enum DictionaryScope {
    /// Global dictionary shared across all templates.
    Global,
    /// Template-specific dictionary.
    Template,
    /// Type-specific dictionary.
    Type,
}

impl Default for DictionaryScope {
    fn default() -> (scope: Self)
        ensures
            scope == DictionaryScope::Global,
    {
        DictionaryScope::Global
    }
}

/// State for a dictionary entry.
#[derive(Debug)]
pub enum DictionaryValue {
    /// No value has been set.
    Undefined,
    /// Value is explicitly empty/null.
    Empty,
    /// Integer value.
    Int(i64),
    /// Unsigned integer value.
    UInt(u64),
    /// String value.
    String(String),
    /// Byte sequence value.
    Bytes(Vec<u8>),
    /// Decimal value (mantissa, exponent).
    Decimal(i64, i32),
}

/// The integer that a value is, whichever variant stores it.
pub open spec fn integer_of(value: DictionaryValue) -> Option<int> {
    match value {
        DictionaryValue::Int(v) => Some(v as int),
        DictionaryValue::UInt(v) => Some(v as int),
        _ => None,
    }
}

/// The bytes that a value is; a string is its UTF-8 bytes.
pub open spec fn bytes_of(value: DictionaryValue) -> Option<Seq<u8>> {
    match value {
        DictionaryValue::Bytes(bytes) => Some(bytes@),
        DictionaryValue::String(text) => Some(encode_utf8(text@)),
        _ => None,
    }
}

impl Default for DictionaryValue {
    fn default() -> (value: Self)
        ensures
            value == DictionaryValue::Undefined,
    {
        DictionaryValue::Undefined
    }
}

impl Clone for DictionaryValue {
    fn clone(&self) -> (copy: Self)
        ensures
            match *self {
                DictionaryValue::Bytes(bytes) => copy matches DictionaryValue::Bytes(b) && b@
                    == bytes@,
                _ => copy == *self,
            },
    {
        match self {
            DictionaryValue::Undefined => DictionaryValue::Undefined,
            DictionaryValue::Empty => DictionaryValue::Empty,
            DictionaryValue::Int(v) => DictionaryValue::Int(*v),
            DictionaryValue::UInt(v) => DictionaryValue::UInt(*v),
            DictionaryValue::String(text) => DictionaryValue::String(text.clone()),
            DictionaryValue::Bytes(bytes) => DictionaryValue::Bytes(
                vstd::slice::slice_to_vec(bytes.as_slice()),
            ),
            DictionaryValue::Decimal(mantissa, exponent) => DictionaryValue::Decimal(
                *mantissa,
                *exponent,
            ),
        }
    }
}

impl DictionaryValue {
    /// Returns true if the value is undefined.
    pub fn is_undefined(&self) -> (answer: bool)
        ensures
            answer == (*self is Undefined),
    {
        matches!(self, DictionaryValue::Undefined)
    }

    /// Returns true if the value is empty.
    pub fn is_empty(&self) -> (answer: bool)
        ensures
            answer == (*self is Empty),
    {
        matches!(self, DictionaryValue::Empty)
    }

    /// Returns the value as an `i64`, if it is an integer that fits.
    ///
    /// A value stored as [`DictionaryValue::UInt`] is readable here whenever it
    /// is within `i64` range: nothing forces the writer and the reader of a
    /// dictionary entry to agree on signedness.
    pub fn as_i64(&self) -> (value: Option<i64>)
        ensures
            match value {
                Some(v) => integer_of(*self) == Some(v as int),
                None => integer_of(*self) matches Some(v) ==> v > i64::MAX,
            },
    {
        match self {
            DictionaryValue::Int(v) => Some(*v),
            DictionaryValue::UInt(v) => {
                if *v <= i64::MAX as u64 {
                    Some(*v as i64)
                } else {
                    None
                }
            },
            _ => None,
        }
    }

    /// Returns the value as a `u64`, if it is a non-negative integer.
    ///
    /// A value stored as [`DictionaryValue::Int`] is readable here when it is
    /// non-negative.
    pub fn as_u64(&self) -> (value: Option<u64>)
        ensures
            match value {
                Some(v) => integer_of(*self) == Some(v as int),
                None => integer_of(*self) matches Some(v) ==> v < 0,
            },
    {
        match self {
            DictionaryValue::UInt(v) => Some(*v),
            DictionaryValue::Int(v) => {
                if *v >= 0 {
                    Some(*v as u64)
                } else {
                    None
                }
            },
            _ => None,
        }
    }

    /// Returns the value as a string, if applicable.
    pub fn as_str(&self) -> (text: Option<&str>)
        ensures
            match text {
                Some(s) => *self matches DictionaryValue::String(text) && text@ == s@,
                None => !(*self is String),
            },
    {
        match self {
            DictionaryValue::String(text) => Some(text.as_str()),
            _ => None,
        }
    }

    /// Returns the value as a byte slice, if applicable.
    ///
    /// A [`DictionaryValue::String`] answers with its UTF-8 bytes.
    pub fn as_bytes(&self) -> (bytes: Option<&[u8]>)
        ensures
            match bytes {
                Some(b) => bytes_of(*self) == Some(b@),
                None => bytes_of(*self) is None,
            },
    {
        match self {
            DictionaryValue::Bytes(bytes) => Some(bytes.as_slice()),
            DictionaryValue::String(text) => Some(text.as_str().as_bytes()),
            _ => None,
        }
    }

    /// Returns the value as a decimal `(mantissa, exponent)` pair, if
    /// applicable.
    pub fn as_decimal(&self) -> (decimal: Option<(i64, i32)>)
        ensures
            match decimal {
                Some((mantissa, exponent)) => *self == DictionaryValue::Decimal(mantissa, exponent),
                None => !(*self is Decimal),
            },
    {
        match self {
            DictionaryValue::Decimal(mantissa, exponent) => Some((*mantissa, *exponent)),
            _ => None,
        }
    }
}

} // verus!

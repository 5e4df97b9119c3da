//! FAST protocol error types.

use crate::outside::decimal::{ascii_chars, decimal, format_int, format_uint, signed_decimal};
use vstd::prelude::*;

verus! {

/// Errors that can occur during FAST encoding/decoding.
#[derive(Debug, PartialEq, Eq)]
#[non_exhaustive]
pub enum FastError {
    /// Unexpected end of input.
    UnexpectedEof,
    /// Unknown template ID.
    UnknownTemplate(u32),
    /// Invalid presence map.
    InvalidPresenceMap,
    /// A presence map exceeds the resource ceiling for its encoded size.
    PresenceMapTooLarge {
        /// Maximum number of encoded bytes a presence map may occupy.
        max_bytes: usize,
    },
    /// Every encoded presence-map bit has been consumed.
    ///
    /// A presence map carries an infinite implied suffix of zero bits, so the
    /// operator layer reads this as absent and does not surface it.
    PresenceMapExhausted,
    /// Integer overflow during decoding.
    IntegerOverflow,
    /// Invalid string encoding.
    InvalidString,
    /// Invalid decimal encoding.
    InvalidDecimal {
        /// Decimal exponent.
        exponent: i32,
        /// Decimal mantissa.
        mantissa: i64,
    },
    /// Missing mandatory field.
    MissingMandatoryField {
        /// Field name.
        name: String,
    },
    /// Invalid operator application.
    InvalidOperator(String),
    /// Dictionary entry not found.
    DictionaryEntryNotFound {
        /// Dictionary key.
        key: String,
    },
    /// Sequence length mismatch.
    SequenceLengthMismatch {
        /// Expected length.
        expected: u32,
        /// Actual length.
        actual: u32,
    },
}

/// The text of a [`FastError`].
pub open spec fn fast_error_text(error: FastError) -> Seq<char> {
    match error {
        FastError::UnexpectedEof => "unexpected end of input"@,
        FastError::UnknownTemplate(id) => "unknown template id: "@ + ascii_chars(
            decimal(id as nat),
        ),
        FastError::InvalidPresenceMap => "invalid presence map"@,
        FastError::PresenceMapTooLarge { max_bytes } => "presence map exceeds the ceiling of "@
            + ascii_chars(decimal(max_bytes as nat)) + " encoded bytes"@,
        FastError::PresenceMapExhausted => "presence map exhausted"@,
        FastError::IntegerOverflow => "integer overflow"@,
        FastError::InvalidString => "invalid string encoding"@,
        FastError::InvalidDecimal { exponent, mantissa } => "invalid decimal: exponent="@
            + ascii_chars(signed_decimal(exponent as int)) + ", mantissa="@ + ascii_chars(
            signed_decimal(mantissa as int),
        ),
        FastError::MissingMandatoryField { name } => "missing mandatory field: "@ + name@,
        FastError::InvalidOperator(reason) => "invalid operator: "@ + reason@,
        FastError::DictionaryEntryNotFound { key } => "dictionary entry not found: "@ + key@,
        FastError::SequenceLengthMismatch { expected, actual } =>
            "sequence length mismatch: expected "@ + ascii_chars(decimal(expected as nat))
            + ", got "@ + ascii_chars(decimal(actual as nat)),
    }
}

impl FastError {
    /// Returns the error as text.
    pub fn to_string(&self) -> (text: String)
        ensures
            text@ == fast_error_text(*self),
    {
        match self {
            FastError::UnexpectedEof => String::from_str("unexpected end of input"),
            FastError::UnknownTemplate(id) => {
                let mut text = String::from_str("unknown template id: ");
                text.append(format_uint(*id as u64).as_str());
                text
            },
            FastError::InvalidPresenceMap => String::from_str("invalid presence map"),
            FastError::PresenceMapTooLarge { max_bytes } => {
                let mut text = String::from_str("presence map exceeds the ceiling of ");
                text.append(format_uint(*max_bytes as u64).as_str());
                text.append(" encoded bytes");
                text
            },
            FastError::PresenceMapExhausted => String::from_str("presence map exhausted"),
            FastError::IntegerOverflow => String::from_str("integer overflow"),
            FastError::InvalidString => String::from_str("invalid string encoding"),
            FastError::InvalidDecimal { exponent, mantissa } => {
                let mut text = String::from_str("invalid decimal: exponent=");
                text.append(format_int(*exponent as i128).as_str());
                text.append(", mantissa=");
                text.append(format_int(*mantissa as i128).as_str());
                text
            },
            FastError::MissingMandatoryField { name } => {
                let mut text = String::from_str("missing mandatory field: ");
                text.append(name.as_str());
                text
            },
            FastError::InvalidOperator(reason) => {
                let mut text = String::from_str("invalid operator: ");
                text.append(reason.as_str());
                text
            },
            FastError::DictionaryEntryNotFound { key } => {
                let mut text = String::from_str("dictionary entry not found: ");
                text.append(key.as_str());
                text
            },
            FastError::SequenceLengthMismatch { expected, actual } => {
                let mut text = String::from_str("sequence length mismatch: expected ");
                text.append(format_uint(*expected as u64).as_str());
                text.append(", got ");
                text.append(format_uint(*actual as u64).as_str());
                text
            },
        }
    }
}

impl Clone for FastError {
    fn clone(&self) -> (copy: Self)
        ensures
            copy == *self,
    {
        match self {
            FastError::UnexpectedEof => FastError::UnexpectedEof,
            FastError::UnknownTemplate(id) => FastError::UnknownTemplate(*id),
            FastError::InvalidPresenceMap => FastError::InvalidPresenceMap,
            FastError::PresenceMapTooLarge { max_bytes } => FastError::PresenceMapTooLarge {
                max_bytes: *max_bytes,
            },
            FastError::PresenceMapExhausted => FastError::PresenceMapExhausted,
            FastError::IntegerOverflow => FastError::IntegerOverflow,
            FastError::InvalidString => FastError::InvalidString,
            FastError::InvalidDecimal { exponent, mantissa } => FastError::InvalidDecimal {
                exponent: *exponent,
                mantissa: *mantissa,
            },
            FastError::MissingMandatoryField { name } => FastError::MissingMandatoryField {
                name: name.clone(),
            },
            FastError::InvalidOperator(reason) => FastError::InvalidOperator(reason.clone()),
            FastError::DictionaryEntryNotFound { key } => FastError::DictionaryEntryNotFound {
                key: key.clone(),
            },
            FastError::SequenceLengthMismatch { expected, actual } =>
                FastError::SequenceLengthMismatch { expected: *expected, actual: *actual },
        }
    }
}

} // verus!

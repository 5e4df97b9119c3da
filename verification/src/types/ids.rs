//! Session identities and sequence numbers.

use crate::outside::decimal::{ascii_chars, decimal, format_uint};
use crate::outside::text::{hex_chars, hex_text};
use crate::types::charset::Charset;
use vstd::prelude::*;
use vstd::string::StringSliceAdditionalSpecFns;

verus! {

/// Maximum length of a CompID, in bytes.
pub const COMP_ID_MAX_LEN: usize = 64;

/// Reason a CompID cannot be used.
#[derive(Debug, Clone, Copy, PartialEq, Eq, Structural)]
pub enum CompIdError {
    /// The value is empty.
    Empty,
    /// The value is longer than [`COMP_ID_MAX_LEN`] bytes.
    TooLong {
        /// Length of the value, in bytes.
        len: usize,
        /// The maximum accepted, in bytes.
        max_len: usize,
    },
    /// The value carries a byte that has no form in a header field.
    IllegalByte {
        /// The byte that was refused.
        byte: u8,
        /// Its zero-based position in the value.
        position: usize,
    },
}

/// The bytes that an identity string may hold: printable ASCII except `=`.
pub open spec fn id_charset() -> Charset {
    Charset { space: true, equals: false }
}

/// Why an identity string with the given bytes is refused.
pub open spec fn id_error(bytes: Seq<u8>) -> Option<CompIdError> {
    if bytes.len() == 0 {
        Some(CompIdError::Empty)
    } else if bytes.len() > COMP_ID_MAX_LEN {
        Some(CompIdError::TooLong { len: bytes.len() as usize, max_len: COMP_ID_MAX_LEN })
    } else {
        match id_charset().first_outside(bytes) {
            Some(at) => Some(CompIdError::IllegalByte { byte: bytes[at], position: at as usize }),
            None => None,
        }
    }
}

/// Checks an identity string that is written verbatim into a message header:
/// printable ASCII except `=`, never empty, at most [`COMP_ID_MAX_LEN`] bytes.
///
/// # Errors
/// [`CompIdError`] for the first of these that does not hold.
pub fn check_id(value: &str) -> (checked: Result<(), CompIdError>)
    ensures
        match checked {
            Ok(()) => id_error(value.spec_bytes()) is None,
            Err(e) => id_error(value.spec_bytes()) == Some(e),
        },
{
    let bytes = value.as_bytes();
    if bytes.is_empty() {
        return Err(CompIdError::Empty);
    }
    if bytes.len() > COMP_ID_MAX_LEN {
        return Err(CompIdError::TooLong { len: bytes.len(), max_len: COMP_ID_MAX_LEN });
    }
    let charset = Charset { space: true, equals: false };
    match charset.find_outside(bytes) {
        Some(position) => Err(CompIdError::IllegalByte { byte: bytes[position], position }),
        None => Ok(()),
    }
}

/// The text of a [`CompIdError`].
pub open spec fn comp_id_error_text(error: CompIdError) -> Seq<char> {
    match error {
        CompIdError::Empty => "comp id is empty"@,
        CompIdError::TooLong { len, max_len } => "comp id is "@ + ascii_chars(decimal(len as nat))
            + " bytes, over the "@ + ascii_chars(decimal(max_len as nat)) + "-byte maximum"@,
        CompIdError::IllegalByte { byte, position } => "comp id contains illegal byte 0x"@
            + hex_chars(byte) + " at position "@ + ascii_chars(decimal(position as nat)),
    }
}

impl CompIdError {
    /// Returns the reason as text.
    pub fn to_string(&self) -> (text: String)
        ensures
            text@ == comp_id_error_text(*self),
    {
        match self {
            CompIdError::Empty => String::from_str("comp id is empty"),
            CompIdError::TooLong { len, max_len } => {
                let mut text = String::from_str("comp id is ");
                text.append(format_uint(*len as u64).as_str());
                text.append(" bytes, over the ");
                text.append(format_uint(*max_len as u64).as_str());
                text.append("-byte maximum");
                text
            },
            CompIdError::IllegalByte { byte, position } => {
                let mut text = String::from_str("comp id contains illegal byte 0x");
                text.append(hex_text(*byte).as_str());
                text.append(" at position ");
                text.append(format_uint(*position as u64).as_str());
                text
            },
        }
    }
}

/// The identity of one side of a session, `SenderCompID` (49) or
/// `TargetCompID` (56).
///
/// Its view is its text. Every value is an identity string that [`check_id`]
/// accepts.
#[derive(Debug, PartialEq, Eq)]
pub struct CompId {
    text: String,
}

impl View for CompId {
    type V = Seq<char>;

    closed spec fn view(&self) -> Seq<char> {
        self.text@
    }
}

impl Clone for CompId {
    fn clone(&self) -> (copy: Self)
        ensures
            copy == *self,
    {
        proof {
            use_type_invariant(self);
        }
        CompId { text: self.text.clone() }
    }
}

impl CompId {
    #[verifier::type_invariant]
    spec fn wf(self) -> bool {
        id_error(vstd::utf8::encode_utf8(self.text@)) is None
    }

    /// Creates a CompID.
    ///
    /// # Errors
    /// [`CompIdError`] if the value is empty, longer than [`COMP_ID_MAX_LEN`]
    /// bytes, or carries a byte other than printable ASCII except `=`.
    pub fn new(value: &str) -> (id: Result<CompId, CompIdError>)
        ensures
            match id {
                Ok(id) => id_error(value.spec_bytes()) is None && id@ == value@,
                Err(e) => id_error(value.spec_bytes()) == Some(e),
            },
    {
        match check_id(value) {
            Ok(()) => Ok(CompId { text: value.to_owned() }),
            Err(e) => Err(e),
        }
    }

    /// Returns the identity as text.
    pub fn as_str(&self) -> (text: &str)
        ensures
            text@ == self@,
            id_error(text.spec_bytes()) is None,
    {
        proof {
            use_type_invariant(self);
        }
        self.text.as_str()
    }
}

/// A message sequence number, `MsgSeqNum` (34).
#[derive(Debug, Clone, Copy, PartialEq, Eq, PartialOrd, Ord, Hash, Structural)]
pub struct SeqNum {
    value: u64,
}

impl View for SeqNum {
    type V = u64;

    closed spec fn view(&self) -> u64 {
        self.value
    }
}

impl SeqNum {
    /// Creates a sequence number.
    pub fn new(value: u64) -> (seq: Self)
        ensures
            seq@ == value,
    {
        SeqNum { value }
    }

    /// Returns the number.
    pub fn value(self) -> (value: u64)
        ensures
            value == self@,
    {
        self.value
    }
}

/// An identity string is refused where it is empty, longer than 64 bytes, or
/// holds a byte that is not printable ASCII or is `=`, and only there; of such
/// bytes the first is named.
pub proof fn law_id_is_printable(bytes: Seq<u8>)
    ensures
        id_error(bytes) is None <==> {
            &&& 1 <= bytes.len() <= 64
            &&& forall|i: int|
                0 <= i < bytes.len() ==> 0x20 <= #[trigger] bytes[i] <= 0x7e && bytes[i] != 0x3d
        },
        bytes.len() == 0 ==> id_error(bytes) == Some(CompIdError::Empty),
        64 < bytes.len() <= usize::MAX ==> id_error(bytes) == Some(
            CompIdError::TooLong { len: bytes.len() as usize, max_len: 64 },
        ),
        id_error(bytes) matches Some(CompIdError::IllegalByte { byte, position }) ==> {
            &&& position < bytes.len()
            &&& bytes[position as int] == byte
            &&& byte < 0x20 || byte > 0x7e || byte == 0x3d
            &&& forall|i: int|
                0 <= i < position ==> 0x20 <= #[trigger] bytes[i] <= 0x7e && bytes[i] != 0x3d
        },
{
    let charset = id_charset();
    if forall|i: int|
        0 <= i < bytes.len() ==> 0x20 <= #[trigger] bytes[i] <= 0x7e && bytes[i] != 0x3d {
        assert(charset.has_all(bytes));
    }
    if charset.has_all(bytes) {
        assert forall|i: int| 0 <= i < bytes.len() implies 0x20 <= #[trigger] bytes[i] <= 0x7e
            && bytes[i] != 0x3d by {
            assert(charset.has(bytes[i]));
        }
    } else {
        charset.lemma_first_outside_exists(bytes);
        let at = charset.first_outside(bytes)->0;
        assert(charset.is_first_outside(bytes, at));
        assert forall|i: int| 0 <= i < at implies 0x20 <= #[trigger] bytes[i] <= 0x7e && bytes[i]
            != 0x3d by {
            assert(charset.has(bytes[i]));
        }
    }
}

} // verus!

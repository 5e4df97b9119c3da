//! A field of a decoded message.

use crate::types::error::{DecodeError, DecodeErrorView};
use vstd::prelude::*;
use vstd::string::StringSliceAdditionalSpecFns;
use vstd::utf8::valid_utf8;

verus! {

/// One `tag=value` field that borrows its value from the input buffer.
#[derive(Debug, Clone, Copy, PartialEq, Eq)]
pub struct FieldRef<'a> {
    /// The tag number.
    pub tag: u32,
    /// The value, without the terminating SOH.
    pub value: &'a [u8],
}

/// The tag and the value of a field.
#[verifier::ext_equal]
pub struct FieldView {
    pub tag: u32,
    pub value: Seq<u8>,
}

impl View for FieldRef<'_> {
    type V = FieldView;

    open spec fn view(&self) -> FieldView {
        FieldView { tag: self.tag, value: self.value@ }
    }
}

impl<'a> FieldRef<'a> {
    /// Creates a field.
    pub fn new(tag: u32, value: &'a [u8]) -> (field: Self)
        ensures
            field@ == (FieldView { tag, value: value@ }),
            field.tag == tag,
            field.value == value,
    {
        FieldRef { tag, value }
    }

    /// Returns the value as text.
    ///
    /// # Errors
    /// [`DecodeError::InvalidUtf8`] if the value is not valid UTF-8.
    pub fn as_str(&self) -> (text: Result<&'a str, DecodeError>)
        ensures
            text is Ok <==> valid_utf8(self@.value),
            text matches Ok(s) ==> s.spec_bytes() == self@.value,
            text matches Err(e) ==> e@ == DecodeErrorView::InvalidUtf8,
    {
        match core::str::from_utf8(self.value) {
            Ok(text) => Ok(text),
            Err(error) => Err(DecodeError::InvalidUtf8(error)),
        }
    }
}

} // verus!

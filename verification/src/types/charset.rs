//! The byte sets that identity strings and codes are limited to.

use crate::outside::decimal::{ascii_chars, lemma_ascii_bytes};
use vstd::prelude::*;
use vstd::string::StringSliceAdditionalSpecFns;
use vstd::utf8::{encode_utf8_decode_utf8, encode_utf8_valid_utf8, is_ascii_chars};

verus! {

/// Text whose bytes are ASCII has one character for each byte.
pub proof fn lemma_ascii_text(text: &str)
    requires
        forall|i: int| 0 <= i < text.spec_bytes().len() ==> #[trigger] text.spec_bytes()[i] < 128,
    ensures
        is_ascii_chars(text@),
        text@ == ascii_chars(text.spec_bytes()),
{
    let bytes = text.spec_bytes();
    lemma_ascii_bytes(bytes);
    encode_utf8_decode_utf8(text@);
    encode_utf8_decode_utf8(ascii_chars(bytes));
}

/// The text of ASCII bytes.
pub fn ascii_string(bytes: &[u8]) -> (text: String)
    requires
        forall|i: int| 0 <= i < bytes@.len() ==> #[trigger] bytes@[i] < 128,
    ensures
        text@ == ascii_chars(bytes@),
{
    proof {
        lemma_ascii_bytes(bytes@);
        encode_utf8_valid_utf8(ascii_chars(bytes@));
    }
    match core::str::from_utf8(bytes) {
        Ok(text) => {
            proof {
                lemma_ascii_text(text);
            }
            text.to_owned()
        },
        Err(_) => String::new(),
    }
}

/// A set of printable ASCII bytes: the graphic ones except `=`, with the space
/// and with `=` where the set says so.
#[derive(Debug, Clone, Copy, PartialEq, Eq, Structural)]
pub struct Charset {
    /// Whether the space belongs to the set.
    pub space: bool,
    /// Whether `=` belongs to the set.
    pub equals: bool,
}

impl Charset {
    /// Whether `byte` belongs to the set.
    pub open spec fn has(self, byte: u8) -> bool {
        if byte == 0x20 {
            self.space
        } else if byte == 0x3d {
            self.equals
        } else {
            0x21 <= byte <= 0x7e
        }
    }

    /// Whether the first byte of `s` outside the set stands at index `at`.
    pub open spec fn is_first_outside(self, s: Seq<u8>, at: int) -> bool {
        &&& 0 <= at < s.len()
        &&& !self.has(s[at])
        &&& forall|j: int| 0 <= j < at ==> self.has(#[trigger] s[j])
    }

    /// Whether every byte of `s` belongs to the set.
    pub open spec fn has_all(self, s: Seq<u8>) -> bool {
        forall|i: int| 0 <= i < s.len() ==> self.has(#[trigger] s[i])
    }

    /// The index of the first byte of `s` outside the set.
    pub open spec fn first_outside(self, s: Seq<u8>) -> Option<int> {
        if self.has_all(s) {
            None
        } else {
            Some(choose|at: int| self.is_first_outside(s, at))
        }
    }

    /// Where a byte is outside the set, one is the first.
    pub proof fn lemma_first_outside_exists(self, s: Seq<u8>)
        requires
            !self.has_all(s),
        ensures
            self.first_outside(s) is Some,
            self.is_first_outside(s, self.first_outside(s)->0),
        decreases s.len(),
    {
        let rest = s.drop_last();
        if self.has_all(rest) {
            assert forall|j: int| 0 <= j < rest.len() implies self.has(#[trigger] s[j]) by {
                assert(self.has(rest[j]));
            }
            assert(self.is_first_outside(s, rest.len() as int)) by {
                if self.has(s.last()) {
                    assert(self.has_all(s));
                }
            }
        } else {
            self.lemma_first_outside_exists(rest);
            let at = self.first_outside(rest)->0;
            assert forall|j: int| 0 <= j < at implies self.has(#[trigger] s[j]) by {
                assert(self.has(rest[j]));
            }
            assert(self.is_first_outside(s, at));
        }
    }

    /// The first byte outside the set is unique.
    pub proof fn lemma_first_outside(self, s: Seq<u8>, at: int)
        requires
            self.is_first_outside(s, at),
        ensures
            self.first_outside(s) == Some(at),
    {
        let other = choose|i: int| self.is_first_outside(s, i);
        assert(self.is_first_outside(s, other));
        assert(!(other < at) && !(at < other));
    }

    /// Text whose bytes all belong to a set is ASCII: it has one character for
    /// each byte.
    pub proof fn lemma_text(self, text: &str)
        requires
            self.has_all(text.spec_bytes()),
        ensures
            is_ascii_chars(text@),
            text@ == ascii_chars(text.spec_bytes()),
    {
        let bytes = text.spec_bytes();
        assert forall|i: int| 0 <= i < bytes.len() implies #[trigger] bytes[i] < 128 by {
            assert(self.has(bytes[i]));
        }
        lemma_ascii_text(text);
    }

    /// Returns whether `byte` belongs to the set.
    pub fn contains(&self, byte: u8) -> (answer: bool)
        ensures
            answer == self.has(byte),
    {
        if byte == 0x20 {
            self.space
        } else if byte == 0x3d {
            self.equals
        } else {
            0x21 <= byte && byte <= 0x7e
        }
    }

    /// Returns the index of the first byte outside the set.
    pub fn find_outside(&self, bytes: &[u8]) -> (found: Option<usize>)
        ensures
            match found {
                Some(at) => self.first_outside(bytes@) == Some(at as int)
                    && self.is_first_outside(bytes@, at as int),
                None => self.first_outside(bytes@) is None && self.has_all(bytes@),
            },
    {
        let mut i: usize = 0;
        while i < bytes.len()
            invariant
                i <= bytes@.len(),
                forall|j: int| 0 <= j < i ==> self.has(#[trigger] bytes@[j]),
            decreases bytes@.len() - i,
        {
            if !self.contains(bytes[i]) {
                proof {
                    self.lemma_first_outside(bytes@, i as int);
                }
                return Some(i);
            }
            i += 1;
        }
        None
    }
}

} // verus!

//! Byte search through the `memchr` crate.

use vstd::prelude::*;

verus! {

/// `memchr::memchr`: the index of the first occurrence of `needle` in
/// `haystack`, or `None` where there is none.
pub assume_specification[ memchr::memchr ](needle: u8, haystack: &[u8]) -> (found: Option<usize>)
    ensures
        match found {
            Some(at) => is_first(haystack@, needle, at as int),
            None => !haystack@.contains(needle),
        },
;

/// Whether the first `byte` of `s` stands at index `at`.
pub open spec fn is_first(s: Seq<u8>, byte: u8, at: int) -> bool {
    &&& 0 <= at < s.len()
    &&& s[at] == byte
    &&& forall|j: int| 0 <= j < at ==> s[j] != byte
}

/// The index of the first `byte` in `s`.
pub open spec fn first_index(s: Seq<u8>, byte: u8) -> Option<int> {
    if s.contains(byte) {
        Some(choose|at: int| is_first(s, byte, at))
    } else {
        None
    }
}

/// The first occurrence is unique, so an index known to be one is the one.
pub proof fn lemma_first_index(s: Seq<u8>, byte: u8, at: int)
    requires
        is_first(s, byte, at),
    ensures
        first_index(s, byte) == Some(at),
{
    assert(s.contains(byte));
    let other = choose|i: int| is_first(s, byte, i);
    assert(is_first(s, byte, other));
    assert(!(other < at) && !(at < other));
}

/// A byte that occurs has a first occurrence.
pub proof fn lemma_first_index_exists(s: Seq<u8>, byte: u8)
    requires
        s.contains(byte),
    ensures
        first_index(s, byte) is Some,
        is_first(s, byte, first_index(s, byte)->0),
    decreases s.len(),
{
    if s[0] == byte {
        assert(is_first(s, byte, 0));
        lemma_first_index(s, byte, 0);
    } else {
        let rest = s.skip(1);
        let k = choose|k: int| 0 <= k < s.len() && s[k] == byte;
        assert(rest[k - 1] == byte);
        lemma_first_index_exists(rest, byte);
        let at = first_index(rest, byte)->0;
        assert forall|j: int| 0 <= j < at + 1 implies s[j] != byte by {
            if j > 0 {
                assert(rest[j - 1] != byte);
            }
        }
        assert(is_first(s, byte, at + 1));
        lemma_first_index(s, byte, at + 1);
    }
}

/// Searches `haystack` for the first `needle`.
pub fn find(needle: u8, haystack: &[u8]) -> (found: Option<usize>)
    ensures
        match found {
            Some(at) => first_index(haystack@, needle) == Some(at as int) && is_first(
                haystack@,
                needle,
                at as int,
            ),
            None => first_index(haystack@, needle) is None,
        },
{
    let found = memchr::memchr(needle, haystack);
    proof {
        if let Some(at) = found {
            lemma_first_index(haystack@, needle, at as int);
        }
    }
    found
}

} // verus!

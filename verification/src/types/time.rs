//! Spans of time.

use crate::outside::clock::{duration_text, format_duration};
use vstd::prelude::*;

verus! {

/// Nanoseconds in a second.
pub const NANOS_PER_SEC: u128 = 1_000_000_000;

/// Nanoseconds in a millisecond.
pub const NANOS_PER_MILLI: u128 = 1_000_000;

/// The longest span: 2^64 - 1 seconds and 999,999,999 nanoseconds.
pub const MAX_NANOS: u128 = 18_446_744_073_709_551_615_999_999_999;

/// A span of time, exact to the nanosecond.
///
/// Its view is its length in nanoseconds, which is at most [`MAX_NANOS`].
#[derive(Debug, Clone, Copy, PartialEq, Eq, PartialOrd, Ord, Hash, Structural)]
pub struct Duration {
    nanos: u128,
}

impl View for Duration {
    type V = nat;

    closed spec fn view(&self) -> nat {
        self.nanos as nat
    }
}

impl Default for Duration {
    fn default() -> (span: Self)
        ensures
            span@ == 0,
    {
        Duration::zero()
    }
}

/// The text of a span, as `std::time::Duration` formats it for debugging.
pub open spec fn span_text(nanos: nat) -> Seq<char> {
    duration_text((nanos / NANOS_PER_SEC as nat) as u64, (nanos % NANOS_PER_SEC as nat) as u32)
}

impl Duration {
    #[verifier::type_invariant]
    spec fn wf(self) -> bool {
        self.nanos <= MAX_NANOS
    }

    /// The empty span.
    pub fn zero() -> (span: Self)
        ensures
            span@ == 0,
    {
        Duration { nanos: 0 }
    }

    /// The longest span.
    pub fn max_value() -> (span: Self)
        ensures
            span@ == MAX_NANOS,
    {
        Duration { nanos: MAX_NANOS }
    }

    /// A span of whole seconds.
    pub fn from_secs(secs: u64) -> (span: Self)
        ensures
            span@ == secs * NANOS_PER_SEC,
    {
        Duration { nanos: secs as u128 * NANOS_PER_SEC }
    }

    /// A span of whole milliseconds.
    pub fn from_millis(millis: u64) -> (span: Self)
        ensures
            span@ == millis * NANOS_PER_MILLI,
    {
        Duration { nanos: millis as u128 * NANOS_PER_MILLI }
    }

    /// A span of whole seconds and the nanoseconds of the last one.
    pub fn from_parts(secs: u64, subsec_nanos: u32) -> (span: Self)
        requires
            subsec_nanos < NANOS_PER_SEC,
        ensures
            span@ == secs * NANOS_PER_SEC + subsec_nanos,
    {
        Duration { nanos: secs as u128 * NANOS_PER_SEC + subsec_nanos as u128 }
    }

    /// Returns the length of the span in nanoseconds.
    pub fn as_nanos(&self) -> (nanos: u128)
        ensures
            nanos == self@,
            nanos <= MAX_NANOS,
    {
        proof {
            use_type_invariant(self);
        }
        self.nanos
    }

    /// Returns the whole seconds of the span.
    pub fn as_secs(&self) -> (secs: u64)
        ensures
            secs == self@ / NANOS_PER_SEC as nat,
    {
        proof {
            use_type_invariant(self);
        }
        (self.nanos / NANOS_PER_SEC) as u64
    }

    /// Returns the nanoseconds of the span past its whole seconds.
    pub fn subsec_nanos(&self) -> (nanos: u32)
        ensures
            nanos == self@ % NANOS_PER_SEC as nat,
    {
        (self.nanos % NANOS_PER_SEC) as u32
    }

    /// Returns whether the span is empty.
    pub fn is_zero(&self) -> (answer: bool)
        ensures
            answer == (self@ == 0),
    {
        self.nanos == 0
    }

    /// Returns the sum of two spans, and `None` where it is longer than the
    /// longest span.
    pub fn checked_add(self, other: Self) -> (sum: Option<Self>)
        ensures
            match sum {
                Some(s) => s@ == self@ + other@ && s@ <= MAX_NANOS,
                None => self@ + other@ > MAX_NANOS,
            },
    {
        proof {
            use_type_invariant(&self);
            use_type_invariant(&other);
        }
        if self.nanos + other.nanos <= MAX_NANOS {
            Some(Duration { nanos: self.nanos + other.nanos })
        } else {
            None
        }
    }

    /// Returns one `parts`-th of the span, rounded down to the nanosecond.
    pub fn divided_by(self, parts: u32) -> (part: Self)
        requires
            parts > 0,
        ensures
            part@ == self@ / parts as nat,
    {
        proof {
            use_type_invariant(&self);
            vstd::arithmetic::div_mod::lemma_div_is_ordered_by_denominator(
                self.nanos as int,
                1,
                parts as int,
            );
        }
        Duration { nanos: self.nanos / parts as u128 }
    }

    /// Returns whether the span is at least as long as `other`.
    pub fn at_least(&self, other: Self) -> (answer: bool)
        ensures
            answer == (self@ >= other@),
    {
        self.nanos >= other.nanos
    }

    /// Returns the span as text, such as `500ms` or `1.5s`.
    pub fn to_text(&self) -> (text: String)
        ensures
            text@ == span_text(self@),
    {
        format_duration(self.as_secs(), self.subsec_nanos())
    }
}

} // verus!

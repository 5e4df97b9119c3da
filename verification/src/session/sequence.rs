//! Sequence number management.

use crate::types::ids::SeqNum;
use vstd::prelude::*;

verus! {

/// Identifies one of the two sequence counters of a session.
#[derive(Debug, Clone, Copy, PartialEq, Eq, Structural)]
pub enum SequenceCounter {
    /// Outgoing (sender) sequence counter.
    Sender,
    /// Incoming (target) sequence counter.
    Target,
}

/// The name of a counter.
pub open spec fn counter_name(counter: SequenceCounter) -> Seq<char> {
    match counter {
        SequenceCounter::Sender => "sender"@,
        SequenceCounter::Target => "target"@,
    }
}

impl SequenceCounter {
    /// Returns the name of the counter.
    pub fn to_string(&self) -> (name: String)
        ensures
            name@ == counter_name(*self),
    {
        match self {
            SequenceCounter::Sender => String::from_str("sender"),
            SequenceCounter::Target => String::from_str("target"),
        }
    }
}

/// Error returned when a sequence counter has reached its maximum value.
///
/// FIX sequence numbers are unbounded in the protocol, but are held as `u64`
/// here. Once a counter reaches `u64::MAX` no further numbers can be allocated:
/// the session must perform a sequence reset (Logon with
/// `ResetSeqNumFlag(141)=Y`, or an out-of-band reset agreed with the
/// counterparty) and then call [`SequenceManager::reset`] before continuing.
#[derive(Debug, Clone, Copy, PartialEq, Eq, Structural)]
pub struct SequenceExhausted {
    /// Which counter was exhausted.
    pub counter: SequenceCounter,
}

/// The text of a [`SequenceExhausted`].
pub open spec fn exhausted_text(error: SequenceExhausted) -> Seq<char> {
    "sequence counter exhausted: "@ + counter_name(error.counter)
        + " reached u64::MAX, session requires a sequence reset"@
}

impl SequenceExhausted {
    /// Returns the error as text.
    pub fn to_string(&self) -> (text: String)
        ensures
            text@ == exhausted_text(*self),
    {
        let mut text = String::from_str("sequence counter exhausted: ");
        text.append(self.counter.to_string().as_str());
        text.append(" reached u64::MAX, session requires a sequence reset");
        text
    }
}

/// The two counters of a session.
pub struct SequenceView {
    /// Next outgoing sequence number.
    pub sender: u64,
    /// Next expected incoming sequence number.
    pub target: u64,
}

impl SequenceView {
    /// The counters after the sender counter moved on, from the last number to
    /// zero.
    pub open spec fn sender_advanced(self) -> Self {
        SequenceView {
            sender: if self.sender == u64::MAX {
                0
            } else {
                (self.sender + 1) as u64
            },
            ..self
        }
    }

    /// The counters after the target counter moved on, from the last number to
    /// zero.
    pub open spec fn target_advanced(self) -> Self {
        SequenceView {
            target: if self.target == u64::MAX {
                0
            } else {
                (self.target + 1) as u64
            },
            ..self
        }
    }

    /// The counters of a new session.
    pub open spec fn fresh() -> Self {
        SequenceView { sender: 1, target: 1 }
    }

    /// How an incoming message that carries `received` stands to the number
    /// that is expected.
    pub open spec fn judge(self, received: u64) -> SequenceResult {
        if received == self.target {
            SequenceResult::InSequence
        } else if received < self.target {
            SequenceResult::TooLow { expected: self.target, received }
        } else {
            SequenceResult::Gap { expected: self.target, received }
        }
    }
}

/// Manages sequence numbers for a FIX session.
///
/// A session that several threads drive shares its manager behind a lock.
#[derive(Debug)]
pub struct SequenceManager {
    /// Next outgoing sequence number.
    next_sender_seq: u64,
    /// Next expected incoming sequence number.
    next_target_seq: u64,
}

impl View for SequenceManager {
    type V = SequenceView;

    closed spec fn view(&self) -> SequenceView {
        SequenceView { sender: self.next_sender_seq, target: self.next_target_seq }
    }
}

impl SequenceManager {
    /// Creates a new sequence manager with sequence numbers starting at 1.
    #[must_use]
    pub fn new() -> (manager: Self)
        ensures
            manager@ == SequenceView::fresh(),
    {
        SequenceManager { next_sender_seq: 1, next_target_seq: 1 }
    }

    /// Creates a new sequence manager with specified starting values.
    #[must_use]
    pub fn with_initial(sender_seq: u64, target_seq: u64) -> (manager: Self)
        ensures
            manager@ == (SequenceView { sender: sender_seq, target: target_seq }),
    {
        SequenceManager { next_sender_seq: sender_seq, next_target_seq: target_seq }
    }

    /// Returns the next sender sequence number without incrementing.
    #[must_use]
    pub fn next_sender_seq(&self) -> (seq: SeqNum)
        ensures
            seq@ == self@.sender,
    {
        SeqNum::new(self.next_sender_seq)
    }

    /// Returns the next target sequence number without incrementing.
    #[must_use]
    pub fn next_target_seq(&self) -> (seq: SeqNum)
        ensures
            seq@ == self@.target,
    {
        SeqNum::new(self.next_target_seq)
    }

    /// Allocates and returns the next sender sequence number.
    ///
    /// Wraps silently past `u64::MAX`. Prefer
    /// [`try_allocate_sender_seq`](Self::try_allocate_sender_seq) where
    /// exhaustion must be an explicit error.
    pub fn allocate_sender_seq(&mut self) -> (seq: SeqNum)
        ensures
            seq@ == old(self)@.sender,
            final(self)@ == old(self)@.sender_advanced(),
    {
        let seq: u64 = self.next_sender_seq;
        self.next_sender_seq = seq.wrapping_add(1);
        SeqNum::new(seq)
    }

    /// Allocates and returns the next sender sequence number, failing instead
    /// of wrapping when the counter is exhausted.
    ///
    /// On exhaustion the counter is left untouched; the session must perform a
    /// sequence reset (see [`SequenceExhausted`]) before more numbers can be
    /// allocated.
    ///
    /// # Errors
    /// [`SequenceExhausted`] if the counter has reached `u64::MAX`.
    pub fn try_allocate_sender_seq(&mut self) -> (seq: Result<SeqNum, SequenceExhausted>)
        ensures
            match seq {
                Ok(seq) => {
                    &&& old(self)@.sender < u64::MAX
                    &&& seq@ == old(self)@.sender
                    &&& final(self)@ == old(self)@.sender_advanced()
                },
                Err(e) => {
                    &&& old(self)@.sender == u64::MAX
                    &&& e.counter == SequenceCounter::Sender
                    &&& final(self)@ == old(self)@
                },
            },
    {
        let current: u64 = self.next_sender_seq;
        match current.checked_add(1) {
            Some(next) => {
                self.next_sender_seq = next;
                Ok(SeqNum::new(current))
            },
            None => Err(SequenceExhausted { counter: SequenceCounter::Sender }),
        }
    }

    /// Increments the target sequence number.
    ///
    /// Call this after successfully processing an incoming message. Wraps
    /// silently past `u64::MAX`. Prefer
    /// [`try_increment_target_seq`](Self::try_increment_target_seq) where
    /// exhaustion must be an explicit error.
    pub fn increment_target_seq(&mut self)
        ensures
            final(self)@ == old(self)@.target_advanced(),
    {
        self.next_target_seq = self.next_target_seq.wrapping_add(1);
    }

    /// Increments the target sequence number, failing instead of wrapping when
    /// the counter is exhausted.
    ///
    /// On success returns the new next expected target sequence number. On
    /// exhaustion the counter is left untouched; the session must perform a
    /// sequence reset (see [`SequenceExhausted`]) before more messages can be
    /// accepted.
    ///
    /// # Errors
    /// [`SequenceExhausted`] if the counter has reached `u64::MAX`.
    pub fn try_increment_target_seq(&mut self) -> (seq: Result<SeqNum, SequenceExhausted>)
        ensures
            match seq {
                Ok(seq) => {
                    &&& old(self)@.target < u64::MAX
                    &&& seq@ == final(self)@.target
                    &&& final(self)@ == old(self)@.target_advanced()
                },
                Err(e) => {
                    &&& old(self)@.target == u64::MAX
                    &&& e.counter == SequenceCounter::Target
                    &&& final(self)@ == old(self)@
                },
            },
    {
        match self.next_target_seq.checked_add(1) {
            Some(next) => {
                self.next_target_seq = next;
                Ok(SeqNum::new(next))
            },
            None => Err(SequenceExhausted { counter: SequenceCounter::Target }),
        }
    }

    /// Sets the next sender sequence number.
    pub fn set_sender_seq(&mut self, seq: u64)
        ensures
            final(self)@ == (SequenceView { sender: seq, ..old(self)@ }),
    {
        self.next_sender_seq = seq;
    }

    /// Sets the next target sequence number.
    pub fn set_target_seq(&mut self, seq: u64)
        ensures
            final(self)@ == (SequenceView { target: seq, ..old(self)@ }),
    {
        self.next_target_seq = seq;
    }

    /// Resets both sequence numbers to 1.
    pub fn reset(&mut self)
        ensures
            final(self)@ == SequenceView::fresh(),
    {
        self.next_sender_seq = 1;
        self.next_target_seq = 1;
    }

    /// Validates an incoming sequence number against the expected one.
    #[must_use]
    pub fn validate_incoming(&self, received: u64) -> (result: SequenceResult)
        ensures
            result == self@.judge(received),
    {
        let expected: u64 = self.next_target_seq;
        if received == expected {
            SequenceResult::InSequence
        } else if received < expected {
            SequenceResult::TooLow { expected, received }
        } else {
            SequenceResult::Gap { expected, received }
        }
    }
}

impl Default for SequenceManager {
    fn default() -> (manager: Self)
        ensures
            manager@ == SequenceView::fresh(),
    {
        Self::new()
    }
}

/// Result of sequence number validation.
#[derive(Debug, Clone, Copy, PartialEq, Eq, Structural)]
pub enum SequenceResult {
    /// Sequence number is as expected.
    InSequence,
    /// Sequence number is lower than expected (possible duplicate).
    TooLow {
        /// Expected sequence number.
        expected: u64,
        /// Received sequence number.
        received: u64,
    },
    /// Sequence number is higher than expected (gap detected).
    Gap {
        /// Expected sequence number.
        expected: u64,
        /// Received sequence number.
        received: u64,
    },
}

impl SequenceResult {
    /// Returns true if the sequence is valid.
    #[must_use]
    pub fn is_ok(&self) -> (answer: bool)
        ensures
            answer == (*self is InSequence),
    {
        matches!(self, SequenceResult::InSequence)
    }

    /// Returns true if there's a gap.
    #[must_use]
    pub fn is_gap(&self) -> (answer: bool)
        ensures
            answer == (*self is Gap),
    {
        matches!(self, SequenceResult::Gap { .. })
    }

    /// Returns true if the sequence is too low.
    #[must_use]
    pub fn is_too_low(&self) -> (answer: bool)
        ensures
            answer == (*self is TooLow),
    {
        matches!(self, SequenceResult::TooLow { .. })
    }
}

} // verus!

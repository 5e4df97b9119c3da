//! Session state machine using the typestate pattern.
//!
//! State transitions are enforced by the type system, preventing invalid
//! operations.
//!
//! # States carry their data
//!
//! [`Session`] stores its state value, so the data a state is defined by is
//! reachable: when the session is in [`LogonSent`] it *has* the instant the
//! Logon went out, and only then. That is what lets a caller enforce the logon
//! and logout timeouts from the state machine rather than tracking deadlines
//! beside it.
//!
//! The states with no data ([`Disconnected`], [`Connecting`], [`Active`]) are
//! zero-sized, so the typestate costs nothing for them.

mod sealed;

use self::sealed::Sealed;
use std::time::Instant;
use vstd::prelude::*;

verus! {

/// Marker trait for session states.
pub trait SessionState: Sealed {

}

/// Disconnected state - no connection established.
#[derive(Debug, Clone, Copy)]
pub struct Disconnected;

impl Sealed for Disconnected {

}

impl SessionState for Disconnected {

}

/// Connecting state - TCP connection in progress.
#[derive(Debug, Clone, Copy)]
pub struct Connecting;

impl Sealed for Connecting {

}

impl SessionState for Connecting {

}

/// LogonSent state - Logon message sent, awaiting response.
#[derive(Debug, Clone, Copy)]
pub struct LogonSent {
    /// Time when Logon was sent, for the `logon_timeout`.
    pub sent_at: Instant,
}

impl Sealed for LogonSent {

}

impl SessionState for LogonSent {

}

/// LogonReceived state - Logon received from counterparty (acceptor side),
/// pending authentication.
#[derive(Debug, Clone, Copy)]
pub struct LogonReceived {
    /// Time when the Logon was received, for the authentication deadline.
    pub received_at: Instant,
}

impl Sealed for LogonReceived {

}

impl SessionState for LogonReceived {

}

/// Active state - session is fully established.
#[derive(Debug, Clone, Copy)]
pub struct Active;

impl Sealed for Active {

}

impl SessionState for Active {

}

/// Resending state - processing a resend request.
#[derive(Debug, Clone, Copy)]
pub struct Resending {
    /// Begin sequence number of the gap, `BeginSeqNo` (7).
    pub begin_seq: u64,
    /// End sequence number of the gap, `EndSeqNo` (16).
    ///
    /// `0` carries the FIX convention "through the last message sent", not an
    /// empty range.
    pub end_seq: u64,
}

impl Sealed for Resending {

}

impl SessionState for Resending {

}

/// LogoutPending state - Logout sent, awaiting confirmation.
#[derive(Debug, Clone, Copy)]
pub struct LogoutPending {
    /// Time when Logout was sent, for the `logout_timeout`.
    pub sent_at: Instant,
}

impl Sealed for LogoutPending {

}

impl SessionState for LogoutPending {

}

/// Session wrapper with typestate for compile-time state checking.
///
/// The type parameter `S` represents the current session state, and the value
/// of that state is stored: see the module documentation.
#[derive(Debug)]
pub struct Session<S: SessionState> {
    /// Session identifier.
    pub session_id: String,
    /// The current state and its data.
    state: S,
}

impl<S: SessionState> Session<S> {
    /// The session identifier.
    pub closed spec fn id(&self) -> Seq<char> {
        self.session_id@
    }

    /// The current state and its data.
    pub closed spec fn in_state(&self) -> S {
        self.state
    }

    /// Returns the session identifier.
    #[must_use]
    pub fn session_id(&self) -> (id: &str)
        ensures
            id@ == self.id(),
    {
        self.session_id.as_str()
    }

    /// Returns the current state and its data.
    #[must_use]
    pub fn state(&self) -> (state: &S)
        ensures
            *state == self.in_state(),
    {
        &self.state
    }

    /// Moves to `next`, carrying the session identity across.
    ///
    /// Private: the only way to reach a state is through the transition that
    /// names it, which is what keeps an illegal transition uncompilable.
    fn transition<N: SessionState>(self, next: N) -> (session: Session<N>)
        ensures
            session.id() == self.id(),
            session.in_state() == next,
    {
        Session { session_id: self.session_id, state: next }
    }
}

impl Session<Disconnected> {
    /// Creates a new disconnected session.
    #[must_use]
    pub fn new(session_id: &str) -> (session: Self)
        ensures
            session.id() == session_id@,
            session.in_state() == Disconnected,
    {
        Session { session_id: session_id.to_owned(), state: Disconnected }
    }

    /// Transitions to the Connecting state (initiator side).
    #[must_use]
    pub fn connect(self) -> (session: Session<Connecting>)
        ensures
            session.id() == self.id(),
            session.in_state() == Connecting,
    {
        self.transition(Connecting)
    }

    /// Transitions to the Connecting state after accepting an inbound
    /// TCP connection (acceptor side).
    #[must_use]
    pub fn accept(self) -> (session: Session<Connecting>)
        ensures
            session.id() == self.id(),
            session.in_state() == Connecting,
    {
        self.transition(Connecting)
    }
}

impl Session<Connecting> {
    /// Transitions to the LogonSent state after sending Logon (initiator
    /// side), recording the send instant for the logon timeout.
    #[must_use]
    pub fn send_logon(self) -> (session: Session<LogonSent>)
        ensures
            session.id() == self.id(),
            exists|now: Instant| #[trigger]
                call_ensures(Instant::now, (), now) && session.in_state() == (LogonSent {
                    sent_at: now,
                }),
    {
        let now = Instant::now();
        self.send_logon_at(now)
    }

    /// Transitions to the LogonSent state, the clock reading `now`.
    #[must_use]
    pub fn send_logon_at(self, now: Instant) -> (session: Session<LogonSent>)
        ensures
            session.id() == self.id(),
            session.in_state() == (LogonSent { sent_at: now }),
    {
        self.transition(LogonSent { sent_at: now })
    }

    /// Transitions to the LogonReceived state when a Logon arrives from
    /// the counterparty (acceptor side), recording the arrival instant.
    #[must_use]
    pub fn on_logon_received(self) -> (session: Session<LogonReceived>)
        ensures
            session.id() == self.id(),
            exists|now: Instant| #[trigger]
                call_ensures(Instant::now, (), now) && session.in_state() == (LogonReceived {
                    received_at: now,
                }),
    {
        let now = Instant::now();
        self.on_logon_received_at(now)
    }

    /// Transitions to the LogonReceived state, the clock reading `now`.
    #[must_use]
    pub fn on_logon_received_at(self, now: Instant) -> (session: Session<LogonReceived>)
        ensures
            session.id() == self.id(),
            session.in_state() == (LogonReceived { received_at: now }),
    {
        self.transition(LogonReceived { received_at: now })
    }

    /// Transitions back to Disconnected on connection failure.
    #[must_use]
    pub fn disconnect(self) -> (session: Session<Disconnected>)
        ensures
            session.id() == self.id(),
            session.in_state() == Disconnected,
    {
        self.transition(Disconnected)
    }
}

impl Session<LogonSent> {
    /// Returns when the Logon was sent, for the `logon_timeout`.
    #[must_use]
    pub fn sent_at(&self) -> (value: Instant)
        ensures
            value == self.in_state().sent_at,
    {
        self.state.sent_at
    }

    /// Transitions to Active state on successful Logon acknowledgement.
    #[must_use]
    pub fn on_logon_ack(self) -> (session: Session<Active>)
        ensures
            session.id() == self.id(),
            session.in_state() == Active,
    {
        self.transition(Active)
    }

    /// Transitions to Disconnected on Logon rejection or timeout.
    #[must_use]
    pub fn on_logon_reject(self) -> (session: Session<Disconnected>)
        ensures
            session.id() == self.id(),
            session.in_state() == Disconnected,
    {
        self.transition(Disconnected)
    }
}

impl Session<LogonReceived> {
    /// Returns when the counterparty's Logon arrived, for the authentication
    /// deadline.
    #[must_use]
    pub fn received_at(&self) -> (value: Instant)
        ensures
            value == self.in_state().received_at,
    {
        self.state.received_at
    }

    /// Transitions to Active after successful authentication, once the
    /// Logon acknowledgement has been sent back to the counterparty.
    #[must_use]
    pub fn accept_logon(self) -> (session: Session<Active>)
        ensures
            session.id() == self.id(),
            session.in_state() == Active,
    {
        self.transition(Active)
    }

    /// Transitions to Disconnected when authentication fails and the
    /// Logon is rejected (Logout/Reject sent, connection dropped).
    #[must_use]
    pub fn reject_logon(self) -> (session: Session<Disconnected>)
        ensures
            session.id() == self.id(),
            session.in_state() == Disconnected,
    {
        self.transition(Disconnected)
    }

    /// Transitions to Disconnected when authentication does not complete
    /// within the allowed time.
    #[must_use]
    pub fn on_timeout(self) -> (session: Session<Disconnected>)
        ensures
            session.id() == self.id(),
            session.in_state() == Disconnected,
    {
        self.transition(Disconnected)
    }
}

impl Session<Active> {
    /// Transitions to Resending state when a gap is detected, carrying the
    /// range the resend covers.
    ///
    /// An `end_seq` of `0` means "through the last message sent", the FIX
    /// convention.
    #[must_use]
    pub fn start_resend(self, begin_seq: u64, end_seq: u64) -> (session: Session<Resending>)
        ensures
            session.id() == self.id(),
            session.in_state() == (Resending { begin_seq, end_seq }),
    {
        self.transition(Resending { begin_seq, end_seq })
    }

    /// Transitions to LogoutPending state, recording the send instant for the
    /// logout timeout.
    #[must_use]
    pub fn initiate_logout(self) -> (session: Session<LogoutPending>)
        ensures
            session.id() == self.id(),
            exists|now: Instant| #[trigger]
                call_ensures(Instant::now, (), now) && session.in_state() == (LogoutPending {
                    sent_at: now,
                }),
    {
        let now = Instant::now();
        self.initiate_logout_at(now)
    }

    /// Transitions to LogoutPending state, the clock reading `now`.
    #[must_use]
    pub fn initiate_logout_at(self, now: Instant) -> (session: Session<LogoutPending>)
        ensures
            session.id() == self.id(),
            session.in_state() == (LogoutPending { sent_at: now }),
    {
        self.transition(LogoutPending { sent_at: now })
    }

    /// Transitions to Disconnected on unexpected disconnect.
    #[must_use]
    pub fn disconnect(self) -> (session: Session<Disconnected>)
        ensures
            session.id() == self.id(),
            session.in_state() == Disconnected,
    {
        self.transition(Disconnected)
    }
}

impl Session<Resending> {
    /// Returns `BeginSeqNo` (7) of the range being resent.
    #[must_use]
    pub fn begin_seq(&self) -> (value: u64)
        ensures
            value == self.in_state().begin_seq,
    {
        self.state.begin_seq
    }

    /// Returns `EndSeqNo` (16) of the range being resent; `0` means "through
    /// the last message sent".
    #[must_use]
    pub fn end_seq(&self) -> (value: u64)
        ensures
            value == self.in_state().end_seq,
    {
        self.state.end_seq
    }

    /// Transitions back to Active when resend is complete.
    #[must_use]
    pub fn resend_complete(self) -> (session: Session<Active>)
        ensures
            session.id() == self.id(),
            session.in_state() == Active,
    {
        self.transition(Active)
    }

    /// Transitions to Disconnected on error.
    #[must_use]
    pub fn disconnect(self) -> (session: Session<Disconnected>)
        ensures
            session.id() == self.id(),
            session.in_state() == Disconnected,
    {
        self.transition(Disconnected)
    }
}

impl Session<LogoutPending> {
    /// Returns when the Logout was sent, for the `logout_timeout`.
    #[must_use]
    pub fn sent_at(&self) -> (value: Instant)
        ensures
            value == self.in_state().sent_at,
    {
        self.state.sent_at
    }

    /// Transitions to Disconnected on Logout acknowledgement or timeout.
    #[must_use]
    pub fn on_logout_ack(self) -> (session: Session<Disconnected>)
        ensures
            session.id() == self.id(),
            session.in_state() == Disconnected,
    {
        self.transition(Disconnected)
    }

    /// Transitions to Disconnected on timeout.
    #[must_use]
    pub fn on_timeout(self) -> (session: Session<Disconnected>)
        ensures
            session.id() == self.id(),
            session.in_state() == Disconnected,
    {
        self.transition(Disconnected)
    }
}

} // verus!

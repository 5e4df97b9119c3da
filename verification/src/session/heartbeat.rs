//! Heartbeat and TestRequest management.
//!
//! # `HeartBtInt` (108) = 0
//!
//! Zero is a legal `HeartBtInt` and means *do not heartbeat*: neither side
//! emits Heartbeats, neither side probes with a TestRequest, and there is
//! therefore no heartbeat-driven liveness check at all. A
//! [`HeartbeatManager`] with an empty interval reports `false` from
//! [`HeartbeatManager::should_send_heartbeat`],
//! [`HeartbeatManager::should_send_test_request`] and
//! [`HeartbeatManager::is_timed_out`] for the life of the session.
//!
//! # Liveness after a TestRequest
//!
//! **Any inbound message the session accepts stops the countdown**, and a
//! Heartbeat echoing the outstanding `TestReqID` (112) is the positive
//! confirmation, reported as [`TestRequestOutcome::Confirmed`]. Traffic that is
//! not that Heartbeat clears the pending request as
//! [`TestRequestOutcome::SupersededByTraffic`]: a peer that is sending messages
//! is alive whether or not it echoed the `TestReqID`, and several real venues
//! answer a TestRequest with a Heartbeat that omits tag 112 or let it be
//! reordered behind application traffic.
//!
//! # The clock
//!
//! A function that reads the clock promises what the function of the same kind
//! ending in `_at` promises, for a reading that the clock gave. That function
//! takes the reading as an argument, and says which stored reading it is
//! measured against.

use crate::outside::clock::{duration_between, epoch_nanos, since_epoch, span_between};
use crate::outside::decimal::{ascii_chars, decimal, format_int, format_uint};
use crate::types::time::{Duration, MAX_NANOS, NANOS_PER_SEC};
use std::time::{Instant, SystemTime};
use vstd::prelude::*;

verus! {

/// Largest counterparty-confirmed `HeartBtInt` (108) that is honoured, in
/// seconds (one hour).
///
/// `HeartBtInt` is counterparty-controlled, and it drives every liveness timer
/// in the session. An unbounded value disables dead-peer detection outright,
/// so a confirmed interval above this ceiling is refused rather than adopted.
/// See [`negotiate_interval`].
pub const MAX_HEARTBEAT_INTERVAL_SECS: u64 = 3600;

/// Fraction of the heartbeat interval allowed as transmission grace before a
/// TestRequest is due: 20% of the interval.
pub const TEST_REQUEST_GRACE_DIVISOR: u32 = 5;

/// Floor for the TestRequest grace period, in milliseconds.
///
/// The proportional allowance collapses to almost nothing for sub-second
/// intervals, where ordinary scheduling jitter is already comparable to the
/// interval itself.
pub const MIN_TEST_REQUEST_GRACE_MILLIS: u64 = 250;

/// A counterparty-confirmed `HeartBtInt` (108) that is not adopted.
#[derive(Debug, Clone, Copy, PartialEq, Eq, Structural)]
pub struct HeartbeatIntervalError {
    /// The interval the counterparty confirmed, in seconds.
    pub secs: u64,
    /// The largest interval that is honoured, in seconds.
    pub max: u64,
}

/// The text of a [`HeartbeatIntervalError`].
pub open spec fn interval_error_text(error: HeartbeatIntervalError) -> Seq<char> {
    "counterparty HeartBtInt (108) of "@ + ascii_chars(decimal(error.secs as nat))
        + "s exceeds the maximum supported "@ + ascii_chars(decimal(error.max as nat)) + "s"@
}

impl HeartbeatIntervalError {
    /// Returns the error as text.
    pub fn to_string(&self) -> (text: String)
        ensures
            text@ == interval_error_text(*self),
    {
        let mut text = String::from_str("counterparty HeartBtInt (108) of ");
        text.append(format_uint(self.secs).as_str());
        text.append("s exceeds the maximum supported ");
        text.append(format_uint(self.max).as_str());
        text.append("s");
        text
    }
}

/// Effect an inbound message had on an outstanding TestRequest.
#[derive(Debug, Clone, Copy, PartialEq, Eq, Structural)]
pub enum TestRequestOutcome {
    /// No TestRequest was outstanding.
    NonePending,
    /// A Heartbeat echoed the outstanding `TestReqID` (112): the counterparty
    /// answered the probe exactly as asked.
    Confirmed,
    /// Other inbound traffic arrived while a TestRequest was outstanding. The
    /// countdown stops, as the peer is demonstrably alive, but this is not the
    /// Heartbeat the TestRequest asked for.
    SupersededByTraffic,
}

/// The interval that a session heartbeats at, where `requested` nanoseconds
/// were asked for and the counterparty confirmed `confirmed_secs`.
pub open spec fn negotiated(requested: nat, confirmed_secs: u64) -> Result<
    nat,
    HeartbeatIntervalError,
> {
    let confirmed = (confirmed_secs * NANOS_PER_SEC) as nat;
    if confirmed == requested || confirmed_secs <= MAX_HEARTBEAT_INTERVAL_SECS {
        Ok(confirmed)
    } else {
        Err(HeartbeatIntervalError { secs: confirmed_secs, max: MAX_HEARTBEAT_INTERVAL_SECS })
    }
}

/// Resolves the heartbeat interval for a session from the interval this side
/// requested and the `HeartBtInt` (108) the counterparty confirmed.
///
/// FIX expects the acceptor to echo the requested value; when it does not, the
/// confirmed value wins. Because that value is counterparty-controlled it is
/// bounded: anything above [`MAX_HEARTBEAT_INTERVAL_SECS`] is refused, since
/// adopting it would disable dead-peer detection for as long as the peer chose.
/// A confirmed value that is exactly what this side requested is always
/// accepted.
///
/// `0` is accepted at any time and means "do not heartbeat"; see the module
/// documentation.
///
/// # Errors
/// [`HeartbeatIntervalError`] when `confirmed_secs` exceeds
/// [`MAX_HEARTBEAT_INTERVAL_SECS`] and is not the requested interval.
pub fn negotiate_interval(requested: Duration, confirmed_secs: u64) -> (interval: Result<
    Duration,
    HeartbeatIntervalError,
>)
    ensures
        match interval {
            Ok(interval) => negotiated(requested@, confirmed_secs) == Ok::<
                nat,
                HeartbeatIntervalError,
            >(interval@),
            Err(e) => negotiated(requested@, confirmed_secs) == Err::<
                nat,
                HeartbeatIntervalError,
            >(e),
        },
{
    let confirmed = Duration::from_secs(confirmed_secs);
    if confirmed.as_nanos() == requested.as_nanos() {
        return Ok(confirmed);
    }
    if confirmed_secs > MAX_HEARTBEAT_INTERVAL_SECS {
        return Err(
            HeartbeatIntervalError { secs: confirmed_secs, max: MAX_HEARTBEAT_INTERVAL_SECS },
        );
    }
    Ok(confirmed)
}

/// Transmission grace allowed on top of an interval before a TestRequest is
/// due, in nanoseconds.
///
/// Proportional to the interval, floored at [`MIN_TEST_REQUEST_GRACE_MILLIS`].
/// A disabled interval has no grace because it has no TestRequest.
pub open spec fn grace_of(interval: nat) -> nat {
    let share = interval / TEST_REQUEST_GRACE_DIVISOR as nat;
    let floor = (MIN_TEST_REQUEST_GRACE_MILLIS * 1_000_000) as nat;
    if interval == 0 {
        0
    } else if share >= floor {
        share
    } else {
        floor
    }
}

fn grace_for(interval: Duration) -> (grace: Duration)
    ensures
        grace@ == grace_of(interval@),
{
    if interval.is_zero() {
        return Duration::zero();
    }
    let share = interval.divided_by(TEST_REQUEST_GRACE_DIVISOR);
    let floor = Duration::from_millis(MIN_TEST_REQUEST_GRACE_MILLIS);
    if share.at_least(floor) {
        share
    } else {
        floor
    }
}

/// A TestRequest that was sent and not yet answered.
#[derive(Debug)]
struct PendingTestRequest {
    /// The `TestReqID` (112) that was sent.
    id: String,
    /// When it was sent.
    sent_at: Instant,
}

/// What a [`HeartbeatManager`] knows.
#[verifier::ext_equal]
pub struct HeartbeatView {
    /// Heartbeat interval in nanoseconds; zero where heartbeating is disabled.
    pub interval: nat,
    /// When the last message was sent.
    pub last_sent: Instant,
    /// When the last message was received.
    pub last_received: Instant,
    /// `TestReqID` of the outstanding TestRequest, and when it was sent.
    pub pending: Option<(Seq<char>, Instant)>,
}

impl HeartbeatView {
    /// A manager that was created or reset at `now`.
    pub open spec fn fresh(interval: nat, now: Instant) -> Self {
        HeartbeatView { interval, last_sent: now, last_received: now, pending: None }
    }

    /// The manager after a message was sent at `now`.
    pub open spec fn sent(self, now: Instant) -> Self {
        HeartbeatView { last_sent: now, ..self }
    }

    /// The manager after a message was received at `now`.
    pub open spec fn received(self, now: Instant) -> Self {
        HeartbeatView { last_received: now, pending: None, ..self }
    }

    /// The manager after a TestRequest was sent at `now`.
    pub open spec fn probed(self, id: Seq<char>, now: Instant) -> Self {
        HeartbeatView { last_sent: now, pending: Some((id, now)), ..self }
    }

    /// What an inbound message says about the outstanding TestRequest.
    pub open spec fn outcome(
        self,
        is_heartbeat: bool,
        test_req_id: Option<Seq<char>>,
    ) -> TestRequestOutcome {
        match self.pending {
            None => TestRequestOutcome::NonePending,
            Some((id, _)) => if is_heartbeat && test_req_id == Some(id) {
                TestRequestOutcome::Confirmed
            } else {
                TestRequestOutcome::SupersededByTraffic
            },
        }
    }

    /// Whether a Heartbeat is due when nothing was sent for `silence`
    /// nanoseconds.
    pub open spec fn heartbeat_due(self, silence: nat) -> bool {
        self.interval > 0 && silence >= self.interval
    }

    /// Whether a TestRequest is due when nothing was received for `silence`
    /// nanoseconds. An interval that together with its grace is longer than
    /// the longest span never comes due.
    pub open spec fn test_request_due(self, silence: nat) -> bool {
        &&& self.interval > 0
        &&& self.pending is None
        &&& self.interval + grace_of(self.interval) <= MAX_NANOS
        &&& silence >= self.interval + grace_of(self.interval)
    }

    /// Whether the session has timed out when the outstanding TestRequest was
    /// sent `silence` nanoseconds ago.
    pub open spec fn timed_out(self, silence: nat) -> bool {
        self.interval > 0 && self.pending is Some && silence >= self.interval
    }

    /// Whether a Heartbeat is due at `now`: the silence runs from the last
    /// message sent.
    pub open spec fn heartbeat_due_at(self, now: Instant) -> bool {
        self.heartbeat_due(span_between(self.last_sent, now))
    }

    /// Whether a TestRequest is due at `now`: the silence runs from the last
    /// message received.
    pub open spec fn test_request_due_at(self, now: Instant) -> bool {
        self.test_request_due(span_between(self.last_received, now))
    }

    /// Whether the session has timed out at `now`: the silence runs from when
    /// the outstanding TestRequest was sent.
    pub open spec fn timed_out_at(self, now: Instant) -> bool {
        self.pending matches Some((_, sent_at)) && self.timed_out(span_between(sent_at, now))
    }
}

/// The text view of an optional `TestReqID`.
pub open spec fn id_view(test_req_id: Option<&str>) -> Option<Seq<char>> {
    match test_req_id {
        Some(id) => Some(id@),
        None => None,
    }
}

/// The span from `earlier` to `later`.
fn span(earlier: &Instant, later: &Instant) -> (span: Duration)
    ensures
        span@ == span_between(*earlier, *later),
{
    let (secs, subsec_nanos) = duration_between(earlier, later);
    Duration::from_parts(secs, subsec_nanos)
}

/// Manages heartbeat timing for a FIX session.
#[derive(Debug)]
pub struct HeartbeatManager {
    /// Heartbeat interval; empty where heartbeating is disabled.
    interval: Duration,
    /// Time of last message sent.
    last_sent: Instant,
    /// Time of last message received.
    last_received: Instant,
    /// The outstanding TestRequest, if any.
    test_request: Option<PendingTestRequest>,
}

impl View for HeartbeatManager {
    type V = HeartbeatView;

    closed spec fn view(&self) -> HeartbeatView {
        HeartbeatView {
            interval: self.interval@,
            last_sent: self.last_sent,
            last_received: self.last_received,
            pending: match self.test_request {
                Some(request) => Some((request.id@, request.sent_at)),
                None => None,
            },
        }
    }
}

impl HeartbeatManager {
    /// Creates a new heartbeat manager with the specified interval.
    ///
    /// An empty interval is the legal `HeartBtInt` = 0 case and disables
    /// heartbeats, TestRequests and the heartbeat timeout; see the module
    /// documentation.
    #[must_use]
    pub fn new(interval: Duration) -> (manager: Self)
        ensures
            exists|now: Instant| #[trigger]
                call_ensures(Instant::now, (), now) && manager@ == HeartbeatView::fresh(
                    interval@,
                    now,
                ),
    {
        let now = Instant::now();
        Self::new_at(interval, now)
    }

    /// Creates a heartbeat manager, the clock reading `now`.
    #[must_use]
    pub fn new_at(interval: Duration, now: Instant) -> (manager: Self)
        ensures
            manager@ == HeartbeatView::fresh(interval@, now),
    {
        HeartbeatManager { interval, last_sent: now, last_received: now, test_request: None }
    }

    /// Returns whether heartbeating is enabled, i.e. `HeartBtInt` is not 0.
    ///
    /// When this is `false` every timing predicate on this manager is `false`.
    #[must_use]
    pub fn is_enabled(&self) -> (answer: bool)
        ensures
            answer == (self@.interval > 0),
    {
        !self.interval.is_zero()
    }

    /// Records that a message was sent.
    pub fn on_message_sent(&mut self)
        ensures
            exists|now: Instant| #[trigger]
                call_ensures(Instant::now, (), now) && final(self)@ == old(self)@.sent(now),
    {
        let now = Instant::now();
        self.on_message_sent_at(now);
    }

    /// Records that a message was sent, the clock reading `now`.
    pub fn on_message_sent_at(&mut self, now: Instant)
        ensures
            final(self)@ == old(self)@.sent(now),
    {
        self.last_sent = now;
    }

    /// Records that a message was received.
    ///
    /// Any inbound message clears an outstanding TestRequest: the counterparty
    /// is demonstrably alive, so the timeout countdown stops. The returned
    /// [`TestRequestOutcome`] distinguishes the Heartbeat that actually echoed
    /// the `TestReqID` from other traffic that merely superseded it. See the
    /// module documentation for why the rule is this broad.
    pub fn on_message_received(&mut self, is_heartbeat: bool, test_req_id: Option<&str>) -> (outcome:
        TestRequestOutcome)
        ensures
            outcome == old(self)@.outcome(is_heartbeat, id_view(test_req_id)),
            exists|now: Instant| #[trigger]
                call_ensures(Instant::now, (), now) && final(self)@ == old(self)@.received(now),
    {
        let now = Instant::now();
        self.on_message_received_at(is_heartbeat, test_req_id, now)
    }

    /// Records that a message was received, the clock reading `now`.
    pub fn on_message_received_at(
        &mut self,
        is_heartbeat: bool,
        test_req_id: Option<&str>,
        now: Instant,
    ) -> (outcome: TestRequestOutcome)
        ensures
            outcome == old(self)@.outcome(is_heartbeat, id_view(test_req_id)),
            final(self)@ == old(self)@.received(now),
    {
        self.last_received = now;
        match self.test_request.take() {
            None => TestRequestOutcome::NonePending,
            Some(pending) => {
                let echoed = match test_req_id {
                    Some(id) => id.to_owned() == pending.id,
                    None => false,
                };
                if is_heartbeat && echoed {
                    TestRequestOutcome::Confirmed
                } else {
                    TestRequestOutcome::SupersededByTraffic
                }
            },
        }
    }

    /// Checks if a heartbeat should be sent.
    ///
    /// A heartbeat should be sent if no message has been sent within the
    /// interval. Always `false` when `HeartBtInt` is 0.
    #[must_use]
    pub fn should_send_heartbeat(&self) -> (answer: bool)
        ensures
            exists|now: Instant| #[trigger]
                call_ensures(Instant::now, (), now) && answer == self@.heartbeat_due_at(now),
            self@.interval == 0 ==> !answer,
    {
        let now = Instant::now();
        self.heartbeat_due_at(now)
    }

    /// Checks if a heartbeat should be sent, the clock reading `now`.
    #[must_use]
    pub fn heartbeat_due_at(&self, now: Instant) -> (answer: bool)
        ensures
            answer == self@.heartbeat_due_at(now),
    {
        self.heartbeat_due_after(self.time_since_last_sent_at(now))
    }

    /// Checks if a heartbeat should be sent when nothing was sent for
    /// `silence`.
    #[must_use]
    pub fn heartbeat_due_after(&self, silence: Duration) -> (answer: bool)
        ensures
            answer == self@.heartbeat_due(silence@),
    {
        self.is_enabled() && silence.at_least(self.interval)
    }

    /// Checks if a TestRequest should be sent.
    ///
    /// A TestRequest should be sent if no message has been received within the
    /// interval plus [`HeartbeatManager::test_request_grace`], and no
    /// TestRequest is already pending. Always `false` when `HeartBtInt` is 0.
    #[must_use]
    pub fn should_send_test_request(&self) -> (answer: bool)
        ensures
            exists|now: Instant| #[trigger]
                call_ensures(Instant::now, (), now) && answer == self@.test_request_due_at(now),
            self@.interval == 0 ==> !answer,
            self@.pending is Some ==> !answer,
            self@.interval + grace_of(self@.interval) > MAX_NANOS ==> !answer,
    {
        let now = Instant::now();
        self.test_request_due_at(now)
    }

    /// Checks if a TestRequest should be sent, the clock reading `now`.
    #[must_use]
    pub fn test_request_due_at(&self, now: Instant) -> (answer: bool)
        ensures
            answer == self@.test_request_due_at(now),
    {
        self.test_request_due_after(self.time_since_last_received_at(now))
    }

    /// Checks if a TestRequest should be sent when nothing was received for
    /// `silence`.
    #[must_use]
    pub fn test_request_due_after(&self, silence: Duration) -> (answer: bool)
        ensures
            answer == self@.test_request_due(silence@),
    {
        if !self.is_enabled() || self.test_request.is_some() {
            return false;
        }
        match self.interval.checked_add(grace_for(self.interval)) {
            Some(due_after) => silence.at_least(due_after),
            None => false,
        }
    }

    /// Checks if the session has timed out.
    ///
    /// A timeout occurs only if a TestRequest was sent and **nothing at all**
    /// has been received since, for one full interval: any inbound message
    /// clears the pending request (see
    /// [`HeartbeatManager::on_message_received`]). Always `false` when
    /// `HeartBtInt` is 0.
    #[must_use]
    pub fn is_timed_out(&self) -> (answer: bool)
        ensures
            exists|now: Instant| #[trigger]
                call_ensures(Instant::now, (), now) && answer == self@.timed_out_at(now),
            self@.interval == 0 ==> !answer,
            self@.pending is None ==> !answer,
    {
        let now = Instant::now();
        self.timed_out_at(now)
    }

    /// Checks if the session has timed out, the clock reading `now`.
    #[must_use]
    pub fn timed_out_at(&self, now: Instant) -> (answer: bool)
        ensures
            answer == self@.timed_out_at(now),
    {
        match &self.test_request {
            Some(request) => self.timed_out_after(span(&request.sent_at, &now)),
            None => false,
        }
    }

    /// Checks if the session has timed out when the outstanding TestRequest, if
    /// there is one, was sent `silence` ago.
    #[must_use]
    pub fn timed_out_after(&self, silence: Duration) -> (answer: bool)
        ensures
            answer == self@.timed_out(silence@),
    {
        self.is_enabled() && self.test_request.is_some() && silence.at_least(self.interval)
    }

    /// Records that a TestRequest was sent.
    pub fn on_test_request_sent(&mut self, test_req_id: String)
        ensures
            exists|now: Instant| #[trigger]
                call_ensures(Instant::now, (), now) && final(self)@ == old(self)@.probed(
                    test_req_id@,
                    now,
                ),
    {
        let now = Instant::now();
        self.on_test_request_sent_at(test_req_id, now);
    }

    /// Records that a TestRequest was sent, the clock reading `now`.
    pub fn on_test_request_sent_at(&mut self, test_req_id: String, now: Instant)
        ensures
            final(self)@ == old(self)@.probed(test_req_id@, now),
    {
        self.test_request = Some(PendingTestRequest { id: test_req_id, sent_at: now });
        self.last_sent = now;
    }

    /// Returns the pending TestRequest ID, if any.
    #[must_use]
    pub fn pending_test_request(&self) -> (pending: Option<&str>)
        ensures
            match self@.pending {
                Some((id, _)) => id_view(pending) == Some(id),
                None => pending is None,
            },
    {
        match &self.test_request {
            Some(request) => Some(request.id.as_str()),
            None => None,
        }
    }

    /// Returns the time since the last message was received.
    #[must_use]
    pub fn time_since_last_received(&self) -> (silence: Duration)
        ensures
            exists|now: Instant| #[trigger]
                call_ensures(Instant::now, (), now) && silence@ == span_between(
                    self@.last_received,
                    now,
                ),
    {
        let now = Instant::now();
        self.time_since_last_received_at(now)
    }

    /// Returns the time since the last message was received, the clock reading
    /// `now`.
    #[must_use]
    pub fn time_since_last_received_at(&self, now: Instant) -> (silence: Duration)
        ensures
            silence@ == span_between(self@.last_received, now),
    {
        span(&self.last_received, &now)
    }

    /// Returns the time since the last message was sent.
    #[must_use]
    pub fn time_since_last_sent(&self) -> (silence: Duration)
        ensures
            exists|now: Instant| #[trigger]
                call_ensures(Instant::now, (), now) && silence@ == span_between(
                    self@.last_sent,
                    now,
                ),
    {
        let now = Instant::now();
        self.time_since_last_sent_at(now)
    }

    /// Returns the time since the last message was sent, the clock reading
    /// `now`.
    #[must_use]
    pub fn time_since_last_sent_at(&self, now: Instant) -> (silence: Duration)
        ensures
            silence@ == span_between(self@.last_sent, now),
    {
        span(&self.last_sent, &now)
    }

    /// Returns the heartbeat interval.
    #[must_use]
    pub fn interval(&self) -> (interval: Duration)
        ensures
            interval@ == self@.interval,
    {
        self.interval
    }

    /// Returns the transmission grace added to the interval before a
    /// TestRequest becomes due.
    ///
    /// Derived from the interval, not configured: 20% of it, floored at
    /// 250 ms. Zero when `HeartBtInt` is 0.
    #[must_use]
    pub fn test_request_grace(&self) -> (grace: Duration)
        ensures
            grace@ == grace_of(self@.interval),
    {
        grace_for(self.interval)
    }

    /// Resets the manager state.
    ///
    /// The interval is session configuration and is kept; only the timers and
    /// the pending TestRequest are cleared.
    pub fn reset(&mut self)
        ensures
            exists|now: Instant| #[trigger]
                call_ensures(Instant::now, (), now) && final(self)@ == HeartbeatView::fresh(
                    old(self)@.interval,
                    now,
                ),
    {
        let now = Instant::now();
        self.reset_at(now);
    }

    /// Resets the manager state, the clock reading `now`.
    pub fn reset_at(&mut self, now: Instant)
        ensures
            final(self)@ == HeartbeatView::fresh(old(self)@.interval, now),
    {
        self.last_sent = now;
        self.last_received = now;
        self.test_request = None;
    }
}

/// The `TestReqID` that is made of a clock reading of `nanos` nanoseconds.
pub open spec fn test_req_id_text(nanos: nat) -> Seq<char> {
    "TEST"@ + ascii_chars(decimal(nanos))
}

/// The `TestReqID` that is made of the wall clock reading `now`; a reading
/// before the Unix epoch counts as the epoch.
pub open spec fn test_req_id_of(now: SystemTime) -> Seq<char> {
    test_req_id_text(
        match epoch_nanos(now) {
            Some(nanos) => nanos,
            None => 0,
        },
    )
}

/// Makes a `TestReqID` of a time since the Unix epoch.
#[must_use]
pub fn test_req_id_after(since_epoch: Duration) -> (id: String)
    ensures
        id@ == test_req_id_text(since_epoch@),
{
    let nanos: u128 = since_epoch.as_nanos();
    let mut id = String::from_str("TEST");
    id.append(format_int(nanos as i128).as_str());
    id
}

/// Makes a `TestReqID`, the wall clock reading `now`.
#[must_use]
pub fn test_req_id_at(now: SystemTime) -> (id: String)
    ensures
        id@ == test_req_id_of(now),
{
    match since_epoch(&now) {
        Some((secs, subsec_nanos)) => test_req_id_after(Duration::from_parts(secs, subsec_nanos)),
        None => test_req_id_after(Duration::zero()),
    }
}

/// Generates a unique `TestReqID` from the current time in nanoseconds.
///
/// A clock that stands before the Unix epoch reads as the epoch.
#[must_use]
pub fn generate_test_req_id() -> (id: String)
    ensures
        exists|now: SystemTime| #[trigger]
                call_ensures(SystemTime::now, (), now) && id@ == test_req_id_of(now),
{
    let now = SystemTime::now();
    test_req_id_at(now)
}

} // verus!

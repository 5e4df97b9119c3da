//! What holds of the session layer as a whole.

use crate::outside::clock::{epoch_nanos, span_between};
use crate::outside::decimal::decimal;
use crate::session::config::{
    id_fault, secs_as_nanos, BuilderView, ConfigErrorView, ConfigView, MAX_MESSAGE_SIZE_LIMIT,
    MAX_TIMEOUT_NANOS, MIN_MESSAGE_SIZE_LIMIT,
};
use crate::session::heartbeat::{
    grace_of, negotiated, test_req_id_of, test_req_id_text, HeartbeatIntervalError, HeartbeatView,
    TestRequestOutcome, MAX_HEARTBEAT_INTERVAL_SECS, MIN_TEST_REQUEST_GRACE_MILLIS,
};
use crate::session::sequence::{SequenceResult, SequenceView};
use crate::tagvalue::digits::law_decimal_denotes_the_number;
use crate::types::ids::{id_charset, id_error, law_id_is_printable};
use crate::types::time::{MAX_NANOS, NANOS_PER_SEC};
use std::time::{Instant, SystemTime};
use vstd::prelude::*;
use vstd::utf8::{encode_utf8, is_ascii_chars, is_ascii_chars_encode_utf8};

verus! {

/// Whether `value` can stand in a message header: it is not empty, not too
/// long, and holds neither SOH nor `=` nor anything else outside printable
/// ASCII.
pub open spec fn has_wire_form(value: Seq<char>) -> bool {
    &&& 1 <= encode_utf8(value).len() <= 64
    &&& forall|i: int|
        0 <= i < encode_utf8(value).len() ==> {
            let byte = #[trigger] encode_utf8(value)[i];
            0x20 <= byte <= 0x7e && byte != 0x3d
        }
}

/// An identity string without a fault has a wire form.
proof fn lemma_id_has_wire_form(field: Seq<char>, value: Seq<char>)
    requires
        id_fault(field, value) is None,
    ensures
        has_wire_form(value),
{
    let bytes = encode_utf8(value);
    assert(id_error(bytes) is None);
    assert(id_charset().has_all(bytes));
    assert forall|i: int| 0 <= i < bytes.len() implies {
        let byte = #[trigger] bytes[i];
        0x20 <= byte <= 0x7e && byte != 0x3d
    } by {
        assert(id_charset().has(bytes[i]));
    }
}

/// What the builder builds is valid.
pub proof fn law_built_config_is_valid(builder: BuilderView)
    ensures
        builder.built() matches Ok(config) ==> config.fault() is None,
{
}

/// In a valid configuration every knob is in its range, and every identity
/// string can stand in a message header.
pub proof fn law_valid_config_is_in_range(config: ConfigView)
    requires
        config.fault() is None,
    ensures
        has_wire_form(config.begin_string),
        config.sender_sub_id matches Some(id) ==> has_wire_form(id),
        config.target_sub_id matches Some(id) ==> has_wire_form(id),
        config.sender_location_id matches Some(id) ==> has_wire_form(id),
        config.target_location_id matches Some(id) ==> has_wire_form(id),
        0 < config.logon_timeout <= MAX_TIMEOUT_NANOS,
        0 < config.logout_timeout <= MAX_TIMEOUT_NANOS,
        MIN_MESSAGE_SIZE_LIMIT <= config.max_message_size <= MAX_MESSAGE_SIZE_LIMIT,
{
    lemma_id_has_wire_form("begin_string"@, config.begin_string);
    if let Some(id) = config.sender_sub_id {
        lemma_id_has_wire_form("sender_sub_id"@, id);
    }
    if let Some(id) = config.target_sub_id {
        lemma_id_has_wire_form("target_sub_id"@, id);
    }
    if let Some(id) = config.sender_location_id {
        lemma_id_has_wire_form("sender_location_id"@, id);
    }
    if let Some(id) = config.target_location_id {
        lemma_id_has_wire_form("target_location_id"@, id);
    }
}

/// In a valid configuration the whole seconds that go into `HeartBtInt` (108)
/// are the interval exactly, and at most the largest interval that is
/// honoured.
pub proof fn law_valid_heartbeat_is_whole_seconds(config: ConfigView)
    requires
        config.fault() is None,
        config.heartbeat_interval <= MAX_NANOS,
    ensures
        config.heartbeat_interval == (config.heartbeat_interval / NANOS_PER_SEC as nat)
            * NANOS_PER_SEC,
        config.heartbeat_interval / NANOS_PER_SEC as nat <= MAX_HEARTBEAT_INTERVAL_SECS,
{
}

/// `HeartBtInt` (108) = 0 is only ever built where it was asked for by name: no
/// interval, however short, is cut down to it.
pub proof fn law_zero_heartbeat_is_opted_into(builder: BuilderView)
    requires
        builder.heartbeat matches Some(interval) ==> interval <= MAX_NANOS,
    ensures
        builder.built() matches Ok(config) ==> (config.heartbeat_interval / NANOS_PER_SEC as nat
            == 0 <==> builder.heartbeat is None),
{
}

/// The default version is a legal identity string.
proof fn lemma_default_begin_string()
    ensures
        id_fault("begin_string"@, "FIX.4.4"@) is None,
{
    reveal_strlit("FIX.4.4");
    let text = "FIX.4.4"@;
    assert(text =~= seq!['F', 'I', 'X', '.', '4', '.', '4']);
    assert(is_ascii_chars(text));
    is_ascii_chars_encode_utf8(text);
    let bytes = encode_utf8(text);
    assert(bytes.len() == 7);
    assert forall|i: int| 0 <= i < bytes.len() implies id_charset().has(#[trigger] bytes[i]) by {
        assert(bytes[i] == text[i] as u8);
    }
    assert(id_charset().has_all(bytes));
}

/// A builder that was told nothing but the two identities builds what
/// [`SessionConfig::new`](crate::session::config::SessionConfig::new) gives for
/// `FIX.4.4`.
pub proof fn law_builder_defaults_are_the_config_defaults(sender: Seq<char>, target: Seq<char>)
    ensures
        ({
            let builder = BuilderView {
                sender_comp_id: Some(sender),
                target_comp_id: Some(target),
                ..BuilderView::fresh()
            };
            builder.built() == Ok::<ConfigView, ConfigErrorView>(
                ConfigView::with_defaults(sender, target, "FIX.4.4"@),
            )
        }),
{
    lemma_default_begin_string();
    let builder = BuilderView {
        sender_comp_id: Some(sender),
        target_comp_id: Some(target),
        ..BuilderView::fresh()
    };
    assert(builder.config(sender, target) =~= ConfigView::with_defaults(
        sender,
        target,
        "FIX.4.4"@,
    ));
}

/// Of a configuration that holds nothing but defaults, only the version can be
/// at fault.
pub proof fn law_defaults_are_valid(sender: Seq<char>, target: Seq<char>, begin_string: Seq<char>)
    ensures
        ConfigView::with_defaults(sender, target, begin_string).fault() == id_fault(
            "begin_string"@,
            begin_string,
        ),
{
}

/// A negotiated interval is the one that the counterparty confirmed. Beyond
/// the ceiling it is also the one that was requested: a peer cannot push the
/// session there.
pub proof fn law_negotiated_interval_is_bounded(requested: nat, confirmed_secs: u64)
    ensures
        negotiated(requested, confirmed_secs) matches Ok(interval) ==> {
            &&& interval == secs_as_nanos(confirmed_secs)
            &&& interval <= secs_as_nanos(MAX_HEARTBEAT_INTERVAL_SECS) || interval == requested
        },
{
}

/// An interval that the counterparty echoes is accepted, and so is zero.
pub proof fn law_echoed_interval_is_accepted(requested_secs: u64)
    ensures
        negotiated(secs_as_nanos(requested_secs), requested_secs) == Ok::<nat, HeartbeatIntervalError>(
            secs_as_nanos(requested_secs),
        ),
        negotiated(secs_as_nanos(requested_secs), 0) == Ok::<nat, HeartbeatIntervalError>(0nat),
{
}

/// While heartbeating is disabled nothing ever comes due and nothing times
/// out, however long the silence and whatever is outstanding.
pub proof fn law_disabled_heartbeat_is_silent(manager: HeartbeatView, silence: nat)
    requires
        manager.interval == 0,
    ensures
        !manager.heartbeat_due(silence),
        !manager.test_request_due(silence),
        !manager.timed_out(silence),
        grace_of(manager.interval) == 0,
{
}

/// Any inbound message stops the countdown: behind it nothing is outstanding,
/// and the session cannot time out until the next TestRequest.
pub proof fn law_inbound_message_stops_the_countdown(
    manager: HeartbeatView,
    now: Instant,
    silence: nat,
)
    ensures
        manager.received(now).pending is None,
        !manager.received(now).timed_out(silence),
{
}

/// A probe is confirmed by a Heartbeat that echoes its identifier, and by
/// nothing else.
pub proof fn law_only_the_echo_confirms(
    manager: HeartbeatView,
    id: Seq<char>,
    now: Instant,
    is_heartbeat: bool,
    echoed: Option<Seq<char>>,
)
    ensures
        manager.probed(id, now).outcome(is_heartbeat, echoed) == if is_heartbeat && echoed == Some(
            id,
        ) {
            TestRequestOutcome::Confirmed
        } else {
            TestRequestOutcome::SupersededByTraffic
        },
{
}

/// While a TestRequest is outstanding no second one comes due.
pub proof fn law_one_test_request_at_a_time(
    manager: HeartbeatView,
    id: Seq<char>,
    now: Instant,
    silence: nat,
)
    ensures
        !manager.probed(id, now).test_request_due(silence),
{
}

/// A TestRequest comes due later than a Heartbeat: after the interval and a
/// grace of at least 250 ms and at least a fifth of the interval.
pub proof fn law_test_request_allows_for_grace(manager: HeartbeatView, silence: nat)
    requires
        manager.test_request_due(silence),
    ensures
        manager.heartbeat_due(silence),
        silence >= manager.interval + MIN_TEST_REQUEST_GRACE_MILLIS * 1_000_000,
        5 * silence >= 6 * manager.interval - 4,
{
}

/// Once a Heartbeat, a TestRequest or a timeout has come due, more silence
/// keeps it due.
pub proof fn law_silence_only_adds(manager: HeartbeatView, silence: nat, longer: nat)
    requires
        silence <= longer,
    ensures
        manager.heartbeat_due(silence) ==> manager.heartbeat_due(longer),
        manager.test_request_due(silence) ==> manager.test_request_due(longer),
        manager.timed_out(silence) ==> manager.timed_out(longer),
{
}

/// Traffic moves the timers and leaves the interval, and the grace that is
/// derived from it, as they are.
pub proof fn law_traffic_keeps_the_interval(manager: HeartbeatView, id: Seq<char>, now: Instant)
    ensures
        manager.sent(now).interval == manager.interval,
        manager.received(now).interval == manager.interval,
        manager.probed(id, now).interval == manager.interval,
{
}

/// Something that a heartbeat manager is told, and when.
pub enum HeartbeatEvent {
    /// A message was sent.
    Sent { now: Instant },
    /// A message was received.
    Received { now: Instant },
    /// A TestRequest was sent.
    Probed { id: Seq<char>, now: Instant },
    /// The timers were reset.
    Reset { now: Instant },
}

impl HeartbeatEvent {
    /// When the event came.
    pub open spec fn at(self) -> Instant {
        match self {
            HeartbeatEvent::Sent { now } => now,
            HeartbeatEvent::Received { now } => now,
            HeartbeatEvent::Probed { id, now } => now,
            HeartbeatEvent::Reset { now } => now,
        }
    }

    /// The manager behind the event.
    pub open spec fn applied(self, manager: HeartbeatView) -> HeartbeatView {
        match self {
            HeartbeatEvent::Sent { now } => manager.sent(now),
            HeartbeatEvent::Received { now } => manager.received(now),
            HeartbeatEvent::Probed { id, now } => manager.probed(id, now),
            HeartbeatEvent::Reset { now } => HeartbeatView::fresh(manager.interval, now),
        }
    }

    /// Whether the event starts the silence of this side anew.
    pub open spec fn is_outbound(self) -> bool {
        self is Sent || self is Probed || self is Reset
    }

    /// Whether the event starts the silence of the counterparty anew.
    pub open spec fn is_inbound(self) -> bool {
        self is Received || self is Reset
    }

    /// Whether the event says if a TestRequest is outstanding.
    pub open spec fn is_about_probe(self) -> bool {
        self is Probed || self is Received || self is Reset
    }
}

/// The manager that was created at `start` and then told of `events`.
pub open spec fn manager_after(
    interval: nat,
    start: Instant,
    events: Seq<HeartbeatEvent>,
) -> HeartbeatView
    decreases events.len(),
{
    if events.len() == 0 {
        HeartbeatView::fresh(interval, start)
    } else {
        events.last().applied(manager_after(interval, start, events.drop_last()))
    }
}

/// When `events[at]` came, and `start` where `at` lies before the first event.
pub open spec fn time_of(start: Instant, events: Seq<HeartbeatEvent>, at: int) -> Instant {
    if 0 <= at < events.len() {
        events[at].at()
    } else {
        start
    }
}

/// What a manager holds is what the latest event of each kind says.
proof fn lemma_manager_after(
    interval: nat,
    start: Instant,
    events: Seq<HeartbeatEvent>,
    outbound: int,
    inbound: int,
    probe: int,
)
    requires
        -1 <= outbound < events.len(),
        -1 <= inbound < events.len(),
        -1 <= probe < events.len(),
        outbound >= 0 ==> events[outbound].is_outbound(),
        inbound >= 0 ==> events[inbound].is_inbound(),
        probe >= 0 ==> events[probe].is_about_probe(),
        forall|i: int| outbound < i < events.len() ==> !(#[trigger] events[i]).is_outbound(),
        forall|i: int| inbound < i < events.len() ==> !(#[trigger] events[i]).is_inbound(),
        forall|i: int| probe < i < events.len() ==> !(#[trigger] events[i]).is_about_probe(),
    ensures
        ({
            let manager = manager_after(interval, start, events);
            &&& manager.interval == interval
            &&& manager.last_sent == time_of(start, events, outbound)
            &&& manager.last_received == time_of(start, events, inbound)
            &&& manager.pending == (if probe >= 0 && events[probe] is Probed {
                Some((events[probe]->id, events[probe].at()))
            } else {
                None
            })
        }),
    decreases events.len(),
{
    if events.len() > 0 {
        let earlier = events.drop_last();
        let last = events.len() - 1;
        let earlier_outbound = if outbound == last { latest_outbound(earlier) } else { outbound };
        let earlier_inbound = if inbound == last { latest_inbound(earlier) } else { inbound };
        let earlier_probe = if probe == last { latest_about_probe(earlier) } else { probe };
        lemma_latest(earlier);
        assert forall|i: int| 0 <= i < earlier.len() implies earlier[i] == events[i] by {}
        lemma_manager_after(
            interval,
            start,
            earlier,
            earlier_outbound,
            earlier_inbound,
            earlier_probe,
        );
    }
}

/// The index of the latest event that starts the silence of this side anew.
spec fn latest_outbound(events: Seq<HeartbeatEvent>) -> int
    decreases events.len(),
{
    if events.len() == 0 || events.last().is_outbound() {
        events.len() - 1
    } else {
        latest_outbound(events.drop_last())
    }
}

/// The index of the latest event that starts the silence of the counterparty
/// anew.
spec fn latest_inbound(events: Seq<HeartbeatEvent>) -> int
    decreases events.len(),
{
    if events.len() == 0 || events.last().is_inbound() {
        events.len() - 1
    } else {
        latest_inbound(events.drop_last())
    }
}

/// The index of the latest event that says if a TestRequest is outstanding.
spec fn latest_about_probe(events: Seq<HeartbeatEvent>) -> int
    decreases events.len(),
{
    if events.len() == 0 || events.last().is_about_probe() {
        events.len() - 1
    } else {
        latest_about_probe(events.drop_last())
    }
}

/// The latest events are what they are called.
proof fn lemma_latest(events: Seq<HeartbeatEvent>)
    ensures
        -1 <= latest_outbound(events) < events.len(),
        -1 <= latest_inbound(events) < events.len(),
        -1 <= latest_about_probe(events) < events.len(),
        latest_outbound(events) >= 0 ==> events[latest_outbound(events)].is_outbound(),
        latest_inbound(events) >= 0 ==> events[latest_inbound(events)].is_inbound(),
        latest_about_probe(events) >= 0 ==> events[latest_about_probe(events)].is_about_probe(),
        forall|i: int|
            latest_outbound(events) < i < events.len() ==> !(#[trigger] events[i]).is_outbound(),
        forall|i: int|
            latest_inbound(events) < i < events.len() ==> !(#[trigger] events[i]).is_inbound(),
        forall|i: int|
            latest_about_probe(events) < i < events.len()
                ==> !(#[trigger] events[i]).is_about_probe(),
    decreases events.len(),
{
    if events.len() > 0 {
        let earlier = events.drop_last();
        lemma_latest(earlier);
        assert forall|i: int| 0 <= i < earlier.len() implies earlier[i] == events[i] by {}
        assert forall|i: int| latest_outbound(events) < i < events.len() implies !(
        #[trigger] events[i]).is_outbound() by {
            if i < earlier.len() {
                assert(!earlier[i].is_outbound());
            }
        }
        assert forall|i: int| latest_inbound(events) < i < events.len() implies !(
        #[trigger] events[i]).is_inbound() by {
            if i < earlier.len() {
                assert(!earlier[i].is_inbound());
            }
        }
        assert forall|i: int| latest_about_probe(events) < i < events.len() implies !(
        #[trigger] events[i]).is_about_probe() by {
            if i < earlier.len() {
                assert(!earlier[i].is_about_probe());
            }
        }
    }
}

/// A Heartbeat is due once nothing was sent for an interval, counted from the
/// creation of the manager, its latest reset, or the latest message or
/// TestRequest sent, whichever came last. What was received plays no part.
pub proof fn law_heartbeat_counts_from_the_last_message_sent(
    interval: nat,
    start: Instant,
    events: Seq<HeartbeatEvent>,
    latest: int,
    now: Instant,
)
    requires
        -1 <= latest < events.len(),
        latest >= 0 ==> events[latest].is_outbound(),
        forall|i: int| latest < i < events.len() ==> !(#[trigger] events[i]).is_outbound(),
    ensures
        manager_after(interval, start, events).heartbeat_due_at(now) <==> interval > 0
            && span_between(time_of(start, events, latest), now) >= interval,
{
    lemma_latest(events);
    lemma_manager_after(
        interval,
        start,
        events,
        latest,
        latest_inbound(events),
        latest_about_probe(events),
    );
}

/// A TestRequest is due once nothing was received for an interval and its
/// grace, counted from the creation of the manager, its latest reset, or the
/// latest message received, whichever came last, and none is outstanding.
/// Messages sent play no part.
pub proof fn law_test_request_counts_from_the_last_message_received(
    interval: nat,
    start: Instant,
    events: Seq<HeartbeatEvent>,
    latest: int,
    now: Instant,
)
    requires
        -1 <= latest < events.len(),
        latest >= 0 ==> events[latest].is_inbound(),
        forall|i: int| latest < i < events.len() ==> !(#[trigger] events[i]).is_inbound(),
    ensures
        manager_after(interval, start, events).test_request_due_at(now) <==> {
            &&& interval > 0
            &&& interval + grace_of(interval) <= MAX_NANOS
            &&& span_between(time_of(start, events, latest), now) >= interval + grace_of(interval)
            &&& forall|i: int| latest < i < events.len() ==> !(#[trigger] events[i] is Probed)
        },
{
    lemma_latest(events);
    let probe = latest_about_probe(events);
    lemma_manager_after(interval, start, events, latest_outbound(events), latest, probe);
    assert(probe >= latest) by {
        if latest >= 0 {
            assert(events[latest].is_about_probe());
        }
    }
    assert forall|i: int| latest < i < events.len() && probe < i implies !(
    #[trigger] events[i] is Probed) by {
        assert(!events[i].is_about_probe());
    }
    if probe > latest {
        assert(!events[probe].is_inbound());
        assert(events[probe] is Probed);
    }
}

/// The session times out once an interval has passed since the latest
/// TestRequest, and only if nothing was received and nothing was reset since.
/// Without a TestRequest it never times out, however long the silence.
pub proof fn law_timeout_counts_from_the_test_request(
    interval: nat,
    start: Instant,
    events: Seq<HeartbeatEvent>,
    latest: int,
    now: Instant,
)
    requires
        -1 <= latest < events.len(),
        latest >= 0 ==> events[latest].is_about_probe(),
        forall|i: int| latest < i < events.len() ==> !(#[trigger] events[i]).is_about_probe(),
    ensures
        manager_after(interval, start, events).timed_out_at(now) <==> {
            &&& interval > 0
            &&& latest >= 0
            &&& events[latest] is Probed
            &&& span_between(events[latest].at(), now) >= interval
        },
{
    lemma_latest(events);
    lemma_manager_after(
        interval,
        start,
        events,
        latest_outbound(events),
        latest_inbound(events),
        latest,
    );
}

/// As long as no counter is exhausted, numbers go up by one, and each counter
/// moves alone.
pub proof fn law_numbers_go_up_by_one(counters: SequenceView)
    ensures
        counters.sender < u64::MAX ==> counters.sender_advanced().sender == counters.sender + 1,
        counters.target < u64::MAX ==> counters.target_advanced().target == counters.target + 1,
        counters.sender_advanced().target == counters.target,
        counters.target_advanced().sender == counters.sender,
{
}

/// Every incoming number is exactly one of expected, too low and ahead, and the
/// verdict names both numbers.
pub proof fn law_every_number_is_judged(counters: SequenceView, received: u64)
    ensures
        received == counters.target <==> counters.judge(received) == SequenceResult::InSequence,
        received < counters.target <==> counters.judge(received) == (SequenceResult::TooLow {
            expected: counters.target,
            received,
        }),
        received > counters.target <==> counters.judge(received) == (SequenceResult::Gap {
            expected: counters.target,
            received,
        }),
{
}

/// Once a message was accepted, its number is too low and the next one is
/// expected.
pub proof fn law_accepted_number_is_not_accepted_again(counters: SequenceView, received: u64)
    requires
        counters.judge(received) == SequenceResult::InSequence,
        counters.target < u64::MAX,
    ensures
        counters.target_advanced().judge(received) is TooLow,
        counters.target_advanced().judge((received + 1) as u64) == SequenceResult::InSequence,
{
}

/// Every confirmed interval up to an hour is adopted, whether it is shorter or
/// longer than the requested one, and zero among them. An interval above an hour
/// is refused, unless it is what was requested.
pub proof fn law_confirmed_interval_is_adopted(requested: nat, confirmed_secs: u64)
    ensures
        confirmed_secs <= 3600 ==> negotiated(requested, confirmed_secs) == Ok::<
            nat,
            HeartbeatIntervalError,
        >((confirmed_secs * 1_000_000_000) as nat),
        confirmed_secs * 1_000_000_000 == requested ==> negotiated(requested, confirmed_secs)
            == Ok::<nat, HeartbeatIntervalError>(requested),
        confirmed_secs > 3600 && confirmed_secs * 1_000_000_000 != requested ==> negotiated(
            requested,
            confirmed_secs,
        ) == Err::<nat, HeartbeatIntervalError>(
            HeartbeatIntervalError { secs: confirmed_secs, max: 3600 },
        ),
{
}

/// The grace is a fifth of the interval, rounded down, but a quarter of a second
/// at least; without an interval there is none.
pub proof fn law_grace_is_a_fifth_of_the_interval(interval: nat)
    ensures
        interval == 0 ==> grace_of(interval) == 0,
        0 < interval < 1_250_000_000 ==> grace_of(interval) == 250_000_000,
        interval >= 1_250_000_000 ==> 5 * grace_of(interval) <= interval < 5 * (grace_of(interval)
            + 1),
{
}

/// Without an outstanding TestRequest an inbound message says nothing about one,
/// and with one it always does.
pub proof fn law_outcome_tells_of_a_pending_request(
    manager: HeartbeatView,
    is_heartbeat: bool,
    echoed: Option<Seq<char>>,
)
    ensures
        manager.outcome(is_heartbeat, echoed) is NonePending <==> manager.pending is None,
        manager.outcome(is_heartbeat, echoed) is Confirmed <==> {
            &&& is_heartbeat
            &&& manager.pending matches Some((id, _)) && echoed == Some(id)
        },
{
}

/// A deadline has come exactly when the silence has reached it.
pub proof fn law_deadline_is_reached_exactly(manager: HeartbeatView, silence: nat)
    requires
        manager.interval > 0,
    ensures
        manager.heartbeat_due(silence) <==> silence >= manager.interval,
        manager.pending is None && manager.interval + grace_of(manager.interval) <= MAX_NANOS ==> (
        manager.test_request_due(silence) <==> silence >= manager.interval + grace_of(
            manager.interval,
        )),
        manager.pending is Some ==> (manager.timed_out(silence) <==> silence >= manager.interval),
{
}

/// Different times give different `TestReqID`s, which all start with `TEST`.
pub proof fn law_test_req_ids_differ(first: nat, second: nat)
    ensures
        first != second ==> test_req_id_text(first) != test_req_id_text(second),
        test_req_id_text(first).take(4) == "TEST"@,
        test_req_id_text(first).len() == 4 + decimal(first).len(),
        forall|i: int|
            0 <= i < decimal(first).len() ==> #[trigger] test_req_id_text(first)[4 + i]
                == decimal(first)[i] as char,
{
    reveal_strlit("TEST");
    assert("TEST"@.len() == 4);
    assert(test_req_id_text(first).take(4) =~= "TEST"@);
    if first != second && test_req_id_text(first) == test_req_id_text(second) {
        let a = decimal(first);
        let b = decimal(second);
        law_decimal_denotes_the_number(first);
        law_decimal_denotes_the_number(second);
        assert(test_req_id_text(first).len() == 4 + a.len());
        assert(test_req_id_text(second).len() == 4 + b.len());
        assert forall|i: int| 0 <= i < a.len() implies a[i] == b[i] by {
            assert(test_req_id_text(first)[4 + i] == a[i] as char);
            assert(test_req_id_text(second)[4 + i] == b[i] as char);
        }
        assert(a =~= b);
    }
}

/// An identity string is at fault where it has no wire form, and only there.
proof fn lemma_id_fault(field: Seq<char>, value: Seq<char>)
    ensures
        id_fault(field, value) is None <==> has_wire_form(value),
{
    if id_fault(field, value) is None {
        lemma_id_has_wire_form(field, value);
    }
    if has_wire_form(value) {
        assert(id_charset().has_all(encode_utf8(value)));
    }
}

/// A configuration is valid where every knob is in its range, and only there:
/// the identities have a wire form, the heartbeat interval is zero or 1 to 3600
/// whole seconds, the timeouts are above zero and at most 300 seconds, and the
/// size limit is 512 bytes to 64 MiB. Nothing else is looked at.
pub proof fn law_config_is_valid_exactly_in_range(config: ConfigView)
    requires
        config.heartbeat_interval <= MAX_NANOS,
    ensures
        config.fault() is None <==> {
            &&& has_wire_form(config.begin_string)
            &&& config.sender_sub_id matches Some(id) ==> has_wire_form(id)
            &&& config.target_sub_id matches Some(id) ==> has_wire_form(id)
            &&& config.sender_location_id matches Some(id) ==> has_wire_form(id)
            &&& config.target_location_id matches Some(id) ==> has_wire_form(id)
            &&& config.heartbeat_interval % 1_000_000_000 == 0
            &&& config.heartbeat_interval <= 3_600_000_000_000
            &&& 0 < config.logon_timeout <= 300_000_000_000
            &&& 0 < config.logout_timeout <= 300_000_000_000
            &&& 512 <= config.max_message_size <= 67_108_864
        },
{
    lemma_id_fault("begin_string"@, config.begin_string);
    if let Some(id) = config.sender_sub_id {
        lemma_id_fault("sender_sub_id"@, id);
    }
    if let Some(id) = config.target_sub_id {
        lemma_id_fault("target_sub_id"@, id);
    }
    if let Some(id) = config.sender_location_id {
        lemma_id_fault("sender_location_id"@, id);
    }
    if let Some(id) = config.target_location_id {
        lemma_id_fault("target_location_id"@, id);
    }
}

/// A fault names what is wrong: the timeout, interval or size that is given with
/// it is the configured one, and is out of range.
pub proof fn law_fault_names_a_knob_out_of_range(config: ConfigView, e: ConfigErrorView)
    requires
        config.heartbeat_interval <= MAX_NANOS,
        config.fault() == Some(e),
    ensures
        e matches ConfigErrorView::TimeoutOutOfRange { field, timeout, max } ==> {
            &&& timeout == 0 || timeout > 300_000_000_000
            &&& (field == "logon_timeout"@ && timeout == config.logon_timeout) || (field
                == "logout_timeout"@ && timeout == config.logout_timeout)
            &&& max == 300_000_000_000
        },
        e matches ConfigErrorView::MessageSizeLimitOutOfRange { size, min, max } ==> {
            &&& size == config.max_message_size
            &&& size < 512 || size > 67_108_864
            &&& min == 512
            &&& max == 67_108_864
        },
        e matches ConfigErrorView::FractionalHeartbeatInterval { interval } ==> {
            &&& interval == config.heartbeat_interval
            &&& interval % 1_000_000_000 != 0
        },
        e matches ConfigErrorView::HeartbeatIntervalOutOfRange { secs, min, max } ==> {
            &&& secs * 1_000_000_000 == config.heartbeat_interval
            &&& secs > 3600
            &&& min == 1
            &&& max == 3600
        },
        !(e is MissingField) && !(e is HeartbeatDisabledWithoutOptIn),
{
}

/// A builder builds where both identities are set, heartbeats are not silently
/// disabled and the result is valid, and only there; what it builds is what it
/// was told, knob by knob.
pub proof fn law_builder_builds_what_it_was_told(builder: BuilderView)
    ensures
        builder.built() matches Ok(config) ==> {
            &&& builder.sender_comp_id == Some(config.sender_comp_id)
            &&& builder.target_comp_id == Some(config.target_comp_id)
            &&& config.begin_string == builder.begin_string
            &&& match builder.heartbeat {
                Some(interval) => config.heartbeat_interval == interval && interval > 0,
                None => config.heartbeat_interval == 0,
            }
            &&& config.reset_on_logon == builder.reset_on_logon
            &&& config.reset_on_logout == builder.reset_on_logout
            &&& config.reset_on_disconnect == builder.reset_on_disconnect
            &&& config.max_message_size == builder.max_message_size
            &&& config.logon_timeout == builder.logon_timeout
            &&& config.logout_timeout == builder.logout_timeout
            &&& config.validate_checksum == builder.validate_checksum
            &&& config.sender_sub_id == builder.sender_sub_id
            &&& config.target_sub_id == builder.target_sub_id
            &&& config.sender_location_id == builder.sender_location_id
            &&& config.target_location_id == builder.target_location_id
            &&& config.validate_length
            &&& config.sending_time_tolerance == 120_000_000_000
            &&& config.resend_timeout == 10_000_000_000
            &&& config.max_resend_requests == 3
        },
        builder.sender_comp_id is None ==> builder.built() == Err::<ConfigView, _>(
            ConfigErrorView::MissingField { field: "sender_comp_id"@ },
        ),
        builder.sender_comp_id is Some && builder.target_comp_id is None ==> builder.built()
            == Err::<ConfigView, _>(ConfigErrorView::MissingField { field: "target_comp_id"@ }),
        builder.sender_comp_id is Some && builder.target_comp_id is Some && builder.heartbeat
            == Some(0nat) ==> builder.built() == Err::<ConfigView, _>(
            ConfigErrorView::HeartbeatDisabledWithoutOptIn,
        ),
        builder.sender_comp_id is Some && builder.target_comp_id is Some && builder.heartbeat
            != Some(0nat) ==> (builder.built() is Err <==> builder.config(
            builder.sender_comp_id->0,
            builder.target_comp_id->0,
        ).fault() is Some),
{
}

/// A configuration that was told nothing but identities beats every 30 seconds,
/// accepts messages up to a mebibyte, waits ten seconds for a handshake and
/// checks what it receives.
pub proof fn law_defaults_are_these(sender: Seq<char>, target: Seq<char>, begin_string: Seq<char>)
    ensures
        ({
            let config = ConfigView::with_defaults(sender, target, begin_string);
            &&& config.sender_comp_id == sender
            &&& config.target_comp_id == target
            &&& config.begin_string == begin_string
            &&& config.heartbeat_interval == 30_000_000_000
            &&& !config.reset_on_logon && !config.reset_on_logout && !config.reset_on_disconnect
            &&& config.max_message_size == 1_048_576
            &&& config.logon_timeout == 10_000_000_000
            &&& config.logout_timeout == 10_000_000_000
            &&& config.validate_checksum && config.validate_length
            &&& config.sending_time_tolerance == 120_000_000_000
            &&& config.resend_timeout == 10_000_000_000
            &&& config.max_resend_requests == 3
            &&& config.sender_sub_id is None && config.target_sub_id is None
            &&& config.sender_location_id is None && config.target_location_id is None
        }),
{
}

/// The counters start at one, and go from the last number to zero.
pub proof fn law_counters_start_at_one_and_wrap(counters: SequenceView)
    ensures
        SequenceView::fresh().sender == 1,
        SequenceView::fresh().target == 1,
        counters.sender == u64::MAX ==> counters.sender_advanced().sender == 0,
        counters.target == u64::MAX ==> counters.target_advanced().target == 0,
{
}

/// A `TestReqID` carries the time since the Unix epoch, and zero for a time
/// before it.
pub proof fn law_test_req_id_carries_the_time(now: SystemTime)
    ensures
        epoch_nanos(now) matches Some(nanos) ==> test_req_id_of(now) == test_req_id_text(nanos),
        epoch_nanos(now) is None ==> test_req_id_of(now) == test_req_id_text(0),
{
}

/// Of several faults the first is reported, in the order of the knobs: the
/// version, the heartbeat interval, the timeouts, the size limit, and then the
/// sub and location identities.
pub proof fn law_first_fault_is_reported(config: ConfigView)
    requires
        config.heartbeat_interval <= MAX_NANOS,
    ensures
        ({
            let begin_string = has_wire_form(config.begin_string);
            let heartbeat = config.heartbeat_interval % 1_000_000_000 == 0
                && config.heartbeat_interval <= 3_600_000_000_000;
            let logon = 0 < config.logon_timeout <= 300_000_000_000;
            let logout = 0 < config.logout_timeout <= 300_000_000_000;
            let size = 512 <= config.max_message_size <= 67_108_864;
            let sender_sub = config.sender_sub_id matches Some(id) ==> has_wire_form(id);
            let target_sub = config.target_sub_id matches Some(id) ==> has_wire_form(id);
            let sender_location = config.sender_location_id matches Some(id) ==> has_wire_form(id);
            let fault = config.fault();
            &&& !begin_string ==> fault == id_fault("begin_string"@, config.begin_string)
            &&& begin_string && !heartbeat ==> (fault matches Some(e) && (
            e is FractionalHeartbeatInterval || e is HeartbeatIntervalOutOfRange))
            &&& begin_string && heartbeat && !logon ==> fault == Some(
                ConfigErrorView::TimeoutOutOfRange {
                    field: "logon_timeout"@,
                    timeout: config.logon_timeout,
                    max: 300_000_000_000,
                },
            )
            &&& begin_string && heartbeat && logon && !logout ==> fault == Some(
                ConfigErrorView::TimeoutOutOfRange {
                    field: "logout_timeout"@,
                    timeout: config.logout_timeout,
                    max: 300_000_000_000,
                },
            )
            &&& begin_string && heartbeat && logon && logout && !size ==> (fault matches Some(e)
                && e is MessageSizeLimitOutOfRange)
            &&& begin_string && heartbeat && logon && logout && size && !sender_sub ==> fault
                == id_fault("sender_sub_id"@, config.sender_sub_id->0)
            &&& begin_string && heartbeat && logon && logout && size && sender_sub && !target_sub
                ==> fault == id_fault("target_sub_id"@, config.target_sub_id->0)
            &&& begin_string && heartbeat && logon && logout && size && sender_sub && target_sub
                && !sender_location ==> fault == id_fault(
                "sender_location_id"@,
                config.sender_location_id->0,
            )
        }),
{
    lemma_id_fault("begin_string"@, config.begin_string);
    if let Some(id) = config.sender_sub_id {
        lemma_id_fault("sender_sub_id"@, id);
    }
    if let Some(id) = config.target_sub_id {
        lemma_id_fault("target_sub_id"@, id);
    }
    if let Some(id) = config.sender_location_id {
        lemma_id_fault("sender_location_id"@, id);
    }
}

/// A fault of an identity string names the field, and what is wrong with the
/// string: that it is empty, how long it is, or its first byte that is not
/// printable ASCII or is `=`.
pub proof fn law_identity_fault_names_the_field(field: Seq<char>, value: Seq<char>)
    requires
        encode_utf8(value).len() <= usize::MAX,
    ensures
        ({
            let bytes = encode_utf8(value);
            let fault = id_fault(field, value);
            &&& bytes.len() == 0 ==> fault == Some(ConfigErrorView::EmptyField { field })
            &&& bytes.len() > 64 ==> fault == Some(
                ConfigErrorView::FieldTooLong { field, len: bytes.len() as usize, max: 64 },
            )
            &&& 1 <= bytes.len() <= 64 && !has_wire_form(value) ==> (fault matches Some(
                ConfigErrorView::IllegalByte { field: named, byte, position },
            ) && named == field && position < bytes.len() && bytes[position as int] == byte && (byte
                < 0x20 || byte > 0x7e || byte == 0x3d))
        }),
{
    lemma_id_fault(field, value);
    law_id_is_printable(encode_utf8(value));
}

} // verus!

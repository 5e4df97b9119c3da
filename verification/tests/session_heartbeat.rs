//! Heartbeats and TestRequests.

use ironfix::session::heartbeat::{
    generate_test_req_id, negotiate_interval, test_req_id_after, test_req_id_at,
    HeartbeatIntervalError, HeartbeatManager, TestRequestOutcome, MAX_HEARTBEAT_INTERVAL_SECS,
    MIN_TEST_REQUEST_GRACE_MILLIS,
};
use ironfix::types::Duration;
use std::time::{Instant, SystemTime};

fn millis(count: u64) -> std::time::Duration {
    std::time::Duration::from_millis(count)
}

#[test]
fn test_heartbeat_manager_new() {
    let mgr = HeartbeatManager::new(Duration::from_secs(30));
    assert_eq!(mgr.interval(), Duration::from_secs(30));
    assert!(mgr.pending_test_request().is_none());
    assert!(mgr.is_enabled());
}

#[test]
fn test_should_send_heartbeat() {
    let start = Instant::now();
    let mgr = HeartbeatManager::new_at(Duration::from_millis(10), start);
    assert!(!mgr.heartbeat_due_at(start));

    assert!(mgr.heartbeat_due_at(start + millis(15)));
}

#[test]
fn test_on_message_sent() {
    let start = Instant::now();
    let mut mgr = HeartbeatManager::new_at(Duration::from_millis(10), start);
    assert!(mgr.heartbeat_due_at(start + millis(15)));

    mgr.on_message_sent_at(start + millis(15));
    assert!(!mgr.heartbeat_due_at(start + millis(15)));
}

#[test]
fn test_test_request_pending() {
    let mut mgr = HeartbeatManager::new(Duration::from_secs(30));

    mgr.on_test_request_sent("TEST123".to_string());
    assert_eq!(mgr.pending_test_request(), Some("TEST123"));

    let outcome = mgr.on_message_received(true, Some("TEST123"));
    assert_eq!(outcome, TestRequestOutcome::Confirmed);
    assert!(mgr.pending_test_request().is_none());
}

#[test]
fn test_generate_test_req_id() {
    let id1 = generate_test_req_id();
    let id2 = generate_test_req_id();

    assert!(id1.starts_with("TEST"));
    assert!(id2.starts_with("TEST"));
    // IDs may be equal if generated within the same nanosecond on fast systems
    // The important thing is that they have the correct format
    assert!(id1.len() > 4);
    assert!(id2.len() > 4);
}

// --- HeartBtInt = 0: heartbeating disabled -------------------------------

#[test]
fn test_zero_interval_reports_disabled() {
    let mgr = HeartbeatManager::new(Duration::zero());
    assert!(!mgr.is_enabled());
    assert_eq!(mgr.test_request_grace(), Duration::zero());
}

#[test]
fn test_zero_interval_never_sends_heartbeat_or_test_request() {
    let mgr = HeartbeatManager::new(Duration::zero());
    assert!(!mgr.should_send_heartbeat());
    assert!(!mgr.should_send_test_request());

    let later = Instant::now() + millis(20);
    assert!(!mgr.heartbeat_due_at(later));
    assert!(!mgr.test_request_due_at(later));
}

#[test]
fn test_zero_interval_never_times_out() {
    let mut mgr = HeartbeatManager::new(Duration::zero());
    assert!(!mgr.is_timed_out());

    // Even with a TestRequest artificially outstanding, a disabled
    // interval has no timeout to expire.
    mgr.on_test_request_sent("TEST-ZERO".to_string());
    assert!(!mgr.is_timed_out());
    assert!(!mgr.timed_out_at(Instant::now() + millis(20)));
}

// --- Grace period --------------------------------------------------------

#[test]
fn test_test_request_grace_is_one_fifth_of_a_long_interval() {
    let mgr = HeartbeatManager::new(Duration::from_secs(30));
    assert_eq!(mgr.test_request_grace(), Duration::from_secs(6));
}

#[test]
fn test_test_request_grace_uses_floor_for_short_intervals() {
    let mgr = HeartbeatManager::new(Duration::from_millis(100));
    assert_eq!(mgr.test_request_grace(), Duration::from_millis(MIN_TEST_REQUEST_GRACE_MILLIS));
}

#[test]
fn test_should_send_test_request_waits_for_interval_plus_grace() {
    // 2s interval -> 400ms grace, so the probe is due at 2.4s.
    let interval = Duration::from_millis(2000);
    let start = Instant::now();
    let mgr = HeartbeatManager::new_at(interval, start);
    assert_eq!(mgr.test_request_grace(), Duration::from_millis(400));

    // Before interval + grace: not due.
    assert!(!mgr.should_send_test_request());
    assert!(!mgr.test_request_due_at(start + millis(50)));
    assert!(!mgr.test_request_due_at(start + millis(2399)));
    assert!(mgr.test_request_due_at(start + millis(2400)));
}

#[test]
fn test_should_send_test_request_boundary() {
    // 1s interval -> grace floored at 250ms, so the probe is due at 1250ms
    // of inbound silence.
    let start = Instant::now();
    let mgr = HeartbeatManager::new_at(Duration::from_secs(1), start);
    assert_eq!(mgr.test_request_grace(), Duration::from_millis(250));

    assert!(
        !mgr.test_request_due_at(start + millis(700)),
        "neither interval nor grace has elapsed"
    );
    assert!(
        mgr.test_request_due_at(start + millis(1400)),
        "interval plus grace has elapsed"
    );
}

#[test]
fn test_should_send_test_request_suppressed_while_pending() {
    let start = Instant::now();
    let mut mgr = HeartbeatManager::new_at(Duration::from_millis(50), start);
    assert!(mgr.test_request_due_at(start + millis(320)));

    mgr.on_test_request_sent("TEST-PENDING".to_string());
    assert!(!mgr.should_send_test_request());
    assert!(!mgr.test_request_due_at(start + millis(320)));
}

#[test]
fn test_should_send_test_request_unreachable_interval_is_never_due() {
    let mgr = HeartbeatManager::new(Duration::max_value());
    assert!(!mgr.should_send_test_request());
}

// --- Timeout branches ----------------------------------------------------

#[test]
fn test_is_timed_out_false_without_pending_test_request() {
    let start = Instant::now();
    let mgr = HeartbeatManager::new_at(Duration::from_millis(10), start);
    assert!(!mgr.is_timed_out());
    assert!(!mgr.timed_out_at(start + millis(50)));
}

#[test]
fn test_is_timed_out_false_before_the_interval_elapses() {
    let start = Instant::now();
    let mut mgr = HeartbeatManager::new_at(Duration::from_millis(200), start);
    mgr.on_test_request_sent_at("TEST-EARLY".to_string(), start);
    assert!(!mgr.timed_out_at(start + millis(20)));
}

#[test]
fn test_is_timed_out_true_after_silence_since_the_test_request() {
    let start = Instant::now();
    let mut mgr = HeartbeatManager::new_at(Duration::from_millis(50), start);
    mgr.on_test_request_sent_at("TEST-SILENT".to_string(), start);
    assert!(mgr.timed_out_at(start + millis(80)));
}

// --- Clearing a pending TestRequest -------------------------------------

#[test]
fn test_application_traffic_clears_pending_test_request() {
    let mut mgr = HeartbeatManager::new(Duration::from_millis(50));
    mgr.on_test_request_sent("TEST-TRAFFIC".to_string());

    // An ExecutionReport, not a Heartbeat, and carrying no TestReqID.
    let outcome = mgr.on_message_received(false, None);
    assert_eq!(outcome, TestRequestOutcome::SupersededByTraffic);
    assert!(mgr.pending_test_request().is_none());

    assert!(!mgr.is_timed_out());
    assert!(
        !mgr.timed_out_at(Instant::now() + millis(80)),
        "traffic after the TestRequest proves the peer is alive"
    );
}

#[test]
fn test_heartbeat_without_test_req_id_clears_pending_test_request() {
    let mut mgr = HeartbeatManager::new(Duration::from_millis(50));
    mgr.on_test_request_sent("TEST-NO-112".to_string());

    let outcome = mgr.on_message_received(true, None);
    assert_eq!(outcome, TestRequestOutcome::SupersededByTraffic);
    assert!(mgr.pending_test_request().is_none());
    assert!(!mgr.is_timed_out());
}

#[test]
fn test_heartbeat_with_wrong_test_req_id_clears_pending_test_request() {
    let mut mgr = HeartbeatManager::new(Duration::from_millis(50));
    mgr.on_test_request_sent("TEST-WANTED".to_string());

    let outcome = mgr.on_message_received(true, Some("TEST-OTHER"));
    assert_eq!(outcome, TestRequestOutcome::SupersededByTraffic);
    assert!(mgr.pending_test_request().is_none());
    assert!(!mgr.is_timed_out());
}

#[test]
fn test_non_heartbeat_with_matching_id_is_not_confirmation() {
    let mut mgr = HeartbeatManager::new(Duration::from_millis(50));
    mgr.on_test_request_sent("TEST-ECHO".to_string());

    // A TestRequest of the counterparty's own carrying the same ID is not
    // the Heartbeat we asked for, though it still proves liveness.
    let outcome = mgr.on_message_received(false, Some("TEST-ECHO"));
    assert_eq!(outcome, TestRequestOutcome::SupersededByTraffic);
    assert!(mgr.pending_test_request().is_none());
}

#[test]
fn test_on_message_received_without_pending_reports_none_pending() {
    let mut mgr = HeartbeatManager::new(Duration::from_secs(30));
    let outcome = mgr.on_message_received(true, Some("TEST-UNSOLICITED"));
    assert_eq!(outcome, TestRequestOutcome::NonePending);
}

#[test]
fn test_reset_clears_pending_test_request_and_timers() {
    let start = Instant::now();
    let mut mgr = HeartbeatManager::new_at(Duration::from_millis(50), start);
    mgr.on_test_request_sent_at("TEST-RESET".to_string(), start);
    assert!(mgr.timed_out_at(start + millis(80)));

    mgr.reset();
    assert!(mgr.pending_test_request().is_none());
    assert!(!mgr.is_timed_out());
    assert!(!mgr.timed_out_at(start + millis(80)));
    assert!(!mgr.should_send_test_request());
    assert_eq!(mgr.interval(), Duration::from_millis(50));
    assert_eq!(
        mgr.test_request_grace(),
        Duration::from_millis(MIN_TEST_REQUEST_GRACE_MILLIS)
    );
}

// --- Interval negotiation ------------------------------------------------

#[test]
fn test_negotiate_interval_accepts_the_echoed_value() {
    let requested = Duration::from_secs(30);
    assert_eq!(negotiate_interval(requested, 30), Ok(requested));
}

#[test]
fn test_negotiate_interval_accepts_zero() {
    assert_eq!(
        negotiate_interval(Duration::from_secs(30), 0),
        Ok(Duration::zero())
    );
}

#[test]
fn test_negotiate_interval_accepts_a_differing_value_within_bounds() {
    assert_eq!(
        negotiate_interval(Duration::from_secs(30), 60),
        Ok(Duration::from_secs(60))
    );
}

#[test]
fn test_negotiate_interval_accepts_the_maximum() {
    assert_eq!(
        negotiate_interval(Duration::from_secs(30), MAX_HEARTBEAT_INTERVAL_SECS),
        Ok(Duration::from_secs(MAX_HEARTBEAT_INTERVAL_SECS))
    );
}

#[test]
fn test_negotiate_interval_refuses_above_the_maximum() {
    let err = negotiate_interval(Duration::from_secs(30), MAX_HEARTBEAT_INTERVAL_SECS + 1);
    assert_eq!(
        err,
        Err(HeartbeatIntervalError {
            secs: MAX_HEARTBEAT_INTERVAL_SECS + 1,
            max: MAX_HEARTBEAT_INTERVAL_SECS,
        })
    );
}

#[test]
fn test_negotiate_interval_refuses_an_absurd_value() {
    assert!(negotiate_interval(Duration::from_secs(30), u64::MAX).is_err());
}

#[test]
fn test_negotiate_interval_accepts_an_out_of_bounds_echo_of_our_own_request() {
    // A deliberately configured long interval echoed back is our own
    // choice, not the counterparty pushing us past the ceiling.
    let requested = Duration::from_secs(MAX_HEARTBEAT_INTERVAL_SECS + 100);
    assert_eq!(
        negotiate_interval(requested, MAX_HEARTBEAT_INTERVAL_SECS + 100),
        Ok(requested)
    );
}

// --- Time that passes --------------------------------------------------------

#[test]
fn a_past_instant_reads_as_silence() {
    let Some(past) = Instant::now().checked_sub(std::time::Duration::from_secs(90)) else {
        return;
    };
    let mut mgr = HeartbeatManager::new_at(Duration::from_secs(30), past);
    assert!(mgr.time_since_last_sent().as_secs() >= 90);
    assert!(mgr.time_since_last_received().as_secs() >= 90);
    assert!(mgr.should_send_heartbeat());
    assert!(mgr.should_send_test_request());
    assert!(!mgr.is_timed_out());

    mgr.on_test_request_sent_at("TEST-OLD".to_string(), past);
    assert!(!mgr.should_send_test_request());
    assert!(mgr.is_timed_out());

    mgr.on_message_sent();
    assert!(!mgr.should_send_heartbeat());
    assert!(mgr.is_timed_out());

    assert_eq!(
        mgr.on_message_received(true, Some("TEST-OLD")),
        TestRequestOutcome::Confirmed
    );
    assert!(!mgr.is_timed_out());
    assert!(!mgr.should_send_test_request());
}

#[test]
fn a_heartbeat_is_due_at_the_interval_exactly() {
    let mgr = HeartbeatManager::new(Duration::from_secs(30));
    assert!(!mgr.heartbeat_due_after(Duration::from_parts(29, 999_999_999)));
    assert!(mgr.heartbeat_due_after(Duration::from_secs(30)));
}

#[test]
fn resetting_at_an_instant_keeps_the_interval() {
    let Some(past) = Instant::now().checked_sub(std::time::Duration::from_secs(40)) else {
        return;
    };
    let mut mgr = HeartbeatManager::new(Duration::from_secs(30));
    mgr.on_test_request_sent("TEST".to_string());
    mgr.reset_at(past);
    assert_eq!(mgr.interval(), Duration::from_secs(30));
    assert!(mgr.pending_test_request().is_none());
    assert!(mgr.should_send_heartbeat());
}

#[test]
fn each_deadline_counts_from_its_own_event() {
    let start = Instant::now();
    let mut mgr = HeartbeatManager::new_at(Duration::from_millis(1000), start);
    mgr.on_message_sent_at(start + millis(400));
    mgr.on_message_received_at(false, None, start + millis(700));
    let now = start + millis(1500);
    assert_eq!(mgr.time_since_last_sent_at(now), Duration::from_millis(1100));
    assert_eq!(mgr.time_since_last_received_at(now), Duration::from_millis(800));

    // Sent at 400 ms: a Heartbeat is due at 1400 ms.
    assert!(!mgr.heartbeat_due_at(start + millis(1399)));
    assert!(mgr.heartbeat_due_at(start + millis(1400)));
    // Received at 700 ms, grace 250 ms: a TestRequest is due at 1950 ms.
    assert!(!mgr.test_request_due_at(start + millis(1949)));
    assert!(mgr.test_request_due_at(start + millis(1950)));

    // Probed at 2000 ms, and something else sent at 2500 ms: the timeout still
    // counts from the probe.
    mgr.on_test_request_sent_at("TEST".to_string(), start + millis(2000));
    mgr.on_message_sent_at(start + millis(2500));
    assert!(!mgr.test_request_due_at(start + millis(9000)));
    assert!(!mgr.timed_out_at(start + millis(2999)));
    assert!(mgr.timed_out_at(start + millis(3000)));
    assert!(!mgr.heartbeat_due_at(start + millis(3499)));
    assert!(mgr.heartbeat_due_at(start + millis(3500)));
}

#[test]
fn a_reading_from_before_counts_as_no_silence() {
    let start = Instant::now();
    let mgr = HeartbeatManager::new_at(Duration::from_millis(1), start + millis(500));
    assert_eq!(mgr.time_since_last_sent_at(start), Duration::zero());
    assert!(!mgr.heartbeat_due_at(start));
}

#[test]
fn test_req_ids_carry_the_time_in_nanoseconds() {
    assert_eq!(test_req_id_after(Duration::zero()), "TEST0");
    assert_eq!(
        test_req_id_after(Duration::from_parts(1_700_000_000, 5)),
        "TEST1700000000000000005"
    );
    let epoch = SystemTime::UNIX_EPOCH;
    assert_eq!(test_req_id_at(epoch), "TEST0");
    assert_eq!(
        test_req_id_at(epoch + std::time::Duration::new(12, 345)),
        "TEST12000000345"
    );
    assert_eq!(test_req_id_at(epoch - millis(5)), "TEST0");
}

#[test]
fn a_refused_interval_is_described() {
    let error = HeartbeatIntervalError {
        secs: 3601,
        max: MAX_HEARTBEAT_INTERVAL_SECS,
    };
    assert_eq!(
        error.to_string(),
        "counterparty HeartBtInt (108) of 3601s exceeds the maximum supported 3600s"
    );
}

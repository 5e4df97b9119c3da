//! Session states.

use ironfix::session::{Active, Connecting, Disconnected, Session};
use std::mem::size_of;
use std::time::Instant;

#[test]
fn test_session_state_transitions() {
    let session = Session::<Disconnected>::new("TEST");
    assert_eq!(session.session_id(), "TEST");

    let session = session.connect();
    let session = session.send_logon();
    let session = session.on_logon_ack();

    // Now in Active state
    let session = session.initiate_logout();
    let _session = session.on_logout_ack();
}

#[test]
fn test_acceptor_flow() {
    let session = Session::<Disconnected>::new("ACCEPTOR");
    let session = session.accept();
    let session = session.on_logon_received();
    let session = session.accept_logon();

    // Now in Active state
    let session = session.initiate_logout();
    let _session = session.on_logout_ack();
}

#[test]
fn test_acceptor_reject_flow() {
    let session = Session::<Disconnected>::new("ACCEPTOR");
    let session = session.accept();
    let session = session.on_logon_received();
    let _session = session.reject_logon();
}

#[test]
fn test_acceptor_timeout_flow() {
    let session = Session::<Disconnected>::new("ACCEPTOR");
    let session = session.accept();
    let session = session.on_logon_received();
    let _session = session.on_timeout();
}

#[test]
fn test_resend_flow() {
    let session = Session::<Disconnected>::new("TEST");
    let session = session.connect();
    let session = session.send_logon();
    let session = session.on_logon_ack();

    let session = session.start_resend(1, 5);
    let _session = session.resend_complete();
}

// --- States carry their data --------------------------------------------

#[test]
fn test_send_logon_records_the_send_instant() {
    let before = Instant::now();
    let session = Session::<Disconnected>::new("TEST").connect().send_logon();
    let after = Instant::now();

    assert!(session.sent_at() >= before);
    assert!(session.sent_at() <= after);
    assert_eq!(session.state().sent_at, session.sent_at());
}

#[test]
fn test_on_logon_received_records_the_arrival_instant() {
    let before = Instant::now();
    let session = Session::<Disconnected>::new("ACCEPTOR")
        .accept()
        .on_logon_received();
    let after = Instant::now();

    assert!(session.received_at() >= before);
    assert!(session.received_at() <= after);
}

#[test]
fn test_initiate_logout_records_the_send_instant() {
    let before = Instant::now();
    let session = Session::<Disconnected>::new("TEST")
        .connect()
        .send_logon()
        .on_logon_ack()
        .initiate_logout();
    let after = Instant::now();

    assert!(session.sent_at() >= before);
    assert!(session.sent_at() <= after);
}

#[test]
fn test_start_resend_keeps_the_requested_range() {
    let session = Session::<Disconnected>::new("TEST")
        .connect()
        .send_logon()
        .on_logon_ack()
        .start_resend(7, 16);

    assert_eq!(session.begin_seq(), 7);
    assert_eq!(session.end_seq(), 16);
    assert_eq!(session.state().begin_seq, 7);
}

#[test]
fn test_start_resend_keeps_the_open_ended_range() {
    // EndSeqNo (16) = 0 is the FIX "through the last message" convention
    // and must survive the transition unchanged.
    let session = Session::<Disconnected>::new("TEST")
        .connect()
        .send_logon()
        .on_logon_ack()
        .start_resend(42, 0);

    assert_eq!(session.begin_seq(), 42);
    assert_eq!(session.end_seq(), 0);
}

#[test]
fn test_session_id_survives_every_transition() {
    let session = Session::<Disconnected>::new("PERSISTENT")
        .connect()
        .send_logon()
        .on_logon_ack();
    assert_eq!(session.session_id(), "PERSISTENT");

    let session = session.start_resend(1, 2).resend_complete();
    assert_eq!(session.session_id(), "PERSISTENT");

    let session = session.initiate_logout();
    assert_eq!(session.session_id(), "PERSISTENT");

    let session = session.on_logout_ack();
    assert_eq!(session.session_id(), "PERSISTENT");
}

#[test]
fn test_stateless_states_stay_zero_sized() {

    assert_eq!(size_of::<Disconnected>(), 0);
    assert_eq!(size_of::<Connecting>(), 0);
    assert_eq!(size_of::<Active>(), 0);
    assert_eq!(size_of::<Session<Active>>(), size_of::<String>());
}

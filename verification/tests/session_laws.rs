//! What the session layer promises as a whole.

use ironfix::session::config::SessionConfigBuilder;
use ironfix::session::sequence::{SequenceCounter, SequenceResult};
use ironfix::session::{Disconnected, SequenceManager, Session, SessionConfig};
use ironfix::types::{CompId, CompIdError, Duration};
use std::time::Instant;

fn id(text: &str) -> CompId {
    match CompId::new(text) {
        Ok(id) => id,
        Err(error) => panic!("{text} must be a CompID: {error:?}"),
    }
}

#[test]
fn what_is_built_is_valid() {
    let built = SessionConfigBuilder::new()
        .sender_comp_id(id("A"))
        .target_comp_id(id("B"))
        .heartbeat_interval(Duration::from_secs(3600))
        .logon_timeout(Duration::from_secs(300))
        .max_message_size(512)
        .sender_location_id("LON 1")
        .build();
    let Ok(config) = built else {
        panic!("the configuration must build");
    };
    assert_eq!(config.validate(), Ok(()));
    assert_eq!(
        Duration::from_secs(config.heartbeat_interval_secs()),
        config.heartbeat_interval
    );
    assert!(config.validate_length);
    let copy = config.clone();
    assert_eq!(copy.validate(), Ok(()));
    assert_eq!(copy.sender_location_id, config.sender_location_id);
}

#[test]
fn a_builder_can_be_used_twice_through_a_copy() {
    let builder = SessionConfigBuilder::default().sender_comp_id(id("A"));
    let first = builder.clone().target_comp_id(id("B")).build();
    let second = builder.target_comp_id(id("C")).build();
    let (Ok(first), Ok(second)) = (first, second) else {
        panic!("both must build");
    };
    assert_eq!(first.target_comp_id.as_str(), "B");
    assert_eq!(second.target_comp_id.as_str(), "C");
}

#[test]
fn setters_change_one_knob_each() {
    let config = SessionConfig::new(id("A"), id("B"), "FIX.4.2")
        .with_reset_on_logon(true)
        .with_max_message_size(600)
        .with_logon_timeout(Duration::from_millis(1))
        .with_sender_sub_id("S")
        .with_target_sub_id("T");
    assert!(config.reset_on_logon);
    assert!(!config.reset_on_logout);
    assert_eq!(config.max_message_size, 600);
    assert_eq!(config.logon_timeout, Duration::from_millis(1));
    assert_eq!(config.logout_timeout, Duration::from_secs(10));
    assert_eq!(config.sender_sub_id.as_deref(), Some("S"));
    assert_eq!(config.target_sub_id.as_deref(), Some("T"));
    assert_eq!(config.validate(), Ok(()));
}

#[test]
fn comp_ids_have_a_wire_form() {
    assert_eq!(CompId::new(""), Err(CompIdError::Empty));
    assert_eq!(
        CompId::new(&"X".repeat(65)),
        Err(CompIdError::TooLong {
            len: 65,
            max_len: 64
        })
    );
    assert_eq!(
        CompId::new("A=B"),
        Err(CompIdError::IllegalByte {
            byte: b'=',
            position: 1
        })
    );
    assert_eq!(
        CompId::new("AB\u{e9}"),
        Err(CompIdError::IllegalByte {
            byte: 0xc3,
            position: 2
        })
    );
    assert_eq!(id(&"X".repeat(64)).as_str().len(), 64);
    assert_eq!(id("DESK 1").as_str(), "DESK 1");
    assert_eq!(id("A").clone(), id("A"));
}

#[test]
fn an_accepted_number_is_not_accepted_again() {
    let mut manager = SequenceManager::with_initial(1, 7);
    assert_eq!(manager.validate_incoming(7), SequenceResult::InSequence);
    assert!(manager.try_increment_target_seq().is_ok());
    assert_eq!(
        manager.validate_incoming(7),
        SequenceResult::TooLow {
            expected: 8,
            received: 7
        }
    );
    assert_eq!(manager.validate_incoming(8), SequenceResult::InSequence);
    assert_eq!(
        manager.validate_incoming(10),
        SequenceResult::Gap {
            expected: 8,
            received: 10
        }
    );
    assert_eq!(manager.next_sender_seq().value(), 1);
}

#[test]
fn the_wrapping_operations_wrap() {
    let mut manager = SequenceManager::with_initial(u64::MAX, u64::MAX);
    assert_eq!(manager.allocate_sender_seq().value(), u64::MAX);
    assert_eq!(manager.next_sender_seq().value(), 0);
    manager.increment_target_seq();
    assert_eq!(manager.next_target_seq().value(), 0);
    manager.set_sender_seq(5);
    manager.set_target_seq(6);
    assert_eq!(manager.next_sender_seq().value(), 5);
    assert_eq!(manager.next_target_seq().value(), 6);
    let fresh = SequenceManager::default();
    assert_eq!(fresh.next_sender_seq().value(), 1);
}

#[test]
fn exhaustion_is_described() {
    let mut manager = SequenceManager::with_initial(u64::MAX, u64::MAX);
    let Err(error) = manager.try_allocate_sender_seq() else {
        panic!("the counter is exhausted");
    };
    assert_eq!(
        error.to_string(),
        "sequence counter exhausted: sender reached u64::MAX, session requires a sequence reset"
    );
    assert_eq!(SequenceCounter::Target.to_string(), "target");
}

#[test]
fn states_keep_the_instant_they_are_given() {
    let now = Instant::now();
    let session = Session::<Disconnected>::new("S").connect().send_logon_at(now);
    assert_eq!(session.sent_at(), now);
    let session = session.on_logon_ack().initiate_logout_at(now);
    assert_eq!(session.state().sent_at, now);
    let session = session.on_timeout().accept().on_logon_received_at(now);
    assert_eq!(session.received_at(), now);
    assert_eq!(session.reject_logon().session_id(), "S");
}

#[test]
fn every_way_down_ends_disconnected() {
    let connecting = || Session::<Disconnected>::new("S").connect();
    let active = || connecting().send_logon().on_logon_ack();
    let ends: Vec<Session<Disconnected>> = vec![
        connecting().disconnect(),
        connecting().send_logon().on_logon_reject(),
        active().disconnect(),
        active().start_resend(1, 0).disconnect(),
        active().initiate_logout().on_timeout(),
    ];
    for end in ends {
        assert_eq!(end.session_id(), "S");
    }
}

#[test]
fn spans_are_exact() {
    let span = Duration::from_parts(2, 500_000_000);
    assert_eq!(span, Duration::from_millis(2500));
    assert_eq!(span.as_secs(), 2);
    assert_eq!(span.subsec_nanos(), 500_000_000);
    assert_eq!(span.as_nanos(), 2_500_000_000);
    assert_eq!(span.divided_by(7).as_nanos(), 357_142_857);
    assert!(span.at_least(Duration::from_secs(2)));
    assert!(!span.at_least(Duration::from_secs(3)));
    assert!(Duration::default().is_zero());
    assert_eq!(
        Duration::max_value(),
        Duration::from_parts(u64::MAX, 999_999_999)
    );
    assert_eq!(
        Duration::max_value().checked_add(Duration::from_parts(0, 1)),
        None
    );
    assert_eq!(
        span.checked_add(Duration::from_millis(500)),
        Some(Duration::from_secs(3))
    );
}

//! Sequence numbers.

use ironfix::session::sequence::{SequenceCounter, SequenceExhausted, SequenceManager};
use ironfix::types::SeqNum;

#[test]
fn test_sequence_manager_new() {
    let mgr = SequenceManager::new();
    assert_eq!(mgr.next_sender_seq().value(), 1);
    assert_eq!(mgr.next_target_seq().value(), 1);
}

#[test]
fn test_allocate_sender_seq() {
    let mut mgr = SequenceManager::new();

    let seq1 = mgr.allocate_sender_seq();
    assert_eq!(seq1.value(), 1);
    assert_eq!(mgr.next_sender_seq().value(), 2);

    let seq2 = mgr.allocate_sender_seq();
    assert_eq!(seq2.value(), 2);
    assert_eq!(mgr.next_sender_seq().value(), 3);
}

#[test]
fn test_increment_target_seq() {
    let mut mgr = SequenceManager::new();

    mgr.increment_target_seq();
    assert_eq!(mgr.next_target_seq().value(), 2);

    mgr.increment_target_seq();
    assert_eq!(mgr.next_target_seq().value(), 3);
}

#[test]
fn test_validate_incoming() {
    let mut mgr = SequenceManager::new();

    assert!(mgr.validate_incoming(1).is_ok());

    mgr.set_target_seq(5);
    assert!(mgr.validate_incoming(4).is_too_low());
    assert!(mgr.validate_incoming(5).is_ok());
    assert!(mgr.validate_incoming(10).is_gap());
}

#[test]
fn test_try_allocate_sender_seq() {
    let mut mgr = SequenceManager::new();

    assert_eq!(mgr.try_allocate_sender_seq().map(SeqNum::value), Ok(1));
    assert_eq!(mgr.try_allocate_sender_seq().map(SeqNum::value), Ok(2));
    assert_eq!(mgr.next_sender_seq().value(), 3);
}

#[test]
fn test_try_allocate_sender_seq_exhausted() {
    let mut mgr = SequenceManager::with_initial(u64::MAX, 1);

    assert_eq!(
        mgr.try_allocate_sender_seq(),
        Err(SequenceExhausted {
            counter: SequenceCounter::Sender
        })
    );
    // Counter untouched: still exhausted, no wraparound.
    assert_eq!(mgr.next_sender_seq().value(), u64::MAX);
    assert!(mgr.try_allocate_sender_seq().is_err());

    // Reset restores a usable session.
    mgr.reset();
    assert_eq!(mgr.try_allocate_sender_seq().map(SeqNum::value), Ok(1));
}

#[test]
fn test_try_increment_target_seq() {
    let mut mgr = SequenceManager::new();

    assert_eq!(mgr.try_increment_target_seq().map(SeqNum::value), Ok(2));
    assert_eq!(mgr.try_increment_target_seq().map(SeqNum::value), Ok(3));
    assert_eq!(mgr.next_target_seq().value(), 3);
}

#[test]
fn test_try_increment_target_seq_exhausted() {
    let mut mgr = SequenceManager::with_initial(1, u64::MAX);

    assert_eq!(
        mgr.try_increment_target_seq(),
        Err(SequenceExhausted {
            counter: SequenceCounter::Target
        })
    );
    assert_eq!(mgr.next_target_seq().value(), u64::MAX);
    assert!(mgr.try_increment_target_seq().is_err());
}

#[test]
fn test_reset() {
    let mut mgr = SequenceManager::with_initial(100, 200);
    assert_eq!(mgr.next_sender_seq().value(), 100);
    assert_eq!(mgr.next_target_seq().value(), 200);

    mgr.reset();
    assert_eq!(mgr.next_sender_seq().value(), 1);
    assert_eq!(mgr.next_target_seq().value(), 1);
}

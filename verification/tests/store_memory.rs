//! The in-memory store.

use ironfix::store::{MemoryStore, MessageStore, StoredMessage};
use ironfix::types::{MsgType, StoreError};

/// Fails the test with context instead of `.unwrap()` / `.expect()`.
fn ok<T, E: std::fmt::Debug>(result: Result<T, E>, what: &str) -> T {
    match result {
        Ok(value) => value,
        Err(err) => panic!("{what}: {err:?}"),
    }
}

/// Files a message, failing the test if the store rejects it.
fn put(store: &mut MemoryStore, seq: u64, msg_type: MsgType, payload: &[u8]) {
    ok(
        store.store(seq, &msg_type, payload),
        "store must accept the message",
    );
}

#[test]
fn test_memory_store_new_starts_at_sequence_one() {
    let store = MemoryStore::new();
    assert_eq!(store.next_sender_seq(), 1);
    assert_eq!(store.next_target_seq(), 1);
    assert_eq!(store.message_count(), 0);
}

#[test]
fn test_memory_store_store_and_retrieve_tracks_every_sequence() {
    let mut store = MemoryStore::new();

    put(&mut store, 1, MsgType::Logon, b"message1");
    put(&mut store, 2, MsgType::NewOrderSingle, b"message2");
    put(&mut store, 3, MsgType::Heartbeat, b"message3");

    assert_eq!(store.message_count(), 3);
    assert!(store.contains(1));
    assert!(store.contains(2));
    assert!(store.contains(3));
    assert!(!store.contains(4));
}

#[test]
fn test_memory_store_get_range_returns_only_stored_sequences() {
    let mut store = MemoryStore::new();

    put(&mut store, 1, MsgType::Logon, b"msg1");
    put(&mut store, 2, MsgType::NewOrderSingle, b"msg2");
    put(&mut store, 3, MsgType::NewOrderSingle, b"msg3");
    put(&mut store, 5, MsgType::NewOrderSingle, b"msg5");

    let range = ok(store.get_range(1, 3), "range 1..=3 must resolve");
    assert_eq!(
        range.iter().map(StoredMessage::seq_num).collect::<Vec<_>>(),
        vec![1, 2, 3]
    );

    // 4 was never stored: the hole is simply absent, and the caller can
    // see that from the sequence numbers it got back.
    let range = ok(store.get_range(2, 5), "range 2..=5 must resolve");
    assert_eq!(
        range.iter().map(StoredMessage::seq_num).collect::<Vec<_>>(),
        vec![2, 3, 5]
    );
}

#[test]
fn test_memory_store_get_range_preserves_msg_type_and_payload() {
    let mut store = MemoryStore::new();
    put(&mut store, 4, MsgType::NewOrderSingle, b"8=FIX.4.4\x0135=D\x01");

    let range = ok(store.get_range(4, 4), "range 4..=4 must resolve");
    let [message] = range.as_slice() else {
        panic!("exactly one message must come back, got {}", range.len());
    };

    assert_eq!(message.seq_num(), 4);
    assert_eq!(message.msg_type(), &MsgType::NewOrderSingle);
    assert_eq!(&message.payload()[..], b"8=FIX.4.4\x0135=D\x01");
}

#[test]
fn test_memory_store_get_range_inverted_is_invalid_range_not_a_panic() {
    let mut store = MemoryStore::new();
    put(&mut store, 1, MsgType::Logon, b"msg1");

    assert_eq!(
        store.get_range(5, 3),
        Err(StoreError::InvalidRange { begin: 5, end: 3 })
    );
}

#[test]
fn test_memory_store_get_range_zero_begin_is_invalid_range() {
    let mut store = MemoryStore::new();
    put(&mut store, 1, MsgType::Logon, b"msg1");

    // MsgSeqNum starts at 1, so 0 names no message.
    assert_eq!(
        store.get_range(0, 5),
        Err(StoreError::InvalidRange { begin: 0, end: 5 })
    );
}

#[test]
fn test_memory_store_get_range_to_infinity_on_empty_store_is_range_not_available() {
    let store = MemoryStore::new();

    // `end` = 0 normalises to `u64::MAX`.
    assert_eq!(
        store.get_range(5, 0),
        Err(StoreError::RangeNotAvailable {
            begin: 5,
            end: u64::MAX,
        })
    );
}

#[test]
fn test_memory_store_get_range_to_infinity_returns_everything_from_begin() {
    let mut store = MemoryStore::new();
    put(&mut store, 1, MsgType::Logon, b"msg1");
    put(&mut store, 2, MsgType::NewOrderSingle, b"msg2");
    put(&mut store, u64::MAX, MsgType::NewOrderSingle, b"last");

    let range = ok(store.get_range(2, 0), "range 2..=inf must resolve");
    assert_eq!(
        range.iter().map(StoredMessage::seq_num).collect::<Vec<_>>(),
        vec![2, u64::MAX]
    );
}

#[test]
fn test_memory_store_get_range_with_no_match_is_range_not_available() {
    let mut store = MemoryStore::new();
    put(&mut store, 1, MsgType::Logon, b"msg1");

    assert_eq!(
        store.get_range(10, 20),
        Err(StoreError::RangeNotAvailable { begin: 10, end: 20 })
    );
}

#[test]
fn test_memory_store_get_page_caps_at_limit() {
    let mut store = MemoryStore::new();
    for seq in 1..=10 {
        put(&mut store, seq, MsgType::NewOrderSingle, b"msg");
    }

    // Only `limit` messages come back, starting at `begin`, even though the
    // range holds more — the whole history is never materialised.
    let page = ok(store.get_page(1, 10, 3), "first page must resolve");
    assert_eq!(
        page.iter().map(StoredMessage::seq_num).collect::<Vec<_>>(),
        vec![1, 2, 3]
    );
}

#[test]
fn test_memory_store_get_page_advances_across_pages() {
    let mut store = MemoryStore::new();
    for seq in 1..=7 {
        put(&mut store, seq, MsgType::NewOrderSingle, b"msg");
    }

    // Walk the range in bounded pages the way the resend replay does: read a
    // batch, then ask for the next one starting past the last seq seen, and
    // stop once the cursor passes the upper bound.
    const END: u64 = 7;
    let mut seen = Vec::new();
    let mut cursor = 1;
    while cursor <= END {
        let page = ok(store.get_page(cursor, END, 3), "page must resolve");
        let Some(last) = page.last().map(StoredMessage::seq_num) else {
            break;
        };
        seen.extend(page.iter().map(StoredMessage::seq_num));
        let Some(next) = last.checked_add(1) else {
            break;
        };
        cursor = next;
    }
    assert_eq!(seen, vec![1, 2, 3, 4, 5, 6, 7]);
}

#[test]
fn test_memory_store_get_page_empty_range_is_ok_not_error() {
    let mut store = MemoryStore::new();
    put(&mut store, 1, MsgType::Logon, b"msg1");

    // A hole in a sparse history: paging over it is normal, so an empty page
    // is `Ok`, unlike `get_range` which treats an empty range as an error.
    let page = ok(store.get_page(5, 9, 4), "empty page must resolve");
    assert!(page.is_empty());
}

#[test]
fn test_memory_store_get_page_zero_limit_is_empty_page() {
    let mut store = MemoryStore::new();
    put(&mut store, 1, MsgType::Logon, b"msg1");

    let page = ok(
        store.get_page(1, 5, 0),
        "zero-limit page must resolve",
    );
    assert!(page.is_empty());
}

#[test]
fn test_memory_store_get_page_inverted_is_invalid_range_not_a_panic() {
    let mut store = MemoryStore::new();
    put(&mut store, 1, MsgType::Logon, b"msg1");

    assert_eq!(
        store.get_page(5, 3, 4),
        Err(StoreError::InvalidRange { begin: 5, end: 3 })
    );
}

#[test]
fn test_memory_store_get_page_preserves_msg_type_and_payload() {
    let mut store = MemoryStore::new();
    put(&mut store, 4, MsgType::NewOrderSingle, b"8=FIX.4.4\x0135=D\x01");

    let page = ok(store.get_page(4, 4, 8), "page must resolve");
    let [message] = page.as_slice() else {
        panic!("exactly one message must come back, got {}", page.len());
    };
    assert_eq!(message.seq_num(), 4);
    assert_eq!(message.msg_type(), &MsgType::NewOrderSingle);
    assert_eq!(&message.payload()[..], b"8=FIX.4.4\x0135=D\x01");
}

#[test]
fn test_memory_store_sequence_numbers_round_trip() {
    let mut store = MemoryStore::new();

    store.set_next_sender_seq(10);
    store.set_next_target_seq(20);

    assert_eq!(store.next_sender_seq(), 10);
    assert_eq!(store.next_target_seq(), 20);
}

#[test]
fn test_memory_store_reset_clears_messages_and_sequences() {
    let mut store = MemoryStore::new();

    put(&mut store, 1, MsgType::Logon, b"msg1");
    store.set_next_sender_seq(10);
    store.set_next_target_seq(20);

    ok(store.reset(), "reset must succeed");

    assert_eq!(store.message_count(), 0);
    assert_eq!(store.next_sender_seq(), 1);
    assert_eq!(store.next_target_seq(), 1);
}

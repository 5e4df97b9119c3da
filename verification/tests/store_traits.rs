//! Stores that users implement.

use ironfix::store::{MessageStore, StoredMessage};
use ironfix::types::{MsgType, StoreError};

struct MockStore;

impl MessageStore for MockStore {
    fn store(
        &mut self,
        _seq_num: u64,
        _msg_type: &MsgType,
        _message: &[u8],
    ) -> Result<(), StoreError> {
        Ok(())
    }

    fn get_range(
        &self,
        _begin: u64,
        _end: u64,
    ) -> Result<Vec<StoredMessage>, StoreError> {
        Ok(vec![])
    }

    fn next_sender_seq(&self) -> u64 {
        1
    }

    fn next_target_seq(&self) -> u64 {
        1
    }

    fn set_next_sender_seq(&mut self, _seq: u64) {}

    fn set_next_target_seq(&mut self, _seq: u64) {}

    fn reset(&mut self) -> Result<(), StoreError> {
        Ok(())
    }

    fn creation_time(&self) -> std::time::SystemTime {
        std::time::SystemTime::now()
    }
}

#[test]
fn test_mock_store() {
    let mut store = MockStore;
    assert_eq!(store.next_sender_seq(), 1);
    assert_eq!(store.next_target_seq(), 1);
    assert!(store.store(1, &MsgType::Heartbeat, b"test").is_ok());
    assert!(store.reset().is_ok());
}

//! The unit a [`MessageStore`](crate::store::MessageStore) hands back.
//!
//! A store exists so a `ResendRequest` (35=2) can be answered with the traffic
//! that was actually sent. That makes faithfulness the whole contract: what
//! comes out has to be what went in, still carrying the sequence number it was
//! filed under and the `MsgType` it was sent as. [`StoredMessage`] therefore
//! keeps the **verbatim frame bytes** rather than a parsed representation.

use crate::outside::buffer::{frozen, share};
use crate::types::message::{MsgType, MsgTypeView};
use bytes::Bytes;
use vstd::prelude::*;

verus! {

/// What a stored message says.
#[verifier::ext_equal]
pub struct StoredView {
    /// The `MsgSeqNum` (34) the message was filed under.
    pub seq_num: u64,
    /// The `MsgType` (35) it was sent as.
    pub msg_type: MsgTypeView,
    /// The frame bytes.
    pub payload: Seq<u8>,
}

/// One message as it was filed, returned by
/// [`MessageStore::get_range`](crate::store::MessageStore::get_range).
///
/// The payload is the complete frame that went on the wire, including
/// `BeginString` (8), `BodyLength` (9) and `CheckSum` (10). A resend rebuilds
/// from it, stamping `PossDupFlag` (43) and `OrigSendingTime` (122), so it must
/// not be a reconstruction.
#[derive(Debug, PartialEq, Eq)]
pub struct StoredMessage {
    /// The `MsgSeqNum` (34) this message was filed under.
    seq_num: u64,
    /// The `MsgType` (35) it was sent as, recorded at store time.
    msg_type: MsgType,
    /// The verbatim frame bytes.
    payload: Bytes,
}

impl View for StoredMessage {
    type V = StoredView;

    closed spec fn view(&self) -> StoredView {
        StoredView {
            seq_num: self.seq_num,
            msg_type: self.msg_type@,
            payload: frozen(self.payload),
        }
    }
}

impl Clone for StoredMessage {
    fn clone(&self) -> (copy: Self)
        ensures
            copy@ == self@,
    {
        StoredMessage {
            seq_num: self.seq_num,
            msg_type: self.msg_type.clone(),
            payload: share(&self.payload),
        }
    }
}

impl StoredMessage {
    /// Creates a stored message from its sequence number, type and frame.
    #[must_use]
    pub fn new(seq_num: u64, msg_type: MsgType, payload: Bytes) -> (message: Self)
        ensures
            message@ == (StoredView {
                seq_num,
                msg_type: msg_type@,
                payload: frozen(payload),
            }),
    {
        StoredMessage { seq_num, msg_type, payload }
    }

    /// Returns the sequence number this message was filed under.
    #[must_use]
    pub fn seq_num(&self) -> (seq_num: u64)
        ensures
            seq_num == self@.seq_num,
    {
        self.seq_num
    }

    /// Returns the message type recorded at store time.
    #[must_use]
    pub fn msg_type(&self) -> (msg_type: &MsgType)
        ensures
            msg_type@ == self@.msg_type,
    {
        &self.msg_type
    }

    /// Returns the verbatim frame bytes.
    #[must_use]
    pub fn payload(&self) -> (payload: &Bytes)
        ensures
            frozen(*payload) == self@.payload,
    {
        &self.payload
    }

    /// Consumes the message and returns its frame bytes.
    #[must_use]
    pub fn into_payload(self) -> (payload: Bytes)
        ensures
            frozen(payload) == self@.payload,
    {
        self.payload
    }
}

/// What a list of stored messages says.
pub open spec fn stored_views(messages: Seq<StoredMessage>) -> Seq<StoredView> {
    messages.map_values(|m: StoredMessage| m@)
}

} // verus!

//! The types that the wire, session and store layers share.

pub mod charset;
pub mod error;
pub mod field;
pub mod ids;
pub mod message;
pub mod time;

pub use error::{DecodeError, EncodeError, MsgTypeError, StoreError};
pub use field::FieldRef;
pub use ids::{CompId, CompIdError, SeqNum};
pub use message::{MsgType, RawMessage};
pub use time::Duration;

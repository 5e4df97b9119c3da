//! Message storage: what was sent under which sequence number.
//!
//! A store answers the one question the session layer cannot answer on its own:
//! *what did we send under sequence number N?* Every sequenced outbound frame
//! is filed here, and replayed from here when a counterparty sends a
//! `ResendRequest` (35=2).
//!
//! [`MemoryStore`] keeps the messages in memory, so nothing here survives the
//! process.

pub mod laws;
pub mod memory;
pub mod stored;
pub mod traits;

pub use memory::MemoryStore;
pub use stored::StoredMessage;
pub use traits::MessageStore;

//! Session layer protocol logic: configuration, heartbeats, sequence numbers
//! and the states of a session.
//!
//! Nothing here performs I/O or encodes bytes. What a decision needs of the
//! clock comes in two forms: a function that reads the clock, and beside it the
//! function that takes the reading as an argument and decides.

pub mod config;
pub mod heartbeat;
pub mod laws;
pub mod sequence;
pub mod state;

pub use config::SessionConfig;
pub use heartbeat::{HeartbeatIntervalError, HeartbeatManager, TestRequestOutcome};
pub use sequence::{SequenceCounter, SequenceExhausted, SequenceManager};
pub use state::{
    Active, Connecting, Disconnected, LogonReceived, LogonSent, LogoutPending, Resending, Session,
    SessionState,
};

//! FIX message framing.
//!
//! [`codec::FixCodec`] splits a byte stream into complete FIX messages by
//! `BeginString`, `BodyLength` and the `CheckSum` trailer, and puts
//! already-serialised messages onto the wire. It frames, it does not
//! interpret: it never inspects session state and opens no socket.

pub mod codec;
pub mod framing;
pub mod framing_laws;
pub mod laws;

pub use codec::FixCodec;
pub use framing::CodecError;

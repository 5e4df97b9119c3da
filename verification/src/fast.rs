//! FAST (FIX Adapted for Streaming) encoding and decoding.
//!
//! Stop-bit encoded integers, strings and byte vectors, each in a nullable and
//! a non-nullable form; presence maps; and the rule that decides from an
//! operator, a field's optionality and the presence map where the value of a
//! field comes from. There is no template layer: nothing here knows the order
//! or the types of the fields of a message.

pub mod decoder;
pub mod encoder;
pub mod error;
pub mod laws;
pub mod operators;
pub mod pmap;
pub mod stopbit;
pub mod wire_laws;

pub use decoder::FastDecoder;
pub use encoder::FastEncoder;
pub use error::FastError;
pub use operators::{DictionaryScope, DictionaryValue, FieldTransfer, Operator};
pub use pmap::{PresenceMap, PresenceMapBuilder, MAX_PMAP_BYTES};
pub use stopbit::MAX_INT_ENCODED_LEN;

//! FIX tag=value encoding and decoding.

pub mod checksum;
pub mod decoder;
pub mod digits;
pub mod encoder;
pub mod encoder_laws;
pub mod frame;
pub mod laws;
pub mod pairs;
pub mod wire;

pub use crate::types::message::RawMessage;
pub use checksum::calculate_checksum;
pub use decoder::Decoder;
pub use encoder::Encoder;

//! A FIX (Financial Information eXchange) protocol engine core.
//!
//! * [`tagvalue`] encodes and decodes FIX messages in tag=value form.
//! * [`transport`] splits a byte stream into FIX frames.
//! * [`fast`] encodes and decodes FAST (FIX Adapted for STreaming) fields.
//! * [`session`] holds the session layer: configuration, heartbeats, sequence
//!   numbers and the states of a session.
//! * [`store`] files outbound messages so that they can be sent again.
//! * [`types`] holds what the layers share.
//! * [`outside`] declares the functions of other crates that the library calls.
//!
//! Each module states in the contracts of its functions what they return for
//! every input, over mathematical models of the wire formats. The modules named
//! `laws` state and prove what holds across functions: that what is written is
//! read back, that refused input leaves nothing behind, that encodings are
//! minimal, that paging through a store loses nothing.
//!
//! Nothing here performs I/O.

pub mod fast;
pub mod outside;
pub mod session;
pub mod store;
pub mod tagvalue;
pub mod transport;
pub mod types;

//! The items of other crates, and of the standard library, that the library
//! calls, each with the contract that its callers rely on.
//!
//! What is declared here as an outside item is not proved: its contract states
//! what the called function's documentation and source promise. The functions
//! built on these items are proved like any other.

pub mod buffer;
pub mod clock;
pub mod decimal;
pub mod search;
pub mod small;
pub mod text;

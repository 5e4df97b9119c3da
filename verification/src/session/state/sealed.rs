//! Keeps the set of session states closed.

use vstd::prelude::*;

verus! {

/// A type that is one of the session states.
pub trait Sealed {

}

} // verus!

//! The error of the store.

use vstd::prelude::*;

verus! {

/// Why the store has no answer.
#[derive(Clone, Copy, Debug, PartialEq, Eq, Structural)]
pub enum StoreError {
    /// Nothing is stored at the location that was asked for.
    NotFound,
}

} // verus!

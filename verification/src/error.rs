//! Why a change to the board was turned down.

use vstd::prelude::*;

verus! {

/// A change named something that the board does not hold. The board is left
/// as it was.
#[derive(Clone, Copy, Debug, PartialEq, Eq, Structural)]
pub enum MutationError {
    /// No lane is stored under the given key.
    LaneNotFound,
    /// The lane holds no note with the given id.
    ItemNotFound,
}

} // verus!

//! What can go wrong in the garden.

use vstd::prelude::*;

verus! {

/// Why the garden could not do what was asked of it.
#[derive(Clone, Copy, Debug, PartialEq, Eq, Structural)]
pub enum GardenError {
    /// No note has the title that was asked for.
    NotFound,
    /// An offset into a text lies beyond it or inside one of its characters.
    InvalidOffset,
    /// The notes and their links are more than a graph can hold.
    TooLarge,
}

} // verus!

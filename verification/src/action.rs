//! The moves a player can ask the engine to make.

use vstd::prelude::*;

verus! {

/// One move: flip the next card, place the flipped card onto the stack at an
/// index, or take the stack at an index. Indices are zero-based positions in
/// the in-play stack list.
#[derive(Clone, Copy, Debug, PartialEq, Eq, Structural, Hash)]
pub enum Action {
    Flip,
    Place(usize),
    Take(usize),
}

} // verus!

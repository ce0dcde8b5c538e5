//! The four directions of a move.

use vstd::prelude::*;

verus! {

/// The edge of the grid that a move shifts the tiles to.
#[derive(Clone, Copy, Debug, PartialEq, Eq, Structural)]
pub enum Direction {
    North,
    West,
    South,
    East,
}

} // verus!

//! The logical content of one grid cell.

use vstd::prelude::*;

verus! {

/// What one cell holds: a bomb, a count of adjacent bombs (always 1..=8),
/// or nothing.
#[derive(Clone, Copy, PartialEq, Eq, Structural, Debug)]
pub enum Tile {
    /// The cell holds a bomb.
    Bomb,
    /// The cell is next to this many bombs (never 0, never above 8).
    BombNeighbor(u8),
    /// The cell has no bomb and no adjacent bomb.
    Empty,
}

impl Tile {
    /// A `BombNeighbor` count is normalized: never 0 (that is `Empty`) and
    /// never above 8 (the size of an 8-neighborhood).
    pub open spec fn wf(self) -> bool {
        self matches Tile::BombNeighbor(n) ==> 1 <= n <= 8
    }

    pub fn is_bomb(&self) -> (r: bool)
        ensures
            r == (*self is Bomb),
    {
        match self {
            Tile::Bomb => true,
            _ => false,
        }
    }

    pub fn is_empty(&self) -> (r: bool)
        ensures
            r == (*self is Empty),
    {
        match self {
            Tile::Empty => true,
            _ => false,
        }
    }
}

} // verus!

//! Grid positions and their 8-neighborhoods.

use vstd::prelude::*;

verus! {

broadcast use vstd::seq_lib::lemma_seq_contains_after_push;

/// A position on the grid, `x` column and `y` row, origin at the bottom left.
#[derive(Clone, Copy, PartialEq, Eq, Structural, Debug, Hash)]
pub struct Coordinates {
    pub x: u16,
    pub y: u16,
}

/// `c` lies on a grid of the given dimensions.
pub open spec fn in_bounds(c: Coordinates, width: u16, height: u16) -> bool {
    c.x < width && c.y < height
}

/// `a` and `b` differ by at most one in each axis and are not the same cell
/// (the 8-neighborhood relation).
pub open spec fn is_adjacent(a: Coordinates, b: Coordinates) -> bool {
    &&& !(a.x == b.x && a.y == b.y)
    &&& a.x - 1 <= b.x <= a.x + 1
    &&& a.y - 1 <= b.y <= a.y + 1
}

impl Coordinates {
    /// The in-bounds 8-neighborhood of `self`: every cell adjacent to `self`
    /// that lies on the grid, scanned row-major over the 3x3 block around
    /// `self` (bottom row first), center excluded.
    pub fn neighbors(&self, width: u16, height: u16) -> (r: Vec<Coordinates>)
        ensures
            forall|i: int|
                0 <= i < r@.len() ==> is_adjacent(*self, #[trigger] r@[i]) && in_bounds(
                    r@[i],
                    width,
                    height,
                ),
            forall|c: Coordinates| is_adjacent(*self, c) && in_bounds(c, width, height)
                ==> r@.contains(c),
    {
        let mut r: Vec<Coordinates> = Vec::new();
        let x32 = self.x as u32;
        let y32 = self.y as u32;
        let w32 = width as u32;
        let h32 = height as u32;
        if x32 >= 1 && y32 >= 1 && x32 - 1 < w32 && y32 - 1 < h32 {
            r.push(Coordinates { x: self.x - 1, y: self.y - 1 });
        }
        if y32 >= 1 && x32 < w32 && y32 - 1 < h32 {
            r.push(Coordinates { x: self.x, y: self.y - 1 });
        }
        if y32 >= 1 && x32 + 1 < w32 && y32 - 1 < h32 {
            r.push(Coordinates { x: self.x + 1, y: self.y - 1 });
        }
        if x32 >= 1 && x32 - 1 < w32 && y32 < h32 {
            r.push(Coordinates { x: self.x - 1, y: self.y });
        }
        if x32 + 1 < w32 && y32 < h32 {
            r.push(Coordinates { x: self.x + 1, y: self.y });
        }
        if x32 >= 1 && x32 - 1 < w32 && y32 + 1 < h32 {
            r.push(Coordinates { x: self.x - 1, y: self.y + 1 });
        }
        if x32 < w32 && y32 + 1 < h32 {
            r.push(Coordinates { x: self.x, y: self.y + 1 });
        }
        if x32 + 1 < w32 && y32 + 1 < h32 {
            r.push(Coordinates { x: self.x + 1, y: self.y + 1 });
        }
        proof {
            assert forall|c: Coordinates| is_adjacent(*self, c) && in_bounds(c, width, height)
                implies r@.contains(c) by {
                assert(c.x == self.x - 1 || c.x == self.x || c.x == self.x + 1);
                assert(c.y == self.y - 1 || c.y == self.y || c.y == self.y + 1);
            }
        }
        r
    }
}

} // verus!

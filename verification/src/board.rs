//! The playing board: a finished tile map plus the cover and mark
//! bookkeeping, the per-cell lookup gates, and the flood-fill uncover.
//!
//! Each covered cell carries an opaque `u64` handle naming the presentation
//! object that hides it, so a host can react to reveal events without this
//! crate knowing its scene model. Removing a cell's entry from `covered` is
//! the one authoritative signal that it is uncovered, and a cell is never
//! covered again.

use vstd::prelude::*;
use crate::coordinates::{Coordinates, in_bounds, is_adjacent};
use crate::tile::Tile;
use crate::tile_map::{TileMap, b2i, lemma_lidx_bounds, lemma_lidx_injective};

verus! {

broadcast use vstd::seq_lib::lemma_seq_contains_after_push;

/// How many cells of the first `upto` slots are still covered.
pub open spec fn count_some(s: Seq<Option<u64>>, upto: int) -> int
    decreases upto,
{
    if upto <= 0 {
        0
    } else {
        count_some(s, upto - 1) + b2i(s[upto - 1] is Some)
    }
}

/// The covered count never goes below zero nor above the slot count.
pub proof fn lemma_count_some_bounds(s: Seq<Option<u64>>, upto: int)
    ensures
        0 <= count_some(s, upto) <= vstd::math::max(upto, 0),
    decreases upto,
{
    if upto > 0 {
        lemma_count_some_bounds(s, upto - 1);
    }
}

/// Overwriting one slot changes the covered count by the difference at
/// that slot alone.
pub proof fn lemma_count_some_update(s: Seq<Option<u64>>, i: int, v: Option<u64>, upto: int)
    requires
        0 <= i < s.len(),
        upto <= s.len(),
    ensures
        i < upto ==> count_some(s.update(i, v), upto) == count_some(s, upto) - b2i(s[i] is Some)
            + b2i(v is Some),
        i >= upto ==> count_some(s.update(i, v), upto) == count_some(s, upto),
    decreases upto,
{
    if upto > 0 {
        lemma_count_some_update(s, i, v, upto - 1);
    }
}

/// A fully covered prefix counts every slot.
pub proof fn lemma_count_some_full(s: Seq<Option<u64>>, upto: int)
    requires
        forall|i: int| 0 <= i < upto ==> s[i] is Some,
    ensures
        count_some(s, upto) == vstd::math::max(upto, 0),
    decreases upto,
{
    if upto > 0 {
        lemma_count_some_full(s, upto - 1);
    }
}

/// What a (successful or failed) uncover of `c` returns: the cover handle
/// if `c` is still covered, nothing otherwise.
pub open spec fn uncover_result(b: Board, c: Coordinates) -> Option<u64> {
    if b.is_covered(c) {
        Some(b.cover_handle(c))
    } else {
        None
    }
}

/// How `try_uncover_tile` changes the board: `c` is uncovered and unmarked,
/// every other cell keeps its cover, mark and handle, the tile map is
/// untouched, and the covered count drops by one exactly when `c` was
/// covered.
pub open spec fn uncover_transition(pre: Board, post: Board, c: Coordinates) -> bool {
    &&& post.tile_map == pre.tile_map
    &&& !post.is_covered(c)
    &&& !post.is_marked(c)
    &&& forall|d: Coordinates| d != c ==> (#[trigger] post.is_covered(d)) == pre.is_covered(d)
    &&& forall|d: Coordinates| d != c ==> (#[trigger] post.is_marked(d)) == pre.is_marked(d)
    &&& forall|d: Coordinates|
        d != c && post.is_covered(d) ==> (#[trigger] post.cover_handle(d)) == pre.cover_handle(d)
    &&& post.covered_count() == pre.covered_count() - b2i(pre.is_covered(c))
}

/// Law: uncovering is idempotent. From a state where `c` is covered, one
/// uncover step returns the handle, and a second request on the very same
/// coordinate returns nothing.
pub proof fn lemma_uncover_idempotent(pre: Board, mid: Board, c: Coordinates)
    requires
        pre.is_covered(c),
        uncover_transition(pre, mid, c),
    ensures
        uncover_result(pre, c) is Some,
        uncover_result(mid, c) is None,
{
}

/// The cells `rs` uncovered include `c`.
pub open spec fn reveals(rs: Seq<(Coordinates, u64)>, c: Coordinates) -> bool {
    exists|i: int| 0 <= i < rs.len() && (#[trigger] rs[i]).0 == c
}

/// Every cell in the reveal log beyond the trigger (index 0) borders an
/// `Empty` cell revealed *earlier* in the log: by induction along the log,
/// everything uncovered is connected to the trigger through `Empty` cells,
/// so nothing outside the flooded region is uncovered.
#[verifier::opaque]
pub open spec fn expansion_traceable(pre: Board, revealed: Seq<(Coordinates, u64)>) -> bool {
    forall|i: int|
        1 <= i < revealed.len() ==> exists|j: int|
            0 <= j < i && pre.tile_of((#[trigger] revealed[j]).0) is Empty && is_adjacent(
                revealed[j].0,
                (#[trigger] revealed[i]).0,
            )
}

/// What one triggered uncover produced: each cell taken out of cover with
/// its cover handle (in uncover order), and whether a bomb went off.
pub struct FloodOutcome {
    pub revealed: Vec<(Coordinates, u64)>,
    pub exploded: bool,
}

/// A tile map with the per-cell cover and mark state of one game session.
pub struct Board {
    pub tile_map: TileMap,
    /// Slot `y * width + x`: `Some(handle)` while cell `(x, y)` is covered.
    pub covered: Vec<Option<u64>>,
    /// Slot `y * width + x`: the cell currently carries a flag.
    pub marked: Vec<bool>,
}

impl Board {
    pub open spec fn n_cells(self) -> int {
        self.tile_map.width * self.tile_map.height
    }

    /// Row-major slot of `c` in `covered` and `marked`.
    pub open spec fn sidx(self, c: Coordinates) -> int {
        c.y * self.tile_map.width + c.x
    }

    pub open spec fn on_board(self, c: Coordinates) -> bool {
        in_bounds(c, self.tile_map.width, self.tile_map.height)
    }

    pub open spec fn is_covered(self, c: Coordinates) -> bool {
        self.on_board(c) && self.covered@[self.sidx(c)] is Some
    }

    pub open spec fn cover_handle(self, c: Coordinates) -> u64 {
        self.covered@[self.sidx(c)]->0
    }

    pub open spec fn is_marked(self, c: Coordinates) -> bool {
        self.on_board(c) && self.marked@[self.sidx(c)]
    }

    pub open spec fn tile_of(self, c: Coordinates) -> Tile {
        self.tile_map.tile_at(c.x as int, c.y as int)
    }

    pub open spec fn covered_count(self) -> int {
        count_some(self.covered@, self.n_cells())
    }

    /// A consistent board: a finished map, one cover and one mark slot per
    /// cell, and a mark only on a still-covered cell.
    pub open spec fn wf(self) -> bool {
        &&& self.tile_map.grid_wf()
        &&& self.tile_map.counts_consistent()
        &&& self.covered@.len() == self.n_cells()
        &&& self.marked@.len() == self.n_cells()
        &&& forall|i: int|
            0 <= i < self.n_cells() && (#[trigger] self.marked@[i]) ==> self.covered@[i] is Some
    }

    /// All covered cells hold bombs: every non-bomb cell has been uncovered.
    pub open spec fn completed(self) -> bool {
        forall|c: Coordinates| #[trigger]
            self.is_covered(c) ==> self.tile_map.bomb_at(c.x as int, c.y as int)
    }

    /// A fresh board over a finished map: every cell covered (slot `i`
    /// holding the presentation handle `handles[i]`), nothing marked.
    pub fn new(tile_map: TileMap, handles: &Vec<u64>) -> (b: Board)
        requires
            tile_map.grid_wf(),
            tile_map.counts_consistent(),
            handles@.len() == tile_map.width * tile_map.height,
        ensures
            b.wf(),
            b.tile_map == tile_map,
            forall|c: Coordinates| #[trigger]
                b.is_covered(c) <==> in_bounds(c, tile_map.width, tile_map.height),
            forall|c: Coordinates|
                b.is_covered(c) ==> (#[trigger] b.cover_handle(c)) == handles@[b.sidx(c)],
            forall|c: Coordinates| !(#[trigger] b.is_marked(c)),
            b.covered_count() == b.n_cells(),
    {
        let n: usize = handles.len();
        let mut covered: Vec<Option<u64>> = Vec::new();
        let mut marked: Vec<bool> = Vec::new();
        let mut i: usize = 0;
        while i < n
            invariant
                i <= n,
                covered@.len() == i,
                marked@.len() == i,
                n == handles@.len(),
                forall|k: int| 0 <= k < i ==> (#[trigger] covered@[k]) == Some(handles@[k]),
                forall|k: int| 0 <= k < i ==> !(#[trigger] marked@[k]),
            decreases n - i,
        {
            covered.push(Some(handles[i]));
            marked.push(false);
            i += 1;
        }
        let b = Board { tile_map, covered, marked };
        proof {
            assert forall|c: Coordinates| #[trigger]
                b.is_covered(c) <==> in_bounds(c, tile_map.width, tile_map.height) by {
                if in_bounds(c, tile_map.width, tile_map.height) {
                    lemma_lidx_bounds(
                        tile_map.width as int,
                        tile_map.height as int,
                        c.x as int,
                        c.y as int,
                    );
                }
            }
            assert forall|c: Coordinates| b.is_covered(c) implies (#[trigger] b.cover_handle(c))
                == handles@[b.sidx(c)] by {
                lemma_lidx_bounds(
                    tile_map.width as int,
                    tile_map.height as int,
                    c.x as int,
                    c.y as int,
                );
            }
            assert forall|c: Coordinates| !(#[trigger] b.is_marked(c)) by {
                if b.on_board(c) {
                    lemma_lidx_bounds(
                        tile_map.width as int,
                        tile_map.height as int,
                        c.x as int,
                        c.y as int,
                    );
                }
            }
            lemma_count_some_full(b.covered@, b.n_cells());
        }
        b
    }

    /// Row-major slot of an on-board coordinate, as a machine index.
    fn cell_index(&self, c: Coordinates) -> (i: usize)
        requires
            self.tile_map.grid_wf(),
            self.on_board(c),
        ensures
            i as int == self.sidx(c),
            0 <= self.sidx(c) < self.n_cells(),
    {
        proof {
            lemma_lidx_bounds(
                self.tile_map.width as int,
                self.tile_map.height as int,
                c.x as int,
                c.y as int,
            );
        }
        (c.y as usize) * (self.tile_map.width as usize) + (c.x as usize)
    }

    pub fn is_covered_cell(&self, c: Coordinates) -> (r: bool)
        requires
            self.wf(),
        ensures
            r == self.is_covered(c),
    {
        if c.x < self.tile_map.width && c.y < self.tile_map.height {
            let i: usize = self.cell_index(c);
            self.covered[i].is_some()
        } else {
            false
        }
    }

    pub fn is_marked_cell(&self, c: Coordinates) -> (r: bool)
        requires
            self.wf(),
        ensures
            r == self.is_marked(c),
    {
        if c.x < self.tile_map.width && c.y < self.tile_map.height {
            let i: usize = self.cell_index(c);
            self.marked[i]
        } else {
            false
        }
    }

    /// The cover handle of `c` exactly when `c` may be uncovered by a
    /// player action: still covered and not flagged. Pure lookup; a miss
    /// (uncovered, flagged or off the board) is no error.
    pub fn tile_to_uncover(&self, c: Coordinates) -> (r: Option<u64>)
        requires
            self.wf(),
        ensures
            r == (if self.is_covered(c) && !self.is_marked(c) {
                Some(self.cover_handle(c))
            } else {
                None::<u64>
            }),
    {
        if c.x >= self.tile_map.width || c.y >= self.tile_map.height {
            return None;
        }
        let i: usize = self.cell_index(c);
        if self.marked[i] {
            return None;
        }
        self.covered[i]
    }

    /// Uncover `c`: drop its cover (and any flag) and hand back the cover
    /// handle. Returns nothing when `c` is already uncovered or off the
    /// board — an idempotent no-op, not an error.
    pub fn try_uncover_tile(&mut self, c: Coordinates) -> (r: Option<u64>)
        requires
            old(self).wf(),
        ensures
            final(self).wf(),
            r == uncover_result(*old(self), c),
            uncover_transition(*old(self), *final(self), c),
            !old(self).is_covered(c) ==> *final(self) == *old(self),
    {
        if c.x >= self.tile_map.width || c.y >= self.tile_map.height {
            return None;
        }
        let i: usize = self.cell_index(c);
        let e: Option<u64> = self.covered[i];
        if e.is_none() {
            proof {
                assert(!self.marked@[self.sidx(c)]);
            }
            return None;
        }
        self.covered[i] = None;
        self.marked[i] = false;
        proof {
            let pre: Board = *old(self);
            let post: Board = *self;
            assert(post.covered@ == pre.covered@.update(pre.sidx(c), None::<u64>));
            assert(post.marked@ == pre.marked@.update(pre.sidx(c), false));
            assert forall|d: Coordinates| d != c implies (#[trigger] post.is_covered(d))
                == pre.is_covered(d) by {
                if post.on_board(d) {
                    lemma_lidx_bounds(
                        pre.tile_map.width as int,
                        pre.tile_map.height as int,
                        d.x as int,
                        d.y as int,
                    );
                    if post.sidx(d) == post.sidx(c) {
                        lemma_lidx_injective(
                            pre.tile_map.width as int,
                            d.x as int,
                            d.y as int,
                            c.x as int,
                            c.y as int,
                        );
                    }
                }
            }
            assert forall|d: Coordinates| d != c implies (#[trigger] post.is_marked(d))
                == pre.is_marked(d) by {
                if post.on_board(d) {
                    lemma_lidx_bounds(
                        pre.tile_map.width as int,
                        pre.tile_map.height as int,
                        d.x as int,
                        d.y as int,
                    );
                    if post.sidx(d) == post.sidx(c) {
                        lemma_lidx_injective(
                            pre.tile_map.width as int,
                            d.x as int,
                            d.y as int,
                            c.x as int,
                            c.y as int,
                        );
                    }
                }
            }
            assert forall|d: Coordinates| d != c && post.is_covered(d) implies (
            #[trigger] post.cover_handle(d)) == pre.cover_handle(d) by {
                lemma_lidx_bounds(
                    pre.tile_map.width as int,
                    pre.tile_map.height as int,
                    d.x as int,
                    d.y as int,
                );
                if post.sidx(d) == post.sidx(c) {
                    lemma_lidx_injective(
                        pre.tile_map.width as int,
                        d.x as int,
                        d.y as int,
                        c.x as int,
                        c.y as int,
                    );
                }
            }
            lemma_count_some_update(pre.covered@, pre.sidx(c), None, pre.n_cells());
            assert(uncover_transition(pre, post, c));
        }
        e
    }

    /// Toggle the flag on a covered cell and hand back its cover handle and
    /// new flag state. An uncovered or off-board target is "not found":
    /// nothing happens and nothing is returned.
    pub fn mark_request(&mut self, c: Coordinates) -> (r: Option<(u64, bool)>)
        requires
            old(self).wf(),
        ensures
            final(self).wf(),
            final(self).tile_map == old(self).tile_map,
            !old(self).is_covered(c) ==> r is None && *final(self) == *old(self),
            old(self).is_covered(c) ==> r == Some(
                (old(self).cover_handle(c), !old(self).is_marked(c)),
            ) && final(self).is_marked(c) == !old(self).is_marked(c),
            forall|d: Coordinates|
                d != c ==> (#[trigger] final(self).is_marked(d)) == old(self).is_marked(d),
            final(self).covered == old(self).covered,
            final(self).covered_count() == old(self).covered_count(),
    {
        if c.x >= self.tile_map.width || c.y >= self.tile_map.height {
            return None;
        }
        let i: usize = self.cell_index(c);
        let e: Option<u64> = self.covered[i];
        match e {
            None => None,
            Some(h) => {
                let now_marked: bool = !self.marked[i];
                self.marked[i] = now_marked;
                proof {
                    let pre: Board = *old(self);
                    let post: Board = *self;
                    assert forall|d: Coordinates| d != c implies (#[trigger] post.is_marked(d))
                        == pre.is_marked(d) by {
                        if post.on_board(d) {
                            lemma_lidx_bounds(
                                pre.tile_map.width as int,
                                pre.tile_map.height as int,
                                d.x as int,
                                d.y as int,
                            );
                            if post.sidx(d) == post.sidx(c) {
                                lemma_lidx_injective(
                                    pre.tile_map.width as int,
                                    d.x as int,
                                    d.y as int,
                                    c.x as int,
                                    c.y as int,
                                );
                            }
                        }
                    }
                }
                Some((h, now_marked))
            },
        }
    }

    /// The neighbors of `c` that are still covered: exactly the cells
    /// adjacent to `c` (so never `c` itself, never off the board) with
    /// their cover in place.
    pub fn adjacent_covered_tiles(&self, c: Coordinates) -> (r: Vec<Coordinates>)
        requires
            self.wf(),
        ensures
            forall|i: int|
                0 <= i < r@.len() ==> is_adjacent(c, #[trigger] r@[i]) && self.is_covered(r@[i]),
            forall|d: Coordinates| is_adjacent(c, d) && self.is_covered(d) ==> r@.contains(d),
    {
        let nv: Vec<Coordinates> = c.neighbors(self.tile_map.width, self.tile_map.height);
        let mut r: Vec<Coordinates> = Vec::new();
        let mut k: usize = 0;
        while k < nv.len()
            invariant
                self.wf(),
                k <= nv@.len(),
                forall|i: int|
                    0 <= i < nv@.len() ==> is_adjacent(c, #[trigger] nv@[i]) && in_bounds(
                        nv@[i],
                        self.tile_map.width,
                        self.tile_map.height,
                    ),
                forall|i: int|
                    0 <= i < r@.len() ==> is_adjacent(c, #[trigger] r@[i]) && self.is_covered(
                        r@[i],
                    ),
                forall|j2: int| 0 <= j2 < k && self.is_covered(#[trigger] nv@[j2]) ==> r@.contains(
                    nv@[j2],
                ),
            decreases nv@.len() - k,
        {
            let d: Coordinates = nv[k];
            if self.is_covered_cell(d) {
                r.push(d);
            }
            k += 1;
        }
        proof {
            assert forall|d: Coordinates| is_adjacent(c, d) && self.is_covered(d) implies
                r@.contains(d) by {
                assert(nv@.contains(d));
                let j = choose|j: int| 0 <= j < nv@.len() && nv@[j] == d;
                assert(self.is_covered(nv@[j]));
            }
        }
        r
    }

    /// True exactly when every still-covered cell holds a bomb, i.e. the
    /// player has uncovered all safe cells.
    pub fn is_completed(&self) -> (r: bool)
        requires
            self.wf(),
        ensures
            r == self.completed(),
    {
        let w: u16 = self.tile_map.width;
        let h: u16 = self.tile_map.height;
        let mut y: u16 = 0;
        while y < h
            invariant
                self.wf(),
                w == self.tile_map.width,
                h == self.tile_map.height,
                y <= h,
                forall|c: Coordinates|
                    c.y < y && (#[trigger] self.is_covered(c)) ==> self.tile_map.bomb_at(
                        c.x as int,
                        c.y as int,
                    ),
            decreases h - y,
        {
            let mut x: u16 = 0;
            while x < w
                invariant
                    self.wf(),
                    w == self.tile_map.width,
                    h == self.tile_map.height,
                    y < h,
                    x <= w,
                    forall|c: Coordinates|
                        (c.y < y || (c.y == y && c.x < x)) && (#[trigger] self.is_covered(c))
                            ==> self.tile_map.bomb_at(c.x as int, c.y as int),
                decreases w - x,
            {
                let c: Coordinates = Coordinates { x, y };
                let i: usize = self.cell_index(c);
                if self.covered[i].is_some() {
                    if !self.tile_map.tile(c).is_bomb() {
                        proof {
                            assert(self.is_covered(c));
                            assert(!self.tile_map.bomb_at(c.x as int, c.y as int));
                        }
                        return false;
                    }
                }
                x += 1;
            }
            y += 1;
        }
        true
    }

    /// One player-triggered uncover with its worklist flood fill, the
    /// central algorithm. If `trigger` is covered and unflagged it is
    /// uncovered; a bomb there ends the expansion at once (one reveal, one
    /// explosion); an `Empty` trigger transitively uncovers its covered
    /// neighborhood, expanding through `Empty` cells and stopping at
    /// `BombNeighbor` cells, which are uncovered but not expanded. The
    /// worklist only ever holds neighbors of `Empty` cells, so the
    /// expansion never reaches a bomb. Anything else is a miss: no change,
    /// no events.
    #[verifier::rlimit(100)]
    #[verifier::spinoff_prover]
    pub fn flood_uncover(&mut self, trigger: Coordinates) -> (out: FloodOutcome)
        requires
            old(self).wf(),
        ensures
            final(self).wf(),
            final(self).tile_map == old(self).tile_map,
            !(old(self).is_covered(trigger) && !old(self).is_marked(trigger)) ==> *final(self)
                == *old(self) && out.revealed@.len() == 0 && !out.exploded,
            old(self).is_covered(trigger) && !old(self).is_marked(trigger) ==> {
                &&& out.revealed@.len() >= 1
                &&& out.revealed@[0].0 == trigger
                &&& out.exploded == (old(self).tile_of(trigger) is Bomb)
                &&& (old(self).tile_of(trigger) is Bomb ==> out.revealed@.len() == 1)
            },
            forall|i: int|
                0 <= i < out.revealed@.len() ==> {
                    let c = (#[trigger] out.revealed@[i]).0;
                    &&& old(self).is_covered(c)
                    &&& !final(self).is_covered(c)
                    &&& out.revealed@[i].1 == old(self).cover_handle(c)
                },
            forall|i: int, j: int|
                0 <= i < j < out.revealed@.len() ==> (#[trigger] out.revealed@[i]).0 != (
                #[trigger] out.revealed@[j]).0,
            forall|d: Coordinates|
                !reveals(out.revealed@, d) ==> (#[trigger] final(self).is_covered(d)) == old(
                    self,
                ).is_covered(d),
            forall|d: Coordinates|
                !reveals(out.revealed@, d) ==> (#[trigger] final(self).is_marked(d)) == old(
                    self,
                ).is_marked(d),
            forall|d: Coordinates|
                !reveals(out.revealed@, d) && final(self).is_covered(d) ==> (#[trigger] final(self).cover_handle(d)) == old(self).cover_handle(d),
            forall|i: int|
                1 <= i < out.revealed@.len() ==> !(old(self).tile_of(
                    (#[trigger] out.revealed@[i]).0,
                ) is Bomb),
            expansion_traceable(*old(self), out.revealed@),
            forall|i: int, d: Coordinates|
                0 <= i < out.revealed@.len() && old(self).tile_of(out.revealed@[i].0) is Empty
                    && #[trigger] is_adjacent((#[trigger] out.revealed@[i]).0, d) ==> !final(self).is_covered(d),
    {
        let gate: Option<u64> = self.tile_to_uncover(trigger);
        if gate.is_none() {
            proof {
                reveal(expansion_traceable);
            }
            return FloodOutcome { revealed: Vec::new(), exploded: false };
        }
        self.flood_from(trigger)
    }

    /// The flood fill proper, once the trigger has passed the
    /// covered-and-unflagged gate.
    #[verifier::rlimit(100)]
    #[verifier::spinoff_prover]
    fn flood_from(&mut self, trigger: Coordinates) -> (out: FloodOutcome)
        requires
            old(self).wf(),
            old(self).is_covered(trigger),
            !old(self).is_marked(trigger),
        ensures
            final(self).wf(),
            final(self).tile_map == old(self).tile_map,
            out.revealed@.len() >= 1,
            out.revealed@[0].0 == trigger,
            out.exploded == (old(self).tile_of(trigger) is Bomb),
            old(self).tile_of(trigger) is Bomb ==> out.revealed@.len() == 1,
            forall|i: int|
                0 <= i < out.revealed@.len() ==> {
                    let c = (#[trigger] out.revealed@[i]).0;
                    &&& old(self).is_covered(c)
                    &&& !final(self).is_covered(c)
                    &&& out.revealed@[i].1 == old(self).cover_handle(c)
                },
            forall|i: int, j: int|
                0 <= i < j < out.revealed@.len() ==> (#[trigger] out.revealed@[i]).0 != (
                #[trigger] out.revealed@[j]).0,
            forall|d: Coordinates|
                !reveals(out.revealed@, d) ==> (#[trigger] final(self).is_covered(d)) == old(
                    self,
                ).is_covered(d),
            forall|d: Coordinates|
                !reveals(out.revealed@, d) ==> (#[trigger] final(self).is_marked(d)) == old(
                    self,
                ).is_marked(d),
            forall|d: Coordinates|
                !reveals(out.revealed@, d) && final(self).is_covered(d) ==> (#[trigger] final(self).cover_handle(d)) == old(self).cover_handle(d),
            forall|i: int|
                1 <= i < out.revealed@.len() ==> !(old(self).tile_of(
                    (#[trigger] out.revealed@[i]).0,
                ) is Bomb),
            expansion_traceable(*old(self), out.revealed@),
            forall|i: int, d: Coordinates|
                0 <= i < out.revealed@.len() && old(self).tile_of(out.revealed@[i].0) is Empty
                    && #[trigger] is_adjacent((#[trigger] out.revealed@[i]).0, d) ==> !final(self).is_covered(d),
    {
        let ghost pre: Board = *old(self);
        let mut revealed: Vec<(Coordinates, u64)> = Vec::new();
        let h0: u64 = self.try_uncover_tile(trigger).unwrap();
        revealed.push((trigger, h0));
        proof {
            assert(revealed@[0].0 == trigger);
            assert forall|d: Coordinates| !reveals(revealed@, d) implies d != trigger by {
                assert(revealed@[0].0 == trigger);
            }
        }
        let t0: Tile = self.tile_map.tile(trigger);
        if t0.is_bomb() {
            proof {
                lemma_flood_explode(pre, trigger, *self, revealed@);
            }
            return FloodOutcome { revealed, exploded: true };
        }
        let mut work: Vec<Coordinates> = Vec::new();
        if t0.is_empty() {
            proof {
                assert(self.tile_map.cell_consistent(trigger.x as int, trigger.y as int));
                assert(self.tile_map.adjacent_bombs(trigger.x as int, trigger.y as int) == 0);
            }
            work = self.adjacent_covered_tiles(trigger);
            proof {
                assert forall|k: int|
                    0 <= k < work@.len() implies !(pre.tile_of(#[trigger] work@[k]) is Bomb) by {
                    crate::tile_map::lemma_no_adjacent_bombs(self.tile_map, trigger, work@[k]);
                }
            }
        }
        proof {
            reveal(flood_inv);
            reveal(expansion_traceable);
            lemma_count_some_bounds(self.covered@, self.n_cells());
            assert(flood_inv(pre, trigger, *self, work@, revealed@));
        }
        while work.len() > 0
            invariant
                flood_inv(pre, trigger, *self, work@, revealed@),
                0 <= self.covered_count(),
            decreases self.covered_count(), work@.len(),
        {
            self.flood_step(&mut work, &mut revealed, Ghost(pre), Ghost(trigger));
        }
        proof {
            lemma_flood_done(pre, trigger, *self, work@, revealed@);
        }
        FloodOutcome { revealed, exploded: false }
    }

    /// One worklist step of a flood fill: pop a coordinate, uncover it if it
    /// still carries a cover, and expand through it when it is `Empty`.
    #[verifier::rlimit(100)]
    #[verifier::spinoff_prover]
    fn flood_step(
        &mut self,
        work: &mut Vec<Coordinates>,
        revealed: &mut Vec<(Coordinates, u64)>,
        Ghost(pre): Ghost<Board>,
        Ghost(trigger): Ghost<Coordinates>,
    )
        requires
            flood_inv(pre, trigger, *old(self), old(work)@, old(revealed)@),
            old(work)@.len() > 0,
        ensures
            flood_inv(pre, trigger, *final(self), final(work)@, final(revealed)@),
            final(self).covered_count() <= old(self).covered_count(),
            old(self).covered_count() == final(self).covered_count() ==> final(work)@.len() < old(
                work,
            )@.len(),
            0 <= final(self).covered_count(),
            old(revealed)@ == final(revealed)@.subrange(0, old(revealed)@.len() as int),
    {
        proof {
            reveal(flood_inv);
        }
        let ghost work0: Seq<Coordinates> = work@;
        let c: Coordinates = work.pop().unwrap();
        let ghost snap: Board = *self;
        let got: Option<u64> = self.try_uncover_tile(c);
        proof {
            assert(work0.last() == c);
            assert forall|d: Coordinates| work0.contains(d) && d != c implies work@.contains(
                d,
            ) by {
                let m = choose|m: int| 0 <= m < work0.len() && work0[m] == d;
                assert(m < work0.len() - 1);
                assert(work@[m] == d);
            }
            lemma_count_some_bounds(self.covered@, self.n_cells());
        }
        match got {
            None => {
                proof {
                    assert(*self == snap);
                    assert forall|i: int, d: Coordinates|
                        0 <= i < revealed@.len() && pre.tile_of(revealed@[i].0) is Empty
                            && #[trigger] is_adjacent((#[trigger] revealed@[i]).0, d) implies !self
                        .is_covered(d) || work@.contains(d) by {
                        if self.is_covered(d) && work0.contains(d) {
                            assert(d != c);
                        }
                    }
                    assert(revealed@ == revealed@.subrange(0, revealed@.len() as int));
                }
            },
            Some(hc) => {
                let ghost revealed0: Seq<(Coordinates, u64)> = revealed@;
                proof {
                    assert(snap.is_covered(c));
                    assert(!reveals(revealed0, c)) by {
                        if reveals(revealed0, c) {
                            let i = choose|i: int| 0 <= i < revealed0.len() && revealed0[i].0 == c;
                            assert(!snap.is_covered(revealed0[i].0));
                        }
                    }
                    assert(pre.is_covered(c));
                    assert(hc == pre.cover_handle(c));
                }
                revealed.push((c, hc));
                let tc: Tile = self.tile_map.tile(c);
                proof {
                    assert(revealed0 == revealed@.subrange(0, revealed0.len() as int));
                    assert forall|d: Coordinates| !reveals(revealed@, d) implies !reveals(
                        revealed0,
                        d,
                    ) && d != c by {
                        assert(revealed@[revealed@.len() - 1].0 == c);
                        if reveals(revealed0, d) {
                            let i = choose|i: int| 0 <= i < revealed0.len() && revealed0[i].0 == d;
                            assert(revealed@[i].0 == d);
                        }
                    }
                    assert forall|d: Coordinates|
                        reveals(revealed0, d) implies reveals(revealed@, d) by {
                        let i = choose|i: int| 0 <= i < revealed0.len() && revealed0[i].0 == d;
                        assert(revealed@[i].0 == d);
                    }
                    reveal(expansion_traceable);
                    assert(work0[work0.len() - 1] == c);
                    let j0 = choose|j: int|
                        0 <= j < revealed0.len() && pre.tile_of(revealed0[j].0) is Empty
                            && is_adjacent(revealed0[j].0, c);
                    assert(revealed@[j0] == revealed0[j0]);
                    assert forall|i: int| 1 <= i < revealed@.len() implies exists|j: int|
                        0 <= j < i && pre.tile_of((#[trigger] revealed@[j]).0) is Empty
                            && is_adjacent(revealed@[j].0, (#[trigger] revealed@[i]).0) by {
                        if i < revealed@.len() - 1 {
                            assert(revealed@[i] == revealed0[i]);
                            let j = choose|j: int|
                                0 <= j < i && pre.tile_of((#[trigger] revealed0[j]).0) is Empty
                                    && is_adjacent(revealed0[j].0, revealed0[i].0);
                            assert(revealed@[j] == revealed0[j]);
                        } else {
                            assert(revealed@[i].0 == c);
                            assert(j0 < i);
                        }
                    }
                    assert(expansion_traceable(pre, revealed@));
                    assert forall|k: int| 0 <= k < work@.len() implies exists|j: int|
                        0 <= j < revealed@.len() && pre.tile_of(
                            (#[trigger] revealed@[j]).0,
                        ) is Empty && is_adjacent(revealed@[j].0, #[trigger] work@[k]) by {
                        assert(work0[k] == work@[k]);
                        let j = choose|j: int|
                            0 <= j < revealed0.len() && pre.tile_of(
                                (#[trigger] revealed0[j]).0,
                            ) is Empty && is_adjacent(revealed0[j].0, work0[k]);
                        assert(revealed@[j] == revealed0[j]);
                    }
                }
                if tc.is_empty() {
                    proof {
                        assert(self.tile_map.cell_consistent(c.x as int, c.y as int));
                        assert(self.tile_map.adjacent_bombs(c.x as int, c.y as int) == 0);
                    }
                    let mut adj: Vec<Coordinates> = self.adjacent_covered_tiles(c);
                    let ghost adj0: Seq<Coordinates> = adj@;
                    let ghost work1: Seq<Coordinates> = work@;
                    work.append(&mut adj);
                    proof {
                        assert(work@ == work1 + adj0);
                        assert forall|k: int|
                            0 <= k < work@.len() implies !(pre.tile_of(
                            #[trigger] work@[k],
                        ) is Bomb) by {
                            if k >= work1.len() {
                                let d = adj0[k - work1.len()];
                                assert(is_adjacent(c, d));
                                crate::tile_map::lemma_no_adjacent_bombs(self.tile_map, c, d);
                            }
                        }
                        assert forall|k: int| 0 <= k < work@.len() implies exists|j: int|
                            0 <= j < revealed@.len() && pre.tile_of(
                                (#[trigger] revealed@[j]).0,
                            ) is Empty && is_adjacent(revealed@[j].0, #[trigger] work@[k]) by {
                            if k < work1.len() {
                                assert(work@[k] == work1[k]);
                            } else {
                                assert(work@[k] == adj0[k - work1.len()]);
                                assert(revealed@[revealed@.len() - 1].0 == c);
                                assert(is_adjacent(c, work@[k]));
                            }
                        }
                        assert forall|i: int, d: Coordinates|
                            0 <= i < revealed@.len() && pre.tile_of(revealed@[i].0) is Empty
                                && #[trigger] is_adjacent(
                                (#[trigger] revealed@[i]).0,
                                d,
                            ) implies !self.is_covered(d) || work@.contains(d) by {
                            if self.is_covered(d) {
                                assert(d != c);
                                if i < revealed@.len() - 1 {
                                    assert(revealed@[i] == revealed0[i]);
                                    assert(snap.is_covered(d));
                                    assert(work0.contains(d));
                                    assert(work1.contains(d));
                                    let m = choose|m: int|
                                        0 <= m < work1.len() && work1[m] == d;
                                    assert(work@[m] == d);
                                } else {
                                    assert(revealed@[i].0 == c);
                                    assert(adj0.contains(d));
                                    let m = choose|m: int| 0 <= m < adj0.len() && adj0[m] == d;
                                    assert(work@[work1.len() + m] == d);
                                }
                            }
                        }
                    }
                } else {
                    proof {
                        assert forall|i: int, d: Coordinates|
                            0 <= i < revealed@.len() && pre.tile_of(revealed@[i].0) is Empty
                                && #[trigger] is_adjacent(
                                (#[trigger] revealed@[i]).0,
                                d,
                            ) implies !self.is_covered(d) || work@.contains(d) by {
                            if self.is_covered(d) {
                                assert(d != c);
                                assert(i < revealed@.len() - 1);
                                assert(revealed@[i] == revealed0[i]);
                                assert(snap.is_covered(d));
                                assert(work0.contains(d));
                            }
                        }
                    }
                }
                proof {
                    lemma_count_some_bounds(self.covered@, self.n_cells());
                }
            },
        }
    }
}

/// Everything that holds at each step of a running flood fill on board `b`,
/// relative to the board `pre` as it stood when the player triggered
/// `trigger`: the reveal log is sound (cells really went from covered to
/// uncovered, handles match, no cell twice, nothing else changed), the
/// expansion never holds or reveals a bomb beyond the trigger, every entry
/// traces back to an `Empty` revealed cell, and any covered neighbor of a
/// revealed `Empty` cell still waits in the worklist.
#[verifier::opaque]
pub open spec fn flood_inv(
    pre: Board,
    trigger: Coordinates,
    b: Board,
    work: Seq<Coordinates>,
    revealed: Seq<(Coordinates, u64)>,
) -> bool {
    &&& b.wf()
    &&& b.tile_map == pre.tile_map
    &&& pre.is_covered(trigger)
    &&& !pre.is_marked(trigger)
    &&& !(pre.tile_of(trigger) is Bomb)
    &&& revealed.len() >= 1
    &&& revealed[0].0 == trigger
    &&& forall|i: int|
        0 <= i < revealed.len() ==> {
            let c = (#[trigger] revealed[i]).0;
            &&& pre.is_covered(c)
            &&& !b.is_covered(c)
            &&& revealed[i].1 == pre.cover_handle(c)
        }
    &&& forall|i: int, j: int|
        0 <= i < j < revealed.len() ==> (#[trigger] revealed[i]).0 != (#[trigger] revealed[j]).0
    &&& forall|d: Coordinates|
        !reveals(revealed, d) ==> (#[trigger] b.is_covered(d)) == pre.is_covered(d)
    &&& forall|d: Coordinates|
        !reveals(revealed, d) ==> (#[trigger] b.is_marked(d)) == pre.is_marked(d)
    &&& forall|d: Coordinates|
        !reveals(revealed, d) && b.is_covered(d) ==> (#[trigger] b.cover_handle(d))
            == pre.cover_handle(d)
    &&& forall|i: int| 1 <= i < revealed.len() ==> !(pre.tile_of((#[trigger] revealed[i]).0) is Bomb)
    &&& forall|k: int| 0 <= k < work.len() ==> !(pre.tile_of(#[trigger] work[k]) is Bomb)
    &&& forall|k: int|
        0 <= k < work.len() ==> exists|j: int|
            0 <= j < revealed.len() && pre.tile_of((#[trigger] revealed[j]).0) is Empty
                && is_adjacent(revealed[j].0, #[trigger] work[k])
    &&& expansion_traceable(pre, revealed)
    &&& forall|i: int, d: Coordinates|
        0 <= i < revealed.len() && pre.tile_of(revealed[i].0) is Empty && #[trigger] is_adjacent(
            (#[trigger] revealed[i]).0,
            d,
        ) ==> !b.is_covered(d) || work.contains(d)
}


/// At a bomb trigger the flood fill stops after its single reveal: this
/// packages the outcome facts for that exit.
proof fn lemma_flood_explode(
    pre: Board,
    trigger: Coordinates,
    b: Board,
    revealed: Seq<(Coordinates, u64)>,
)
    requires
        pre.is_covered(trigger),
        uncover_transition(pre, b, trigger),
        revealed.len() == 1,
        revealed[0].0 == trigger,
        revealed[0].1 == pre.cover_handle(trigger),
        pre.tile_of(trigger) is Bomb,
    ensures
        forall|i: int|
            0 <= i < revealed.len() ==> {
                let c = (#[trigger] revealed[i]).0;
                &&& pre.is_covered(c)
                &&& !b.is_covered(c)
                &&& revealed[i].1 == pre.cover_handle(c)
            },
        forall|i: int, j: int|
            0 <= i < j < revealed.len() ==> (#[trigger] revealed[i]).0 != (
            #[trigger] revealed[j]).0,
        forall|d: Coordinates|
            !reveals(revealed, d) ==> (#[trigger] b.is_covered(d)) == pre.is_covered(d),
        forall|d: Coordinates|
            !reveals(revealed, d) ==> (#[trigger] b.is_marked(d)) == pre.is_marked(d),
        forall|d: Coordinates|
            !reveals(revealed, d) && b.is_covered(d) ==> (#[trigger] b.cover_handle(d))
                == pre.cover_handle(d),
        forall|i: int| 1 <= i < revealed.len() ==> !(pre.tile_of((#[trigger] revealed[i]).0) is Bomb),
        expansion_traceable(pre, revealed),
        forall|i: int, d: Coordinates|
            0 <= i < revealed.len() && pre.tile_of(revealed[i].0) is Empty
                && #[trigger] is_adjacent((#[trigger] revealed[i]).0, d) ==> !b.is_covered(d),
{
    reveal(expansion_traceable);
    assert forall|d: Coordinates| !reveals(revealed, d) implies d != trigger by {
        assert(revealed[0].0 == trigger);
    }
}

/// When the worklist has drained, the running invariant yields the final
/// facts of the flood fill: in particular no covered neighbor of a revealed
/// `Empty` cell is left.
proof fn lemma_flood_done(
    pre: Board,
    trigger: Coordinates,
    b: Board,
    work: Seq<Coordinates>,
    revealed: Seq<(Coordinates, u64)>,
)
    requires
        flood_inv(pre, trigger, b, work, revealed),
        work.len() == 0,
    ensures
        b.wf(),
        b.tile_map == pre.tile_map,
        revealed.len() >= 1,
        revealed[0].0 == trigger,
        !(pre.tile_of(trigger) is Bomb),
        forall|i: int|
            0 <= i < revealed.len() ==> {
                let c = (#[trigger] revealed[i]).0;
                &&& pre.is_covered(c)
                &&& !b.is_covered(c)
                &&& revealed[i].1 == pre.cover_handle(c)
            },
        forall|i: int, j: int|
            0 <= i < j < revealed.len() ==> (#[trigger] revealed[i]).0 != (
            #[trigger] revealed[j]).0,
        forall|d: Coordinates|
            !reveals(revealed, d) ==> (#[trigger] b.is_covered(d)) == pre.is_covered(d),
        forall|d: Coordinates|
            !reveals(revealed, d) ==> (#[trigger] b.is_marked(d)) == pre.is_marked(d),
        forall|d: Coordinates|
            !reveals(revealed, d) && b.is_covered(d) ==> (#[trigger] b.cover_handle(d))
                == pre.cover_handle(d),
        forall|i: int| 1 <= i < revealed.len() ==> !(pre.tile_of((#[trigger] revealed[i]).0) is Bomb),
        expansion_traceable(pre, revealed),
        forall|i: int, d: Coordinates|
            0 <= i < revealed.len() && pre.tile_of(revealed[i].0) is Empty
                && #[trigger] is_adjacent((#[trigger] revealed[i]).0, d) ==> !b.is_covered(d),
{
    reveal(flood_inv);
    assert forall|i: int, d: Coordinates|
        0 <= i < revealed.len() && pre.tile_of(revealed[i].0) is Empty && #[trigger] is_adjacent(
            (#[trigger] revealed[i]).0,
            d,
        ) implies !b.is_covered(d) by {
        assert(!work.contains(d));
    }
}

} // verus!

//! The immutable bomb grid: placement of bombs and derivation of per-cell
//! neighbor counts. Cover/mark state lives on the board, not here.

use vstd::prelude::*;
use crate::coordinates::{Coordinates, in_bounds, is_adjacent};
use crate::errors::ConfigError;
use crate::random::random_below;
use crate::tile::Tile;

verus! {

/// 1 when the condition holds, 0 otherwise; for counting bombs.
pub open spec fn b2i(b: bool) -> int {
    if b {
        1
    } else {
        0
    }
}

/// The tile a non-bomb cell must hold when `n` of its neighbors are bombs.
pub open spec fn count_to_tile(n: int) -> Tile {
    if n == 0 {
        Tile::Empty
    } else {
        Tile::BombNeighbor(n as u8)
    }
}

/// A `width x height` grid of tiles, row-major from the bottom-left corner:
/// cell `(x, y)` sits at index `y * width + x`.
#[derive(Debug)]
pub struct TileMap {
    pub width: u16,
    pub height: u16,
    pub bomb_count: u16,
    pub tiles: Vec<Tile>,
}

impl TileMap {
    pub open spec fn n_cells(self) -> int {
        self.width * self.height
    }

    /// Non-degenerate dimensions and a fully allocated grid.
    pub open spec fn grid_wf(self) -> bool {
        &&& 1 <= self.width
        &&& 1 <= self.height
        &&& self.tiles@.len() == self.n_cells()
    }

    /// Row-major index of cell `(x, y)`.
    pub open spec fn lidx(self, x: int, y: int) -> int {
        y * self.width + x
    }

    pub open spec fn on_grid(self, x: int, y: int) -> bool {
        0 <= x < self.width && 0 <= y < self.height
    }

    pub open spec fn tile_at(self, x: int, y: int) -> Tile {
        self.tiles@[self.lidx(x, y)]
    }

    /// There is a bomb at `(x, y)`; false off the grid.
    pub open spec fn bomb_at(self, x: int, y: int) -> bool {
        self.on_grid(x, y) && self.tile_at(x, y) is Bomb
    }

    /// How many of the up-to-8 neighbors of `(x, y)` hold a bomb.
    pub open spec fn adjacent_bombs(self, x: int, y: int) -> int {
        b2i(self.bomb_at(x - 1, y - 1)) + b2i(self.bomb_at(x, y - 1)) + b2i(
            self.bomb_at(x + 1, y - 1),
        ) + b2i(self.bomb_at(x - 1, y)) + b2i(self.bomb_at(x + 1, y)) + b2i(
            self.bomb_at(x - 1, y + 1),
        ) + b2i(self.bomb_at(x, y + 1)) + b2i(self.bomb_at(x + 1, y + 1))
    }

    /// A non-bomb cell stores exactly its neighbor-bomb count:
    /// `Empty` for 0, `BombNeighbor(n)` otherwise.
    pub open spec fn cell_consistent(self, x: int, y: int) -> bool {
        !(self.tile_at(x, y) is Bomb) ==> self.tile_at(x, y) == count_to_tile(
            self.adjacent_bombs(x, y),
        )
    }

    /// Every cell of the grid is consistent with the bomb layout.
    pub open spec fn counts_consistent(self) -> bool {
        forall|x: int, y: int| self.on_grid(x, y) ==> #[trigger] self.cell_consistent(x, y)
    }

    pub open spec fn all_empty(self) -> bool {
        forall|x: int, y: int| self.on_grid(x, y) ==> #[trigger] self.tile_at(x, y) is Empty
    }

    /// The set of coordinates holding a bomb.
    pub open spec fn bomb_set(self) -> Set<Coordinates> {
        Set::new(|c: Coordinates| self.bomb_at(c.x as int, c.y as int))
    }
}

/// A row-major index stays within the grid, and the grid of a `u16 x u16`
/// map is small enough for `usize` index arithmetic.
pub proof fn lemma_lidx_bounds(w: int, h: int, x: int, y: int)
    by (nonlinear_arith)
    requires
        0 <= x < w <= 0xffff,
        0 <= y < h <= 0xffff,
    ensures
        0 <= y * w + x < w * h,
        w * h <= 0xffff * 0xffff,
{
}

/// Distinct cells have distinct row-major indices.
pub proof fn lemma_lidx_injective(w: int, x1: int, y1: int, x2: int, y2: int)
    by (nonlinear_arith)
    requires
        0 <= x1 < w,
        0 <= x2 < w,
        0 <= y1,
        0 <= y2,
        y1 * w + x1 == y2 * w + x2,
    ensures
        x1 == x2,
        y1 == y2,
{
}

/// Law: a grid with consistent counts holds only normalized tiles — a
/// `BombNeighbor` count is never 0 (that cell would be `Empty`) and never
/// above 8, the size of an 8-neighborhood.
pub proof fn lemma_consistent_tiles_normalized(m: TileMap)
    requires
        m.counts_consistent(),
    ensures
        forall|x: int, y: int| m.on_grid(x, y) ==> (#[trigger] m.tile_at(x, y)).wf(),
{
    assert forall|x: int, y: int| m.on_grid(x, y) implies (#[trigger] m.tile_at(x, y)).wf() by {
        assert(m.cell_consistent(x, y));
        assert(0 <= m.adjacent_bombs(x, y) <= 8);
    }
}

/// A cell whose neighbor-bomb count is zero has no bomb on any adjacent cell.
pub proof fn lemma_no_adjacent_bombs(m: TileMap, c: Coordinates, d: Coordinates)
    requires
        m.adjacent_bombs(c.x as int, c.y as int) == 0,
        is_adjacent(c, d),
    ensures
        !m.bomb_at(d.x as int, d.y as int),
{
}

impl TileMap {
    /// A grid of the given dimensions with every cell `Empty` and no bombs.
    /// Zero dimensions are rejected.
    pub fn empty(width: u16, height: u16) -> (r: Result<TileMap, ConfigError>)
        ensures
            r is Ok <==> 1 <= width && 1 <= height,
            r matches Err(e) ==> e == ConfigError::ZeroDimension,
            r matches Ok(m) ==> {
                &&& m.grid_wf()
                &&& m.width == width
                &&& m.height == height
                &&& m.bomb_count == 0
                &&& m.all_empty()
            },
    {
        if width == 0 || height == 0 {
            return Err(ConfigError::ZeroDimension);
        }
        proof {
            assert((width as int) * (height as int) <= 0xffff * 0xffff) by (nonlinear_arith)
                requires
                    width as int <= 0xffff,
                    height as int <= 0xffff,
            ;
        }
        let n: usize = (width as usize) * (height as usize);
        let mut tiles: Vec<Tile> = Vec::new();
        let mut k: usize = 0;
        while k < n
            invariant
                k <= n,
                tiles@.len() == k,
                forall|i: int| 0 <= i < k ==> tiles@[i] is Empty,
            decreases n - k,
        {
            tiles.push(Tile::Empty);
            k += 1;
        }
        let m = TileMap { width, height, bomb_count: 0, tiles };
        proof {
            assert forall|x: int, y: int| m.on_grid(x, y) implies #[trigger] m.tile_at(x, y)
                is Empty by {
                lemma_lidx_bounds(width as int, height as int, x, y);
            }
        }
        Ok(m)
    }

    pub fn width(&self) -> (r: u16)
        ensures
            r == self.width,
    {
        self.width
    }

    pub fn height(&self) -> (r: u16)
        ensures
            r == self.height,
    {
        self.height
    }

    pub fn bomb_count(&self) -> (r: u16)
        ensures
            r == self.bomb_count,
    {
        self.bomb_count
    }

    /// The tile stored at an in-bounds coordinate.
    pub fn tile(&self, c: Coordinates) -> (t: Tile)
        requires
            self.grid_wf(),
            in_bounds(c, self.width, self.height),
        ensures
            t == self.tile_at(c.x as int, c.y as int),
    {
        proof {
            lemma_lidx_bounds(self.width as int, self.height as int, c.x as int, c.y as int);
        }
        let i: usize = (c.y as usize) * (self.width as usize) + (c.x as usize);
        self.tiles[i]
    }

    /// Row `y` of the grid in x order, for presentation walks (the grid is
    /// row-major bottom-up, so rows come out bottom row first).
    pub fn row(&self, y: u16) -> (r: Vec<Tile>)
        requires
            self.grid_wf(),
            y < self.height,
        ensures
            r@.len() == self.width as int,
            forall|x: int| 0 <= x < self.width ==> (#[trigger] r@[x]) == self.tile_at(x, y as int),
    {
        let mut r: Vec<Tile> = Vec::new();
        let mut x: u16 = 0;
        while x < self.width
            invariant
                self.grid_wf(),
                y < self.height,
                x <= self.width,
                r@.len() == x as int,
                forall|k: int| 0 <= k < x ==> (#[trigger] r@[k]) == self.tile_at(k, y as int),
            decreases self.width - x,
        {
            r.push(self.tile(Coordinates { x, y }));
            x += 1;
        }
        r
    }

    /// Store `t` at `c`, leaving every other cell as it was.
    fn set_tile(&mut self, c: Coordinates, t: Tile)
        requires
            old(self).grid_wf(),
            in_bounds(c, old(self).width, old(self).height),
        ensures
            final(self).grid_wf(),
            final(self).width == old(self).width,
            final(self).height == old(self).height,
            final(self).bomb_count == old(self).bomb_count,
            final(self).tile_at(c.x as int, c.y as int) == t,
            forall|x: int, y: int|
                final(self).on_grid(x, y) && !(x == c.x as int && y == c.y as int) ==> (
                #[trigger] final(self).tile_at(x, y)) == old(self).tile_at(x, y),
    {
        proof {
            lemma_lidx_bounds(self.width as int, self.height as int, c.x as int, c.y as int);
        }
        let i: usize = (c.y as usize) * (self.width as usize) + (c.x as usize);
        self.tiles[i] = t;
        proof {
            assert forall|x: int, y: int|
                self.on_grid(x, y) && !(x == c.x as int && y == c.y as int) implies (
            #[trigger] self.tile_at(x, y)) == old(self).tile_at(x, y) by {
                lemma_lidx_bounds(self.width as int, self.height as int, x, y);
                if self.lidx(x, y) == self.lidx(c.x as int, c.y as int) {
                    lemma_lidx_injective(self.width as int, x, y, c.x as int, c.y as int);
                }
            }
        }
    }

    /// Bomb test that tolerates off-grid positions, for neighbor scans.
    fn bomb_test(&self, x: i64, y: i64) -> (r: bool)
        requires
            self.grid_wf(),
        ensures
            r == self.bomb_at(x as int, y as int),
    {
        if 0 <= x && x < self.width as i64 && 0 <= y && y < self.height as i64 {
            proof {
                lemma_lidx_bounds(self.width as int, self.height as int, x as int, y as int);
            }
            let i: usize = (y as usize) * (self.width as usize) + (x as usize);
            self.tiles[i].is_bomb()
        } else {
            false
        }
    }

    /// Count the bombs among the 8 neighbors of `c`.
    fn adjacent_bomb_count(&self, c: Coordinates) -> (n: u8)
        requires
            self.grid_wf(),
        ensures
            n as int == self.adjacent_bombs(c.x as int, c.y as int),
            n <= 8,
    {
        let x: i64 = c.x as i64;
        let y: i64 = c.y as i64;
        let mut n: u8 = 0;
        if self.bomb_test(x - 1, y - 1) {
            n += 1;
        }
        if self.bomb_test(x, y - 1) {
            n += 1;
        }
        if self.bomb_test(x + 1, y - 1) {
            n += 1;
        }
        if self.bomb_test(x - 1, y) {
            n += 1;
        }
        if self.bomb_test(x + 1, y) {
            n += 1;
        }
        if self.bomb_test(x - 1, y + 1) {
            n += 1;
        }
        if self.bomb_test(x, y + 1) {
            n += 1;
        }
        if self.bomb_test(x + 1, y + 1) {
            n += 1;
        }
        n
    }
}

/// Every cell of a `width x height` grid, row-major: the element at index
/// `i` is the cell whose row-major index is `i`.
fn all_coordinates(width: u16, height: u16) -> (r: Vec<Coordinates>)
    requires
        1 <= width,
        1 <= height,
    ensures
        r@.len() == width * height,
        forall|i: int|
            0 <= i < r@.len() ==> in_bounds(#[trigger] r@[i], width, height) && r@[i].y * width
                + r@[i].x == i,
{
    let mut r: Vec<Coordinates> = Vec::new();
    let mut y: u16 = 0;
    while y < height
        invariant
            y <= height,
            r@.len() == y * width,
            forall|i: int|
                0 <= i < r@.len() ==> in_bounds(#[trigger] r@[i], width, height) && r@[i].y * width
                    + r@[i].x == i,
        decreases height - y,
    {
        let mut x: u16 = 0;
        while x < width
            invariant
                x <= width,
                y < height,
                r@.len() == y * width + x,
                forall|i: int|
                    0 <= i < r@.len() ==> in_bounds(#[trigger] r@[i], width, height) && r@[i].y
                        * width + r@[i].x == i,
            decreases width - x,
        {
            r.push(Coordinates { x, y });
            x += 1;
        }
        proof {
            assert((y + 1) * width == y * width + width) by (nonlinear_arith);
        }
        y += 1;
    }
    proof {
        assert(height * width == width * height) by (nonlinear_arith);
    }
    r
}

/// `count` distinct in-bounds cells, drawn uniformly without replacement:
/// a partial Fisher-Yates shuffle of the full cell list, first `count` kept.
fn pick_distinct(width: u16, height: u16, count: u16) -> (r: Vec<Coordinates>)
    requires
        1 <= width,
        1 <= height,
        count as int <= width as int * height as int,
    ensures
        r@.len() == count,
        r@.no_duplicates(),
        forall|i: int| 0 <= i < r@.len() ==> in_bounds(#[trigger] r@[i], width, height),
{
    let mut pool: Vec<Coordinates> = all_coordinates(width, height);
    proof {
        assert forall|i: int, j: int|
            0 <= i < pool@.len() && 0 <= j < pool@.len() && i != j implies pool@[i]
            != pool@[j] by {
            assert(pool@[i].y * width + pool@[i].x == i);
            assert(pool@[j].y * width + pool@[j].x == j);
        }
        assert(pool@.no_duplicates());
    }
    let n: usize = pool.len();
    let mut k: usize = 0;
    while k < count as usize
        invariant
            k <= count as usize,
            count as int <= pool@.len(),
            pool@.len() == n,
            pool@.no_duplicates(),
            forall|i: int| 0 <= i < pool@.len() ==> in_bounds(#[trigger] pool@[i], width, height),
        decreases count - k,
    {
        let j: usize = random_below(n - k);
        let idx: usize = k + j;
        let ghost p0: Seq<Coordinates> = pool@;
        let a: Coordinates = pool[k];
        let b: Coordinates = pool[idx];
        pool[k] = b;
        pool[idx] = a;
        proof {
            assert forall|i1: int, i2: int|
                0 <= i1 < pool@.len() && 0 <= i2 < pool@.len() && i1 != i2 implies pool@[i1]
                != pool@[i2] by {
                assert(p0.no_duplicates());
            }
            assert(pool@.no_duplicates());
        }
        k += 1;
    }
    let ghost full: Seq<Coordinates> = pool@;
    pool.truncate(count as usize);
    proof {
        assert forall|i1: int, i2: int|
            0 <= i1 < pool@.len() && 0 <= i2 < pool@.len() && i1 != i2 implies pool@[i1]
            != pool@[i2] by {
            assert(pool@[i1] == full[i1]);
            assert(pool@[i2] == full[i2]);
        }
        assert(pool@.no_duplicates());
    }
    pool
}

impl TileMap {
    /// Place a bomb at each of the given coordinates (all distinct, all in
    /// bounds) on a fresh all-`Empty` grid, then derive every non-bomb
    /// cell's neighbor count. Afterwards the bomb cells are exactly the
    /// given coordinates, so exactly `bombs.len()` bombs sit on the grid.
    pub fn place_bombs_at(&mut self, bombs: &Vec<Coordinates>)
        requires
            old(self).grid_wf(),
            old(self).all_empty(),
            bombs@.no_duplicates(),
            forall|i: int|
                0 <= i < bombs@.len() ==> in_bounds(
                    #[trigger] bombs@[i],
                    old(self).width,
                    old(self).height,
                ),
            bombs@.len() <= 0xffff,
        ensures
            final(self).grid_wf(),
            final(self).width == old(self).width,
            final(self).height == old(self).height,
            final(self).counts_consistent(),
            final(self).bomb_count == bombs@.len(),
            forall|x: int, y: int|
                final(self).on_grid(x, y) ==> ((#[trigger] final(self).bomb_at(x, y))
                    <==> bombs@.contains(Coordinates { x: x as u16, y: y as u16 })),
            final(self).bomb_set() == bombs@.to_set(),
            final(self).bomb_set().finite(),
            final(self).bomb_set().len() == bombs@.len(),
    {
        let mut k: usize = 0;
        while k < bombs.len()
            invariant
                self.grid_wf(),
                self.width == old(self).width,
                self.height == old(self).height,
                k <= bombs@.len(),
                bombs@.len() <= 0xffff,
                forall|i: int|
                    0 <= i < bombs@.len() ==> in_bounds(
                        #[trigger] bombs@[i],
                        self.width,
                        self.height,
                    ),
                forall|x: int, y: int|
                    self.on_grid(x, y) ==> ((#[trigger] self.tile_at(x, y) is Bomb)
                        <==> exists|m: int|
                        0 <= m < k && bombs@[m] == Coordinates { x: x as u16, y: y as u16 }),
            decreases bombs@.len() - k,
        {
            let ghost prev: TileMap = *self;
            let c: Coordinates = bombs[k];
            self.set_tile(c, Tile::Bomb);
            k += 1;
            proof {
                assert forall|x: int, y: int| self.on_grid(x, y) implies ((
                #[trigger] self.tile_at(x, y) is Bomb) <==> exists|m: int|
                    0 <= m < k && bombs@[m] == Coordinates { x: x as u16, y: y as u16 }) by {
                    let cc = Coordinates { x: x as u16, y: y as u16 };
                    if x == c.x as int && y == c.y as int {
                        assert(bombs@[k - 1] == cc);
                    } else {
                        assert(self.tile_at(x, y) == prev.tile_at(x, y));
                        if exists|m: int| 0 <= m < k && bombs@[m] == cc {
                            let m = choose|m: int| 0 <= m < k && bombs@[m] == cc;
                            assert(m < k - 1);
                        }
                    }
                }
            }
        }
        let ghost mid: TileMap = *self;
        self.bomb_count = bombs.len() as u16;
        proof {
            assert forall|x: int, y: int| self.on_grid(x, y) implies ((#[trigger] self.tile_at(
                x,
                y,
            ) is Bomb) <==> exists|m: int|
                0 <= m < bombs@.len() && bombs@[m] == Coordinates {
                    x: x as u16,
                    y: y as u16,
                }) by {
                assert(mid.on_grid(x, y));
                assert(self.tile_at(x, y) == mid.tile_at(x, y));
            }
        }
        let ghost mid2: TileMap = *self;
        self.derive_counts();
        proof {
            let fin: TileMap = *self;
            assert forall|x: int, y: int| fin.on_grid(x, y) implies ((#[trigger] fin.bomb_at(x, y))
                <==> bombs@.contains(Coordinates { x: x as u16, y: y as u16 })) by {
                let cc = Coordinates { x: x as u16, y: y as u16 };
                assert(fin.bomb_at(x, y) == mid2.bomb_at(x, y));
                assert((mid2.tile_at(x, y) is Bomb) <==> exists|m: int|
                    0 <= m < bombs@.len() && bombs@[m] == cc);
            }
            assert forall|c: Coordinates| #[trigger]
                fin.bomb_set().contains(c) implies bombs@.to_set().contains(c) by {
                assert(fin.bomb_at(c.x as int, c.y as int));
            }
            assert forall|c: Coordinates| #[trigger]
                bombs@.to_set().contains(c) implies fin.bomb_set().contains(c) by {
                let i = choose|i: int| 0 <= i < bombs@.len() && bombs@[i] == c;
                assert(in_bounds(c, fin.width, fin.height));
                assert(fin.bomb_at(c.x as int, c.y as int));
            }
            assert(fin.bomb_set() =~= bombs@.to_set());
            bombs@.unique_seq_to_set();
            vstd::seq_lib::seq_to_set_is_finite(bombs@);
        }
    }

    /// Recompute every non-bomb cell from the current bomb layout.
    fn derive_counts(&mut self)
        requires
            old(self).grid_wf(),
        ensures
            final(self).grid_wf(),
            final(self).width == old(self).width,
            final(self).height == old(self).height,
            final(self).bomb_count == old(self).bomb_count,
            forall|x: int, y: int| (#[trigger] final(self).bomb_at(x, y)) == old(self).bomb_at(
                x,
                y,
            ),
            final(self).counts_consistent(),
    {
        let w: u16 = self.width;
        let h: u16 = self.height;
        let mut y: u16 = 0;
        while y < h
            invariant
                self.grid_wf(),
                self.width == old(self).width,
                self.height == old(self).height,
                self.bomb_count == old(self).bomb_count,
                w == self.width,
                h == self.height,
                y <= h,
                forall|x2: int, y2: int| (#[trigger] self.bomb_at(x2, y2)) == old(self).bomb_at(
                    x2,
                    y2,
                ),
                forall|x2: int, y2: int|
                    self.on_grid(x2, y2) && y2 < y ==> #[trigger] self.cell_consistent(x2, y2),
            decreases h - y,
        {
            let mut x: u16 = 0;
            while x < w
                invariant
                    self.grid_wf(),
                    self.width == old(self).width,
                    self.height == old(self).height,
                    self.bomb_count == old(self).bomb_count,
                    w == self.width,
                    h == self.height,
                    y < h,
                    x <= w,
                    forall|x2: int, y2: int| (#[trigger] self.bomb_at(x2, y2)) == old(
                        self,
                    ).bomb_at(x2, y2),
                    forall|x2: int, y2: int|
                        self.on_grid(x2, y2) && (y2 < y || (y2 == y && x2 < x))
                            ==> #[trigger] self.cell_consistent(x2, y2),
                decreases w - x,
            {
                let c: Coordinates = Coordinates { x, y };
                let t: Tile = self.tile(c);
                if !t.is_bomb() {
                    let ghost prev: TileMap = *self;
                    let n: u8 = self.adjacent_bomb_count(c);
                    let nt: Tile = if n == 0 {
                        Tile::Empty
                    } else {
                        Tile::BombNeighbor(n)
                    };
                    self.set_tile(c, nt);
                    proof {
                        assert forall|x2: int, y2: int| (#[trigger] self.bomb_at(x2, y2)) == prev
                            .bomb_at(x2, y2) by {
                            if x2 == x as int && y2 == y as int {
                                assert(self.tile_at(x2, y2) == nt);
                            }
                        }
                        assert(self.adjacent_bombs(x as int, y as int) == prev.adjacent_bombs(
                            x as int,
                            y as int,
                        ));
                        assert(self.cell_consistent(x as int, y as int));
                        assert forall|x2: int, y2: int|
                            self.on_grid(x2, y2) && (y2 < y || (y2 == y && x2
                                < x)) implies #[trigger] self.cell_consistent(x2, y2) by {
                            assert(prev.cell_consistent(x2, y2));
                            assert(self.tile_at(x2, y2) == prev.tile_at(x2, y2));
                            assert(self.adjacent_bombs(x2, y2) == prev.adjacent_bombs(x2, y2));
                        }
                    }
                } else {
                    proof {
                        assert(self.cell_consistent(x as int, y as int));
                    }
                }
                x += 1;
            }
            y += 1;
        }
    }

    /// Place `count` bombs at distinct cells chosen uniformly at random
    /// without replacement, then derive every neighbor count. A request for
    /// more bombs than the grid has cells is rejected, leaving the grid
    /// untouched.
    pub fn set_bombs(&mut self, count: u16) -> (r: Result<(), ConfigError>)
        requires
            old(self).grid_wf(),
            old(self).all_empty(),
        ensures
            r is Ok <==> count as int <= old(self).n_cells(),
            r matches Err(e) ==> e == ConfigError::TooManyBombs && *final(self) == *old(self),
            r is Ok ==> {
                &&& final(self).grid_wf()
                &&& final(self).width == old(self).width
                &&& final(self).height == old(self).height
                &&& final(self).counts_consistent()
                &&& final(self).bomb_count == count
                &&& final(self).bomb_set().finite()
                &&& final(self).bomb_set().len() == count as int
            },
    {
        proof {
            lemma_lidx_bounds(
                self.width as int,
                self.height as int,
                self.width as int - 1,
                self.height as int - 1,
            );
        }
        let cells: u32 = (self.width as u32) * (self.height as u32);
        if (count as u32) > cells {
            return Err(ConfigError::TooManyBombs);
        }
        let picks: Vec<Coordinates> = pick_distinct(self.width, self.height, count);
        self.place_bombs_at(&picks);
        proof {
            picks@.unique_seq_to_set();
        }
        Ok(())
    }
}

} // verus!

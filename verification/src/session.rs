//! The game session: a state machine that forwards player intents to the
//! board only while running, and turns board changes into outcome events.

use vstd::prelude::*;
use crate::board::{Board, FloodOutcome, expansion_traceable, reveals};
use crate::coordinates::{Coordinates, in_bounds, is_adjacent};
use crate::errors::ConfigError;
use crate::events::{BoardCompletedEvent, BombExplosionEvent, TileMarkEvent, TileTriggerEvent};
use crate::tile_map::TileMap;

verus! {

/// Where the session stands; intents to uncover or mark are acted on only
/// while `Running`.
#[derive(Clone, Copy, PartialEq, Eq, Structural, Debug)]
pub enum SessionState {
    NotStarted,
    Running,
    Paused,
    /// Finished, by explosion or by completion.
    Over,
    /// Passed through while a finished session rebuilds its board.
    Restarting,
}

/// What a session is started with. `tile_size` and padding are presentation
/// concerns and stay with the host.
#[derive(Clone, Copy, PartialEq, Eq, Structural, Debug)]
pub struct GameConfig {
    pub map_width: u16,
    pub map_height: u16,
    pub bomb_count: u16,
    /// Auto-trigger the first `Empty` cell in grid order right after
    /// generation.
    pub safe_start: bool,
}

impl GameConfig {
    /// Accepted configurations: no zero dimension, no more bombs than cells.
    pub open spec fn valid(self) -> bool {
        &&& 1 <= self.map_width
        &&& 1 <= self.map_height
        &&& self.bomb_count <= self.map_width * self.map_height
    }
}

/// What one activation produced: the uncovered cells with their cover
/// handles, and the terminal events, if any.
#[derive(Debug)]
pub struct ActivateOutcome {
    pub revealed: Vec<(Coordinates, u64)>,
    pub explosion: Option<BombExplosionEvent>,
    pub completed: Option<BoardCompletedEvent>,
}

/// What one accepted mark toggle produced, for the presentation swap.
#[derive(Clone, Copy, PartialEq, Eq, Structural, Debug)]
pub struct MarkOutcome {
    pub handle: u64,
    pub now_marked: bool,
}

/// How the board and the outcome events relate to the board `b0` as it
/// stood when the player triggered `c`: a miss (uncovered, flagged or
/// off-board target) changes nothing; otherwise the flood fill's guarantees
/// hold of the reveal log, a bomb trigger explodes after exactly one
/// reveal, and completion is reported exactly when the flood left only
/// bombs covered.
pub open spec fn trigger_outcome_ok(
    b0: Board,
    b1: Board,
    c: Coordinates,
    out: ActivateOutcome,
) -> bool {
    &&& b1.wf()
    &&& b1.tile_map == b0.tile_map
    &&& !(b0.is_covered(c) && !b0.is_marked(c)) ==> b1 == b0 && out.revealed@.len() == 0
        && out.explosion is None && out.completed is None
    &&& b0.is_covered(c) && !b0.is_marked(c) ==> {
        &&& out.revealed@.len() >= 1
        &&& out.revealed@[0].0 == c
        &&& (out.explosion is Some <==> b0.tile_of(c) is Bomb)
        &&& (b0.tile_of(c) is Bomb ==> out.revealed@.len() == 1)
    }
    &&& out.completed is Some <==> (b0.is_covered(c) && !b0.is_marked(c) && !(b0.tile_of(
        c,
    ) is Bomb) && b1.completed())
    &&& forall|i: int|
        0 <= i < out.revealed@.len() ==> {
            let d = (#[trigger] out.revealed@[i]).0;
            &&& b0.is_covered(d)
            &&& !b1.is_covered(d)
            &&& out.revealed@[i].1 == b0.cover_handle(d)
        }
    &&& forall|i: int, j: int|
        0 <= i < j < out.revealed@.len() ==> (#[trigger] out.revealed@[i]).0 != (
        #[trigger] out.revealed@[j]).0
    &&& forall|d: Coordinates|
        !reveals(out.revealed@, d) ==> (#[trigger] b1.is_covered(d)) == b0.is_covered(d)
    &&& forall|d: Coordinates|
        !reveals(out.revealed@, d) ==> (#[trigger] b1.is_marked(d)) == b0.is_marked(d)
    &&& forall|i: int|
        1 <= i < out.revealed@.len() ==> !(b0.tile_of((#[trigger] out.revealed@[i]).0) is Bomb)
    &&& expansion_traceable(b0, out.revealed@)
    &&& forall|i: int, d: Coordinates|
        0 <= i < out.revealed@.len() && b0.tile_of(out.revealed@[i].0) is Empty
            && #[trigger] is_adjacent((#[trigger] out.revealed@[i]).0, d) ==> !b1.is_covered(d)
}

/// `c` is the first `Empty` cell of `m` in grid order: row-major from the
/// bottom-left corner, `y` outer, `x` inner.
pub open spec fn is_first_empty(m: TileMap, c: Coordinates) -> bool {
    &&& in_bounds(c, m.width, m.height)
    &&& m.tile_at(c.x as int, c.y as int) is Empty
    &&& forall|d: Coordinates|
        in_bounds(d, m.width, m.height) && (d.y < c.y || (d.y == c.y && d.x < c.x)) ==> !((
        #[trigger] m.tile_at(d.x as int, d.y as int)) is Empty)
}

/// The grid holds at least one `Empty` cell.
pub open spec fn has_empty_cell(m: TileMap) -> bool {
    exists|c: Coordinates|
        in_bounds(c, m.width, m.height) && (#[trigger] m.tile_at(c.x as int, c.y as int)) is Empty
}

/// What holds of a session right after its board was built and opened under
/// configuration `cfg`: the board matches the configured dimensions; every
/// cell outside the reveal log is covered and unmarked (so without safe
/// start the board is fully covered); the only possible reveals are the
/// safe-start trigger on the first `Empty` cell in grid order and its flood
/// fill; no explosion is possible; and completion is reported exactly when
/// that flood left only bombs covered, ending the session.
pub open spec fn opened_ok(cfg: GameConfig, s: Session, out: ActivateOutcome) -> bool {
    &&& s.board is Some
    &&& s.state is Running || s.state is Over
    &&& (s.state is Over <==> out.completed is Some)
    &&& out.explosion is None
    &&& s.board_view().tile_map.width == cfg.map_width
    &&& s.board_view().tile_map.height == cfg.map_height
    &&& (out.completed is Some <==> (out.revealed@.len() >= 1 && s.board_view().completed()))
    &&& forall|d: Coordinates|
        !reveals(out.revealed@, d) ==> ((#[trigger] s.board_view().is_covered(d)) <==> in_bounds(
            d,
            cfg.map_width,
            cfg.map_height,
        )) && !s.board_view().is_marked(d)
    &&& forall|i: int|
        0 <= i < out.revealed@.len() ==> !s.board_view().is_covered(
            (#[trigger] out.revealed@[i]).0,
        )
    &&& (!cfg.safe_start ==> out.revealed@.len() == 0 && s.board_view().covered_count()
        == s.board_view().n_cells())
    &&& (cfg.safe_start && out.revealed@.len() == 0 ==> !has_empty_cell(s.board_view().tile_map))
    &&& (out.revealed@.len() >= 1 ==> cfg.safe_start && is_first_empty(
        s.board_view().tile_map,
        out.revealed@[0].0,
    ))
}

/// One game session: configuration, state, and the board while one exists.
pub struct Session {
    pub state: SessionState,
    pub config: GameConfig,
    pub board: Option<Board>,
}

impl Session {
    /// In any state with a live board, the board is consistent and matches
    /// the configured dimensions.
    pub open spec fn wf(self) -> bool {
        (self.state is Running || self.state is Paused || self.state is Over) ==> {
            &&& self.board is Some
            &&& self.board->0.wf()
            &&& self.board->0.tile_map.width == self.config.map_width
            &&& self.board->0.tile_map.height == self.config.map_height
        }
    }

    /// The live board, where `wf` guarantees one.
    pub open spec fn board_view(self) -> Board {
        self.board->0
    }

    /// A fresh session that has not built a board yet.
    pub fn new(config: GameConfig) -> (s: Session)
        ensures
            s.wf(),
            s.state is NotStarted,
            s.config == config,
            s.board is None,
    {
        Session { state: SessionState::NotStarted, config, board: None }
    }

    /// Start the session: generate a grid, place the configured number of
    /// bombs at random, cover every cell, and, with `safe_start`, uncover
    /// the first `Empty` cell in grid order. An invalid configuration is
    /// rejected before any grid is built and the session stays unstarted.
    pub fn start(&mut self) -> (r: Result<ActivateOutcome, ConfigError>)
        requires
            old(self).state is NotStarted,
        ensures
            final(self).wf(),
            final(self).config == old(self).config,
            r is Ok <==> old(self).config.valid(),
            r is Err ==> *final(self) == *old(self),
            r matches Err(e) ==> (e == ConfigError::ZeroDimension <==> (old(self).config.map_width
                == 0 || old(self).config.map_height == 0)),
            r matches Ok(out) ==> {
                &&& opened_ok(old(self).config, *final(self), out)
                &&& final(self).board_view().tile_map.bomb_count == old(self).config.bomb_count
                &&& final(self).board_view().tile_map.counts_consistent()
                &&& final(self).board_view().tile_map.bomb_set().finite()
                &&& final(self).board_view().tile_map.bomb_set().len() == old(
                    self,
                ).config.bomb_count as int
            },
    {
        let map: TileMap = match build_map(self.config) {
            Ok(m) => m,
            Err(e) => {
                return Err(e);
            },
        };
        Ok(self.install_and_open(map))
    }

    /// Start the session on an externally supplied, already generated map,
    /// for reproducible sessions: same covering and safe-start behavior as
    /// `start`, no randomness.
    pub fn start_with_map(&mut self, map: TileMap) -> (out: ActivateOutcome)
        requires
            old(self).state is NotStarted,
            map.grid_wf(),
            map.counts_consistent(),
            map.width == old(self).config.map_width,
            map.height == old(self).config.map_height,
        ensures
            final(self).wf(),
            final(self).config == old(self).config,
            final(self).board_view().tile_map == map,
            opened_ok(old(self).config, *final(self), out),
    {
        self.install_and_open(map)
    }

    /// Install a finished map as a fully covered board, go `Running`, and
    /// perform the safe-start trigger if configured.
    fn install_and_open(&mut self, map: TileMap) -> (out: ActivateOutcome)
        requires
            map.grid_wf(),
            map.counts_consistent(),
            map.width == old(self).config.map_width,
            map.height == old(self).config.map_height,
        ensures
            final(self).wf(),
            final(self).config == old(self).config,
            final(self).board_view().tile_map == map,
            opened_ok(old(self).config, *final(self), out),
    {
        let handles: Vec<u64> = identity_handles(map.width(), map.height());
        let first: Option<Coordinates> = find_first_empty(&map);
        let ghost gmap: TileMap = map;
        let board: Board = Board::new(map, &handles);
        self.board = Some(board);
        self.state = SessionState::Running;
        if self.config.safe_start {
            match first {
                Some(c) => {
                    let out = self.run_trigger(c);
                    proof {
                        assert(!(gmap.tile_at(c.x as int, c.y as int) is Bomb));
                    }
                    return out;
                },
                None => {},
            }
        }
        ActivateOutcome { revealed: Vec::new(), explosion: None, completed: None }
    }

    /// An uncover intent. Acted on only while `Running`: the trigger runs
    /// the board's flood fill, and an explosion or a completed board ends
    /// the session.
    pub fn activate(&mut self, intent: TileTriggerEvent) -> (out: ActivateOutcome)
        requires
            old(self).wf(),
        ensures
            final(self).wf(),
            final(self).config == old(self).config,
            !(old(self).state is Running) ==> *final(self) == *old(self) && out.revealed@.len()
                == 0 && out.explosion is None && out.completed is None,
            old(self).state is Running ==> {
                &&& trigger_outcome_ok(
                    old(self).board_view(),
                    final(self).board_view(),
                    intent.0,
                    out,
                )
                &&& final(self).board is Some
                &&& (final(self).state is Over <==> (out.explosion is Some
                    || out.completed is Some))
                &&& (!(out.explosion is Some || out.completed is Some) ==> final(self).state is Running)
            },
    {
        match self.state {
            SessionState::Running => self.run_trigger(intent.0),
            _ => ActivateOutcome { revealed: Vec::new(), explosion: None, completed: None },
        }
    }

    /// The accepted trigger: flood-uncover, then decide explosion,
    /// completion and the session state.
    fn run_trigger(&mut self, c: Coordinates) -> (out: ActivateOutcome)
        requires
            old(self).wf(),
            old(self).state is Running,
        ensures
            final(self).wf(),
            final(self).config == old(self).config,
            final(self).board is Some,
            trigger_outcome_ok(old(self).board_view(), final(self).board_view(), c, out),
            (final(self).state is Over <==> (out.explosion is Some || out.completed is Some)),
            !(out.explosion is Some || out.completed is Some) ==> final(self).state is Running,
    {
        let mut b: Board = self.board.take().unwrap();
        let ghost b0: Board = b;
        let fo: FloodOutcome = b.flood_uncover(c);
        let done: bool = if fo.exploded {
            false
        } else if fo.revealed.len() > 0 {
            b.is_completed()
        } else {
            false
        };
        self.board = Some(b);
        if fo.exploded || done {
            self.state = SessionState::Over;
        }
        let out = ActivateOutcome {
            revealed: fo.revealed,
            explosion: if fo.exploded {
                Some(BombExplosionEvent)
            } else {
                None
            },
            completed: if done {
                Some(BoardCompletedEvent)
            } else {
                None
            },
        };
        proof {
            assert(trigger_outcome_ok(b0, final(self).board_view(), c, out));
        }
        out
    }

    /// A flag toggle intent. Acted on only while `Running`, and only on a
    /// still-covered cell; covers never change.
    pub fn mark(&mut self, intent: TileMarkEvent) -> (r: Option<MarkOutcome>)
        requires
            old(self).wf(),
        ensures
            final(self).wf(),
            final(self).config == old(self).config,
            final(self).state == old(self).state,
            !(old(self).state is Running) ==> r is None && *final(self) == *old(self),
            old(self).state is Running ==> {
                let b0 = old(self).board_view();
                let b1 = final(self).board_view();
                &&& final(self).board is Some
                &&& b1.tile_map == b0.tile_map
                &&& (!b0.is_covered(intent.0) ==> r is None && b1 == b0)
                &&& (b0.is_covered(intent.0) ==> {
                    &&& r == Some(
                        MarkOutcome {
                            handle: b0.cover_handle(intent.0),
                            now_marked: !b0.is_marked(intent.0),
                        },
                    )
                    &&& b1.is_marked(intent.0) == !b0.is_marked(intent.0)
                })
                &&& forall|d: Coordinates|
                    d != intent.0 ==> (#[trigger] b1.is_marked(d)) == b0.is_marked(d)
                &&& forall|d: Coordinates| (#[trigger] b1.is_covered(d)) == b0.is_covered(d)
            },
    {
        match self.state {
            SessionState::Running => {
                let mut b: Board = self.board.take().unwrap();
                let ghost b0: Board = b;
                let got: Option<(u64, bool)> = b.mark_request(intent.0);
                self.board = Some(b);
                proof {
                    assert forall|d: Coordinates| (#[trigger] final(self).board_view().is_covered(
                        d,
                    )) == b0.is_covered(d) by {
                        if d != intent.0 {
                        }
                    }
                }
                match got {
                    Some((handle, now_marked)) => Some(MarkOutcome { handle, now_marked }),
                    None => None,
                }
            },
            _ => None,
        }
    }

    /// The pause toggle: flips between `Running` and `Paused`; while paused
    /// (or in any other state) the board is left exactly as it is.
    pub fn pause_toggle(&mut self)
        requires
            old(self).wf(),
        ensures
            final(self).wf(),
            final(self).board == old(self).board,
            final(self).config == old(self).config,
            old(self).state is Running ==> final(self).state is Paused,
            old(self).state is Paused ==> final(self).state is Running,
            !(old(self).state is Running || old(self).state is Paused) ==> final(self).state
                == old(self).state,
    {
        match self.state {
            SessionState::Running => {
                self.state = SessionState::Paused;
            },
            SessionState::Paused => {
                self.state = SessionState::Running;
            },
            _ => {},
        }
    }

    /// A restart intent: only a finished session rebuilds, passing through
    /// `Restarting`, from its own configuration or a newly supplied one. A
    /// rejected new configuration leaves the finished session as it is.
    pub fn restart(&mut self, new_config: Option<GameConfig>) -> (r: Result<
        ActivateOutcome,
        ConfigError,
    >)
        requires
            old(self).wf(),
        ensures
            final(self).wf(),
            !(old(self).state is Over) ==> *final(self) == *old(self) && (r matches Ok(out)
                ==> out.revealed@.len() == 0 && out.explosion is None && out.completed is None),
            old(self).state is Over ==> {
                let cfg = if new_config is Some {
                    new_config->0
                } else {
                    old(self).config
                };
                &&& (r is Ok <==> cfg.valid())
                &&& (r is Err ==> *final(self) == *old(self))
                &&& (r matches Err(e) ==> (e == ConfigError::ZeroDimension <==> (cfg.map_width
                    == 0 || cfg.map_height == 0)))
                &&& (r matches Ok(out) ==> {
                    &&& final(self).config == cfg
                    &&& opened_ok(cfg, *final(self), out)
                    &&& final(self).board_view().tile_map.bomb_count == cfg.bomb_count
                    &&& final(self).board_view().tile_map.counts_consistent()
                    &&& final(self).board_view().tile_map.bomb_set().finite()
                    &&& final(self).board_view().tile_map.bomb_set().len() == cfg.bomb_count as int
                })
            },
    {
        match self.state {
            SessionState::Over => {
                let cfg: GameConfig = match new_config {
                    Some(c) => c,
                    None => self.config,
                };
                let map: TileMap = match build_map(cfg) {
                    Ok(m) => m,
                    Err(e) => {
                        return Err(e);
                    },
                };
                self.state = SessionState::Restarting;
                self.config = cfg;
                Ok(self.install_and_open(map))
            },
            _ => Ok(ActivateOutcome { revealed: Vec::new(), explosion: None, completed: None }),
        }
    }
}

/// Generate the grid for a configuration: an all-`Empty` map with
/// `bomb_count` bombs placed at random and every neighbor count derived.
fn build_map(config: GameConfig) -> (r: Result<TileMap, ConfigError>)
    ensures
        r is Ok <==> config.valid(),
        r matches Err(e) ==> (e == ConfigError::ZeroDimension <==> (config.map_width == 0
            || config.map_height == 0)),
        r matches Ok(m) ==> {
            &&& m.grid_wf()
            &&& m.counts_consistent()
            &&& m.width == config.map_width
            &&& m.height == config.map_height
            &&& m.bomb_count == config.bomb_count
            &&& m.bomb_set().finite()
            &&& m.bomb_set().len() == config.bomb_count as int
        },
{
    let mut map: TileMap = match TileMap::empty(config.map_width, config.map_height) {
        Ok(m) => m,
        Err(e) => {
            return Err(e);
        },
    };
    match map.set_bombs(config.bomb_count) {
        Ok(()) => Ok(map),
        Err(e) => Err(e),
    }
}

/// One opaque presentation handle per cell: the cell's own row-major index.
/// A host keeping richer per-cell objects maps these indices to them.
fn identity_handles(width: u16, height: u16) -> (r: Vec<u64>)
    requires
        1 <= width,
        1 <= height,
    ensures
        r@.len() == width * height,
        forall|i: int| 0 <= i < r@.len() ==> (#[trigger] r@[i]) == i as u64,
{
    proof {
        crate::tile_map::lemma_lidx_bounds(
            width as int,
            height as int,
            width as int - 1,
            height as int - 1,
        );
    }
    let n: usize = (width as usize) * (height as usize);
    let mut r: Vec<u64> = Vec::new();
    let mut i: usize = 0;
    while i < n
        invariant
            i <= n,
            n <= 0xffff_ffff,
            r@.len() == i,
            forall|k: int| 0 <= k < i ==> (#[trigger] r@[k]) == k as u64,
        decreases n - i,
    {
        r.push(i as u64);
        i += 1;
    }
    r
}

/// The first `Empty` cell in grid order (row-major from the bottom-left),
/// the safe-start target; none when the grid has no `Empty` cell.
fn find_first_empty(map: &TileMap) -> (r: Option<Coordinates>)
    requires
        map.grid_wf(),
    ensures
        r matches Some(c) ==> is_first_empty(*map, c),
        r is None ==> !has_empty_cell(*map),
{
    let w: u16 = map.width();
    let h: u16 = map.height();
    let mut y: u16 = 0;
    while y < h
        invariant
            map.grid_wf(),
            w == map.width,
            h == map.height,
            y <= h,
            forall|d: Coordinates|
                in_bounds(d, map.width, map.height) && d.y < y ==> !((#[trigger] map.tile_at(
                    d.x as int,
                    d.y as int,
                )) is Empty),
        decreases h - y,
    {
        let mut x: u16 = 0;
        while x < w
            invariant
                map.grid_wf(),
                w == map.width,
                h == map.height,
                y < h,
                x <= w,
                forall|d: Coordinates|
                    in_bounds(d, map.width, map.height) && (d.y < y || (d.y == y && d.x < x)) ==> !(
                    (#[trigger] map.tile_at(d.x as int, d.y as int)) is Empty),
            decreases w - x,
        {
            let c: Coordinates = Coordinates { x, y };
            if map.tile(c).is_empty() {
                return Some(c);
            }
            x += 1;
        }
        y += 1;
    }
    None
}

} // verus!

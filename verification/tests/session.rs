use minesweeper::coordinates::Coordinates;
use minesweeper::errors::ConfigError;
use minesweeper::events::{TileMarkEvent, TileTriggerEvent};
use minesweeper::session::{GameConfig, Session, SessionState};
use minesweeper::tile_map::TileMap;

fn c(x: u16, y: u16) -> Coordinates {
    Coordinates { x, y }
}

fn config_4x4() -> GameConfig {
    GameConfig { map_width: 4, map_height: 4, bomb_count: 1, safe_start: false }
}

/// A running 4x4 session with one bomb at (0, 0).
fn session_4x4() -> Session {
    let mut map = TileMap::empty(4, 4).unwrap();
    map.place_bombs_at(&vec![c(0, 0)]);
    let mut s = Session::new(config_4x4());
    let out = s.start_with_map(map);
    assert!(out.revealed.is_empty());
    s
}

#[test]
fn full_flood_completes_the_board() {
    let mut s = session_4x4();
    let out = s.activate(TileTriggerEvent(c(3, 3)));
    assert_eq!(out.revealed.len(), 15);
    assert!(out.explosion.is_none());
    assert!(out.completed.is_some());
    assert_eq!(s.state, SessionState::Over);
}

#[test]
fn marked_cell_is_an_activation_miss_until_unmarked() {
    let mut s = session_4x4();
    assert!(s.mark(TileMarkEvent(c(1, 1))).is_some());
    let out = s.activate(TileTriggerEvent(c(1, 1)));
    assert!(out.revealed.is_empty());
    assert!(out.explosion.is_none());
    assert!(out.completed.is_none());
    assert_eq!(s.state, SessionState::Running);
    let unmarked = s.mark(TileMarkEvent(c(1, 1))).unwrap();
    assert!(!unmarked.now_marked);
    let out = s.activate(TileTriggerEvent(c(1, 1)));
    assert_eq!(out.revealed.len(), 1);
}

#[test]
fn bomb_activation_explodes_after_one_reveal() {
    let mut s = session_4x4();
    let out = s.activate(TileTriggerEvent(c(0, 0)));
    assert_eq!(out.revealed.len(), 1);
    assert_eq!(out.revealed[0].0, c(0, 0));
    assert!(out.explosion.is_some());
    assert!(out.completed.is_none());
    assert_eq!(s.state, SessionState::Over);
}

#[test]
fn paused_session_swallows_intents() {
    let mut s = session_4x4();
    s.pause_toggle();
    assert_eq!(s.state, SessionState::Paused);
    let out = s.activate(TileTriggerEvent(c(3, 3)));
    assert!(out.revealed.is_empty());
    assert!(s.mark(TileMarkEvent(c(1, 1))).is_none());
    s.pause_toggle();
    assert_eq!(s.state, SessionState::Running);
    let out = s.activate(TileTriggerEvent(c(3, 3)));
    assert_eq!(out.revealed.len(), 15);
}

#[test]
fn finished_session_swallows_intents() {
    let mut s = session_4x4();
    s.activate(TileTriggerEvent(c(0, 0)));
    assert_eq!(s.state, SessionState::Over);
    let out = s.activate(TileTriggerEvent(c(3, 3)));
    assert!(out.revealed.is_empty());
    assert!(s.mark(TileMarkEvent(c(1, 1))).is_none());
    s.pause_toggle();
    assert_eq!(s.state, SessionState::Over);
}

#[test]
fn restart_rebuilds_only_a_finished_session() {
    let mut s = session_4x4();
    // running: restart is a no-op
    let out = s.restart(None).unwrap();
    assert!(out.revealed.is_empty());
    assert_eq!(s.state, SessionState::Running);
    s.activate(TileTriggerEvent(c(0, 0)));
    assert_eq!(s.state, SessionState::Over);
    s.restart(None).unwrap();
    assert_eq!(s.state, SessionState::Running);
}

#[test]
fn restart_with_invalid_config_keeps_the_finished_session() {
    let mut s = session_4x4();
    s.activate(TileTriggerEvent(c(0, 0)));
    let bad = GameConfig { map_width: 0, map_height: 4, bomb_count: 0, safe_start: false };
    assert_eq!(s.restart(Some(bad)).unwrap_err(), ConfigError::ZeroDimension);
    assert_eq!(s.state, SessionState::Over);
    let new = GameConfig { map_width: 5, map_height: 5, bomb_count: 3, safe_start: false };
    s.restart(Some(new)).unwrap();
    assert_eq!(s.state, SessionState::Running);
    assert_eq!(s.config, new);
}

#[test]
fn start_rejects_bad_configurations_before_building() {
    let mut s = Session::new(GameConfig {
        map_width: 0,
        map_height: 8,
        bomb_count: 0,
        safe_start: false,
    });
    assert_eq!(s.start().unwrap_err(), ConfigError::ZeroDimension);
    assert_eq!(s.state, SessionState::NotStarted);
    let mut s = Session::new(GameConfig {
        map_width: 3,
        map_height: 3,
        bomb_count: 10,
        safe_start: false,
    });
    assert_eq!(s.start().unwrap_err(), ConfigError::TooManyBombs);
    assert_eq!(s.state, SessionState::NotStarted);
}

#[test]
fn start_places_the_requested_bombs() {
    let mut s = Session::new(GameConfig {
        map_width: 9,
        map_height: 9,
        bomb_count: 10,
        safe_start: false,
    });
    let out = s.start().unwrap();
    assert!(out.revealed.is_empty());
    assert_eq!(s.state, SessionState::Running);
    let board = s.board.as_ref().unwrap();
    let mut bombs: u32 = 0;
    for y in 0..9 {
        for x in 0..9 {
            if board.tile_map.tile(c(x, y)).is_bomb() {
                bombs += 1;
            }
        }
    }
    assert_eq!(bombs, 10);
}

#[test]
fn safe_start_triggers_the_first_empty_cell() {
    let mut map = TileMap::empty(4, 4).unwrap();
    map.place_bombs_at(&vec![c(0, 0)]);
    let mut s = Session::new(GameConfig {
        map_width: 4,
        map_height: 4,
        bomb_count: 1,
        safe_start: true,
    });
    let out = s.start_with_map(map);
    // the first empty cell in grid order is (2, 0); flooding it clears the board
    assert_eq!(out.revealed[0].0, c(2, 0));
    assert_eq!(out.revealed.len(), 15);
    assert!(out.explosion.is_none());
    assert!(out.completed.is_some());
    assert_eq!(s.state, SessionState::Over);
}

#[test]
fn restart_rebuilds_a_fresh_fully_covered_board() {
    let mut s = session_4x4();
    // lose by uncovering the bomb
    s.activate(TileTriggerEvent(c(0, 0)));
    assert_eq!(s.state, SessionState::Over);
    let out = s.restart(None).unwrap();
    assert_eq!(s.state, SessionState::Running);
    assert!(out.revealed.is_empty());
    assert!(out.explosion.is_none());
    assert!(out.completed.is_none());
    let board = s.board.as_ref().unwrap();
    // fresh covers everywhere, no marks, and the bombs really re-placed
    let mut bombs: u32 = 0;
    for y in 0..4 {
        for x in 0..4 {
            assert!(board.is_covered_cell(c(x, y)));
            assert!(!board.is_marked_cell(c(x, y)));
            if board.tile_map.tile(c(x, y)).is_bomb() {
                bombs += 1;
            }
        }
    }
    assert_eq!(bombs, 1);
}

#[test]
fn restart_with_safe_start_triggers_again() {
    let mut s = Session::new(GameConfig {
        map_width: 5,
        map_height: 5,
        bomb_count: 0,
        safe_start: true,
    });
    // a bombless board completes on the safe-start flood itself
    let out = s.start().unwrap();
    assert_eq!(out.revealed.len(), 25);
    assert_eq!(out.revealed[0].0, c(0, 0));
    assert!(out.completed.is_some());
    assert_eq!(s.state, SessionState::Over);
    let out = s.restart(None).unwrap();
    assert_eq!(out.revealed.len(), 25);
    assert!(out.completed.is_some());
    assert_eq!(s.state, SessionState::Over);
}

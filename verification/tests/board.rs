use minesweeper::board::Board;
use minesweeper::coordinates::Coordinates;
use minesweeper::tile_map::TileMap;

fn c(x: u16, y: u16) -> Coordinates {
    Coordinates { x, y }
}

/// A 4x4 board with one bomb at (0, 0) and handles 0..16 in row-major order.
fn small_board() -> Board {
    let mut map = TileMap::empty(4, 4).unwrap();
    map.place_bombs_at(&vec![c(0, 0)]);
    let handles: Vec<u64> = (0..16).collect();
    Board::new(map, &handles)
}

#[test]
fn uncover_is_idempotent() {
    let mut b = small_board();
    assert_eq!(b.try_uncover_tile(c(2, 2)), Some(10));
    assert_eq!(b.try_uncover_tile(c(2, 2)), None);
}

#[test]
fn uncover_off_board_is_a_miss() {
    let mut b = small_board();
    assert_eq!(b.try_uncover_tile(c(4, 0)), None);
    assert_eq!(b.try_uncover_tile(c(0, 7)), None);
}

#[test]
fn adjacent_covered_excludes_center_and_uncovered() {
    let mut b = small_board();
    let around = b.adjacent_covered_tiles(c(1, 1));
    assert_eq!(around.len(), 8);
    assert!(!around.contains(&c(1, 1)));
    b.try_uncover_tile(c(2, 2)).unwrap();
    let around = b.adjacent_covered_tiles(c(1, 1));
    assert_eq!(around.len(), 7);
    assert!(!around.contains(&c(2, 2)));
    for d in &around {
        assert!(d.x < 4 && d.y < 4);
    }
}

#[test]
fn adjacent_covered_stays_on_the_grid() {
    let b = small_board();
    let around = b.adjacent_covered_tiles(c(0, 0));
    assert_eq!(around.len(), 3);
    assert!(!around.contains(&c(0, 0)));
}

#[test]
fn mark_toggles_and_returns_the_cover_handle() {
    let mut b = small_board();
    assert_eq!(b.mark_request(c(1, 2)), Some((9, true)));
    assert!(b.is_marked_cell(c(1, 2)));
    assert_eq!(b.mark_request(c(1, 2)), Some((9, false)));
    assert!(!b.is_marked_cell(c(1, 2)));
}

#[test]
fn mark_misses_uncovered_and_off_board_cells() {
    let mut b = small_board();
    b.try_uncover_tile(c(3, 3)).unwrap();
    assert_eq!(b.mark_request(c(3, 3)), None);
    assert_eq!(b.mark_request(c(9, 9)), None);
}

#[test]
fn marked_tile_blocks_the_uncover_gate() {
    let mut b = small_board();
    b.mark_request(c(1, 1)).unwrap();
    assert_eq!(b.tile_to_uncover(c(1, 1)), None);
    b.mark_request(c(1, 1)).unwrap();
    assert_eq!(b.tile_to_uncover(c(1, 1)), Some(5));
}

#[test]
fn uncovering_clears_the_mark() {
    let mut b = small_board();
    b.mark_request(c(2, 1)).unwrap();
    assert!(b.is_marked_cell(c(2, 1)));
    assert_eq!(b.try_uncover_tile(c(2, 1)), Some(6));
    assert!(!b.is_marked_cell(c(2, 1)));
}

#[test]
fn completed_exactly_when_only_bombs_stay_covered() {
    let mut b = small_board();
    assert!(!b.is_completed());
    for y in 0..4 {
        for x in 0..4 {
            if !(x == 0 && y == 0) {
                b.try_uncover_tile(c(x, y)).unwrap();
                if x == 3 && y == 3 {
                    assert!(b.is_completed());
                } else {
                    assert!(!b.is_completed());
                }
            }
        }
    }
}

#[test]
fn flood_on_a_bomb_reveals_exactly_one_cell() {
    let mut b = small_board();
    let out = b.flood_uncover(c(0, 0));
    assert!(out.exploded);
    assert_eq!(out.revealed, vec![(c(0, 0), 0)]);
    // no propagation: everything else is still covered
    assert!(b.is_covered_cell(c(1, 0)));
    assert!(b.is_covered_cell(c(1, 1)));
    assert!(b.is_covered_cell(c(3, 3)));
}

#[test]
fn flood_from_empty_uncovers_region_and_border() {
    let mut b = small_board();
    let out = b.flood_uncover(c(3, 3));
    assert!(!out.exploded);
    assert_eq!(out.revealed.len(), 15);
    assert!(b.is_covered_cell(c(0, 0)));
    for y in 0..4 {
        for x in 0..4 {
            if !(x == 0 && y == 0) {
                assert!(!b.is_covered_cell(c(x, y)));
            }
        }
    }
    assert!(b.is_completed());
}

#[test]
fn flood_from_number_cell_does_not_expand() {
    let mut b = small_board();
    let out = b.flood_uncover(c(1, 1));
    assert!(!out.exploded);
    assert_eq!(out.revealed, vec![(c(1, 1), 5)]);
    assert!(b.is_covered_cell(c(2, 2)));
}

#[test]
fn flood_miss_changes_nothing() {
    let mut b = small_board();
    b.mark_request(c(2, 2)).unwrap();
    let out = b.flood_uncover(c(2, 2));
    assert!(!out.exploded);
    assert!(out.revealed.is_empty());
    assert!(b.is_covered_cell(c(2, 2)));
}

use minesweeper::coordinates::Coordinates;
use minesweeper::errors::ConfigError;
use minesweeper::tile::Tile;
use minesweeper::tile_map::TileMap;

fn c(x: u16, y: u16) -> Coordinates {
    Coordinates { x, y }
}

/// The bombs adjacent to `(x, y)`, counted the long way.
fn manual_adjacent_bombs(map: &TileMap, x: u16, y: u16) -> u8 {
    let mut n: u8 = 0;
    for d in c(x, y).neighbors(map.width(), map.height()) {
        if map.tile(d).is_bomb() {
            n += 1;
        }
    }
    n
}

#[test]
fn empty_rejects_zero_dimensions() {
    assert_eq!(TileMap::empty(0, 5).unwrap_err(), ConfigError::ZeroDimension);
    assert_eq!(TileMap::empty(5, 0).unwrap_err(), ConfigError::ZeroDimension);
    assert_eq!(TileMap::empty(0, 0).unwrap_err(), ConfigError::ZeroDimension);
}

#[test]
fn empty_grid_is_all_empty() {
    let map = TileMap::empty(4, 3).unwrap();
    assert_eq!(map.width(), 4);
    assert_eq!(map.height(), 3);
    assert_eq!(map.bomb_count(), 0);
    for y in 0..3 {
        for x in 0..4 {
            assert_eq!(map.tile(c(x, y)), Tile::Empty);
        }
    }
}

#[test]
fn random_bombs_placed_equals_requested() {
    let mut map = TileMap::empty(20, 20).unwrap();
    map.set_bombs(40).unwrap();
    assert_eq!(map.bomb_count(), 40);
    let mut found: u32 = 0;
    for y in 0..20 {
        for x in 0..20 {
            if map.tile(c(x, y)).is_bomb() {
                found += 1;
            }
        }
    }
    assert_eq!(found, 40);
}

#[test]
fn random_bombs_neighbor_counts_consistent() {
    let mut map = TileMap::empty(12, 9).unwrap();
    map.set_bombs(30).unwrap();
    for y in 0..9 {
        for x in 0..12 {
            let t = map.tile(c(x, y));
            if !t.is_bomb() {
                let n = manual_adjacent_bombs(&map, x, y);
                if n == 0 {
                    assert_eq!(t, Tile::Empty);
                } else {
                    assert_eq!(t, Tile::BombNeighbor(n));
                }
            }
        }
    }
}

#[test]
fn set_bombs_rejects_more_than_cells() {
    let mut map = TileMap::empty(2, 2).unwrap();
    assert_eq!(map.set_bombs(5).unwrap_err(), ConfigError::TooManyBombs);
    // the rejected request left the grid untouched
    for y in 0..2 {
        for x in 0..2 {
            assert_eq!(map.tile(c(x, y)), Tile::Empty);
        }
    }
}

#[test]
fn set_bombs_can_fill_the_whole_grid() {
    let mut map = TileMap::empty(2, 2).unwrap();
    map.set_bombs(4).unwrap();
    for y in 0..2 {
        for x in 0..2 {
            assert!(map.tile(c(x, y)).is_bomb());
        }
    }
}

#[test]
fn placed_bomb_yields_exact_neighbor_counts() {
    let mut map = TileMap::empty(4, 4).unwrap();
    map.place_bombs_at(&vec![c(0, 0)]);
    assert_eq!(map.bomb_count(), 1);
    assert_eq!(map.tile(c(0, 0)), Tile::Bomb);
    assert_eq!(map.tile(c(1, 0)), Tile::BombNeighbor(1));
    assert_eq!(map.tile(c(0, 1)), Tile::BombNeighbor(1));
    assert_eq!(map.tile(c(1, 1)), Tile::BombNeighbor(1));
    assert_eq!(map.tile(c(2, 0)), Tile::Empty);
    assert_eq!(map.tile(c(2, 2)), Tile::Empty);
    assert_eq!(map.tile(c(3, 3)), Tile::Empty);
}

#[test]
fn placed_cluster_counts_up_to_eight() {
    let mut map = TileMap::empty(3, 3).unwrap();
    let bombs: Vec<Coordinates> = vec![
        c(0, 0),
        c(1, 0),
        c(2, 0),
        c(0, 1),
        c(2, 1),
        c(0, 2),
        c(1, 2),
        c(2, 2),
    ];
    map.place_bombs_at(&bombs);
    assert_eq!(map.tile(c(1, 1)), Tile::BombNeighbor(8));
}

#[test]
fn rows_come_out_in_grid_order() {
    let mut map = TileMap::empty(3, 2).unwrap();
    map.place_bombs_at(&vec![c(1, 0)]);
    assert_eq!(
        map.row(0),
        vec![Tile::BombNeighbor(1), Tile::Bomb, Tile::BombNeighbor(1)]
    );
    assert_eq!(
        map.row(1),
        vec![
            Tile::BombNeighbor(1),
            Tile::BombNeighbor(1),
            Tile::BombNeighbor(1)
        ]
    );
}

use minesweeper::coordinates::Coordinates;

fn c(x: u16, y: u16) -> Coordinates {
    Coordinates { x, y }
}

#[test]
fn neighbors_center_has_all_eight() {
    let n = c(1, 1).neighbors(3, 3);
    assert_eq!(n.len(), 8);
    assert!(!n.contains(&c(1, 1)));
    for d in [
        c(0, 0),
        c(1, 0),
        c(2, 0),
        c(0, 1),
        c(2, 1),
        c(0, 2),
        c(1, 2),
        c(2, 2),
    ] {
        assert!(n.contains(&d));
    }
}

#[test]
fn neighbors_corner_clipped_to_grid() {
    let n = c(0, 0).neighbors(4, 4);
    assert_eq!(n.len(), 3);
    assert!(n.contains(&c(1, 0)));
    assert!(n.contains(&c(0, 1)));
    assert!(n.contains(&c(1, 1)));
    assert!(!n.contains(&c(0, 0)));
}

#[test]
fn neighbors_edge_never_out_of_bounds() {
    let n = c(3, 1).neighbors(4, 4);
    assert_eq!(n.len(), 5);
    for d in &n {
        assert!(d.x < 4 && d.y < 4);
        assert!(*d != c(3, 1));
    }
}

#[test]
fn neighbors_order_is_row_major() {
    let n = c(1, 1).neighbors(3, 3);
    assert_eq!(
        n,
        vec![
            c(0, 0),
            c(1, 0),
            c(2, 0),
            c(0, 1),
            c(2, 1),
            c(0, 2),
            c(1, 2),
            c(2, 2),
        ]
    );
}

use platformer_core::grid::{Direction, TileMap, TilePosition};

#[test]
fn place_is_idempotent() {
    let mut map = TileMap::new(8, 8);
    let pos = TilePosition { x: 3, y: 4 };
    assert!(!map.is_occupied(pos));
    assert!(map.place(pos));
    assert!(map.is_occupied(pos));
    // A second placement reports no first-time and changes nothing.
    assert!(!map.place(pos));
    assert!(map.is_occupied(pos));
    for y in 0..8 {
        for x in 0..8 {
            let p = TilePosition { x, y };
            assert_eq!(map.is_occupied(p), x == 3 && y == 4);
        }
    }
}

#[test]
fn neighbor_occupancy_false_at_edges() {
    let mut map = TileMap::new(4, 4);
    let corner = TilePosition { x: 0, y: 0 };
    assert!(!map.neighbor_occupied(corner, Direction::Up));
    assert!(!map.neighbor_occupied(corner, Direction::Left));
    map.place(TilePosition { x: 1, y: 0 });
    assert!(map.neighbor_occupied(corner, Direction::Right));
    assert!(!map.neighbor_occupied(corner, Direction::Down));
    map.place(TilePosition { x: 0, y: 1 });
    assert!(map.neighbor_occupied(corner, Direction::Down));
}

#[test]
fn appearance_reflects_four_neighbors() {
    let mut map = TileMap::new(5, 5);
    let center = TilePosition { x: 2, y: 2 };
    map.place(center);
    // Isolated tile: all four neighbors missing: row 4, column 0.
    assert_eq!(map.appearance_index(center), 4 * 9 + 0);
    // Fully surrounded: row 6, column 2.
    map.place(TilePosition { x: 2, y: 1 });
    map.place(TilePosition { x: 2, y: 3 });
    map.place(TilePosition { x: 1, y: 2 });
    map.place(TilePosition { x: 3, y: 2 });
    assert_eq!(map.appearance_index(center), 6 * 9 + 2);
    // Only the top neighbor missing: row 5, column 2.
    let mut map2 = TileMap::new(5, 5);
    map2.place(center);
    map2.place(TilePosition { x: 2, y: 3 });
    map2.place(TilePosition { x: 1, y: 2 });
    map2.place(TilePosition { x: 3, y: 2 });
    assert_eq!(map2.appearance_index(center), 5 * 9 + 2);
}

#[test]
fn appearance_treats_grid_edge_as_missing() {
    let mut map = TileMap::new(3, 3);
    let corner = TilePosition { x: 0, y: 0 };
    map.place(corner);
    // At the top-left corner every side is either beyond the edge or
    // empty, so the corner tile selects the fully isolated variant,
    // consistent with neighbor_occupied being false past an edge.
    assert_eq!(map.appearance_index(corner), 4 * 9 + 0);
    // With tiles below and to the right, only the up and left sides
    // stay missing.
    map.place(TilePosition { x: 1, y: 0 });
    map.place(TilePosition { x: 0, y: 1 });
    assert_eq!(map.appearance_index(corner), 5 * 9 + 1);
}

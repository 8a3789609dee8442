use noise::utils::{NoiseMapBuilder, PlaneMapBuilder};
use noise::{NoiseFn, Perlin};
use platformer_core::worldgen::{generate, NoiseField};

/// Samples the level's noise field from a seed the same way a level
/// load does: seeded perlin noise over the fixed bounds, thresholded
/// per cell.
fn field_from_seed(seed: u32, width: usize, height: usize, threshold: f64) -> NoiseField {
    let perlin = Perlin::new(seed);
    let map = PlaneMapBuilder::new_fn(|pt: [f64; 2]| perlin.get(pt))
        .set_size(width, height)
        .set_x_bounds(-5.0, 5.0)
        .set_y_bounds(-5.0, 5.0)
        .build();
    let mut rows = Vec::new();
    for y in 0..height {
        let mut row = Vec::new();
        for x in 0..width {
            row.push(map.get_value(x, y) > threshold);
        }
        rows.push(row);
    }
    NoiseField {
        width,
        height,
        rows,
    }
}

#[test]
fn generate_deterministic_same_seed() {
    let field_a = field_from_seed(7, 100, 100, 0.1);
    let field_b = field_from_seed(7, 100, 100, 0.1);
    let (tiles_a, spawn_a) = generate(&field_a);
    let (tiles_b, spawn_b) = generate(&field_b);
    assert_eq!(tiles_a.len(), tiles_b.len());
    for (a, b) in tiles_a.iter().zip(tiles_b.iter()) {
        assert_eq!(a, b);
    }
    assert_eq!(spawn_a, spawn_b);
}

#[test]
fn tiles_within_land_band() {
    let field = field_from_seed(3, 64, 48, 0.1);
    let (tiles, _) = generate(&field);
    let land_start = 48 / 3;
    assert!(!tiles.is_empty());
    for t in &tiles {
        assert!(t.tile_pos.x < 64);
        assert!(t.tile_pos.y >= land_start);
        assert!(t.tile_pos.y < 48);
    }
}

#[test]
fn end_to_end_seed_zero_regeneration() {
    let field_a = field_from_seed(0, 100, 100, 0.1);
    let field_b = field_from_seed(0, 100, 100, 0.1);
    let (tiles_a, spawn_a) = generate(&field_a);
    let (tiles_b, spawn_b) = generate(&field_b);

    // Same land/sky partition on both runs.
    assert_eq!(tiles_a.len(), tiles_b.len());
    for (a, b) in tiles_a.iter().zip(tiles_b.iter()) {
        assert_eq!(a.tile_pos, b.tile_pos);
        assert_eq!(a.world_pos, b.world_pos);
    }

    // The spawn cell is the midpoint column, one row above the land
    // band: cell (50, 32), anchored on the tile lattice.
    assert_eq!(spawn_a, spawn_b);
    assert_eq!(spawn_a.pos.x, 18 * 50 - 9 * 99);
    assert_eq!(spawn_a.pos.y, 18 * (99 - 32) - 9 * 99);
}

#[test]
fn anchor_centers_the_grid() {
    // A full 2x3 field in the land band row only: height 3, land row 2.
    let rows = vec![
        vec![false, false],
        vec![false, false],
        vec![true, true],
    ];
    let field = NoiseField {
        width: 2,
        height: 3,
        rows,
    };
    let (tiles, spawn) = generate(&field);
    assert_eq!(tiles.len(), 2);
    // Tile (0, 2): x anchor 18*0 - 9*1 = -9; y anchor 18*0 - 9*2 = -18.
    assert_eq!(tiles[0].tile_pos.x, 0);
    assert_eq!(tiles[0].tile_pos.y, 2);
    assert_eq!(tiles[0].world_pos.x, -9);
    assert_eq!(tiles[0].world_pos.y, -18);
    // Tile (1, 2): x anchor 18 - 9 = 9.
    assert_eq!(tiles[1].world_pos.x, 9);
    // Spawn: column 1, row 0: x anchor 9, y anchor 18*2 - 18 = 18.
    assert_eq!(spawn.pos.x, 9);
    assert_eq!(spawn.pos.y, 18);
}

#[test]
fn spawn_independent_of_cell_sample() {
    // Whether the spawn cell itself is solid must not move the spawn.
    let mut rows = vec![vec![false; 9]; 9];
    for x in 0..9 {
        rows[5][x] = true;
    }
    let field_open = NoiseField {
        width: 9,
        height: 9,
        rows: rows.clone(),
    };
    rows[2][4] = true; // the spawn cell (4, 2) itself
    let field_solid = NoiseField {
        width: 9,
        height: 9,
        rows,
    };
    let (_, spawn_open) = generate(&field_open);
    let (_, spawn_solid) = generate(&field_solid);
    assert_eq!(spawn_open, spawn_solid);
}

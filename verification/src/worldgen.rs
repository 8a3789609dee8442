//! Deterministic terrain generation over a sampled noise field.
//!
//! The vertical extent splits into a sky band (the top third of the rows)
//! and a land band (the rest). A tile is emitted for every land-band cell
//! whose noise sample exceeded the threshold; the noise field is sampled
//! once per level before generation and is read-only here, so the emitted
//! tile sequence is a pure function of the field. One spawn point is
//! emitted at the horizontal midpoint column, one row above the land
//! band's top, independent of that cell's own sample.
//!
//! World-space anchoring: tile `(x, y)` is centered so that the whole grid
//! is centered on the origin, with `y` growing downward in grid rows and
//! upward in world space. The same formula places the spawn point, so the
//! player starts aligned with the tile lattice.

use vstd::prelude::*;
use crate::grid::TilePosition;

verus! {

/// Upper bound on level dimensions, so anchor arithmetic stays in `i64`.
pub const MAX_LEVEL_DIM: usize = 1000000;

/// Half a tile's side, in pixels: the offset that centers the lattice.
pub const HALF_TILE: i64 = 9;

/// The seed a level's noise field was sampled from.
#[derive(Clone, Copy, PartialEq, Eq, Structural, Debug)]
pub struct WorldSeed(pub u32);

/// A world-space position in whole pixels, `y` growing upward.
#[derive(Clone, Copy, PartialEq, Eq, Structural, Debug)]
pub struct WorldPos {
    pub x: i64,
    pub y: i64,
}

/// Thresholded 2D noise samples over the level bounds: `rows[y][x]` is
/// whether the sample at cell `(x, y)` exceeded the level's threshold.
/// Produced once per level from the seed; read-only afterwards.
pub struct NoiseField {
    pub width: usize,
    pub height: usize,
    pub rows: Vec<Vec<bool>>,
}

/// Instruction to materialize one tile: its grid cell and the world-space
/// anchor of the tile's center.
#[derive(Clone, Copy, PartialEq, Eq, Structural, Debug)]
pub struct TileSpawnEvent {
    pub world_pos: WorldPos,
    pub tile_pos: TilePosition,
}

/// Instruction to spawn the player at the designated entry cell.
#[derive(Clone, Copy, PartialEq, Eq, Structural, Debug)]
pub struct PlayerSpawnEvent {
    pub pos: WorldPos,
}

impl NoiseField {
    /// Shape invariant: exactly `height` rows of `width` samples each,
    /// with dimensions that keep anchor arithmetic exact.
    pub open spec fn wf(self) -> bool {
        &&& self.rows.len() == self.height
        &&& forall|y: int| 0 <= y < self.height ==> (#[trigger] self.rows[y]).len() == self.width
        &&& 1 <= self.width <= MAX_LEVEL_DIM
        &&& 3 <= self.height <= MAX_LEVEL_DIM
    }

    /// Whether the sample at cell `(x, y)` exceeded the threshold.
    pub open spec fn spec_solid(self, x: int, y: int) -> bool {
        self.rows[y][x]
    }
}

/// First row of the land band; rows above it are the sky band.
pub open spec fn spec_land_start(height: int) -> int {
    height / 3
}

/// World-space x of the center of any tile in column `x`, in pixels:
/// columns are centered on the origin.
pub open spec fn spec_anchor_x(x: int, width: int) -> int {
    crate::TILE_SIZE * x - HALF_TILE * (width - 1)
}

/// World-space y of the center of any tile in row `y`, in pixels: rows are
/// centered on the origin, with row 0 (the top) highest.
pub open spec fn spec_anchor_y(y: int, height: int) -> int {
    crate::TILE_SIZE * (height - 1 - y) - HALF_TILE * (height - 1)
}

/// The tile emitted for cell `(x, y)`.
pub open spec fn spec_tile_event(field: NoiseField, x: int, y: int) -> TileSpawnEvent {
    TileSpawnEvent {
        world_pos: WorldPos {
            x: spec_anchor_x(x, field.width as int) as i64,
            y: spec_anchor_y(y, field.height as int) as i64,
        },
        tile_pos: TilePosition { x: x as usize, y: y as usize },
    }
}

/// Whether generation emits a tile at cell `(x, y)`: only land-band cells
/// whose sample exceeded the threshold.
pub open spec fn spec_emits(field: NoiseField, x: int, y: int) -> bool {
    spec_land_start(field.height as int) <= y < field.height && field.spec_solid(x, y)
}

/// Tiles emitted for row `y` from column `x` rightward, in column order.
pub open spec fn spec_row_tiles_from(field: NoiseField, y: int, x: int) -> Seq<TileSpawnEvent>
    decreases field.width - x,
{
    if x >= field.width {
        Seq::empty()
    } else {
        (if spec_emits(field, x, y) {
            seq![spec_tile_event(field, x, y)]
        } else {
            Seq::empty()
        }) + spec_row_tiles_from(field, y, x + 1)
    }
}

/// Tiles emitted from row `y` downward, row-major.
pub open spec fn spec_tiles_from(field: NoiseField, y: int) -> Seq<TileSpawnEvent>
    decreases field.height - y,
{
    if y >= field.height {
        Seq::empty()
    } else {
        spec_row_tiles_from(field, y, 0) + spec_tiles_from(field, y + 1)
    }
}

/// The full tile sequence generation emits for `field`.
pub open spec fn spec_tiles(field: NoiseField) -> Seq<TileSpawnEvent> {
    spec_tiles_from(field, 0)
}

/// The spawn point generation emits for `field`: horizontal midpoint
/// column, one row above the land band's top, on the tile lattice.
pub open spec fn spec_spawn(field: NoiseField) -> PlayerSpawnEvent {
    PlayerSpawnEvent {
        pos: WorldPos {
            x: spec_anchor_x(field.width as int / 2, field.width as int) as i64,
            y: spec_anchor_y(spec_land_start(field.height as int) - 1, field.height as int) as i64,
        },
    }
}

/// Everything `generate` promises of its output, as one relation:
/// the output is a pure function of the field.
pub open spec fn generate_post(
    field: NoiseField,
    tiles: Seq<TileSpawnEvent>,
    spawn: PlayerSpawnEvent,
) -> bool {
    tiles == spec_tiles(field) && spawn == spec_spawn(field)
}

/// Determinism of generation: any two outcomes that satisfy `generate`'s
/// contract on the same field have identical tile sequences (hence
/// identical tile sets) and identical spawn points.
pub proof fn lemma_generate_deterministic(
    field: NoiseField,
    tiles1: Seq<TileSpawnEvent>,
    spawn1: PlayerSpawnEvent,
    tiles2: Seq<TileSpawnEvent>,
    spawn2: PlayerSpawnEvent,
)
    requires
        generate_post(field, tiles1, spawn1),
        generate_post(field, tiles2, spawn2),
    ensures
        tiles1 == tiles2,
        spawn1 == spawn2,
{
}

/// Emits one tile per land-band cell whose sample exceeded the threshold,
/// row-major, anchored on the centered world lattice, and the single spawn
/// point. The result is pinned to a pure function of the field, and every
/// emitted position lies in the land band of the grid bounds.
pub fn generate(field: &NoiseField) -> (r: (Vec<TileSpawnEvent>, PlayerSpawnEvent))
    requires
        field.wf(),
    ensures
        generate_post(*field, r.0@, r.1),
        forall|i: int| 0 <= i < r.0@.len() ==> {
            let ev = #[trigger] r.0@[i];
            &&& ev.tile_pos.x < field.width
            &&& spec_land_start(field.height as int) <= ev.tile_pos.y < field.height
            &&& ev.world_pos.x == spec_anchor_x(ev.tile_pos.x as int, field.width as int)
            &&& ev.world_pos.y == spec_anchor_y(ev.tile_pos.y as int, field.height as int)
        },
{
    let width = field.width;
    let height = field.height;
    let land_start = height / 3;

    let mut tiles: Vec<TileSpawnEvent> = Vec::new();
    let mut y: usize = 0;
    while y < height
        invariant
            field.wf(),
            width == field.width,
            height == field.height,
            land_start == spec_land_start(height as int),
            y <= height,
            spec_tiles(*field) == tiles@ + spec_tiles_from(*field, y as int),
            forall|i: int| 0 <= i < tiles@.len() ==> {
                let ev = #[trigger] tiles@[i];
                &&& ev.tile_pos.x < field.width
                &&& spec_land_start(field.height as int) <= ev.tile_pos.y < field.height
                &&& ev.world_pos.x == spec_anchor_x(ev.tile_pos.x as int, field.width as int)
                &&& ev.world_pos.y == spec_anchor_y(ev.tile_pos.y as int, field.height as int)
            },
        decreases height - y,
    {
        let mut x: usize = 0;
        while x < width
            invariant
                field.wf(),
                width == field.width,
                height == field.height,
                land_start == spec_land_start(height as int),
                y < height,
                x <= width,
                spec_tiles(*field) == tiles@ + spec_row_tiles_from(*field, y as int, x as int)
                    + spec_tiles_from(*field, y as int + 1),
                forall|i: int| 0 <= i < tiles@.len() ==> {
                    let ev = #[trigger] tiles@[i];
                    &&& ev.tile_pos.x < field.width
                    &&& spec_land_start(field.height as int) <= ev.tile_pos.y < field.height
                    &&& ev.world_pos.x == spec_anchor_x(ev.tile_pos.x as int, field.width as int)
                    &&& ev.world_pos.y == spec_anchor_y(ev.tile_pos.y as int, field.height as int)
                },
            decreases width - x,
        {
            if y >= land_start && field.rows[y][x] {
                let ev = TileSpawnEvent {
                    world_pos: WorldPos {
                        x: crate::TILE_SIZE * (x as i64) - HALF_TILE * (width as i64 - 1),
                        y: crate::TILE_SIZE * (height as i64 - 1 - y as i64)
                            - HALF_TILE * (height as i64 - 1),
                    },
                    tile_pos: TilePosition { x, y },
                };
                assert(ev == spec_tile_event(*field, x as int, y as int));
                tiles.push(ev);
            }
            assert(spec_row_tiles_from(*field, y as int, x as int)
                == (if spec_emits(*field, x as int, y as int) {
                    seq![spec_tile_event(*field, x as int, y as int)]
                } else {
                    Seq::<TileSpawnEvent>::empty()
                }) + spec_row_tiles_from(*field, y as int, x as int + 1));
            x = x + 1;
        }
        y = y + 1;
    }

    let spawn = PlayerSpawnEvent {
        pos: WorldPos {
            x: crate::TILE_SIZE * ((width / 2) as i64) - HALF_TILE * (width as i64 - 1),
            y: crate::TILE_SIZE * (height as i64 - 1 - (land_start as i64 - 1))
                - HALF_TILE * (height as i64 - 1),
        },
    };
    (tiles, spawn)
}


/// Soundness and completeness of one row's emitted tiles: from column
/// `x0` rightward, the row's sequence holds exactly the emitting cells
/// of that row, each anchored by the shared formula.
pub proof fn lemma_row_tiles_membership(field: NoiseField, y: int, x0: int)
    requires
        field.wf(),
        0 <= x0,
        0 <= y < field.height,
    ensures
        forall|i: int| 0 <= i < spec_row_tiles_from(field, y, x0).len() ==> {
            let ev = #[trigger] spec_row_tiles_from(field, y, x0)[i];
            &&& x0 <= ev.tile_pos.x < field.width
            &&& ev.tile_pos.y == y
            &&& spec_emits(field, ev.tile_pos.x as int, y)
            &&& ev == spec_tile_event(field, ev.tile_pos.x as int, y)
        },
        forall|x: int|
            x0 <= x < field.width && spec_emits(field, x, y) ==> exists|i: int|
                0 <= i < spec_row_tiles_from(field, y, x0).len() && (#[trigger] spec_row_tiles_from(
                    field,
                    y,
                    x0,
                )[i]).tile_pos.x == x,
    decreases field.width - x0,
{
    if x0 >= field.width {
        return ;
    }
    lemma_row_tiles_membership(field, y, x0 + 1);
    let head: Seq<TileSpawnEvent> = if spec_emits(field, x0, y) {
        seq![spec_tile_event(field, x0, y)]
    } else {
        Seq::empty()
    };
    let tail = spec_row_tiles_from(field, y, x0 + 1);
    assert(spec_row_tiles_from(field, y, x0) == head + tail);
    assert forall|i: int| 0 <= i < spec_row_tiles_from(field, y, x0).len() implies {
        let ev = #[trigger] spec_row_tiles_from(field, y, x0)[i];
        &&& x0 <= ev.tile_pos.x < field.width
        &&& ev.tile_pos.y == y
        &&& spec_emits(field, ev.tile_pos.x as int, y)
        &&& ev == spec_tile_event(field, ev.tile_pos.x as int, y)
    } by {
        if i < head.len() {
            assert(spec_row_tiles_from(field, y, x0)[i] == spec_tile_event(field, x0, y));
        } else {
            assert(spec_row_tiles_from(field, y, x0)[i] == tail[i - head.len()]);
        }
    }
    assert forall|x: int| x0 <= x < field.width && spec_emits(field, x, y) implies exists|i: int|
        0 <= i < spec_row_tiles_from(field, y, x0).len() && (#[trigger] spec_row_tiles_from(
            field,
            y,
            x0,
        )[i]).tile_pos.x == x by {
        if x == x0 {
            assert(spec_row_tiles_from(field, y, x0)[0] == spec_tile_event(field, x0, y));
            assert((spec_row_tiles_from(field, y, x0)[0]).tile_pos.x == x);
        } else {
            let j = choose|j: int| 0 <= j < tail.len() && (#[trigger] tail[j]).tile_pos.x == x;
            assert(spec_row_tiles_from(field, y, x0)[head.len() + j] == tail[j]);
            assert((spec_row_tiles_from(field, y, x0)[head.len() + j]).tile_pos.x == x);
        }
    }
}

/// Soundness and completeness of the emitted tiles from row `y0`
/// downward: exactly the emitting cells of those rows appear.
pub proof fn lemma_tiles_membership_from(field: NoiseField, y0: int)
    requires
        field.wf(),
        0 <= y0,
    ensures
        forall|i: int| 0 <= i < spec_tiles_from(field, y0).len() ==> {
            let ev = #[trigger] spec_tiles_from(field, y0)[i];
            &&& ev.tile_pos.x < field.width
            &&& y0 <= ev.tile_pos.y < field.height
            &&& spec_emits(field, ev.tile_pos.x as int, ev.tile_pos.y as int)
        },
        forall|x: int, y: int|
            0 <= x < field.width && y0 <= y < field.height && spec_emits(field, x, y) ==> exists|
                i: int,
            |
                0 <= i < spec_tiles_from(field, y0).len() && (#[trigger] spec_tiles_from(
                    field,
                    y0,
                )[i]).tile_pos.x == x && spec_tiles_from(field, y0)[i].tile_pos.y == y,
    decreases field.height - y0,
{
    if y0 >= field.height {
        return ;
    }
    lemma_tiles_membership_from(field, y0 + 1);
    lemma_row_tiles_membership(field, y0, 0);
    let head = spec_row_tiles_from(field, y0, 0);
    let tail = spec_tiles_from(field, y0 + 1);
    assert(spec_tiles_from(field, y0) == head + tail);
    assert forall|i: int| 0 <= i < spec_tiles_from(field, y0).len() implies {
        let ev = #[trigger] spec_tiles_from(field, y0)[i];
        &&& ev.tile_pos.x < field.width
        &&& y0 <= ev.tile_pos.y < field.height
        &&& spec_emits(field, ev.tile_pos.x as int, ev.tile_pos.y as int)
    } by {
        if i < head.len() {
            assert(spec_tiles_from(field, y0)[i] == head[i]);
        } else {
            assert(spec_tiles_from(field, y0)[i] == tail[i - head.len()]);
        }
    }
    assert forall|x: int, y: int|
        0 <= x < field.width && y0 <= y < field.height && spec_emits(field, x, y) implies exists|
        i: int,
    |
        0 <= i < spec_tiles_from(field, y0).len() && (#[trigger] spec_tiles_from(
            field,
            y0,
        )[i]).tile_pos.x == x && spec_tiles_from(field, y0)[i].tile_pos.y == y by {
        if y == y0 {
            let j = choose|j: int| 0 <= j < head.len() && (#[trigger] head[j]).tile_pos.x == x;
            assert(head[j].tile_pos.y == y0);
            assert(spec_tiles_from(field, y0)[j] == head[j]);
            assert((spec_tiles_from(field, y0)[j]).tile_pos.x == x && spec_tiles_from(
                field,
                y0,
            )[j].tile_pos.y == y);
        } else {
            let j = choose|j: int|
                0 <= j < tail.len() && (#[trigger] tail[j]).tile_pos.x == x && tail[j].tile_pos.y
                    == y;
            assert(spec_tiles_from(field, y0)[head.len() + j] == tail[j]);
            assert((spec_tiles_from(field, y0)[head.len() + j]).tile_pos.x == x
                && spec_tiles_from(field, y0)[head.len() + j].tile_pos.y == y);
        }
    }
}

/// The land/sky partition of the generated tile set: a cell has a tile
/// in the output exactly when it lies in the land band and its sample
/// exceeded the threshold — never in the sky band.
pub proof fn lemma_tiles_are_the_land_cells(field: NoiseField)
    requires
        field.wf(),
    ensures
        forall|x: int, y: int|
            0 <= x < field.width && 0 <= y < field.height ==> ((exists|i: int|
                0 <= i < spec_tiles(field).len() && (#[trigger] spec_tiles(field)[i]).tile_pos.x
                    == x && spec_tiles(field)[i].tile_pos.y == y) <==> spec_emits(field, x, y)),
{
    lemma_tiles_membership_from(field, 0);
    assert forall|x: int, y: int|
        0 <= x < field.width && 0 <= y < field.height implies ((exists|i: int|
            0 <= i < spec_tiles(field).len() && (#[trigger] spec_tiles(field)[i]).tile_pos.x == x
                && spec_tiles(field)[i].tile_pos.y == y) <==> spec_emits(field, x, y)) by {
        if exists|i: int|
            0 <= i < spec_tiles(field).len() && (#[trigger] spec_tiles(field)[i]).tile_pos.x == x
                && spec_tiles(field)[i].tile_pos.y == y {
            let i = choose|i: int|
                0 <= i < spec_tiles(field).len() && (#[trigger] spec_tiles(field)[i]).tile_pos.x
                    == x && spec_tiles(field)[i].tile_pos.y == y;
            assert(spec_emits(
                field,
                spec_tiles(field)[i].tile_pos.x as int,
                spec_tiles(field)[i].tile_pos.y as int,
            ));
        }
        if spec_emits(field, x, y) {
            let j = choose|j: int|
                0 <= j < spec_tiles_from(field, 0).len() && (#[trigger] spec_tiles_from(
                    field,
                    0,
                )[j]).tile_pos.x == x && spec_tiles_from(field, 0)[j].tile_pos.y == y;
            assert(spec_tiles(field) == spec_tiles_from(field, 0));
            assert(0 <= j < spec_tiles(field).len() && (#[trigger] spec_tiles(
                field,
            )[j]).tile_pos.x == x && spec_tiles(field)[j].tile_pos.y == y);
        }
    }
}

} // verus!

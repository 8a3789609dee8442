//! Kinematic sweep of an axis-aligned body against the tile grid.
//!
//! The sweep works in the grid frame, in sub-units: `x` grows rightward
//! from the level's left edge, `y` grows upward from its bottom, and the
//! cell at column `c`, upward row `r` covers the half-open square
//! `[c*TILE_SUB, (c+1)*TILE_SUB) x [r*TILE_SUB, (r+1)*TILE_SUB)`. A body
//! is a half-open rectangle given by its bottom-left corner and extents.
//! The level's outer edges act as solid boundaries.
//!
//! Moving a body resolves each axis against the nearest obstacle: the
//! support level below, the ceiling above, or the wall aside; on contact
//! the body stops flush against the obstacle and an axis-aligned contact
//! normal is reported, which the force pipeline then turns into a zeroed
//! velocity component.

use vstd::prelude::*;
use crate::TILE_SUB;
use crate::grid::TileMap;
use crate::physics::{ContactNormal, SubPos, Velocity, VEL_LIMIT};
use crate::worldgen::MAX_LEVEL_DIM;

verus! {

/// Dimensions small enough that every sub-unit coordinate stays in `i64`.
pub open spec fn spec_grid_sized(grid: TileMap) -> bool {
    1 <= grid.width <= MAX_LEVEL_DIM && 1 <= grid.height <= MAX_LEVEL_DIM
}

/// Whether the cell at column `c`, upward row `r` holds a tile. Upward
/// row `r` is stored row `height - 1 - r` of the occupancy grid.
pub open spec fn spec_solid_cell(grid: TileMap, c: int, r: int) -> bool {
    &&& 0 <= c < grid.width
    &&& 0 <= r < grid.height
    &&& grid.spec_occupied(c, grid.height - 1 - r)
}

/// Whether some solid cell of upward row `r` overlaps the horizontal
/// extent `[x0, x1)`.
pub open spec fn spec_solid_row(grid: TileMap, r: int, x0: int, x1: int) -> bool {
    exists|c: int| c * TILE_SUB < x1 && x0 < (c + 1) * TILE_SUB
        && #[trigger] spec_solid_cell(grid, c, r)
}

/// Whether some solid cell of column `c` overlaps the vertical extent
/// `[y0, y1)`.
pub open spec fn spec_solid_col(grid: TileMap, c: int, y0: int, y1: int) -> bool {
    exists|r: int| r * TILE_SUB < y1 && y0 < (r + 1) * TILE_SUB
        && #[trigger] spec_solid_cell(grid, c, r)
}

/// Whether the body rectangle `[bx, bx+bw) x [by, by+bh)` overlaps no
/// solid cell.
pub open spec fn spec_body_clear(grid: TileMap, bx: int, by: int, bw: int, bh: int) -> bool {
    forall|c: int, r: int|
        c * TILE_SUB < bx + bw && bx < (c + 1) * TILE_SUB && r * TILE_SUB < by + bh && by < (r + 1)
            * TILE_SUB ==> !#[trigger] spec_solid_cell(grid, c, r)
}

/// Whether `s` is the resting level under a body spanning `[x0, x1)`
/// horizontally whose bottom sits at `by`: the highest tile top at or
/// below `by` under that span, or the world floor `0` when there is
/// none. Every candidate level strictly between `s` and `by` is free.
pub open spec fn spec_is_support(grid: TileMap, x0: int, x1: int, by: int, s: int) -> bool {
    &&& 0 <= s <= by
    &&& (s == 0 || exists|r: int| s == (r + 1) * TILE_SUB && #[trigger] spec_solid_row(
        grid,
        r,
        x0,
        x1,
    ))
    &&& forall|r: int| s < (r + 1) * TILE_SUB <= by ==> !#[trigger] spec_solid_row(grid, r, x0, x1)
}

/// Whether `sc` is the ceiling over a body spanning `[x0, x1)` whose top
/// sits at `yt`: the lowest tile bottom at or above `yt` under that
/// span, or the world top when there is none.
pub open spec fn spec_is_ceiling(grid: TileMap, x0: int, x1: int, yt: int, sc: int) -> bool {
    &&& yt <= sc <= grid.height * TILE_SUB
    &&& (sc == grid.height * TILE_SUB || exists|r: int| sc == r * TILE_SUB
        && #[trigger] spec_solid_row(grid, r, x0, x1))
    &&& forall|r: int| yt <= r * TILE_SUB < sc ==> !#[trigger] spec_solid_row(grid, r, x0, x1)
}

/// Whether `w` is the wall right of a body spanning `[y0, y1)`
/// vertically whose right edge sits at `xr`: the nearest tile's left
/// face at or beyond `xr`, or the world's right edge.
pub open spec fn spec_is_wall_right(grid: TileMap, y0: int, y1: int, xr: int, w: int) -> bool {
    &&& xr <= w <= grid.width * TILE_SUB
    &&& (w == grid.width * TILE_SUB || exists|c: int| w == c * TILE_SUB
        && #[trigger] spec_solid_col(grid, c, y0, y1))
    &&& forall|c: int| xr <= c * TILE_SUB < w ==> !#[trigger] spec_solid_col(grid, c, y0, y1)
}

/// Whether `w` is the wall left of a body spanning `[y0, y1)` whose left
/// edge sits at `xl`: the nearest tile's right face at or before `xl`,
/// or the world's left edge `0`.
pub open spec fn spec_is_wall_left(grid: TileMap, y0: int, y1: int, xl: int, w: int) -> bool {
    &&& 0 <= w <= xl
    &&& (w == 0 || exists|c: int| w == (c + 1) * TILE_SUB && #[trigger] spec_solid_col(
        grid,
        c,
        y0,
        y1,
    ))
    &&& forall|c: int| w <= c * TILE_SUB && (c + 1) * TILE_SUB <= xl ==> !#[trigger] spec_solid_col(
        grid,
        c,
        y0,
        y1,
    )
}

/// The resting level is unique: two supports of the same span and bottom
/// are equal.
pub proof fn lemma_support_unique(grid: TileMap, x0: int, x1: int, by: int, s1: int, s2: int)
    requires
        spec_is_support(grid, x0, x1, by, s1),
        spec_is_support(grid, x0, x1, by, s2),
    ensures
        s1 == s2,
{
    if s1 < s2 {
        let r = choose|r: int| s2 == (r + 1) * TILE_SUB && #[trigger] spec_solid_row(
            grid,
            r,
            x0,
            x1,
        );
        assert(s1 < (r + 1) * TILE_SUB <= by);
        assert(!spec_solid_row(grid, r, x0, x1));
    } else if s2 < s1 {
        let r = choose|r: int| s1 == (r + 1) * TILE_SUB && #[trigger] spec_solid_row(
            grid,
            r,
            x0,
            x1,
        );
        assert(s2 < (r + 1) * TILE_SUB <= by);
        assert(!spec_solid_row(grid, r, x0, x1));
    }
}

/// Whether any solid cell of upward row `r` overlaps `[x0, x1)`.
fn row_solid_between(grid: &TileMap, r: usize, x0: i64, x1: i64) -> (b: bool)
    requires
        grid.wf(),
        spec_grid_sized(*grid),
        r < grid.height,
    ensures
        b == spec_solid_row(*grid, r as int, x0 as int, x1 as int),
{
    let mut c: usize = 0;
    while c < grid.width
        invariant
            grid.wf(),
            spec_grid_sized(*grid),
            r < grid.height,
            c <= grid.width,
            forall|cc: int| cc < c ==> !(cc * TILE_SUB < x1 && x0 < (cc + 1) * TILE_SUB
                && #[trigger] spec_solid_cell(*grid, cc, r as int)),
        decreases grid.width - c,
    {
        let left = (c as i64) * TILE_SUB;
        let right = left + TILE_SUB;
        if left < x1 && x0 < right && grid.rows[grid.height - 1 - r][c] {
            assert(spec_solid_cell(*grid, c as int, r as int));
            return true;
        }
        c = c + 1;
    }
    false
}

/// Whether any solid cell of column `c` overlaps `[y0, y1)`.
fn col_solid_between(grid: &TileMap, c: usize, y0: i64, y1: i64) -> (b: bool)
    requires
        grid.wf(),
        spec_grid_sized(*grid),
        c < grid.width,
    ensures
        b == spec_solid_col(*grid, c as int, y0 as int, y1 as int),
{
    let mut r: usize = 0;
    while r < grid.height
        invariant
            grid.wf(),
            spec_grid_sized(*grid),
            c < grid.width,
            r <= grid.height,
            forall|rr: int| rr < r ==> !(rr * TILE_SUB < y1 && y0 < (rr + 1) * TILE_SUB
                && #[trigger] spec_solid_cell(*grid, c as int, rr)),
        decreases grid.height - r,
    {
        let bottom = (r as i64) * TILE_SUB;
        let top = bottom + TILE_SUB;
        if bottom < y1 && y0 < top && grid.rows[grid.height - 1 - r][c] {
            assert(spec_solid_cell(*grid, c as int, r as int));
            return true;
        }
        r = r + 1;
    }
    false
}

/// The resting level under a body spanning `[x0, x1)` with bottom `by`.
fn support_below(grid: &TileMap, x0: i64, x1: i64, by: i64) -> (s: i64)
    requires
        grid.wf(),
        spec_grid_sized(*grid),
        0 <= by <= grid.height * TILE_SUB,
        x0 < x1,
    ensures
        spec_is_support(*grid, x0 as int, x1 as int, by as int, s as int),
{
    let mut r: usize = grid.height;
    while r > 0
        invariant
            grid.wf(),
            spec_grid_sized(*grid),
            0 <= by <= grid.height * TILE_SUB,
            x0 < x1,
            r <= grid.height,
            forall|rr: int| r <= rr && (rr + 1) * TILE_SUB <= by
                ==> !#[trigger] spec_solid_row(*grid, rr, x0 as int, x1 as int),
        decreases r,
    {
        r = r - 1;
        let top = (r as i64 + 1) * TILE_SUB;
        if top <= by {
            if row_solid_between(grid, r, x0, x1) {
                assert forall|rr: int| (top as int) < (rr + 1) * TILE_SUB <= by
                    implies !spec_solid_row(*grid, rr, x0 as int, x1 as int) by {
                    assert(rr >= r + 1);
                }
                return top;
            }
        } else {
            assert forall|rr: int| r <= rr && (rr + 1) * TILE_SUB <= by
                implies !spec_solid_row(*grid, rr, x0 as int, x1 as int) by {
                assert((rr + 1) * TILE_SUB >= (r + 1) * TILE_SUB);
            }
        }
    }
    assert forall|rr: int| 0 < (rr + 1) * TILE_SUB <= by
        implies !spec_solid_row(*grid, rr, x0 as int, x1 as int) by {
        if rr < 0 {
            assert((rr + 1) * TILE_SUB <= 0);
        } else {
            assert(rr >= 0);
        }
    }
    0
}

/// The ceiling over a body spanning `[x0, x1)` with top `yt`.
fn ceiling_above(grid: &TileMap, x0: i64, x1: i64, yt: i64) -> (sc: i64)
    requires
        grid.wf(),
        spec_grid_sized(*grid),
        0 <= yt <= grid.height * TILE_SUB,
        x0 < x1,
    ensures
        spec_is_ceiling(*grid, x0 as int, x1 as int, yt as int, sc as int),
{
    let mut r: usize = 0;
    while r < grid.height
        invariant
            grid.wf(),
            spec_grid_sized(*grid),
            0 <= yt <= grid.height * TILE_SUB,
            x0 < x1,
            r <= grid.height,
            forall|rr: int| 0 <= rr < r && yt <= rr * TILE_SUB
                ==> !#[trigger] spec_solid_row(*grid, rr, x0 as int, x1 as int),
        decreases grid.height - r,
    {
        let bottom = (r as i64) * TILE_SUB;
        if bottom >= yt {
            if row_solid_between(grid, r, x0, x1) {
                assert forall|rr: int| (yt as int) <= rr * TILE_SUB < bottom as int
                    implies !spec_solid_row(*grid, rr, x0 as int, x1 as int) by {
                    assert(rr < r);
                    assert(rr >= 0);
                }
                return bottom;
            }
        }
        r = r + 1;
    }
    assert forall|rr: int| (yt as int) <= rr * TILE_SUB < grid.height * TILE_SUB
        implies !spec_solid_row(*grid, rr, x0 as int, x1 as int) by {
        assert(0 <= rr < grid.height);
    }
    (grid.height as i64) * TILE_SUB
}

/// The wall right of a body spanning `[y0, y1)` with right edge `xr`.
fn wall_right(grid: &TileMap, y0: i64, y1: i64, xr: i64) -> (w: i64)
    requires
        grid.wf(),
        spec_grid_sized(*grid),
        0 <= xr <= grid.width * TILE_SUB,
        y0 < y1,
    ensures
        spec_is_wall_right(*grid, y0 as int, y1 as int, xr as int, w as int),
{
    let mut c: usize = 0;
    while c < grid.width
        invariant
            grid.wf(),
            spec_grid_sized(*grid),
            0 <= xr <= grid.width * TILE_SUB,
            y0 < y1,
            c <= grid.width,
            forall|cc: int| 0 <= cc < c && xr <= cc * TILE_SUB
                ==> !#[trigger] spec_solid_col(*grid, cc, y0 as int, y1 as int),
        decreases grid.width - c,
    {
        let left = (c as i64) * TILE_SUB;
        if left >= xr {
            if col_solid_between(grid, c, y0, y1) {
                assert forall|cc: int| (xr as int) <= cc * TILE_SUB < left as int
                    implies !spec_solid_col(*grid, cc, y0 as int, y1 as int) by {
                    assert(cc < c);
                    assert(cc >= 0);
                }
                return left;
            }
        }
        c = c + 1;
    }
    assert forall|cc: int| (xr as int) <= cc * TILE_SUB < grid.width * TILE_SUB
        implies !spec_solid_col(*grid, cc, y0 as int, y1 as int) by {
        assert(0 <= cc < grid.width);
    }
    (grid.width as i64) * TILE_SUB
}

/// The wall left of a body spanning `[y0, y1)` with left edge `xl`.
fn wall_left(grid: &TileMap, y0: i64, y1: i64, xl: i64) -> (w: i64)
    requires
        grid.wf(),
        spec_grid_sized(*grid),
        0 <= xl <= grid.width * TILE_SUB,
        y0 < y1,
    ensures
        spec_is_wall_left(*grid, y0 as int, y1 as int, xl as int, w as int),
{
    let mut c: usize = grid.width;
    while c > 0
        invariant
            grid.wf(),
            spec_grid_sized(*grid),
            0 <= xl <= grid.width * TILE_SUB,
            y0 < y1,
            c <= grid.width,
            forall|cc: int| c <= cc && (cc + 1) * TILE_SUB <= xl
                ==> !#[trigger] spec_solid_col(*grid, cc, y0 as int, y1 as int),
        decreases c,
    {
        c = c - 1;
        let right = (c as i64 + 1) * TILE_SUB;
        if right <= xl {
            if col_solid_between(grid, c, y0, y1) {
                assert forall|cc: int| (right as int) <= cc * TILE_SUB && (cc + 1) * TILE_SUB <= xl
                    implies !spec_solid_col(*grid, cc, y0 as int, y1 as int) by {
                    assert(cc >= c + 1);
                }
                return right;
            }
        } else {
            assert forall|cc: int| c <= cc && (cc + 1) * TILE_SUB <= xl
                implies !spec_solid_col(*grid, cc, y0 as int, y1 as int) by {
                assert((cc + 1) * TILE_SUB >= (c + 1) * TILE_SUB);
            }
        }
    }
    assert forall|cc: int| 0 <= cc * TILE_SUB && (cc + 1) * TILE_SUB <= xl
        implies !spec_solid_col(*grid, cc, y0 as int, y1 as int) by {
        if cc < 0 {
            assert((cc + 1) * TILE_SUB <= 0);
        }
    }
    0
}


/// The unique resting level, as a total function of the query.
pub open spec fn spec_support(grid: TileMap, x0: int, x1: int, by: int) -> int {
    choose|s: int| spec_is_support(grid, x0, x1, by, s)
}

/// The unique ceiling, as a total function of the query.
pub open spec fn spec_ceiling(grid: TileMap, x0: int, x1: int, yt: int) -> int {
    choose|sc: int| spec_is_ceiling(grid, x0, x1, yt, sc)
}

/// The unique right wall, as a total function of the query.
pub open spec fn spec_wall_right(grid: TileMap, y0: int, y1: int, xr: int) -> int {
    choose|w: int| spec_is_wall_right(grid, y0, y1, xr, w)
}

/// The unique left wall, as a total function of the query.
pub open spec fn spec_wall_left(grid: TileMap, y0: int, y1: int, xl: int) -> int {
    choose|w: int| spec_is_wall_left(grid, y0, y1, xl, w)
}

/// The ceiling is unique.
pub proof fn lemma_ceiling_unique(grid: TileMap, x0: int, x1: int, yt: int, s1: int, s2: int)
    requires
        spec_is_ceiling(grid, x0, x1, yt, s1),
        spec_is_ceiling(grid, x0, x1, yt, s2),
    ensures
        s1 == s2,
{
    if s1 < s2 {
        let r = choose|r: int| s1 == r * TILE_SUB && #[trigger] spec_solid_row(grid, r, x0, x1);
        assert(yt <= r * TILE_SUB < s2);
        assert(!spec_solid_row(grid, r, x0, x1));
    } else if s2 < s1 {
        let r = choose|r: int| s2 == r * TILE_SUB && #[trigger] spec_solid_row(grid, r, x0, x1);
        assert(yt <= r * TILE_SUB < s1);
        assert(!spec_solid_row(grid, r, x0, x1));
    }
}

/// The right wall is unique.
pub proof fn lemma_wall_right_unique(grid: TileMap, y0: int, y1: int, xr: int, w1: int, w2: int)
    requires
        spec_is_wall_right(grid, y0, y1, xr, w1),
        spec_is_wall_right(grid, y0, y1, xr, w2),
    ensures
        w1 == w2,
{
    if w1 < w2 {
        let c = choose|c: int| w1 == c * TILE_SUB && #[trigger] spec_solid_col(grid, c, y0, y1);
        assert(xr <= c * TILE_SUB < w2);
        assert(!spec_solid_col(grid, c, y0, y1));
    } else if w2 < w1 {
        let c = choose|c: int| w2 == c * TILE_SUB && #[trigger] spec_solid_col(grid, c, y0, y1);
        assert(xr <= c * TILE_SUB < w1);
        assert(!spec_solid_col(grid, c, y0, y1));
    }
}

/// The left wall is unique.
pub proof fn lemma_wall_left_unique(grid: TileMap, y0: int, y1: int, xl: int, w1: int, w2: int)
    requires
        spec_is_wall_left(grid, y0, y1, xl, w1),
        spec_is_wall_left(grid, y0, y1, xl, w2),
    ensures
        w1 == w2,
{
    if w1 < w2 {
        let c = choose|c: int| w2 == (c + 1) * TILE_SUB && #[trigger] spec_solid_col(
            grid,
            c,
            y0,
            y1,
        );
        assert(w1 <= c * TILE_SUB && (c + 1) * TILE_SUB <= xl);
        assert(!spec_solid_col(grid, c, y0, y1));
    } else if w2 < w1 {
        let c = choose|c: int| w1 == (c + 1) * TILE_SUB && #[trigger] spec_solid_col(
            grid,
            c,
            y0,
            y1,
        );
        assert(w2 <= c * TILE_SUB && (c + 1) * TILE_SUB <= xl);
        assert(!spec_solid_col(grid, c, y0, y1));
    }
}

/// Where a fall from `by` with downward velocity `vy` ends against the
/// resting level `s`: stopped on `s` when the path reaches it, snapped
/// onto `s` when it ends within `snap` above it, otherwise unobstructed.
pub open spec fn spec_fall_to(by: int, vy: int, s: int, snap: int) -> int {
    let cand = by + vy;
    if cand <= s {
        s
    } else if cand - s <= snap {
        s
    } else {
        cand
    }
}

/// Resolves a downward move: the body stops on the resting level, or
/// snaps onto it when it ends within `snap` above it. Returns the new
/// bottom and whether the body is in contact with the ground.
fn resolve_down(grid: &TileMap, bx: i64, bw: i64, by: i64, bh: i64, vy: i64, snap: i64) -> (r: (
    i64,
    bool,
))
    requires
        grid.wf(),
        spec_grid_sized(*grid),
        0 < bw,
        0 < bh,
        0 <= bx,
        bx + bw <= grid.width * TILE_SUB,
        0 <= by,
        by + bh <= grid.height * TILE_SUB,
        -VEL_LIMIT <= vy <= 0,
        0 <= snap <= TILE_SUB,
        spec_body_clear(*grid, bx as int, by as int, bw as int, bh as int),
    ensures
        ({
            let s = spec_support(*grid, bx as int, (bx + bw) as int, by as int);
            &&& spec_is_support(*grid, bx as int, (bx + bw) as int, by as int, s)
            &&& r.0 == spec_fall_to(by as int, vy as int, s, snap as int)
            &&& r.1 == (r.0 == s)
        }),
        0 <= r.0 <= by,
        spec_body_clear(*grid, bx as int, r.0 as int, bw as int, bh as int),
{
    let s = support_below(grid, bx, bx + bw, by);
    proof {
        let sv = spec_support(*grid, bx as int, (bx + bw) as int, by as int);
        assert(spec_is_support(*grid, bx as int, (bx + bw) as int, by as int, sv));
        lemma_support_unique(*grid, bx as int, (bx + bw) as int, by as int, s as int, sv);
    }
    let cand = by + vy;
    let landed = if cand <= s {
        s
    } else if cand - s <= snap {
        s
    } else {
        cand
    };
    let hit = landed == s;
    proof {
        assert forall|c: int, rr: int|
            c * TILE_SUB < bx + bw && bx < (c + 1) * TILE_SUB && rr * TILE_SUB < landed + bh
                && landed < (rr + 1) * TILE_SUB implies !spec_solid_cell(*grid, c, rr) by {
            if spec_solid_cell(*grid, c, rr) {
                assert(spec_solid_row(*grid, rr, bx as int, (bx + bw) as int));
                if (rr + 1) * TILE_SUB <= by {
                    assert((s as int) < (rr + 1) * TILE_SUB <= by);
                } else {
                    assert(rr * TILE_SUB < by + bh && by < (rr + 1) * TILE_SUB);
                }
            }
        }
    }
    (landed, hit)
}

/// Resolves an upward move: the body stops flush under the ceiling.
/// Returns the new bottom and whether the body hit the ceiling.
fn resolve_up(grid: &TileMap, bx: i64, bw: i64, by: i64, bh: i64, vy: i64) -> (r: (i64, bool))
    requires
        grid.wf(),
        spec_grid_sized(*grid),
        0 < bw,
        0 < bh,
        0 <= bx,
        bx + bw <= grid.width * TILE_SUB,
        0 <= by,
        by + bh <= grid.height * TILE_SUB,
        0 <= vy <= VEL_LIMIT,
        spec_body_clear(*grid, bx as int, by as int, bw as int, bh as int),
    ensures
        ({
            let sc = spec_ceiling(*grid, bx as int, (bx + bw) as int, (by + bh) as int);
            &&& spec_is_ceiling(*grid, bx as int, (bx + bw) as int, (by + bh) as int, sc)
            &&& r.0 == if by + vy <= sc - bh {
                by + vy
            } else {
                sc - bh
            }
            &&& r.1 == (by + vy > sc - bh)
        }),
        by <= r.0,
        r.0 + bh <= grid.height * TILE_SUB,
        spec_body_clear(*grid, bx as int, r.0 as int, bw as int, bh as int),
{
    let sc = ceiling_above(grid, bx, bx + bw, by + bh);
    proof {
        let scv = spec_ceiling(*grid, bx as int, (bx + bw) as int, (by + bh) as int);
        assert(spec_is_ceiling(*grid, bx as int, (bx + bw) as int, (by + bh) as int, scv));
        lemma_ceiling_unique(
            *grid,
            bx as int,
            (bx + bw) as int,
            (by + bh) as int,
            sc as int,
            scv,
        );
    }
    let cand = by + vy;
    let limit = sc - bh;
    let risen = if cand <= limit {
        cand
    } else {
        limit
    };
    let hit = cand > limit;
    proof {
        assert forall|c: int, rr: int|
            c * TILE_SUB < bx + bw && bx < (c + 1) * TILE_SUB && rr * TILE_SUB < risen + bh
                && risen < (rr + 1) * TILE_SUB implies !spec_solid_cell(*grid, c, rr) by {
            if spec_solid_cell(*grid, c, rr) {
                assert(spec_solid_row(*grid, rr, bx as int, (bx + bw) as int));
                if rr * TILE_SUB >= by + bh {
                    assert((by + bh) as int <= rr * TILE_SUB < sc as int);
                } else {
                    assert(rr * TILE_SUB < by + bh && by < (rr + 1) * TILE_SUB);
                }
            }
        }
    }
    (risen, hit)
}

/// Resolves a rightward move: the body stops flush against the nearest
/// wall. Returns the new left edge and whether the body hit a wall.
fn resolve_right(grid: &TileMap, bx: i64, bw: i64, by: i64, bh: i64, vx: i64) -> (r: (i64, bool))
    requires
        grid.wf(),
        spec_grid_sized(*grid),
        0 < bw,
        0 < bh,
        0 <= bx,
        bx + bw <= grid.width * TILE_SUB,
        0 <= by,
        by + bh <= grid.height * TILE_SUB,
        0 <= vx <= VEL_LIMIT,
        spec_body_clear(*grid, bx as int, by as int, bw as int, bh as int),
    ensures
        ({
            let w = spec_wall_right(*grid, by as int, (by + bh) as int, (bx + bw) as int);
            &&& spec_is_wall_right(*grid, by as int, (by + bh) as int, (bx + bw) as int, w)
            &&& r.0 == if bx + vx <= w - bw {
                bx + vx
            } else {
                w - bw
            }
            &&& r.1 == (bx + vx > w - bw)
        }),
        bx <= r.0,
        r.0 + bw <= grid.width * TILE_SUB,
        spec_body_clear(*grid, r.0 as int, by as int, bw as int, bh as int),
{
    let w = wall_right(grid, by, by + bh, bx + bw);
    proof {
        let wv = spec_wall_right(*grid, by as int, (by + bh) as int, (bx + bw) as int);
        assert(spec_is_wall_right(*grid, by as int, (by + bh) as int, (bx + bw) as int, wv));
        lemma_wall_right_unique(
            *grid,
            by as int,
            (by + bh) as int,
            (bx + bw) as int,
            w as int,
            wv,
        );
    }
    let cand = bx + vx;
    let limit = w - bw;
    let moved = if cand <= limit {
        cand
    } else {
        limit
    };
    let hit = cand > limit;
    proof {
        assert forall|c: int, rr: int|
            c * TILE_SUB < moved + bw && moved < (c + 1) * TILE_SUB && rr * TILE_SUB < by + bh
                && by < (rr + 1) * TILE_SUB implies !spec_solid_cell(*grid, c, rr) by {
            if spec_solid_cell(*grid, c, rr) {
                assert(spec_solid_col(*grid, c, by as int, (by + bh) as int));
                if c * TILE_SUB >= bx + bw {
                    assert((bx + bw) as int <= c * TILE_SUB < w as int);
                } else {
                    assert(c * TILE_SUB < bx + bw && bx < (c + 1) * TILE_SUB);
                }
            }
        }
    }
    (moved, hit)
}

/// Resolves a leftward move: the body stops flush against the nearest
/// wall. Returns the new left edge and whether the body hit a wall.
fn resolve_left(grid: &TileMap, bx: i64, bw: i64, by: i64, bh: i64, vx: i64) -> (r: (i64, bool))
    requires
        grid.wf(),
        spec_grid_sized(*grid),
        0 < bw,
        0 < bh,
        0 <= bx,
        bx + bw <= grid.width * TILE_SUB,
        0 <= by,
        by + bh <= grid.height * TILE_SUB,
        -VEL_LIMIT <= vx <= 0,
        spec_body_clear(*grid, bx as int, by as int, bw as int, bh as int),
    ensures
        ({
            let w = spec_wall_left(*grid, by as int, (by + bh) as int, bx as int);
            &&& spec_is_wall_left(*grid, by as int, (by + bh) as int, bx as int, w)
            &&& r.0 == if bx + vx >= w {
                bx + vx
            } else {
                w
            }
            &&& r.1 == (bx + vx < w)
        }),
        0 <= r.0 <= bx,
        spec_body_clear(*grid, r.0 as int, by as int, bw as int, bh as int),
{
    let w = wall_left(grid, by, by + bh, bx);
    proof {
        let wv = spec_wall_left(*grid, by as int, (by + bh) as int, bx as int);
        assert(spec_is_wall_left(*grid, by as int, (by + bh) as int, bx as int, wv));
        lemma_wall_left_unique(*grid, by as int, (by + bh) as int, bx as int, w as int, wv);
    }
    let cand = bx + vx;
    let moved = if cand >= w {
        cand
    } else {
        w
    };
    let hit = cand < w;
    proof {
        assert forall|c: int, rr: int|
            c * TILE_SUB < moved + bw && moved < (c + 1) * TILE_SUB && rr * TILE_SUB < by + bh
                && by < (rr + 1) * TILE_SUB implies !spec_solid_cell(*grid, c, rr) by {
            if spec_solid_cell(*grid, c, rr) {
                assert(spec_solid_col(*grid, c, by as int, (by + bh) as int));
                if (c + 1) * TILE_SUB <= bx {
                    if w as int == 0 {
                        assert((w as int) <= c * TILE_SUB && (c + 1) * TILE_SUB <= bx);
                    } else {
                        let cw = choose|cw: int| w as int == (cw + 1) * TILE_SUB
                            && #[trigger] spec_solid_col(*grid, cw, by as int, (by + bh) as int);
                        assert(w as int <= moved as int);
                        assert(moved < (c + 1) * TILE_SUB);
                        assert((cw + 1) * TILE_SUB < (c + 1) * TILE_SUB);
                        assert(cw < c);
                        assert((cw + 1) * TILE_SUB <= c * TILE_SUB);
                        assert((w as int) <= c * TILE_SUB && (c + 1) * TILE_SUB <= bx);
                    }
                } else {
                    assert(c * TILE_SUB < bx + bw && bx < (c + 1) * TILE_SUB);
                }
            }
        }
    }
    (moved, hit)
}

/// Whether the body rectangle at `(bx, by)` overlaps no solid cell.
pub fn body_clear_at(grid: &TileMap, bx: i64, by: i64, bw: i64, bh: i64) -> (b: bool)
    requires
        grid.wf(),
        spec_grid_sized(*grid),
        0 < bw,
        0 < bh,
        0 <= bx,
        bx + bw <= grid.width * TILE_SUB,
        0 <= by,
        by + bh <= grid.height * TILE_SUB,
    ensures
        b == spec_body_clear(*grid, bx as int, by as int, bw as int, bh as int),
{
    let mut r: usize = 0;
    while r < grid.height
        invariant
            grid.wf(),
            spec_grid_sized(*grid),
            0 <= bx,
            bx + bw <= grid.width * TILE_SUB,
            0 <= by,
            by + bh <= grid.height * TILE_SUB,
            0 < bw,
            0 < bh,
            r <= grid.height,
            forall|c: int, rr: int|
                rr < r && c * TILE_SUB < bx + bw && bx < (c + 1) * TILE_SUB && rr * TILE_SUB < by
                    + bh && by < (rr + 1) * TILE_SUB ==> !#[trigger] spec_solid_cell(*grid, c, rr),
        decreases grid.height - r,
    {
        let bottom = (r as i64) * TILE_SUB;
        let top = bottom + TILE_SUB;
        if bottom < by + bh && by < top {
            if row_solid_between(grid, r, bx, bx + bw) {
                proof {
                    let c = choose|c: int| c * TILE_SUB < bx + bw && bx < (c + 1) * TILE_SUB
                        && #[trigger] spec_solid_cell(*grid, c, r as int);
                    assert(!spec_body_clear(*grid, bx as int, by as int, bw as int, bh as int));
                }
                return false;
            }
        }
        r = r + 1;
    }
    proof {
        assert forall|c: int, rr: int|
            c * TILE_SUB < bx + bw && bx < (c + 1) * TILE_SUB && rr * TILE_SUB < by + bh && by < (rr
                + 1) * TILE_SUB implies !spec_solid_cell(*grid, c, rr) by {
            if 0 <= rr < grid.height {
            } else {
                assert(!spec_solid_cell(*grid, c, rr));
            }
        }
    }
    true
}

/// Whether a blocked walker may step up one tile: it stands exactly on
/// its resting level, the lifted body still fits under the world top,
/// and the lifted position is free of solid cells.
pub open spec fn spec_step_up_allowed(grid: TileMap, bw: int, bh: int, x: int, y: int) -> bool {
    &&& spec_support(grid, x, x + bw, y) == y
    &&& y + TILE_SUB + bh <= grid.height * TILE_SUB
    &&& spec_body_clear(grid, x, y + TILE_SUB, bw, bh)
}

/// Outcome of the rightward phase: new bottom-left corner and whether
/// the move ended blocked against a wall. A blocked, grounded walker
/// first tries one step up; only when that also blocks does it stop
/// flush against the wall.
pub open spec fn spec_walk_right(grid: TileMap, bw: int, bh: int, x: int, y: int, vx: int) -> (
    int,
    int,
    bool,
) {
    let w = spec_wall_right(grid, y, y + bh, x + bw);
    if x + vx <= w - bw {
        (x + vx, y, false)
    } else {
        let lifted = y + TILE_SUB;
        let w2 = spec_wall_right(grid, lifted, lifted + bh, x + bw);
        if spec_step_up_allowed(grid, bw, bh, x, y) && x + vx <= w2 - bw {
            (x + vx, lifted, false)
        } else {
            (w - bw, y, true)
        }
    }
}

/// Outcome of the leftward phase, mirror of the rightward one.
pub open spec fn spec_walk_left(grid: TileMap, bw: int, bh: int, x: int, y: int, vx: int) -> (
    int,
    int,
    bool,
) {
    let w = spec_wall_left(grid, y, y + bh, x);
    if x + vx >= w {
        (x + vx, y, false)
    } else {
        let lifted = y + TILE_SUB;
        let w2 = spec_wall_left(grid, lifted, lifted + bh, x);
        if spec_step_up_allowed(grid, bw, bh, x, y) && x + vx >= w2 {
            (x + vx, lifted, false)
        } else {
            (w, y, true)
        }
    }
}

/// Outcome of the horizontal phase of a sweep: position after the walk
/// and whether a wall blocked it.
pub open spec fn spec_horizontal_outcome(
    grid: TileMap,
    bw: int,
    bh: int,
    x: int,
    y: int,
    vx: int,
) -> (int, int, bool) {
    if vx > 0 {
        spec_walk_right(grid, bw, bh, x, y, vx)
    } else if vx < 0 {
        spec_walk_left(grid, bw, bh, x, y, vx)
    } else {
        (x, y, false)
    }
}

/// The contact normals the horizontal phase reports: one sideways unit
/// normal when blocked, none otherwise.
pub open spec fn spec_horizontal_contacts(vx: int, blocked: bool) -> Seq<ContactNormal> {
    if !blocked {
        Seq::empty()
    } else if vx > 0 {
        seq![ContactNormal { x: -1000i64, y: 0 }]
    } else {
        seq![ContactNormal { x: 1000i64, y: 0 }]
    }
}

/// Outcome of the vertical phase at horizontal span `[x, x+bw)`: the
/// new bottom and whether the body ended in vertical contact — resting
/// on (or snapped onto) the support below, or flush under the ceiling.
pub open spec fn spec_vertical_outcome(
    grid: TileMap,
    bw: int,
    bh: int,
    x: int,
    y: int,
    vy: int,
    snap: int,
) -> (int, bool) {
    if vy < 0 {
        let s = spec_support(grid, x, x + bw, y);
        let landed = spec_fall_to(y, vy, s, snap);
        (landed, landed == s)
    } else if vy > 0 {
        let sc = spec_ceiling(grid, x, x + bw, y + bh);
        if y + vy <= sc - bh {
            (y + vy, false)
        } else {
            (sc - bh, true)
        }
    } else {
        (y, false)
    }
}

/// The contact normals the vertical phase reports: one up or down unit
/// normal on contact, none otherwise.
pub open spec fn spec_vertical_contacts(vy: int, hit: bool) -> Seq<ContactNormal> {
    if !hit {
        Seq::empty()
    } else if vy < 0 {
        seq![ContactNormal { x: 0, y: 1000i64 }]
    } else {
        seq![ContactNormal { x: 0, y: -1000i64 }]
    }
}

/// Moves a body by its velocity with a kinematic sweep against the
/// grid's solid tiles and the level's outer edges: horizontal first,
/// stepping up over ledges one tile high when that unblocks the move,
/// then vertical, snapping onto the ground within `snap` below. Each
/// blocked axis reports one axis-aligned contact normal; the caller
/// zeroes the matching velocity components.
pub fn sweep_move(
    grid: &TileMap,
    bw: i64,
    bh: i64,
    pos: &mut SubPos,
    vel: &Velocity,
    snap: i64,
) -> (contacts: Vec<ContactNormal>)
    requires
        grid.wf(),
        spec_grid_sized(*grid),
        0 < bw <= grid.width * TILE_SUB,
        0 < bh,
        bh + TILE_SUB <= grid.height * TILE_SUB,
        0 <= old(pos).x,
        old(pos).x + bw <= grid.width * TILE_SUB,
        0 <= old(pos).y,
        old(pos).y + bh <= grid.height * TILE_SUB,
        spec_body_clear(*grid, old(pos).x as int, old(pos).y as int, bw as int, bh as int),
        vel.bounded(VEL_LIMIT as int),
        0 <= snap <= TILE_SUB,
    ensures
        0 <= final(pos).x,
        final(pos).x + bw <= grid.width * TILE_SUB,
        0 <= final(pos).y,
        final(pos).y + bh <= grid.height * TILE_SUB,
        spec_body_clear(*grid, final(pos).x as int, final(pos).y as int, bw as int, bh as int),
        forall|i: int| 0 <= i < contacts@.len() ==> {
            let n = #[trigger] contacts@[i];
            n == (ContactNormal { x: 0, y: 1000 }) || n == (ContactNormal { x: 0, y: -1000i64 })
                || n == (ContactNormal { x: 1000, y: 0 }) || n == (ContactNormal { x: -1000i64, y: 0 })
        },
        ({
            let h = spec_horizontal_outcome(
                *grid,
                bw as int,
                bh as int,
                old(pos).x as int,
                old(pos).y as int,
                vel.x as int,
            );
            let v = spec_vertical_outcome(
                *grid,
                bw as int,
                bh as int,
                h.0,
                h.1,
                vel.y as int,
                snap as int,
            );
            &&& final(pos).x == h.0
            &&& final(pos).y == v.0
            &&& contacts@ == spec_horizontal_contacts(vel.x as int, h.2)
                + spec_vertical_contacts(vel.y as int, v.1)
        }),
        vel.y <= 0 ==> final(pos).y <= old(pos).y + TILE_SUB,
{
    let mut contacts: Vec<ContactNormal> = Vec::new();
    let mut bx = pos.x;
    let mut by = pos.y;

    if vel.x > 0 {
        let (nx, hit) = resolve_right(grid, bx, bw, by, bh, vel.x);
        if hit {
            let mut stepped = false;
            let s = support_below(grid, bx, bx + bw, by);
            proof {
                let sv = spec_support(*grid, bx as int, (bx + bw) as int, by as int);
                assert(spec_is_support(*grid, bx as int, (bx + bw) as int, by as int, sv));
                lemma_support_unique(*grid, bx as int, (bx + bw) as int, by as int, s as int, sv);
            }
            if s == by && by + TILE_SUB + bh <= (grid.height as i64) * TILE_SUB {
                let lifted = by + TILE_SUB;
                if body_clear_at(grid, bx, lifted, bw, bh) {
                    let (nx2, hit2) = resolve_right(grid, bx, bw, lifted, bh, vel.x);
                    if !hit2 {
                        by = lifted;
                        bx = nx2;
                        stepped = true;
                    }
                }
            }
            if !stepped {
                bx = nx;
                contacts.push(ContactNormal { x: -1000, y: 0 });
                assert(contacts@ =~= seq![ContactNormal { x: -1000i64, y: 0 }]);
            }
        } else {
            bx = nx;
        }
    } else if vel.x < 0 {
        let (nx, hit) = resolve_left(grid, bx, bw, by, bh, vel.x);
        if hit {
            let mut stepped = false;
            let s = support_below(grid, bx, bx + bw, by);
            proof {
                let sv = spec_support(*grid, bx as int, (bx + bw) as int, by as int);
                assert(spec_is_support(*grid, bx as int, (bx + bw) as int, by as int, sv));
                lemma_support_unique(*grid, bx as int, (bx + bw) as int, by as int, s as int, sv);
            }
            if s == by && by + TILE_SUB + bh <= (grid.height as i64) * TILE_SUB {
                let lifted = by + TILE_SUB;
                if body_clear_at(grid, bx, lifted, bw, bh) {
                    let (nx2, hit2) = resolve_left(grid, bx, bw, lifted, bh, vel.x);
                    if !hit2 {
                        by = lifted;
                        bx = nx2;
                        stepped = true;
                    }
                }
            }
            if !stepped {
                bx = nx;
                contacts.push(ContactNormal { x: 1000, y: 0 });
                assert(contacts@ =~= seq![ContactNormal { x: 1000i64, y: 0 }]);
            }
        } else {
            bx = nx;
        }
    }

    let ghost h = spec_horizontal_outcome(
        *grid,
        bw as int,
        bh as int,
        old(pos).x as int,
        old(pos).y as int,
        vel.x as int,
    );
    proof {
        assert(bx as int == h.0);
        assert(by as int == h.1);
        assert(contacts@ =~= spec_horizontal_contacts(vel.x as int, h.2));
    }
    let ghost contacts_h = contacts@;

    if vel.y < 0 {
        let (ny, hit) = resolve_down(grid, bx, bw, by, bh, vel.y, snap);
        by = ny;
        if hit {
            contacts.push(ContactNormal { x: 0, y: 1000 });
            assert(contacts@ =~= contacts_h + seq![ContactNormal { x: 0, y: 1000 }]);
        }
    } else if vel.y > 0 {
        let (ny, hit) = resolve_up(grid, bx, bw, by, bh, vel.y);
        by = ny;
        if hit {
            contacts.push(ContactNormal { x: 0, y: -1000 });
            assert(contacts@ =~= contacts_h + seq![ContactNormal { x: 0, y: -1000i64 }]);
        }
    }

    proof {
        let v = spec_vertical_outcome(
            *grid,
            bw as int,
            bh as int,
            h.0,
            h.1,
            vel.y as int,
            snap as int,
        );
        assert(by as int == v.0);
        assert(contacts@ =~= spec_horizontal_contacts(vel.x as int, h.2)
            + spec_vertical_contacts(vel.y as int, v.1));
    }

    pos.x = bx;
    pos.y = by;
    contacts
}


/// One collision response of the fixed step: sweep the body by its
/// velocity, then zero each velocity component blocked by a contact.
///
/// For a body moving straight down (`x` velocity zero, `y` velocity
/// negative), the outcome is exact: the body ends on the resting level
/// below with vertical velocity zero when the fall reaches (or snaps
/// onto) it, and otherwise falls unobstructed with velocity kept.
pub fn move_and_collide(
    grid: &TileMap,
    bw: i64,
    bh: i64,
    pos: &mut SubPos,
    vel: &mut Velocity,
    snap: i64,
    threshold: i64,
)
    requires
        grid.wf(),
        spec_grid_sized(*grid),
        0 < bw <= grid.width * TILE_SUB,
        0 < bh,
        bh + TILE_SUB <= grid.height * TILE_SUB,
        0 <= old(pos).x,
        old(pos).x + bw <= grid.width * TILE_SUB,
        0 <= old(pos).y,
        old(pos).y + bh <= grid.height * TILE_SUB,
        spec_body_clear(*grid, old(pos).x as int, old(pos).y as int, bw as int, bh as int),
        old(vel).bounded(VEL_LIMIT as int),
        0 <= snap <= TILE_SUB,
        0 <= threshold < 1000,
    ensures
        0 <= final(pos).x,
        final(pos).x + bw <= grid.width * TILE_SUB,
        0 <= final(pos).y,
        final(pos).y + bh <= grid.height * TILE_SUB,
        spec_body_clear(*grid, final(pos).x as int, final(pos).y as int, bw as int, bh as int),
        final(vel).bounded(VEL_LIMIT as int),
        old(vel).x == 0 ==> final(pos).x == old(pos).x && final(vel).x == 0,
        old(vel).x == 0 && old(vel).y < 0 ==> ({
            let s = spec_support(
                *grid,
                old(pos).x as int,
                (old(pos).x + bw) as int,
                old(pos).y as int,
            );
            &&& final(pos).y == spec_fall_to(old(pos).y as int, old(vel).y as int, s, snap as int)
            &&& (final(pos).y == s ==> final(vel).y == 0)
            &&& (final(pos).y != s ==> final(vel).y == old(vel).y)
        }),
        old(vel).x == 0 && old(vel).y == 0 ==> *final(pos) == *old(pos) && final(vel).y == 0,
        ({
            let h = spec_horizontal_outcome(
                *grid,
                bw as int,
                bh as int,
                old(pos).x as int,
                old(pos).y as int,
                old(vel).x as int,
            );
            let v = spec_vertical_outcome(
                *grid,
                bw as int,
                bh as int,
                h.0,
                h.1,
                old(vel).y as int,
                snap as int,
            );
            &&& final(pos).x == h.0
            &&& final(pos).y == v.0
            &&& final(vel).x == if h.2 {
                0int
            } else {
                old(vel).x as int
            }
            &&& final(vel).y == if v.1 {
                0int
            } else {
                old(vel).y as int
            }
        }),
{
    let contacts = sweep_move(grid, bw, bh, pos, vel, snap);
    let ghost vel_in = *vel;
    proof {
        assert forall|i: int| 0 <= i < contacts@.len() implies (#[trigger] contacts@[i]).spec_unit()
            by {
            crate::physics::lemma_axis_unit(contacts@[i]);
        }
    }
    crate::physics::zero_velocity_on_collision(vel, &contacts, threshold);
    proof {
        let h = spec_horizontal_outcome(
            *grid,
            bw as int,
            bh as int,
            old(pos).x as int,
            old(pos).y as int,
            vel_in.x as int,
        );
        let v = spec_vertical_outcome(
            *grid,
            bw as int,
            bh as int,
            h.0,
            h.1,
            vel_in.y as int,
            snap as int,
        );
        let hc = spec_horizontal_contacts(vel_in.x as int, h.2);
        let vc = spec_vertical_contacts(vel_in.y as int, v.1);
        assert(contacts@ == hc + vc);
        if h.2 {
            assert(contacts@[0] == hc[0]);
            assert(hc[0].x > threshold || hc[0].x < -threshold);
            assert(crate::physics::spec_any_horizontal(contacts@, threshold as int));
        } else {
            assert forall|i: int| 0 <= i < contacts@.len() implies (#[trigger] contacts@[i]).x
                == 0 by {
                assert(contacts@[i] == vc[i]);
            }
            if crate::physics::spec_any_horizontal(contacts@, threshold as int) {
                let i = choose|i: int|
                    0 <= i < contacts@.len() && ((#[trigger] contacts@[i]).x > threshold
                        || contacts@[i].x < -threshold);
                assert(contacts@[i].x == 0);
            }
        }
        if v.1 {
            let k = hc.len() as int;
            assert(contacts@[k] == vc[0]);
            assert(vc[0].y > threshold || vc[0].y < -threshold);
            assert(crate::physics::spec_any_vertical(contacts@, threshold as int));
        } else {
            assert forall|i: int| 0 <= i < contacts@.len() implies (#[trigger] contacts@[i]).y
                == 0 by {
                assert(contacts@[i] == hc[i]);
            }
            if crate::physics::spec_any_vertical(contacts@, threshold as int) {
                let i = choose|i: int|
                    0 <= i < contacts@.len() && ((#[trigger] contacts@[i]).y > threshold
                        || contacts@[i].y < -threshold);
                assert(contacts@[i].y == 0);
            }
        }
        if vel_in.x == 0 {
            if crate::physics::spec_any_horizontal(contacts@, threshold as int) {
                let i = choose|i: int| 0 <= i < contacts@.len()
                    && ((#[trigger] contacts@[i]).x > threshold || contacts@[i].x < -threshold);
                assert(contacts@[i].x == 0);
            }
            assert(final(vel).x == 0);
        }
        if vel_in.x == 0 && vel_in.y < 0 {
            let s = spec_support(
                *grid,
                old(pos).x as int,
                (old(pos).x + bw) as int,
                old(pos).y as int,
            );
            if final(pos).y == s {
                assert(contacts@ == seq![ContactNormal { x: 0, y: 1000 }]);
                assert(contacts@[0].y > threshold);
                assert(crate::physics::spec_any_vertical(contacts@, threshold as int));
            } else {
                assert(contacts@ == Seq::<ContactNormal>::empty());
                assert(!crate::physics::spec_any_vertical(contacts@, threshold as int));
            }
        }
        if vel_in.x == 0 && vel_in.y == 0 {
            assert(contacts@ == Seq::<ContactNormal>::empty());
            assert(!crate::physics::spec_any_vertical(contacts@, threshold as int));
        }
    }
}

/// A body moving straight down into solid ground ends the step with
/// vertical velocity zero, resting exactly on the tile's top surface:
/// when the fall from `by` would reach or pass the resting level `s`,
/// the landing position is `s` itself, never inside the ground.
pub proof fn lemma_fall_lands_on_support(by: int, vy: int, s: int, snap: int)
    requires
        vy < 0,
        0 <= s <= by,
        0 <= snap,
        by + vy <= s,
    ensures
        spec_fall_to(by, vy, s, snap) == s,
{
}

} // verus!

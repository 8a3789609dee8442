//! Dense 2D occupancy grid for the level's tiles.
//!
//! Row `y == 0` is the top of the level; row `height - 1` is the bottom.
//! A cell transitions from empty to occupied at most once per placement,
//! and placement reports whether it was the first time, so that downstream
//! tile-entity creation runs exactly once per cell.

use vstd::prelude::*;

verus! {

/// Integer coordinates of one cell on the tile lattice.
#[derive(Clone, Copy, PartialEq, Eq, Structural, Debug)]
pub struct TilePosition {
    pub x: usize,
    pub y: usize,
}

/// Cardinal direction for neighbor-occupancy queries.
#[derive(Clone, Copy, PartialEq, Eq, Structural, Debug)]
pub enum Direction {
    Up,
    Down,
    Left,
    Right,
}

/// Rectangular boolean occupancy matrix, indexed as `rows[y][x]`.
pub struct TileMap {
    pub width: usize,
    pub height: usize,
    pub rows: Vec<Vec<bool>>,
}

impl TileMap {
    /// Shape invariant: exactly `height` rows of `width` cells each.
    pub open spec fn wf(self) -> bool {
        &&& self.rows.len() == self.height
        &&& forall|y: int| 0 <= y < self.height ==> (#[trigger] self.rows[y]).len() == self.width
    }

    pub open spec fn spec_in_bounds(self, pos: TilePosition) -> bool {
        pos.x < self.width && pos.y < self.height
    }

    /// Whether the cell at column `x`, row `y` holds a tile.
    pub open spec fn spec_occupied(self, x: int, y: int) -> bool {
        self.rows[y][x]
    }

    /// The cell a step from `(x, y)` in direction `dir`; `None` past a grid edge.
    pub open spec fn spec_neighbor(self, x: int, y: int, dir: Direction) -> Option<(int, int)> {
        match dir {
            Direction::Up => if y > 0 { Some((x, y - 1)) } else { None },
            Direction::Down => if y + 1 < self.height { Some((x, y + 1)) } else { None },
            Direction::Left => if x > 0 { Some((x - 1, y)) } else { None },
            Direction::Right => if x + 1 < self.width { Some((x + 1, y)) } else { None },
        }
    }

    /// An all-empty grid of the given dimensions.
    pub fn new(width: usize, height: usize) -> (r: TileMap)
        ensures
            r.wf(),
            r.width == width,
            r.height == height,
            forall|x: int, y: int| 0 <= x < width && 0 <= y < height ==> !r.spec_occupied(x, y),
    {
        let mut rows: Vec<Vec<bool>> = Vec::new();
        let mut y: usize = 0;
        while y < height
            invariant
                y <= height,
                rows.len() == y,
                forall|j: int| 0 <= j < y ==> (#[trigger] rows[j]).len() == width,
                forall|i: int, j: int| 0 <= i < width && 0 <= j < y ==> !rows[j][i],
            decreases height - y,
        {
            let mut row: Vec<bool> = Vec::new();
            let mut x: usize = 0;
            while x < width
                invariant
                    x <= width,
                    row.len() == x,
                    forall|i: int| 0 <= i < x ==> !row[i],
                decreases width - x,
            {
                row.push(false);
                x = x + 1;
            }
            rows.push(row);
            y = y + 1;
        }
        TileMap { width, height, rows }
    }

    pub fn is_occupied(&self, pos: TilePosition) -> (r: bool)
        requires
            self.wf(),
            self.spec_in_bounds(pos),
        ensures
            r == self.spec_occupied(pos.x as int, pos.y as int),
    {
        self.rows[pos.y][pos.x]
    }

    /// Marks `pos` occupied. Returns whether this was a first-time placement;
    /// a second placement at the same cell is a no-op and reports `false`.
    pub fn place(&mut self, pos: TilePosition) -> (first_time: bool)
        requires
            old(self).wf(),
            old(self).spec_in_bounds(pos),
        ensures
            final(self).wf(),
            final(self).width == old(self).width,
            final(self).height == old(self).height,
            first_time == !old(self).spec_occupied(pos.x as int, pos.y as int),
            final(self).spec_occupied(pos.x as int, pos.y as int),
            forall|x: int, y: int|
                0 <= x < old(self).width && 0 <= y < old(self).height ==>
                    final(self).spec_occupied(x, y)
                        == (old(self).spec_occupied(x, y) || (x == pos.x && y == pos.y)),
            old(self).spec_occupied(pos.x as int, pos.y as int) ==> *final(self) == *old(self),
    {
        if self.rows[pos.y][pos.x] {
            false
        } else {
            self.rows[pos.y][pos.x] = true;
            true
        }
    }

    /// Whether the adjacent cell in direction `dir` holds a tile;
    /// `false` when that direction leaves the grid.
    pub fn neighbor_occupied(&self, pos: TilePosition, dir: Direction) -> (r: bool)
        requires
            self.wf(),
            self.spec_in_bounds(pos),
        ensures
            r == match self.spec_neighbor(pos.x as int, pos.y as int, dir) {
                Some(n) => self.spec_occupied(n.0, n.1),
                None => false,
            },
    {
        match dir {
            Direction::Up => pos.y > 0 && self.rows[pos.y - 1][pos.x],
            Direction::Down => pos.y + 1 < self.height && self.rows[pos.y + 1][pos.x],
            Direction::Left => pos.x > 0 && self.rows[pos.y][pos.x - 1],
            Direction::Right => pos.x + 1 < self.width && self.rows[pos.y][pos.x + 1],
        }
    }
}


/// The appearance variant a four-neighbor occupancy pattern selects:
/// a row choice from the missing up/down neighbors and a column choice
/// from the missing left/right neighbors, combined into one index.
pub open spec fn spec_appearance(no_up: bool, no_down: bool, no_left: bool, no_right: bool) -> int {
    let r_idx: int = if no_up && no_down {
        4
    } else if no_up {
        5
    } else if no_down {
        7
    } else {
        6
    };
    let c_idx: int = if no_left && no_right {
        0
    } else if no_left {
        1
    } else if no_right {
        3
    } else {
        2
    };
    r_idx * 9 + c_idx
}

impl TileMap {
    /// Whether the neighbor in each direction is missing, for appearance
    /// selection: exactly the negation of `spec_neighbor` occupancy, so
    /// a side beyond a grid edge counts as having no neighbor there.
    pub open spec fn spec_no_neighbor(self, x: int, y: int, dir: Direction) -> bool {
        match self.spec_neighbor(x, y, dir) {
            Some(n) => !self.spec_occupied(n.0, n.1),
            None => true,
        }
    }

    /// The appearance index the current neighborhood of `pos` selects.
    pub open spec fn spec_appearance_at(self, x: int, y: int) -> int {
        spec_appearance(
            self.spec_no_neighbor(x, y, Direction::Up),
            self.spec_no_neighbor(x, y, Direction::Down),
            self.spec_no_neighbor(x, y, Direction::Left),
            self.spec_no_neighbor(x, y, Direction::Right),
        )
    }

    /// Edge-aware appearance selection: derives the visual variant of
    /// the tile at `pos` purely from its four-neighbor occupancy
    /// pattern, with a side beyond a grid edge counting as missing,
    /// consistent with `neighbor_occupied`.
    pub fn appearance_index(&self, pos: TilePosition) -> (idx: usize)
        requires
            self.wf(),
            self.spec_in_bounds(pos),
        ensures
            idx == self.spec_appearance_at(pos.x as int, pos.y as int),
            idx <= 66,
    {
        let no_up = !self.neighbor_occupied(pos, Direction::Up);
        let no_down = !self.neighbor_occupied(pos, Direction::Down);
        let no_left = !self.neighbor_occupied(pos, Direction::Left);
        let no_right = !self.neighbor_occupied(pos, Direction::Right);

        let mut r_idx: usize = 6;
        if no_up && no_down {
            r_idx = 4;
        } else if no_up {
            r_idx = 5;
        } else if no_down {
            r_idx = 7;
        }
        let mut c_idx: usize = 2;
        if no_left && no_right {
            c_idx = 0;
        } else if no_left {
            c_idx = 1;
        } else if no_right {
            c_idx = 3;
        }
        r_idx * 9 + c_idx
    }
}

} // verus!

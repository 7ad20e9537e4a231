//! The occupancy grid and its cell-classification queries.
//!
//! A maze is a rectangular, row-major grid of cell symbols. The blank
//! symbol is open floor; the goal marker and the start marker are walkable
//! too; every other symbol is an occupying surface whose symbol doubles as
//! its material tag. Out-of-bounds queries count as walls (closed world):
//! a ray can never escape the grid.

use vstd::prelude::*;
use crate::fixed::FP_ONE;
use crate::fixed::DIV_BOUND;
use crate::fixed::floor_div;

verus! {

/// Symbol of an open, walkable cell.
pub const OPEN: char = ' ';
/// Symbol of the goal cell. Walkable: rays record a crossing and march on.
pub const GOAL_MARK: char = 'g';
/// Symbol of the viewer's starting cell. Walkable.
pub const START_MARK: char = 'p';
/// Symbol reported for a hit on the out-of-bounds boundary, which no
/// in-bounds cell can carry.
pub const BOUNDARY: char = '#';

/// Largest grid edge (in cells) the engine accepts; keeps every pixel
/// coordinate comfortably inside fixed-point range.
pub const MAX_CELLS: usize = 0x10000;
/// Largest pixel edge length of one grid cell.
pub const MAX_BLOCK: usize = 0x10000;

/// True of the symbols a ray may march through.
pub open spec fn walkable(c: char) -> bool {
    c == OPEN || c == GOAL_MARK || c == START_MARK
}

/// A rectangular occupancy grid of cell symbols, row-major.
pub struct Maze {
    /// `rows[row][col]` is the symbol of the cell in column `col` of row
    /// `row`. Functions of the engine require [`Maze::wf`].
    pub rows: Vec<Vec<char>>,
}

impl Maze {
    /// Well-formedness: at least one row, at least one column, and every
    /// row of the same length.
    pub open spec fn wf(self) -> bool {
        &&& 0 < self.rows@.len() <= MAX_CELLS
        &&& 0 < self.rows@[0]@.len() <= MAX_CELLS
        &&& forall|r: int|
            0 <= r < self.rows@.len() ==> (#[trigger] self.rows@[r]@.len())
                == self.rows@[0]@.len()
    }

    /// Number of columns.
    pub open spec fn width_spec(self) -> int {
        self.rows@[0]@.len() as int
    }

    /// Number of rows.
    pub open spec fn height_spec(self) -> int {
        self.rows@.len() as int
    }

    pub open spec fn in_bounds(self, col: int, row: int) -> bool {
        0 <= col < self.width_spec() && 0 <= row < self.height_spec()
    }

    /// The symbol of a cell; the boundary sentinel when out of bounds.
    pub open spec fn symbol_spec(self, col: int, row: int) -> char {
        if self.in_bounds(col, row) {
            self.rows@[row]@[col]
        } else {
            BOUNDARY
        }
    }

    /// A cell obstructs a ray iff it is out of bounds or carries a
    /// non-walkable symbol.
    pub open spec fn is_wall_spec(self, col: int, row: int) -> bool {
        !self.in_bounds(col, row) || !walkable(self.rows@[row]@[col])
    }

    /// A cell is the goal iff it is in bounds and carries the goal marker.
    pub open spec fn is_goal_spec(self, col: int, row: int) -> bool {
        self.in_bounds(col, row) && self.rows@[row]@[col] == GOAL_MARK
    }

    /// Validating constructor: accepts exactly the well-formed grids.
    pub fn new(rows: Vec<Vec<char>>) -> (r: Option<Maze>)
        ensures
            r is Some <==> (Maze { rows }).wf(),
            r matches Some(m) ==> m == (Maze { rows }) && m.wf(),
    {
        if rows.len() == 0 || rows.len() > MAX_CELLS {
            return None;
        }
        let w = rows[0].len();
        if w == 0 || w > MAX_CELLS {
            return None;
        }
        let mut i: usize = 0;
        while i < rows.len()
            invariant
                0 < rows@.len() <= MAX_CELLS,
                0 < w <= MAX_CELLS,
                w == rows@[0]@.len(),
                i <= rows@.len(),
                forall|r: int| 0 <= r < i ==> rows@[r]@.len() == w,
            decreases rows@.len() - i,
        {
            if rows[i].len() != w {
                return None;
            }
            i += 1;
        }
        Some(Maze { rows })
    }

    pub fn width(&self) -> (w: usize)
        requires
            self.wf(),
        ensures
            w == self.width_spec(),
    {
        self.rows[0].len()
    }

    pub fn height(&self) -> (h: usize)
        requires
            self.wf(),
        ensures
            h == self.height_spec(),
    {
        self.rows.len()
    }

    /// The raw cell tag, for material and texture selection; the boundary
    /// sentinel for an out-of-bounds query.
    pub fn symbol_at(&self, col: i64, row: i64) -> (c: char)
        requires
            self.wf(),
        ensures
            c == self.symbol_spec(col as int, row as int),
    {
        if col < 0 || row < 0 {
            return BOUNDARY;
        }
        let h = self.rows.len();
        if row >= h as i64 {
            return BOUNDARY;
        }
        let w = self.rows[0].len();
        if col >= w as i64 {
            return BOUNDARY;
        }
        self.rows[row as usize][col as usize]
    }

    /// Whether a cell obstructs a ray. Out of bounds is always a wall, so
    /// a marching ray must stop no later than the grid's edge.
    pub fn is_wall(&self, col: i64, row: i64) -> (b: bool)
        requires
            self.wf(),
        ensures
            b == self.is_wall_spec(col as int, row as int),
    {
        let c = self.symbol_at(col, row);
        !(c == OPEN || c == GOAL_MARK || c == START_MARK)
    }

    /// Whether a cell is the goal cell.
    pub fn is_goal(&self, col: i64, row: i64) -> (b: bool)
        requires
            self.wf(),
        ensures
            b == self.is_goal_spec(col as int, row as int),
    {
        let c = self.symbol_at(col, row);
        if col < 0 || row < 0 {
            false
        } else {
            c == GOAL_MARK
        }
    }
}

/// Every out-of-bounds query is a wall (closed world): a ray aimed at the
/// grid's outer edge terminates there instead of escaping.
pub proof fn lemma_out_of_bounds_is_wall(m: Maze, col: int, row: int)
    requires
        !m.in_bounds(col, row),
    ensures
        m.is_wall_spec(col, row),
{
}

/// The grid cell containing a fixed-point pixel coordinate.
pub open spec fn cell_of_spec(p: int, block_size: int) -> int {
    p / (FP_ONE as int * block_size)
}

/// Converts a fixed-point pixel coordinate to the index of the grid cell
/// containing it, rounding toward negative infinity so that every point
/// left of or above the grid lands in a negative (out-of-bounds) cell.
pub fn cell_of(p: i64, block_size: usize) -> (c: i64)
    requires
        0 < block_size <= MAX_BLOCK,
        -DIV_BOUND <= p <= DIV_BOUND,
    ensures
        c == cell_of_spec(p as int, block_size as int),
{
    floor_div(p, FP_ONE * block_size as i64)
}

} // verus!

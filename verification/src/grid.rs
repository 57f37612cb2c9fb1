//! The addressable region of the device and its adjacency.

use vstd::prelude::*;
use crate::location::{Location, distinct_locations};

verus! {

/// A grid of electrodes, row by row. `cells[y][x]` tells whether the cell in
/// row `y` and column `x` exists; rows may differ in length.
#[derive(Debug, Clone)]
pub struct Grid {
    pub cells: Vec<Vec<bool>>,
}

/// Whether `c` lies in the 3×3 block of positions centred on row `y`, column `x`.
pub open spec fn near(c: Location, y: int, x: int) -> bool {
    -1 <= c.y - y <= 1 && -1 <= c.x - x <= 1
}

impl Grid {
    /// Whether the grid has a cell in row `y`, column `x`.
    pub open spec fn has_cell(&self, y: int, x: int) -> bool {
        0 <= y < self.cells@.len() && 0 <= x < self.cells@[y]@.len() && self.cells@[y]@[x]
    }

    /// Whether `c` is a cell of the grid in the 3×3 block around `loc`.
    pub open spec fn in_neighbors9(&self, c: Location, loc: Location) -> bool {
        self.has_cell(c.y as int, c.x as int) && near(c, loc.y as int, loc.x as int)
    }

    /// Whether `c` is a cell of the grid that a droplet anchored at `loc` with
    /// the offsets `shape` occupies or touches, diagonals included.
    pub open spec fn in_dilation(&self, c: Location, loc: Location, shape: Seq<Location>) -> bool {
        self.has_cell(c.y as int, c.x as int) && exists|k: int|
            0 <= k < shape.len() && near(c, loc.y + (#[trigger] shape[k]).y, loc.x + shape[k].x)
    }

    /// The cells that a droplet anchored at `loc` with the offsets `shape`
    /// occupies or touches: its footprint grown by one cell.
    pub open spec fn dilated(&self, loc: Location, shape: Seq<Location>) -> Set<Location> {
        Set::new(|c: Location| self.in_dilation(c, loc, shape))
    }

    /// A grid of `height` rows, each with `width` cells, all present.
    pub fn rectangle(height: usize, width: usize) -> (grid: Grid)
        ensures
            forall|y: int, x: int| grid.has_cell(y, x) <==> 0 <= y < height && 0 <= x < width,
    {
        let mut row: Vec<bool> = Vec::new();
        while row.len() < width
            invariant
                row.len() <= width,
                forall|x: int| 0 <= x < row.len() ==> row@[x],
            decreases width - row.len(),
        {
            row.push(true);
        }
        let mut cells: Vec<Vec<bool>> = Vec::new();
        while cells.len() < height
            invariant
                cells.len() <= height,
                row.len() == width,
                forall|x: int| 0 <= x < row.len() ==> row@[x],
                forall|y: int| 0 <= y < cells.len() ==> (#[trigger] cells@[y])@ == row@,
            decreases height - cells.len(),
        {
            let next = row.clone();
            assert(next@ =~= row@);
            cells.push(next);
        }
        Grid { cells }
    }

    /// Whether `loc` is a cell of the grid.
    pub fn contains(&self, loc: &Location) -> (present: bool)
        ensures
            present == self.has_cell(loc.y as int, loc.x as int),
    {
        self.cell_at(loc.y as i64, loc.x as i64)
    }

    fn cell_at(&self, y: i64, x: i64) -> (present: bool)
        ensures
            present == (y <= i32::MAX && x <= i32::MAX && self.has_cell(y as int, x as int)),
    {
        if y < 0 || y > i32::MAX as i64 || x < 0 || x > i32::MAX as i64 {
            return false;
        }
        let yi: usize = y as usize;
        let xi: usize = x as usize;
        if yi >= self.cells.len() {
            return false;
        }
        let row = &self.cells[yi];
        xi < row.len() && row[xi]
    }

    fn push_cell(&self, out: &mut Vec<Location>, y: i64, x: i64)
        ensures
            forall|c: Location|
                #[trigger] final(out)@.contains(c) <==> old(out)@.contains(c) || (c.y == y && c.x == x
                    && self.has_cell(y as int, x as int)),
    {
        if self.cell_at(y, x) {
            let cell = Location { y: y as i32, x: x as i32 };
            out.push(cell);
            proof {
                let before = old(out)@;
                assert(out@ == before.push(cell));
                assert forall|c: Location| out@.contains(c) <==> before.contains(c) || c == cell by {
                    if before.contains(c) {
                        let k = choose|k: int| 0 <= k < before.len() && before[k] == c;
                        assert(out@[k] == c);
                    }
                    if c == cell {
                        assert(out@[before.len() as int] == c);
                    }
                }
            }
        }
    }

    fn push_neighbors9(&self, out: &mut Vec<Location>, y: i64, x: i64)
        requires
            -0x1_0000_0000 <= y <= 0x1_0000_0000,
            -0x1_0000_0000 <= x <= 0x1_0000_0000,
        ensures
            forall|c: Location|
                #[trigger] final(out)@.contains(c) <==> old(out)@.contains(c) || (self.has_cell(
                    c.y as int,
                    c.x as int,
                ) && near(c, y as int, x as int)),
    {
        self.push_cell(out, y - 1, x - 1);
        self.push_cell(out, y - 1, x);
        self.push_cell(out, y - 1, x + 1);
        self.push_cell(out, y, x - 1);
        self.push_cell(out, y, x);
        self.push_cell(out, y, x + 1);
        self.push_cell(out, y + 1, x - 1);
        self.push_cell(out, y + 1, x);
        self.push_cell(out, y + 1, x + 1);
    }

    /// The cells of the grid among `loc` and its eight neighbours, each once.
    pub fn neighbors9(&self, loc: &Location) -> (cells: Vec<Location>)
        ensures
            cells@.no_duplicates(),
            forall|c: Location| #[trigger] cells@.contains(c) <==> self.in_neighbors9(c, *loc),
    {
        let mut out: Vec<Location> = Vec::new();
        assert(forall|c: Location| !out@.contains(c));
        self.push_neighbors9(&mut out, loc.y as i64, loc.x as i64);
        distinct_locations(&out)
    }

    /// The one-cell-dilated footprint of a droplet anchored at `loc` with the
    /// offsets `shape`: every cell of the grid that it occupies or touches.
    /// Each cell is listed once.
    pub fn neighbors_shape(&self, loc: &Location, shape: &Vec<Location>) -> (cells: Vec<Location>)
        ensures
            cells@.no_duplicates(),
            forall|c: Location| #[trigger] cells@.contains(c) <==> self.in_dilation(c, *loc, shape@),
            cells@.to_set() == self.dilated(*loc, shape@),
    {
        let mut out: Vec<Location> = Vec::new();
        assert(forall|c: Location| !out@.contains(c));
        let mut i: usize = 0;
        while i < shape.len()
            invariant
                i <= shape.len(),
                forall|c: Location|
                    #[trigger] out@.contains(c) <==> self.in_dilation(c, *loc, shape@.take(i as int)),
            decreases shape.len() - i,
        {
            let off = shape[i];
            let ghost before = out@;
            self.push_neighbors9(&mut out, loc.y as i64 + off.y as i64, loc.x as i64 + off.x as i64);
            proof {
                let s0 = shape@.take(i as int);
                let s1 = shape@.take(i + 1);
                assert forall|c: Location| out@.contains(c) implies self.in_dilation(
                    c,
                    *loc,
                    s1,
                ) by {
                    if before.contains(c) {
                        let k = choose|k: int|
                            0 <= k < s0.len() && near(
                                c,
                                loc.y + (#[trigger] s0[k]).y,
                                loc.x + s0[k].x,
                            );
                        assert(s1[k] == s0[k]);
                    } else {
                        assert(s1[i as int] == off);
                    }
                }
                assert forall|c: Location| self.in_dilation(c, *loc, s1) implies out@.contains(
                    c,
                ) by {
                    let k = choose|k: int|
                        0 <= k < s1.len() && near(c, loc.y + (#[trigger] s1[k]).y, loc.x + s1[k].x);
                    if k < i {
                        assert(s0[k] == s1[k]);
                        assert(self.in_dilation(c, *loc, s0));
                    } else {
                        assert(s1[k] == off);
                    }
                }
            }
            i += 1;
        }
        let cells = distinct_locations(&out);
        proof {
            assert(shape@.take(shape.len() as int) =~= shape@);
            assert(cells@.to_set() =~= self.dilated(*loc, shape@));
        }
        cells
    }
}

} // verus!

//! The flock's spatial index: a bucketed uniform grid over the world.
//!
//! A flat `Vec` of cells rather than a hash map: the world is bounded and
//! small, so there is nothing to hash. Out-of-range cells are empty rather
//! than wrapped — neighbours are not looked up across the seam.

use vstd::prelude::*;

verus! {

/// Cells per axis.
pub const GRID_DIM: usize = 101;

/// How many cells the grid has.
pub const GRID_CELLS: usize = 10201;

/// The flat index of cell `(gx, gy)`, or `None` outside the grid.
pub open spec fn cell_index(gx: i32, gy: i32) -> Option<int> {
    if gx < 0 || gy < 0 || gx >= GRID_DIM || gy >= GRID_DIM {
        None
    } else {
        Some(gy * GRID_DIM + gx)
    }
}

/// The occupants of flat cell `c` once boids in cells `cells` are bucketed:
/// the indices of the boids that fall in it, in order.
pub open spec fn bucket(cells: Seq<(i32, i32)>, c: int) -> Seq<u32>
    decreases cells.len(),
{
    if cells.len() == 0 {
        seq![]
    } else {
        let rest = bucket(cells.drop_last(), c);
        let last = cells.last();
        if cell_index(last.0, last.1) == Some(c) {
            rest.push((cells.len() - 1) as u32)
        } else {
            rest
        }
    }
}

/// A bucketed uniform grid over the world.
#[derive(Debug)]
pub struct Grid {
    cells: Vec<Vec<u32>>,
}

impl Grid {
    /// A grid always has one bucket per cell.
    #[verifier::type_invariant]
    spec fn one_bucket_per_cell(self) -> bool {
        self.cells@.len() == GRID_CELLS
    }

    /// The occupants of every cell, by flat index.
    pub closed spec fn occupants(&self) -> Seq<Seq<u32>> {
        self.cells@.map_values(|c: Vec<u32>| c@)
    }

    /// An empty grid.
    pub fn new() -> (g: Grid)
        ensures
            g.occupants().len() == GRID_CELLS,
            forall|c: int| 0 <= c < GRID_CELLS ==> (#[trigger] g.occupants()[c]).len() == 0,
    {
        let mut cells: Vec<Vec<u32>> = Vec::new();
        let mut k: usize = 0;
        while k < GRID_CELLS
            invariant
                k <= GRID_CELLS,
                cells@.len() == k,
                forall|c: int| 0 <= c < k ==> (#[trigger] cells@[c])@.len() == 0,
            decreases GRID_CELLS - k,
        {
            cells.push(Vec::new());
            k = k + 1;
        }
        Grid { cells }
    }

    /// The flat index of cell `(gx, gy)`, or `None` outside the grid.
    pub fn index(gx: i32, gy: i32) -> (r: Option<usize>)
        ensures
            match cell_index(gx, gy) {
                Some(i) => r == Some(i as usize) && i < GRID_CELLS,
                None => r is None,
            },
    {
        let dim = GRID_DIM as i32;
        if gx < 0 || gy < 0 || gx >= dim || gy >= dim {
            return None;
        }
        Some(gy as usize * GRID_DIM + gx as usize)
    }

    /// Occupants of a cell. Out-of-range cells are empty.
    pub fn at(&self, gx: i32, gy: i32) -> (r: &[u32])
        ensures
            match cell_index(gx, gy) {
                Some(i) => r@ == self.occupants()[i],
                None => r@.len() == 0,
            },
    {
        proof {
            use_type_invariant(self);
        }
        match Self::index(gx, gy) {
            Some(i) => self.cells[i].as_slice(),
            None => &[],
        }
    }

    /// Put every boid in the cell it falls in: boid `k` is in cell
    /// `cells[k]`, and lands nowhere when that cell is off the grid.
    pub fn rebuild(&mut self, cells: &[(i32, i32)])
        requires
            cells@.len() <= u32::MAX + 1,
        ensures
            forall|c: int| 0 <= c < GRID_CELLS ==> #[trigger] final(self).occupants()[c] == bucket(cells@, c),
    {
        proof {
            use_type_invariant(&*self);
        }
        let mut c: usize = 0;
        while c < GRID_CELLS
            invariant
                c <= GRID_CELLS,
                self.cells@.len() == GRID_CELLS,
                forall|j: int| 0 <= j < c ==> (#[trigger] self.cells@[j])@.len() == 0,
            decreases GRID_CELLS - c,
        {
            self.cells[c].clear();
            c = c + 1;
        }
        assert(cells@.take(0) =~= Seq::<(i32, i32)>::empty());
        let mut k: usize = 0;
        while k < cells.len()
            invariant
                k <= cells@.len() <= u32::MAX + 1,
                self.cells@.len() == GRID_CELLS,
                forall|j: int| 0 <= j < GRID_CELLS ==> (#[trigger] self.cells@[j])@ == bucket(cells@.take(k as int), j),
            decreases cells.len() - k,
        {
            let (gx, gy) = cells[k];
            let ghost prev = self.cells@;
            assert(cells@.take(k + 1).drop_last() =~= cells@.take(k as int));
            assert(cells@.take(k + 1).last() == cells@[k as int]);
            if let Some(i) = Self::index(gx, gy) {
                self.cells[i].push(k as u32);
            }
            k = k + 1;
        }
        assert(cells@.take(cells@.len() as int) =~= cells@);
    }
}

impl Clone for Grid {
    /// A grid with the same occupants in every cell.
    fn clone(&self) -> (g: Grid)
        ensures
            g.occupants() == self.occupants(),
    {
        proof {
            use_type_invariant(self);
        }
        let mut cells: Vec<Vec<u32>> = Vec::new();
        let mut k: usize = 0;
        while k < GRID_CELLS
            invariant
                k <= GRID_CELLS,
                self.cells@.len() == GRID_CELLS,
                cells@.len() == k,
                forall|c: int| 0 <= c < k ==> (#[trigger] cells@[c])@ == self.cells@[c]@,
            decreases GRID_CELLS - k,
        {
            let bucket = self.cells[k].clone();
            assert(bucket@ =~= self.cells@[k as int]@);
            cells.push(bucket);
            k = k + 1;
        }
        let g = Grid { cells };
        assert(g.occupants() =~= self.occupants());
        g
    }
}

impl Default for Grid {
    /// An empty grid.
    fn default() -> (g: Grid)
        ensures
            g.occupants().len() == GRID_CELLS,
            forall|c: int| 0 <= c < GRID_CELLS ==> (#[trigger] g.occupants()[c]).len() == 0,
    {
        Grid::new()
    }
}

} // verus!

//! The activation grid: an `n × n` array of cells, each holding one boolean
//! activation flag per band. Cells on the grid border are never active; they
//! exist only so that every interior cell has four well-defined neighbors.

use vstd::prelude::*;
use crate::band::BAND_COUNT;

verus! {

/// The full `n × n` grid of per-cell, per-band activation flags, stored as a
/// flat vector indexed by `(y * n + x) * BAND_COUNT + k`.
pub struct Grid {
    pub n: usize,
    pub cells: Vec<bool>,
}

impl Grid {
    /// Whether `(x, y)` lies on the outermost ring of the grid.
    pub open spec fn is_border(self, x: int, y: int) -> bool {
        x == 0 || y == 0 || x == self.n - 1 || y == self.n - 1
    }

    /// Whether `(x, y)` is an interior cell: all four of its neighbors are
    /// themselves grid cells.
    pub open spec fn is_interior(self, x: int, y: int) -> bool {
        1 <= x < self.n - 1 && 1 <= y < self.n - 1
    }

    /// The flat index of the flag for band `k` of cell `(x, y)`.
    pub open spec fn flag_index(self, x: int, y: int, k: int) -> int {
        (y * self.n + x) * BAND_COUNT + k
    }

    /// Whether cell `(x, y)` is active in band `k`.
    pub open spec fn active(self, x: int, y: int, k: int) -> bool {
        self.cells@[self.flag_index(x, y, k)]
    }

    /// Well-formedness: the flag vector covers exactly the `n × n` grid, and
    /// no border cell is active in any band.
    pub open spec fn wf(self) -> bool {
        &&& self.cells.len() == self.n * self.n * BAND_COUNT
        &&& forall|x: int, y: int, k: int|
            0 <= x < self.n && 0 <= y < self.n && 0 <= k < BAND_COUNT && self.is_border(x, y)
                ==> !self.active(x, y, k)
    }

    proof fn lemma_flag_index_in_range(self, x: int, y: int, k: int)
        requires
            self.cells.len() == self.n * self.n * BAND_COUNT,
            0 <= x < self.n,
            0 <= y < self.n,
            0 <= k < BAND_COUNT,
        ensures
            0 <= y * self.n,
            y * self.n + x <= (y * self.n + x) * BAND_COUNT,
            (y * self.n + x) * BAND_COUNT <= self.flag_index(x, y, k),
            self.flag_index(x, y, k) < self.cells.len(),
    {
        assert(0 <= y * self.n) by (nonlinear_arith)
            requires 0 <= y && 0 <= self.n;
        assert(y * self.n + x < self.n * self.n) by (nonlinear_arith)
            requires 0 <= x < self.n && 0 <= y < self.n;
        assert(y * self.n + x <= (y * self.n + x) * BAND_COUNT) by (nonlinear_arith)
            requires 0 <= y * self.n + x && 1 <= BAND_COUNT;
        assert((y * self.n + x) * BAND_COUNT + k < self.n * self.n * BAND_COUNT)
            by (nonlinear_arith)
            requires
                0 <= y * self.n + x < self.n * self.n,
                0 <= k < BAND_COUNT;
    }

    /// Distinct in-range cell/band coordinates have distinct flat indices.
    proof fn lemma_flag_index_injective(self, x: int, y: int, k: int, x2: int, y2: int, k2: int)
        requires
            0 <= x < self.n,
            0 <= y < self.n,
            0 <= k < BAND_COUNT,
            0 <= x2 < self.n,
            0 <= y2 < self.n,
            0 <= k2 < BAND_COUNT,
            !(x2 == x && y2 == y && k2 == k),
        ensures
            self.flag_index(x2, y2, k2) != self.flag_index(x, y, k),
    {
        if y2 != y || x2 != x {
            assert(y2 * self.n + x2 != y * self.n + x) by (nonlinear_arith)
                requires
                    0 <= x2 < self.n,
                    0 <= x < self.n,
                    0 <= y2,
                    0 <= y,
                    y2 != y || x2 != x;
        }
        assert((y2 * self.n + x2) * BAND_COUNT + k2 != (y * self.n + x) * BAND_COUNT + k)
            by (nonlinear_arith)
            requires
                0 <= k2 < BAND_COUNT,
                0 <= k < BAND_COUNT,
                y2 * self.n + x2 != y * self.n + x || k2 != k;
    }

    /// A fresh all-inactive grid of side `n`.
    pub fn new(n: usize) -> (r: Grid)
        requires
            n * n * BAND_COUNT <= usize::MAX,
        ensures
            r.wf(),
            r.n == n,
            forall|x: int, y: int, k: int|
                0 <= x < n && 0 <= y < n && 0 <= k < BAND_COUNT ==> !r.active(x, y, k),
    {
        proof {
            assert(n * n <= n * n * BAND_COUNT && 0 <= n * n) by (nonlinear_arith)
                requires 1 <= BAND_COUNT;
        }
        let total: usize = n * n * BAND_COUNT;
        let mut cells: Vec<bool> = Vec::new();
        let mut i: usize = 0;
        while i < total
            invariant
                i <= total,
                cells.len() == i,
                forall|j: int| 0 <= j < i ==> !cells@[j],
            decreases total - i,
        {
            cells.push(false);
            i = i + 1;
        }
        let g = Grid { n, cells };
        proof {
            assert forall|x: int, y: int, k: int|
                0 <= x < n && 0 <= y < n && 0 <= k < BAND_COUNT implies !g.active(x, y, k)
            by {
                g.lemma_flag_index_in_range(x, y, k);
            }
        }
        g
    }

    /// Reads the activation flag of band `k` for cell `(x, y)`.
    pub fn get(&self, x: usize, y: usize, k: usize) -> (r: bool)
        requires
            self.wf(),
            x < self.n,
            y < self.n,
            k < BAND_COUNT,
        ensures
            r == self.active(x as int, y as int, k as int),
    {
        proof {
            self.lemma_flag_index_in_range(x as int, y as int, k as int);
        }
        self.cells[(y * self.n + x) * BAND_COUNT + k]
    }

    /// Sets the activation flag of band `k` for the interior cell `(x, y)`;
    /// every other flag keeps its value.
    pub fn set(&mut self, x: usize, y: usize, k: usize, v: bool)
        requires
            old(self).wf(),
            old(self).is_interior(x as int, y as int),
            k < BAND_COUNT,
        ensures
            final(self).wf(),
            final(self).n == old(self).n,
            final(self).active(x as int, y as int, k as int) == v,
            forall|x2: int, y2: int, k2: int|
                0 <= x2 < old(self).n && 0 <= y2 < old(self).n && 0 <= k2 < BAND_COUNT
                    && !(x2 == x && y2 == y && k2 == k)
                    ==> final(self).active(x2, y2, k2) == old(self).active(x2, y2, k2),
    {
        proof {
            self.lemma_flag_index_in_range(x as int, y as int, k as int);
        }
        let idx: usize = (y * self.n + x) * BAND_COUNT + k;
        self.cells.set(idx, v);
        proof {
            let g0 = *old(self);
            assert forall|x2: int, y2: int, k2: int|
                0 <= x2 < g0.n && 0 <= y2 < g0.n && 0 <= k2 < BAND_COUNT
                    && !(x2 == x && y2 == y && k2 == k)
                implies self.active(x2, y2, k2) == g0.active(x2, y2, k2)
            by {
                g0.lemma_flag_index_in_range(x2, y2, k2);
                g0.lemma_flag_index_injective(x as int, y as int, k as int, x2, y2, k2);
            }
            assert forall|x2: int, y2: int, k2: int|
                0 <= x2 < self.n && 0 <= y2 < self.n && 0 <= k2 < BAND_COUNT
                    && self.is_border(x2, y2)
                implies !self.active(x2, y2, k2)
            by {
                g0.lemma_flag_index_in_range(x2, y2, k2);
                g0.lemma_flag_index_injective(x as int, y as int, k as int, x2, y2, k2);
                assert(!g0.active(x2, y2, k2));
            }
        }
    }
}

/// Border cells are never active in a well-formed grid, so no neighbor
/// lookup made on behalf of an active cell ever indexes outside the grid.
pub proof fn lemma_border_never_active(g: Grid, x: int, y: int, k: int)
    requires
        g.wf(),
        0 <= x < g.n,
        0 <= y < g.n,
        0 <= k < BAND_COUNT,
        g.is_border(x, y),
    ensures
        !g.active(x, y, k),
{
}

/// An active cell of a well-formed grid is interior: its four neighbors are
/// grid cells themselves.
pub proof fn lemma_active_is_interior(g: Grid, x: int, y: int, k: int)
    requires
        g.wf(),
        0 <= x < g.n,
        0 <= y < g.n,
        0 <= k < BAND_COUNT,
        g.active(x, y, k),
    ensures
        g.is_interior(x, y),
{
}

} // verus!

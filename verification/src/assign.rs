//! The region assigner: the runtime object through which synthesis writes
//! concrete values into column/row cells, enables selectors and declares copy
//! constraints, producing the witness table that the checker validates.
//!
//! Cells are write-once: re-assigning an identical value is permitted,
//! re-assigning a different one is a [`Error::ConflictingAssignment`].
//! Rows are handed out region by region: a region starts at the first row no
//! earlier region has touched, all writes inside it are at offsets relative
//! to its start, and ending the region commits the rows it used, so regions
//! never overlap.

use vstd::prelude::*;

use crate::field::{Fp, Value, fp_of};
use crate::layout::{Cell, ColKind, Config, Error};

verus! {

/// A copy-constraint pair lies within the table.
pub open spec fn pair_wf(p: (Cell, Cell), ncols: int, nrows: int) -> bool {
    &&& p.0.col < ncols && p.0.row < nrows
    &&& p.1.col < ncols && p.1.row < nrows
}

/// The witness table of one circuit instance while it is being synthesized,
/// together with the copy constraints declared so far.
pub struct Assigner {
    pub kinds: Vec<ColKind>,
    pub n_rows: usize,
    pub grid: Vec<Vec<Option<Fp>>>,
    pub pairs: Vec<(Cell, Cell)>,
    pub in_region: bool,
    pub region_start: usize,
    pub region_used: usize,
    pub next_free: usize,
}

impl Assigner {
    /// The value of the cell at `(c, r)`, or `None` while unassigned.
    pub open spec fn cell(self, c: int, r: int) -> Option<Fp> {
        self.grid@[c]@[r]
    }

    /// How many columns the table has.
    pub open spec fn n_cols(self) -> int {
        self.kinds@.len() as int
    }

    /// The first row that no region has touched yet; everything from here on
    /// (outside the public column) is still unassigned.
    pub open spec fn clean_from(self) -> int {
        if self.in_region {
            self.region_start + self.region_used
        } else {
            self.next_free as int
        }
    }

    /// Structural consistency of the table and its bookkeeping.
    pub open spec fn wf(self) -> bool {
        &&& self.grid@.len() == self.kinds@.len()
        &&& forall|c: int|
            0 <= c < self.grid@.len() ==> (#[trigger] self.grid@[c])@.len() == self.n_rows as int
        &&& self.next_free <= self.n_rows
        &&& (self.in_region ==> self.region_start == self.next_free && self.region_start
            + self.region_used <= self.n_rows)
        &&& forall|i: int|
            0 <= i < self.pairs@.len() ==> pair_wf(
                #[trigger] self.pairs@[i],
                self.kinds@.len() as int,
                self.n_rows as int,
            )
        &&& forall|c: int, r: int|
            0 <= c < self.n_cols() && self.clean_from() <= r < self.n_rows && self.kinds@[c]
                != ColKind::Public ==> (#[trigger] self.cell(c, r)) is None
    }

    /// A fresh instance has no values and no copy constraints at all.
    pub open spec fn fresh(self) -> bool {
        &&& self.pairs@.len() == 0
        &&& !self.in_region
        &&& self.next_free == 0
        &&& forall|c: int, r: int|
            0 <= c < self.n_cols() && 0 <= r < self.n_rows ==> (#[trigger] self.cell(c, r)) is None
    }

    /// An empty witness table for the given configuration, with room for
    /// `n_rows` rows.
    pub fn new(cfg: &Config, n_rows: usize) -> (r: Assigner)
        ensures
            r.wf(),
            r.fresh(),
            r.kinds@ == cfg.kinds@,
            r.n_rows == n_rows,
    {
        let n_cols = cfg.kinds.len();
        let mut kinds: Vec<ColKind> = Vec::new();
        let mut grid: Vec<Vec<Option<Fp>>> = Vec::new();
        let mut c: usize = 0;
        while c < n_cols
            invariant
                c <= n_cols,
                n_cols == cfg.kinds@.len(),
                kinds@ =~= cfg.kinds@.take(c as int),
                grid@.len() == c as int,
                forall|i: int|
                    0 <= i < c ==> (#[trigger] grid@[i])@.len() == n_rows as int,
                forall|i: int, j: int|
                    0 <= i < c && 0 <= j < n_rows ==> (#[trigger] grid@[i]@[j]) is None,
            decreases n_cols - c,
        {
            kinds.push(cfg.kinds[c]);
            let mut col: Vec<Option<Fp>> = Vec::new();
            let mut j: usize = 0;
            while j < n_rows
                invariant
                    j <= n_rows,
                    col@.len() == j as int,
                    forall|t: int| 0 <= t < j ==> (#[trigger] col@[t]) is None,
                decreases n_rows - j,
            {
                col.push(None);
                j += 1;
            }
            grid.push(col);
            c += 1;
        }
        proof {
            assert(kinds@ =~= cfg.kinds@);
        }
        Assigner {
            kinds,
            n_rows,
            grid,
            pairs: Vec::new(),
            in_region: false,
            region_start: 0,
            region_used: 0,
            next_free: 0,
        }
    }

    /// Opens a fresh region at the first untouched row. Every write until the
    /// matching [`Assigner::end_region`] is at an offset relative to this row.
    pub fn begin_region(&mut self)
        requires
            old(self).wf(),
            !old(self).in_region,
        ensures
            final(self).wf(),
            *final(self) == (Assigner {
                in_region: true,
                region_start: old(self).next_free,
                region_used: 0,
                ..*old(self)
            }),
    {
        self.in_region = true;
        self.region_start = self.next_free;
        self.region_used = 0;
        proof {
            assert forall|c: int, r: int|
                0 <= c < self.n_cols() && self.clean_from() <= r < self.n_rows && self.kinds@[c]
                    != ColKind::Public implies (self.cell(c, r)) is None by {
                assert(old(self).cell(c, r) is None);
            }
        }
    }

    /// Closes the current region, committing the rows it touched as used:
    /// the next region starts after them.
    pub fn end_region(&mut self)
        requires
            old(self).wf(),
            old(self).in_region,
        ensures
            final(self).wf(),
            *final(self) == (Assigner {
                in_region: false,
                next_free: (old(self).region_start + old(self).region_used) as usize,
                ..*old(self)
            }),
    {
        self.in_region = false;
        self.next_free = self.region_start + self.region_used;
        proof {
            assert forall|c: int, r: int|
                0 <= c < self.n_cols() && self.clean_from() <= r < self.n_rows && self.kinds@[c]
                    != ColKind::Public implies (self.cell(c, r)) is None by {
                assert(old(self).cell(c, r) is None);
            }
        }
    }

    /// Writes `v` into the cell of witness column `col` at `offset` within
    /// the current region and returns a handle to that cell. An unknown value
    /// leaves the cell unassigned but still claims the row for the region.
    /// Fails with [`Error::ConflictingAssignment`] if the cell already holds
    /// a different value.
    pub fn assign(&mut self, col: usize, offset: usize, v: Value) -> (r: Result<Cell, Error>)
        requires
            old(self).wf(),
            old(self).in_region,
        ensures
            final(self).wf(),
            final(self).in_region,
            final(self).kinds == old(self).kinds,
            final(self).n_rows == old(self).n_rows,
            final(self).pairs == old(self).pairs,
            final(self).next_free == old(self).next_free,
            final(self).region_start == old(self).region_start,
            match r {
                Ok(cell) => {
                    &&& col < old(self).kinds@.len()
                    &&& old(self).kinds@[col as int] == ColKind::Witness
                    &&& old(self).region_start + offset < old(self).n_rows
                    &&& cell == (Cell { col, row: (old(self).region_start + offset) as usize })
                    &&& final(self).region_used == if offset + 1 > old(self).region_used {
                        offset + 1
                    } else {
                        old(self).region_used as int
                    }
                    &&& forall|c: int, rr: int|
                        0 <= c < old(self).n_cols() && 0 <= rr < old(self).n_rows
                            ==> #[trigger] final(self).cell(c, rr) == (if c == col as int && rr
                            == cell.row as int && v is Known {
                            v.as_opt()
                        } else {
                            old(self).cell(c, rr)
                        })
                },
                Err(e) => {
                    &&& *final(self) == *old(self)
                    &&& (e == Error::ConfigurationError <==> !(col < old(self).kinds@.len()
                        && old(self).kinds@[col as int] == ColKind::Witness))
                    &&& (e == Error::NotEnoughRows <==> (col < old(self).kinds@.len() && old(
                        self,
                    ).kinds@[col as int] == ColKind::Witness && old(self).region_start + offset
                        >= old(self).n_rows))
                    &&& (e matches Error::ConflictingAssignment { cell } ==> {
                        &&& cell == (Cell {
                            col,
                            row: (old(self).region_start + offset) as usize,
                        })
                        &&& old(self).region_start + offset < old(self).n_rows
                        &&& v is Known
                        &&& old(self).cell(col as int, cell.row as int) is Some
                        &&& old(self).cell(col as int, cell.row as int) != v.as_opt()
                    })
                    &&& (e is ConflictingAssignment <== (col < old(self).kinds@.len() && old(
                        self,
                    ).kinds@[col as int] == ColKind::Witness && old(self).region_start + offset
                        < old(self).n_rows))
                },
            },
    {
        if col >= self.kinds.len() || self.kinds[col] != ColKind::Witness {
            return Err(Error::ConfigurationError);
        }
        if offset >= self.n_rows - self.region_start {
            return Err(Error::NotEnoughRows);
        }
        let row = self.region_start + offset;
        match v {
            Value::Known(x) => {
                let cur = self.grid[col][row];
                if let Some(w) = cur {
                    if w != x {
                        return Err(Error::ConflictingAssignment { cell: Cell { col, row } });
                    }
                }
                self.grid[col][row] = Some(x);
            },
            Value::Unknown => {},
        }
        if offset + 1 > self.region_used {
            self.region_used = offset + 1;
        }
        proof {
            assert forall|c: int, r: int|
                0 <= c < self.n_cols() && self.clean_from() <= r < self.n_rows && self.kinds@[c]
                    != ColKind::Public implies (self.cell(c, r)) is None by {
                assert(self.cell(c, r) == old(self).cell(c, r));
                assert(old(self).cell(c, r) is None);
            }
        }
        Ok(Cell { col, row })
    }

    /// Writes the circuit constant `k` into fixed column `col` at `offset`
    /// within the current region; fixed cells are part of the circuit's
    /// baked-in contents rather than of the per-instance witness.
    pub fn assign_fixed_from_constant(&mut self, col: usize, offset: usize, k: Fp) -> (r: Result<
        Cell,
        Error,
    >)
        requires
            old(self).wf(),
            old(self).in_region,
        ensures
            final(self).wf(),
            final(self).in_region,
            final(self).kinds == old(self).kinds,
            final(self).n_rows == old(self).n_rows,
            final(self).pairs == old(self).pairs,
            final(self).next_free == old(self).next_free,
            final(self).region_start == old(self).region_start,
            match r {
                Ok(cell) => {
                    &&& col < old(self).kinds@.len()
                    &&& old(self).kinds@[col as int] == ColKind::Fixed
                    &&& old(self).region_start + offset < old(self).n_rows
                    &&& cell == (Cell { col, row: (old(self).region_start + offset) as usize })
                    &&& final(self).region_used == if offset + 1 > old(self).region_used {
                        offset + 1
                    } else {
                        old(self).region_used as int
                    }
                    &&& forall|c: int, rr: int|
                        0 <= c < old(self).n_cols() && 0 <= rr < old(self).n_rows
                            ==> #[trigger] final(self).cell(c, rr) == (if c == col as int && rr
                            == cell.row as int {
                            Some(k)
                        } else {
                            old(self).cell(c, rr)
                        })
                },
                Err(e) => {
                    &&& *final(self) == *old(self)
                    &&& (e == Error::ConfigurationError <==> !(col < old(self).kinds@.len()
                        && old(self).kinds@[col as int] == ColKind::Fixed))
                    &&& (e == Error::NotEnoughRows <==> (col < old(self).kinds@.len() && old(
                        self,
                    ).kinds@[col as int] == ColKind::Fixed && old(self).region_start + offset
                        >= old(self).n_rows))
                    &&& (e matches Error::ConflictingAssignment { cell } ==> {
                        &&& cell == (Cell {
                            col,
                            row: (old(self).region_start + offset) as usize,
                        })
                        &&& old(self).cell(col as int, cell.row as int) is Some
                        &&& old(self).cell(col as int, cell.row as int) != Some(k)
                    })
                    &&& (e is ConflictingAssignment <== (col < old(self).kinds@.len() && old(
                        self,
                    ).kinds@[col as int] == ColKind::Fixed && old(self).region_start + offset
                        < old(self).n_rows))
                },
            },
    {
        if col >= self.kinds.len() || self.kinds[col] != ColKind::Fixed {
            return Err(Error::ConfigurationError);
        }
        if offset >= self.n_rows - self.region_start {
            return Err(Error::NotEnoughRows);
        }
        let row = self.region_start + offset;
        let cur = self.grid[col][row];
        if let Some(w) = cur {
            if w != k {
                return Err(Error::ConflictingAssignment { cell: Cell { col, row } });
            }
        }
        self.grid[col][row] = Some(k);
        if offset + 1 > self.region_used {
            self.region_used = offset + 1;
        }
        proof {
            assert forall|c: int, r: int|
                0 <= c < self.n_cols() && self.clean_from() <= r < self.n_rows && self.kinds@[c]
                    != ColKind::Public implies (self.cell(c, r)) is None by {
                assert(self.cell(c, r) == old(self).cell(c, r));
                assert(old(self).cell(c, r) is None);
            }
        }
        Ok(Cell { col, row })
    }

    /// Enables the selector in column `col` at `offset` within the current
    /// region: the cell is set to one, switching every gate guarded by this
    /// selector on at that row. Enabling twice is harmless.
    pub fn enable_selector(&mut self, col: usize, offset: usize) -> (r: Result<(), Error>)
        requires
            old(self).wf(),
            old(self).in_region,
        ensures
            final(self).wf(),
            final(self).in_region,
            final(self).kinds == old(self).kinds,
            final(self).n_rows == old(self).n_rows,
            final(self).pairs == old(self).pairs,
            final(self).next_free == old(self).next_free,
            final(self).region_start == old(self).region_start,
            match r {
                Ok(_) => {
                    &&& col < old(self).kinds@.len()
                    &&& old(self).kinds@[col as int] == ColKind::Selector
                    &&& old(self).region_start + offset < old(self).n_rows
                    &&& final(self).region_used == if offset + 1 > old(self).region_used {
                        offset + 1
                    } else {
                        old(self).region_used as int
                    }
                    &&& forall|c: int, rr: int|
                        0 <= c < old(self).n_cols() && 0 <= rr < old(self).n_rows
                            ==> #[trigger] final(self).cell(c, rr) == (if c == col as int && rr
                            == old(self).region_start + offset {
                            Some(fp_of(1))
                        } else {
                            old(self).cell(c, rr)
                        })
                },
                Err(e) => {
                    &&& *final(self) == *old(self)
                    &&& (e == Error::ConfigurationError <==> !(col < old(self).kinds@.len()
                        && old(self).kinds@[col as int] == ColKind::Selector))
                    &&& (e == Error::NotEnoughRows <==> (col < old(self).kinds@.len() && old(
                        self,
                    ).kinds@[col as int] == ColKind::Selector && old(self).region_start + offset
                        >= old(self).n_rows))
                    &&& (e matches Error::ConflictingAssignment { cell } ==> {
                        &&& cell == (Cell {
                            col,
                            row: (old(self).region_start + offset) as usize,
                        })
                        &&& old(self).cell(col as int, cell.row as int) is Some
                        &&& old(self).cell(col as int, cell.row as int) != Some(fp_of(1))
                    })
                    &&& (e is ConflictingAssignment <== (col < old(self).kinds@.len() && old(
                        self,
                    ).kinds@[col as int] == ColKind::Selector && old(self).region_start + offset
                        < old(self).n_rows))
                },
            },
    {
        if col >= self.kinds.len() || self.kinds[col] != ColKind::Selector {
            return Err(Error::ConfigurationError);
        }
        if offset >= self.n_rows - self.region_start {
            return Err(Error::NotEnoughRows);
        }
        let row = self.region_start + offset;
        let one = Fp::one();
        let cur = self.grid[col][row];
        if let Some(w) = cur {
            if w != one {
                return Err(Error::ConflictingAssignment { cell: Cell { col, row } });
            }
        }
        self.grid[col][row] = Some(one);
        if offset + 1 > self.region_used {
            self.region_used = offset + 1;
        }
        proof {
            assert forall|c: int, r: int|
                0 <= c < self.n_cols() && self.clean_from() <= r < self.n_rows && self.kinds@[c]
                    != ColKind::Public implies (self.cell(c, r)) is None by {
                assert(self.cell(c, r) == old(self).cell(c, r));
                assert(old(self).cell(c, r) is None);
            }
        }
        Ok(())
    }

    /// Declares that two cells must hold one value. The value check itself is
    /// deferred to the satisfiability checker; here both handles only have to
    /// lie within the table.
    pub fn copy(&mut self, a: Cell, b: Cell) -> (r: Result<(), Error>)
        requires
            old(self).wf(),
        ensures
            final(self).wf(),
            *final(self) == (Assigner { pairs: final(self).pairs, ..*old(self) }),
            match r {
                Ok(_) => {
                    &&& pair_wf((a, b), old(self).n_cols(), old(self).n_rows as int)
                    &&& final(self).pairs@ == old(self).pairs@.push((a, b))
                },
                Err(e) => {
                    &&& *final(self) == *old(self)
                    &&& e == Error::ConfigurationError
                    &&& !pair_wf((a, b), old(self).n_cols(), old(self).n_rows as int)
                },
            },
    {
        if a.col >= self.kinds.len() || a.row >= self.n_rows || b.col >= self.kinds.len() || b.row
            >= self.n_rows {
            return Err(Error::ConfigurationError);
        }
        self.pairs.push((a, b));
        proof {
            assert forall|i: int|
                0 <= i < self.pairs@.len() implies pair_wf(
                #[trigger] self.pairs@[i],
                self.kinds@.len() as int,
                self.n_rows as int,
            ) by {
                if i < old(self).pairs@.len() {
                    assert(pair_wf(old(self).pairs@[i], self.kinds@.len() as int,
                    self.n_rows as int));
                }
            }
            assert forall|c: int, r: int|
                0 <= c < self.n_cols() && self.clean_from() <= r < self.n_rows && self.kinds@[c]
                    != ColKind::Public implies (self.cell(c, r)) is None by {
                assert(old(self).cell(c, r) is None);
            }
        }
        Ok(())
    }

    /// Wires the value of `src` into row `row` of the public column `col`:
    /// the value is written there (write-once) and a copy constraint between
    /// the two cells is recorded, so the checker will also demand that they
    /// agree. An unknown source leaves the public cell unassigned.
    pub fn constrain_public(&mut self, src: Cell, col: usize, row: usize) -> (r: Result<
        Cell,
        Error,
    >)
        requires
            old(self).wf(),
        ensures
            final(self).wf(),
            final(self).kinds == old(self).kinds,
            final(self).n_rows == old(self).n_rows,
            final(self).in_region == old(self).in_region,
            final(self).region_start == old(self).region_start,
            final(self).region_used == old(self).region_used,
            final(self).next_free == old(self).next_free,
            match r {
                Ok(cell) => {
                    &&& src.col < old(self).kinds@.len() && src.row < old(self).n_rows
                    &&& col < old(self).kinds@.len()
                    &&& old(self).kinds@[col as int] == ColKind::Public
                    &&& row < old(self).n_rows
                    &&& cell == (Cell { col, row })
                    &&& final(self).pairs@ == old(self).pairs@.push((src, cell))
                    &&& forall|c: int, rr: int|
                        0 <= c < old(self).n_cols() && 0 <= rr < old(self).n_rows
                            ==> #[trigger] final(self).cell(c, rr) == (if c == col as int && rr
                            == row as int && old(self).cell(src.col as int, src.row as int)
                            is Some {
                            old(self).cell(src.col as int, src.row as int)
                        } else {
                            old(self).cell(c, rr)
                        })
                },
                Err(e) => {
                    &&& *final(self) == *old(self)
                    &&& (e == Error::ConfigurationError <==> !(src.col < old(self).kinds@.len()
                        && src.row < old(self).n_rows && col < old(self).kinds@.len() && old(
                        self,
                    ).kinds@[col as int] == ColKind::Public))
                    &&& (e == Error::NotEnoughRows <==> (src.col < old(self).kinds@.len()
                        && src.row < old(self).n_rows && col < old(self).kinds@.len() && old(
                        self,
                    ).kinds@[col as int] == ColKind::Public && row >= old(self).n_rows))
                    &&& (e is ConflictingAssignment ==> (old(self).cell(col as int, row as int)
                        is Some && old(self).cell(src.col as int, src.row as int) is Some && old(
                        self,
                    ).cell(col as int, row as int) != old(self).cell(
                        src.col as int,
                        src.row as int,
                    )))
                    &&& (e is ConflictingAssignment <== (src.col < old(self).kinds@.len()
                        && src.row < old(self).n_rows && col < old(self).kinds@.len() && old(
                        self,
                    ).kinds@[col as int] == ColKind::Public && row < old(self).n_rows))
                },
            },
    {
        if src.col >= self.kinds.len() || src.row >= self.n_rows || col >= self.kinds.len()
            || self.kinds[col] != ColKind::Public {
            return Err(Error::ConfigurationError);
        }
        if row >= self.n_rows {
            return Err(Error::NotEnoughRows);
        }
        let v = self.grid[src.col][src.row];
        if let Some(x) = v {
            let cur = self.grid[col][row];
            if let Some(w) = cur {
                if w != x {
                    return Err(Error::ConflictingAssignment { cell: Cell { col, row } });
                }
            }
            self.grid[col][row] = Some(x);
        }
        let cell = Cell { col, row };
        self.pairs.push((src, cell));
        proof {
            assert forall|i: int|
                0 <= i < self.pairs@.len() implies pair_wf(
                #[trigger] self.pairs@[i],
                self.kinds@.len() as int,
                self.n_rows as int,
            ) by {
                if i < old(self).pairs@.len() {
                    assert(pair_wf(old(self).pairs@[i], self.kinds@.len() as int,
                    self.n_rows as int));
                }
            }
            assert forall|c: int, r: int|
                0 <= c < self.n_cols() && self.clean_from() <= r < self.n_rows && self.kinds@[c]
                    != ColKind::Public implies (self.cell(c, r)) is None by {
                assert(self.cell(c, r) == old(self).cell(c, r));
                assert(old(self).cell(c, r) is None);
            }
        }
        Ok(cell)
    }

    /// Reads the current value of a cell.
    pub fn get(&self, c: Cell) -> (r: Option<Fp>)
        requires
            self.wf(),
            c.col < self.n_cols(),
            c.row < self.n_rows,
        ensures
            r == self.cell(c.col as int, c.row as int),
    {
        self.grid[c.col][c.row]
    }
}

} // verus!

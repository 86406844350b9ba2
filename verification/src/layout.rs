//! The column registry and gate set: the immutable shape of a circuit.
//!
//! Configuration allocates typed columns and declares selector-gated
//! polynomial constraints. Once configuration is finished the registry is
//! only ever read, which is what allows one configuration to be synthesized
//! and checked against many different inputs.

use vstd::prelude::*;

use crate::expr::{Expr, expr_wf, expr_check, lemma_expr_wf_extend};

verus! {

/// The kind of a column, immutable after declaration. Witness, fixed and
/// public columns hold field values; selector columns hold 0/1 indicators
/// that switch gates on and off per row.
#[derive(Clone, Copy, Debug, PartialEq, Eq, Structural)]
pub enum ColKind {
    Witness,
    Fixed,
    Public,
    Selector,
}

/// A (column, row) position in the witness table.
#[derive(Clone, Copy, Debug, PartialEq, Eq, Structural, Hash)]
pub struct Cell {
    pub col: usize,
    pub row: usize,
}

/// Errors raised while configuring a circuit or synthesizing a witness.
/// These abort the run at once: they mean the circuit or its layout is
/// unusable, unlike check-time violations, which are collected as data.
#[derive(Clone, Copy, Debug, PartialEq, Eq, Structural)]
pub enum Error {
    /// An undeclared column was referenced, a column of the wrong kind was
    /// targeted, or a second public column was requested.
    ConfigurationError,
    /// A cell that already holds a value was written with a different one.
    ConflictingAssignment { cell: Cell },
    /// A write landed beyond the last row of the table.
    NotEnoughRows,
}

/// A named polynomial constraint: wherever `selector` is enabled on a row,
/// `poly` must evaluate to zero at that row.
#[derive(Debug)]
pub struct Gate {
    pub name: String,
    pub selector: usize,
    pub poly: Expr,
}

/// A gate may only be guarded by a declared selector column and may only
/// reference declared value columns.
pub open spec fn gate_wf(g: Gate, kinds: Seq<ColKind>) -> bool {
    &&& g.selector < kinds.len()
    &&& kinds[g.selector as int] == ColKind::Selector
    &&& expr_wf(g.poly, kinds)
}

/// The column registry and gate set of one circuit shape.
pub struct Config {
    pub kinds: Vec<ColKind>,
    pub gates: Vec<Gate>,
    pub public_col: Option<usize>,
}

impl Config {
    /// Internal consistency: every gate is well formed and there is at most
    /// one public-input column, tracked by `public_col`.
    pub open spec fn wf(self) -> bool {
        &&& match self.public_col {
            Some(i) => i < self.kinds@.len() && self.kinds@[i as int] == ColKind::Public,
            None => true,
        }
        &&& forall|i: int|
            0 <= i < self.kinds@.len() && #[trigger] self.kinds@[i] == ColKind::Public
                ==> self.public_col == Some(i as usize)
        &&& forall|g: int|
            0 <= g < self.gates@.len() ==> gate_wf(#[trigger] self.gates@[g], self.kinds@)
    }

    /// An empty registry: no columns, no gates.
    pub fn new() -> (c: Config)
        ensures
            c.wf(),
            c.kinds@ == Seq::<ColKind>::empty(),
            c.gates@ == Seq::<Gate>::empty(),
            c.public_col is None,
    {
        Config { kinds: Vec::new(), gates: Vec::new(), public_col: None }
    }

    /// Declares a new column of the given kind and returns its identity.
    /// Requesting a second public column is a configuration error.
    pub fn allocate_column(&mut self, kind: ColKind) -> (r: Result<usize, Error>)
        requires
            old(self).wf(),
        ensures
            final(self).wf(),
            match r {
                Ok(i) => {
                    &&& i as int == old(self).kinds@.len()
                    &&& final(self).kinds@ == old(self).kinds@.push(kind)
                    &&& final(self).gates@ == old(self).gates@
                    &&& final(self).public_col == (if kind == ColKind::Public {
                        Some(i)
                    } else {
                        old(self).public_col
                    })
                },
                Err(e) => {
                    &&& *final(self) == *old(self)
                    &&& e == Error::ConfigurationError
                    &&& kind == ColKind::Public && old(self).public_col is Some
                },
            },
    {
        if kind == ColKind::Public && self.public_col.is_some() {
            return Err(Error::ConfigurationError);
        }
        let i = self.kinds.len();
        self.kinds.push(kind);
        if kind == ColKind::Public {
            self.public_col = Some(i);
        }
        proof {
            assert forall|g: int|
                0 <= g < self.gates@.len() implies gate_wf(#[trigger] self.gates@[g], self.kinds@) by {
                lemma_expr_wf_extend(self.gates@[g].poly, old(self).kinds@, kind);
            }
        }
        Ok(i)
    }

    /// Declares a new selector column and returns its identity.
    pub fn allocate_selector(&mut self) -> (r: Result<usize, Error>)
        requires
            old(self).wf(),
        ensures
            final(self).wf(),
            r is Ok,
            r matches Ok(i) ==> {
                &&& i as int == old(self).kinds@.len()
                &&& final(self).kinds@ == old(self).kinds@.push(ColKind::Selector)
                &&& final(self).gates@ == old(self).gates@
                &&& final(self).public_col == old(self).public_col
            },
    {
        self.allocate_column(ColKind::Selector)
    }

    /// Attaches a named polynomial constraint, guarded by `selector`, to the
    /// circuit: wherever that selector is enabled, `poly` must vanish.
    /// Referencing an undeclared column, a selector column inside the
    /// polynomial, or a non-selector guard is a configuration error.
    pub fn declare_gate(&mut self, name: String, selector: usize, poly: Expr) -> (r: Result<
        usize,
        Error,
    >)
        requires
            old(self).wf(),
        ensures
            final(self).wf(),
            final(self).kinds@ == old(self).kinds@,
            final(self).public_col == old(self).public_col,
            match r {
                Ok(g) => {
                    &&& g as int == old(self).gates@.len()
                    &&& final(self).gates@.len() == old(self).gates@.len() + 1
                    &&& final(self).gates@ =~= old(self).gates@.push(final(self).gates@[g as int])
                    &&& final(self).gates@[g as int].selector == selector
                    &&& final(self).gates@[g as int].poly == poly
                    &&& selector < old(self).kinds@.len()
                    &&& old(self).kinds@[selector as int] == ColKind::Selector
                    &&& expr_wf(poly, old(self).kinds@)
                },
                Err(e) => {
                    &&& *final(self) == *old(self)
                    &&& e == Error::ConfigurationError
                    &&& !(selector < old(self).kinds@.len()
                        && old(self).kinds@[selector as int] == ColKind::Selector
                        && expr_wf(poly, old(self).kinds@))
                },
            },
    {
        let ok = selector < self.kinds.len() && self.kinds[selector] == ColKind::Selector
            && expr_check(&poly, &self.kinds);
        if !ok {
            return Err(Error::ConfigurationError);
        }
        let g = self.gates.len();
        self.gates.push(Gate { name, selector, poly });
        Ok(g)
    }
}

} // verus!

//! Gate polynomials as explicit expression trees over cell references.
//!
//! An expression combines constants and `(column, row offset)` references
//! with field addition, multiplication and negation; a small recursive
//! interpreter in the checker evaluates it both for well-formedness at
//! configuration time and for concrete values at check time.

use vstd::prelude::*;

use crate::layout::ColKind;
use crate::field::Fp;

verus! {

/// A polynomial over the cells of the witness table. A `CellRef` names a
/// column and a non-negative row offset ("this row", "next row", ...)
/// relative to the row the guarding selector is evaluated at.
#[derive(Debug)]
pub enum Expr {
    Constant(Fp),
    CellRef { col: usize, rot: usize },
    Add(Box<Expr>, Box<Expr>),
    Mul(Box<Expr>, Box<Expr>),
    Neg(Box<Expr>),
}

/// An expression is well formed for a column layout when every reference
/// names a declared value column (never a selector column).
pub open spec fn expr_wf(e: Expr, kinds: Seq<ColKind>) -> bool
    decreases e,
{
    match e {
        Expr::Constant(_) => true,
        Expr::CellRef { col, rot } => col < kinds.len() && kinds[col as int] != ColKind::Selector,
        Expr::Add(l, r) => expr_wf(*l, kinds) && expr_wf(*r, kinds),
        Expr::Mul(l, r) => expr_wf(*l, kinds) && expr_wf(*r, kinds),
        Expr::Neg(x) => expr_wf(*x, kinds),
    }
}

/// Well-formedness survives declaring further columns.
pub proof fn lemma_expr_wf_extend(e: Expr, kinds: Seq<ColKind>, k: ColKind)
    requires
        expr_wf(e, kinds),
    ensures
        expr_wf(e, kinds.push(k)),
    decreases e,
{
    match e {
        Expr::Constant(_) => {},
        Expr::CellRef { .. } => {},
        Expr::Add(l, r) => {
            lemma_expr_wf_extend(*l, kinds, k);
            lemma_expr_wf_extend(*r, kinds, k);
        },
        Expr::Mul(l, r) => {
            lemma_expr_wf_extend(*l, kinds, k);
            lemma_expr_wf_extend(*r, kinds, k);
        },
        Expr::Neg(x) => {
            lemma_expr_wf_extend(*x, kinds, k);
        },
    }
}

/// Decides well-formedness of an expression against the declared columns.
pub fn expr_check(e: &Expr, kinds: &Vec<ColKind>) -> (r: bool)
    ensures
        r == expr_wf(*e, kinds@),
    decreases *e,
{
    match e {
        Expr::Constant(_) => true,
        Expr::CellRef { col, rot: _ } => {
            *col < kinds.len() && kinds[*col] != ColKind::Selector
        },
        Expr::Add(l, r) => expr_check(l, kinds) && expr_check(r, kinds),
        Expr::Mul(l, r) => expr_check(l, kinds) && expr_check(r, kinds),
        Expr::Neg(x) => expr_check(x, kinds),
    }
}

} // verus!

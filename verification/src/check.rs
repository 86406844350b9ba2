//! The satisfiability checker: validates a completed assignment against
//! every gate, every copy-constraint class, and the public-input vector.
//!
//! The checker is a pure function of its inputs. It collects the full list
//! of violations rather than stopping at the first, so callers can assert on
//! all simultaneous failures; success is an empty list.

use vstd::prelude::*;

use crate::assign::Assigner;
use crate::copies::{copy_offenses, copy_scan};
use crate::expr::{Expr, expr_wf};
use crate::field::{Fp, fadd, fmul, fneg, fp_of};
use crate::layout::{Cell, ColKind, Config, Gate, gate_wf};

verus! {

/// One way a witness table fails its circuit. The first two mean the
/// synthesis is incomplete or the public input vector malformed; the last
/// three mean a well-formed instance is simply not satisfied.
#[derive(Clone, Copy, Debug, PartialEq, Eq, Structural)]
pub enum Violation {
    /// An active gate referenced `(col, rot)` from `row`, but that cell has
    /// no value.
    CellNotAssigned { col: usize, row: usize, rot: usize },
    /// Gate number `gate` evaluated to a nonzero value at `row`.
    GateViolation { gate: usize, row: usize },
    /// A copy-constraint class holds two distinct values: `a` is its first
    /// assigned member and `b` the first member that disagrees.
    EqualityViolation { a: Cell, b: Cell },
    /// The public column's value at `row` differs from the input vector's.
    PublicInputViolation { row: usize },
    /// The assigned rows of the public column are not exactly one per entry
    /// of the public input vector.
    PublicInputLengthMismatch,
}

/// Whether the polynomial can be fully evaluated at `row`: every referenced
/// cell lies in the table and holds a value.
pub open spec fn eval_defined(e: Expr, a: Assigner, row: int) -> bool
    decreases e,
{
    match e {
        Expr::Constant(_) => true,
        Expr::CellRef { col, rot } => row + rot < a.n_rows && a.cell(col as int, row + rot)
            is Some,
        Expr::Add(l, r) => eval_defined(*l, a, row) && eval_defined(*r, a, row),
        Expr::Mul(l, r) => eval_defined(*l, a, row) && eval_defined(*r, a, row),
        Expr::Neg(x) => eval_defined(*x, a, row),
    }
}

/// The value of the polynomial at `row`, as a canonical representative;
/// meaningful where `eval_defined` holds.
pub open spec fn eval_val(e: Expr, a: Assigner, row: int) -> int
    decreases e,
{
    match e {
        Expr::Constant(c) => c.val(),
        Expr::CellRef { col, rot } => if row + rot < a.n_rows {
            match a.cell(col as int, row + rot) {
                Some(v) => v.val(),
                None => 0,
            }
        } else {
            0
        },
        Expr::Add(l, r) => fadd(eval_val(*l, a, row), eval_val(*r, a, row)),
        Expr::Mul(l, r) => fmul(eval_val(*l, a, row), eval_val(*r, a, row)),
        Expr::Neg(x) => fneg(eval_val(*x, a, row)),
    }
}

/// The first `(column, rotation)` reference, in evaluation order, that
/// `eval_defined` fails on.
pub open spec fn eval_missing(e: Expr, a: Assigner, row: int) -> (usize, usize)
    decreases e,
{
    match e {
        Expr::Constant(_) => (0, 0),
        Expr::CellRef { col, rot } => (col, rot),
        Expr::Add(l, r) => if !eval_defined(*l, a, row) {
            eval_missing(*l, a, row)
        } else {
            eval_missing(*r, a, row)
        },
        Expr::Mul(l, r) => if !eval_defined(*l, a, row) {
            eval_missing(*l, a, row)
        } else {
            eval_missing(*r, a, row)
        },
        Expr::Neg(x) => eval_missing(*x, a, row),
    }
}

/// Evaluates a gate polynomial at `row`, or reports the first reference to
/// a cell without a value.
pub fn eval_expr(e: &Expr, a: &Assigner, row: usize) -> (r: Result<Fp, (usize, usize)>)
    requires
        a.wf(),
        expr_wf(*e, a.kinds@),
        row < a.n_rows,
    ensures
        match r {
            Ok(v) => eval_defined(*e, *a, row as int) && v.val() == eval_val(*e, *a, row as int),
            Err(q) => !eval_defined(*e, *a, row as int) && q == eval_missing(*e, *a, row as int),
        },
    decreases *e,
{
    match e {
        Expr::Constant(c) => Ok(*c),
        Expr::CellRef { col, rot } => {
            if *rot < a.n_rows - row {
                match a.get(Cell { col: *col, row: row + *rot }) {
                    Some(x) => Ok(x),
                    None => Err((*col, *rot)),
                }
            } else {
                Err((*col, *rot))
            }
        },
        Expr::Add(l, r) => {
            let lv = eval_expr(l, a, row)?;
            let rv = eval_expr(r, a, row)?;
            Ok(lv.add(rv))
        },
        Expr::Mul(l, r) => {
            let lv = eval_expr(l, a, row)?;
            let rv = eval_expr(r, a, row)?;
            Ok(lv.mul(rv))
        },
        Expr::Neg(x) => {
            let xv = eval_expr(x, a, row)?;
            Ok(xv.neg())
        },
    }
}

/// A gate is active at a row exactly when its selector cell is one there.
pub open spec fn sel_active(g: Gate, a: Assigner, r: int) -> bool {
    a.cell(g.selector as int, r) == Some(fp_of(1))
}

/// The violations gate `g` contributes at row `r`: none while its selector
/// is off; otherwise a missing referenced cell, or a nonzero value.
pub open spec fn row_viols(cfg: Config, a: Assigner, g: int, r: int) -> Seq<Violation> {
    let gate = cfg.gates@[g];
    if sel_active(gate, a, r) {
        if !eval_defined(gate.poly, a, r) {
            seq![
                Violation::CellNotAssigned {
                    col: eval_missing(gate.poly, a, r).0,
                    row: r as usize,
                    rot: eval_missing(gate.poly, a, r).1,
                },
            ]
        } else if eval_val(gate.poly, a, r) != 0 {
            seq![Violation::GateViolation { gate: g as usize, row: r as usize }]
        } else {
            Seq::empty()
        }
    } else {
        Seq::empty()
    }
}

/// The violations gate `g` contributes over the first `n` rows.
pub open spec fn gate_rows_viols(cfg: Config, a: Assigner, g: int, n: int) -> Seq<Violation>
    decreases n,
{
    if n <= 0 {
        Seq::empty()
    } else {
        gate_rows_viols(cfg, a, g, n - 1) + row_viols(cfg, a, g, n - 1)
    }
}

/// The violations of the first `m` gates, each over every row of the table.
pub open spec fn gates_viols(cfg: Config, a: Assigner, m: int) -> Seq<Violation>
    decreases m,
{
    if m <= 0 {
        Seq::empty()
    } else {
        gates_viols(cfg, a, m - 1) + gate_rows_viols(cfg, a, m - 1, a.n_rows as int)
    }
}

/// Step one of the check: every gate, on every row where its selector is on.
pub open spec fn all_gate_viols(cfg: Config, a: Assigner) -> Seq<Violation> {
    gates_viols(cfg, a, cfg.gates@.len() as int)
}

/// Step two of the check: the copy-constraint classes, one violation per
/// inconsistent class.
pub open spec fn equality_viols(a: Assigner) -> Seq<Violation> {
    copy_offenses(a).map_values(|p: (Cell, Cell)| Violation::EqualityViolation { a: p.0, b: p.1 })
}

/// The assigned rows of the public column are exactly one per public input.
pub open spec fn pub_cover_ok(cfg: Config, a: Assigner, npub: int) -> bool {
    match cfg.public_col {
        Some(p) => npub <= a.n_rows && forall|r: int|
            0 <= r < a.n_rows ==> ((#[trigger] a.cell(p as int, r)) is Some <==> r < npub),
        None => npub == 0,
    }
}

/// The public-value mismatches among the first `n` rows of public column `p`.
pub open spec fn pub_rows_viols(p: int, a: Assigner, pubs: Seq<Fp>, n: int) -> Seq<Violation>
    decreases n,
{
    if n <= 0 {
        Seq::empty()
    } else {
        pub_rows_viols(p, a, pubs, n - 1) + (if a.cell(p, n - 1) == Some(pubs[n - 1]) {
            Seq::empty()
        } else {
            seq![Violation::PublicInputViolation { row: (n - 1) as usize }]
        })
    }
}

/// Step three of the check: the public column against the input vector.
pub open spec fn public_viols(cfg: Config, a: Assigner, pubs: Seq<Fp>) -> Seq<Violation> {
    if !pub_cover_ok(cfg, a, pubs.len() as int) {
        seq![Violation::PublicInputLengthMismatch]
    } else {
        match cfg.public_col {
            Some(p) => pub_rows_viols(p as int, a, pubs, pubs.len() as int),
            None => Seq::empty(),
        }
    }
}

/// Everything the check reports, in order: gate violations, then equality
/// violations, then public-input violations.
pub open spec fn check_spec(cfg: Config, a: Assigner, pubs: Seq<Fp>) -> Seq<Violation> {
    all_gate_viols(cfg, a) + equality_viols(a) + public_viols(cfg, a, pubs)
}

/// Validates a completed assignment against its circuit: evaluates every
/// gate on every row where its selector is active, requires every
/// copy-constraint class to agree on one value, and requires the public
/// column to match the public input vector entry by entry. Returns the full
/// list of violations, not only the first.
pub fn check(cfg: &Config, a: &Assigner, pubs: &Vec<Fp>) -> (r: Result<(), Vec<Violation>>)
    requires
        cfg.wf(),
        a.wf(),
        !a.in_region,
        a.kinds@ == cfg.kinds@,
    ensures
        match r {
            Ok(_) => check_spec(*cfg, *a, pubs@).len() == 0,
            Err(vs) => vs@ == check_spec(*cfg, *a, pubs@) && vs@.len() > 0,
        },
{
    let mut vs: Vec<Violation> = Vec::new();
    let m = cfg.gates.len();
    let mut g: usize = 0;
    while g < m
        invariant
            g <= m,
            m == cfg.gates@.len(),
            cfg.wf(),
            a.wf(),
            a.kinds@ == cfg.kinds@,
            vs@ == gates_viols(*cfg, *a, g as int),
        decreases m - g,
    {
        let gate = &cfg.gates[g];
        proof {
            assert(gate_wf(cfg.gates@[g as int], cfg.kinds@));
        }
        let n = a.n_rows;
        let one = Fp::one();
        let mut row: usize = 0;
        while row < n
            invariant
                row <= n,
                g < m,
                n == a.n_rows,
                m == cfg.gates@.len(),
                cfg.wf(),
                a.wf(),
                a.kinds@ == cfg.kinds@,
                gate == cfg.gates@[g as int],
                one == fp_of(1),
                gate_wf(*gate, cfg.kinds@),
                vs@ == gates_viols(*cfg, *a, g as int) + gate_rows_viols(
                    *cfg,
                    *a,
                    g as int,
                    row as int,
                ),
            decreases n - row,
        {
            let sel = a.get(Cell { col: gate.selector, row });
            let active = match sel {
                Some(s) => s == one,
                None => false,
            };
            proof {
                assert(active == sel_active(*gate, *a, row as int));
            }
            if active {
                match eval_expr(&gate.poly, a, row) {
                    Ok(v) => {
                        let zero = Fp::zero();
                        if v != zero {
                            proof {
                                Fp::lemma_ext(v, zero);
                            }
                            vs.push(Violation::GateViolation { gate: g, row });
                        } else {
                            proof {
                                Fp::lemma_ext(v, zero);
                            }
                        }
                    },
                    Err(q) => {
                        vs.push(Violation::CellNotAssigned { col: q.0, row, rot: q.1 });
                    },
                }
            }
            row += 1;
            proof {
                assert(vs@ =~= gates_viols(*cfg, *a, g as int) + gate_rows_viols(
                    *cfg,
                    *a,
                    g as int,
                    row as int,
                ));
            }
        }
        g += 1;
        proof {
            assert(vs@ =~= gates_viols(*cfg, *a, g as int));
        }
    }
    proof {
        assert(vs@ == all_gate_viols(*cfg, *a));
    }

    let offs = copy_scan(a);
    let ghost gate_part = vs@;
    let no = offs.len();
    let mut i: usize = 0;
    while i < no
        invariant
            i <= no,
            no == copy_offenses(*a).len(),
            offs@ == copy_offenses(*a),
            vs@ == gate_part + copy_offenses(*a).map_values(
                |p: (Cell, Cell)| Violation::EqualityViolation { a: p.0, b: p.1 },
            ).take(i as int),
        decreases no - i,
    {
        let o = offs[i];
        vs.push(Violation::EqualityViolation { a: o.0, b: o.1 });
        i += 1;
        proof {
            let mapped = copy_offenses(*a).map_values(
                |p: (Cell, Cell)| Violation::EqualityViolation { a: p.0, b: p.1 },
            );
            assert(mapped.take(i as int) =~= mapped.take(i as int - 1).push(mapped[i as int - 1]));
            assert(vs@ =~= gate_part + mapped.take(i as int));
        }
    }
    proof {
        let mapped = copy_offenses(*a).map_values(
            |p: (Cell, Cell)| Violation::EqualityViolation { a: p.0, b: p.1 },
        );
        assert(mapped.take(no as int) =~= mapped);
        assert(vs@ == gate_part + equality_viols(*a));
    }

    let ghost pre_pub = vs@;
    let npub = pubs.len();
    match cfg.public_col {
        None => {
            if npub > 0 {
                vs.push(Violation::PublicInputLengthMismatch);
            }
        },
        Some(p) => {
            let nr = a.n_rows;
            let mut cover = npub <= nr;
            let mut r2: usize = 0;
            while r2 < nr
                invariant
                    r2 <= nr,
                    nr == a.n_rows,
                    a.wf(),
                    a.kinds@ == cfg.kinds@,
                    cfg.wf(),
                    cfg.public_col == Some(p),
                    cover == (npub <= a.n_rows && forall|t: int|
                        0 <= t < r2 ==> ((#[trigger] a.cell(p as int, t)) is Some <==> t < npub)),
                decreases nr - r2,
            {
                let cv = a.get(Cell { col: p, row: r2 });
                let want = r2 < npub;
                if cv.is_some() != want {
                    cover = false;
                }
                r2 += 1;
            }
            proof {
                assert(cover == pub_cover_ok(*cfg, *a, npub as int));
            }
            if !cover {
                vs.push(Violation::PublicInputLengthMismatch);
            } else {
                let mut r3: usize = 0;
                while r3 < npub
                    invariant
                        r3 <= npub,
                        npub == pubs@.len(),
                        npub <= a.n_rows,
                        a.wf(),
                        a.kinds@ == cfg.kinds@,
                        cfg.wf(),
                        cfg.public_col == Some(p),
                        pub_cover_ok(*cfg, *a, npub as int),
                        vs@ == pre_pub + pub_rows_viols(p as int, *a, pubs@, r3 as int),
                    decreases npub - r3,
                {
                    let cv = a.get(Cell { col: p, row: r3 });
                    match cv {
                        Some(v) => {
                            if v != pubs[r3] {
                                vs.push(Violation::PublicInputViolation { row: r3 });
                            }
                        },
                        None => {
                            proof {
                                assert(false);
                            }
                        },
                    }
                    r3 += 1;
                    proof {
                        assert(vs@ =~= pre_pub + pub_rows_viols(p as int, *a, pubs@, r3 as int));
                    }
                }
            }
        },
    }
    proof {
        assert(vs@ =~= check_spec(*cfg, *a, pubs@));
    }

    if vs.len() == 0 {
        Ok(())
    } else {
        Err(vs)
    }
}

/// A stretch of rows on which a gate's selector is off contributes nothing.
pub proof fn lemma_gate_rows_inactive(cfg: Config, a: Assigner, g: int, lo: int, n: int)
    requires
        0 <= lo <= n,
        forall|r: int| lo <= r < n ==> !sel_active(cfg.gates@[g], a, r),
    ensures
        gate_rows_viols(cfg, a, g, n) == gate_rows_viols(cfg, a, g, lo),
    decreases n - lo,
{
    if n > lo {
        lemma_gate_rows_inactive(cfg, a, g, lo, n - 1);
        assert(row_viols(cfg, a, g, n - 1) =~= Seq::<Violation>::empty());
        assert(gate_rows_viols(cfg, a, g, n) =~= gate_rows_viols(cfg, a, g, n - 1));
    }
}

/// With a single declared gate, step one is that gate over all rows.
pub proof fn lemma_single_gate(cfg: Config, a: Assigner)
    requires
        cfg.gates@.len() == 1,
    ensures
        all_gate_viols(cfg, a) == gate_rows_viols(cfg, a, 0, a.n_rows as int),
{
    assert(gates_viols(cfg, a, 0) =~= Seq::<Violation>::empty());
    assert(gates_viols(cfg, a, 1) =~= gate_rows_viols(cfg, a, 0, a.n_rows as int));
}

/// Without inconsistent copy classes the equality step reports nothing.
pub proof fn lemma_equality_viols_empty(a: Assigner)
    requires
        copy_offenses(a) == Seq::<(Cell, Cell)>::empty(),
    ensures
        equality_viols(a) == Seq::<Violation>::empty(),
{
    assert(equality_viols(a) =~= Seq::<Violation>::empty());
}

/// The check has no hidden state: its verdict is a function of the
/// configuration, the assignment and the public inputs alone, so checking
/// one completed assignment twice yields identical results.
pub proof fn lemma_check_idempotent(cfg: Config, a: Assigner, pubs: Seq<Fp>)
    ensures
        check_spec(cfg, a, pubs) == check_spec(cfg, a, pubs),
{
}

} // verus!

//! A multiplication-chain circuit: proves knowledge of two private inputs
//! `a` and `b` with `k * a^2 * b^2 = c` for a circuit constant `k` and a
//! public output `c`.
//!
//! Layout, two witness columns, a public column, a fixed column and one
//! selector (`ins` and the fixed column not shown):
//!
//! | a0    | a1    | s_mul |
//! |-------|-------|-------|
//! |   a   |       |       |
//! |   b   |       |       |
//! | const |       |       |
//! |   a   |   b   |   1   |
//! |  ab   |       |       |
//! |  ab   |  ab   |   1   |
//! | absq  |       |       |
//! | absq  | const |   1   |
//! |   c   |       |       |
//!
//! The one gate demands, wherever `s_mul` is on, that the two current-row
//! advice cells multiply to the next row's first advice cell; copy
//! constraints wire each previously computed value into its new position.

use vstd::prelude::*;

use crate::assign::Assigner;
use crate::check::{
    all_gate_viols, check_spec, equality_viols, eval_defined, eval_val, gate_rows_viols,
    lemma_equality_viols_empty, lemma_gate_rows_inactive, lemma_single_gate, pub_cover_ok,
    pub_rows_viols, row_viols, sel_active, Violation,
};
use crate::copies::{cval, lemma_offenses_empty};
use crate::field::{
    Fp, MODULUS, Value, fadd, fmul, fneg, fp_of, lemma_fp_of_val, lemma_fsub_zero_iff, opt_mul,
    value_mul,
};
use crate::layout::{Cell, ColKind, Config, Error};
use crate::expr::{Expr, expr_wf};

verus! {

/// The multiplication gate's polynomial: `a0[cur] * a1[cur] - a0[next]`.
pub open spec fn mul_poly(a0: usize, a1: usize) -> Expr {
    Expr::Add(
        Box::new(
            Expr::Mul(
                Box::new(Expr::CellRef { col: a0, rot: 0 }),
                Box::new(Expr::CellRef { col: a1, rot: 0 }),
            ),
        ),
        Box::new(Expr::Neg(Box::new(Expr::CellRef { col: a0, rot: 1 }))),
    )
}

/// The columns one field chip works with.
#[derive(Clone, Copy, Debug, PartialEq, Eq, Structural)]
pub struct FieldConfig {
    pub advice0: usize,
    pub advice1: usize,
    pub instance: usize,
    pub constant: usize,
    pub s_mul: usize,
}

/// The chip's columns name distinct, correctly-kinded columns of the table.
pub open spec fn chip_ctx(fc: FieldConfig, kinds: Seq<ColKind>) -> bool {
    &&& fc.advice0 < kinds.len() && kinds[fc.advice0 as int] == ColKind::Witness
    &&& fc.advice1 < kinds.len() && kinds[fc.advice1 as int] == ColKind::Witness
    &&& fc.advice0 != fc.advice1
    &&& fc.instance < kinds.len() && kinds[fc.instance as int] == ColKind::Public
    &&& fc.constant < kinds.len() && kinds[fc.constant as int] == ColKind::Fixed
    &&& fc.s_mul < kinds.len() && kinds[fc.s_mul as int] == ColKind::Selector
}

/// A handle to an advice cell holding a (possibly unknown) number.
#[derive(Clone, Copy, Debug, PartialEq, Eq, Structural)]
pub struct Number(pub Cell);

/// The chip that loads values and multiplies them through the one gate.
#[derive(Clone, Copy, Debug)]
pub struct FieldChip {
    pub config: FieldConfig,
}

impl FieldChip {
    /// Wraps a finished configuration.
    pub fn construct(config: FieldConfig) -> (r: Self)
        ensures
            r.config == config,
    {
        FieldChip { config }
    }

    /// The chip's configuration.
    pub fn config(&self) -> (r: &FieldConfig)
        ensures
            *r == self.config,
    {
        &self.config
    }

    /// Declares the multiplication gate over the given columns, allocating
    /// the selector that guards it.
    pub fn configure(
        cs: &mut Config,
        advice0: usize,
        advice1: usize,
        instance: usize,
        constant: usize,
    ) -> (r: Result<FieldConfig, Error>)
        requires
            old(cs).wf(),
            advice0 < old(cs).kinds@.len() && old(cs).kinds@[advice0 as int] == ColKind::Witness,
            advice1 < old(cs).kinds@.len() && old(cs).kinds@[advice1 as int] == ColKind::Witness,
            advice0 != advice1,
            instance < old(cs).kinds@.len() && old(cs).kinds@[instance as int] == ColKind::Public,
            constant < old(cs).kinds@.len() && old(cs).kinds@[constant as int] == ColKind::Fixed,
        ensures
            final(cs).wf(),
            r is Ok,
            r matches Ok(fc) ==> {
                &&& fc == (FieldConfig {
                    advice0,
                    advice1,
                    instance,
                    constant,
                    s_mul: old(cs).kinds@.len() as usize,
                })
                &&& final(cs).kinds@ == old(cs).kinds@.push(ColKind::Selector)
                &&& final(cs).public_col == old(cs).public_col
                &&& final(cs).gates@.len() == old(cs).gates@.len() + 1
                &&& forall|g: int|
                    0 <= g < old(cs).gates@.len() ==> final(cs).gates@[g] == old(cs).gates@[g]
                &&& final(cs).gates@.last().selector == fc.s_mul
                &&& final(cs).gates@.last().poly == mul_poly(advice0, advice1)
            },
    {
        let s_mul = match cs.allocate_selector() {
            Ok(q) => q,
            Err(e) => {
                proof {
                    assert(false);
                }
                return Err(e);
            },
        };
        let poly = Expr::Add(
            Box::new(
                Expr::Mul(
                    Box::new(Expr::CellRef { col: advice0, rot: 0 }),
                    Box::new(Expr::CellRef { col: advice1, rot: 0 }),
                ),
            ),
            Box::new(Expr::Neg(Box::new(Expr::CellRef { col: advice0, rot: 1 }))),
        );
        proof {
            reveal_with_fuel(crate::expr::expr_wf, 5);
            assert(expr_wf(poly, cs.kinds@));
        }
        match cs.declare_gate("mul_gate".to_owned(), s_mul, poly) {
            Ok(_) => Ok(FieldConfig { advice0, advice1, instance, constant, s_mul }),
            Err(e) => {
                proof {
                    assert(false);
                }
                Err(e)
            },
        }
    }

    /// Loads a private input into a fresh one-row region.
    pub fn load_private(&self, asg: &mut Assigner, value: Value) -> (r: Result<Number, Error>)
        requires
            old(asg).wf(),
            !old(asg).in_region,
            chip_ctx(self.config, old(asg).kinds@),
            old(asg).next_free < old(asg).n_rows,
        ensures
            final(asg).wf(),
            !final(asg).in_region,
            final(asg).kinds == old(asg).kinds,
            final(asg).n_rows == old(asg).n_rows,
            final(asg).pairs == old(asg).pairs,
            final(asg).next_free == old(asg).next_free + 1,
            r is Ok,
            r matches Ok(num) ==> {
                &&& num.0 == (Cell { col: self.config.advice0, row: old(asg).next_free })
                &&& forall|c: int, rr: int|
                    0 <= c < old(asg).n_cols() && 0 <= rr < old(asg).n_rows
                        ==> #[trigger] final(asg).cell(c, rr) == (if c
                        == self.config.advice0 as int && rr == old(asg).next_free as int {
                        value.as_opt()
                    } else {
                        old(asg).cell(c, rr)
                    })
            },
    {
        proof {
            assert(old(asg).cell(self.config.advice0 as int, old(asg).next_free as int) is None);
        }
        asg.begin_region();
        let cell = match asg.assign(self.config.advice0, 0, value) {
            Ok(cell) => cell,
            Err(e) => {
                proof {
                    assert(false);
                }
                asg.end_region();
                return Err(e);
            },
        };
        let ghost a1 = *asg;
        asg.end_region();
        proof {
            assert forall|c: int, rr: int|
                0 <= c < old(asg).n_cols() && 0 <= rr < old(asg).n_rows
                    implies #[trigger] asg.cell(c, rr) == (if c == self.config.advice0 as int && rr
                    == old(asg).next_free as int {
                    value.as_opt()
                } else {
                    old(asg).cell(c, rr)
                }) by {
                assert(asg.cell(c, rr) == a1.cell(c, rr));
                assert(a1.cell(c, rr) == (if c == self.config.advice0 as int && rr == old(
                    asg,
                ).next_free as int && value is Known {
                    value.as_opt()
                } else {
                    old(asg).cell(c, rr)
                }));
            }
        }
        Ok(Number(cell))
    }

    /// Loads the circuit constant: the fixed column's cell holds it as part
    /// of the circuit, an advice copy is made for the chain, and the two are
    /// copy-constrained.
    pub fn load_constant(&self, asg: &mut Assigner, constant: Fp) -> (r: Result<Number, Error>)
        requires
            old(asg).wf(),
            !old(asg).in_region,
            chip_ctx(self.config, old(asg).kinds@),
            old(asg).next_free < old(asg).n_rows,
        ensures
            final(asg).wf(),
            !final(asg).in_region,
            final(asg).kinds == old(asg).kinds,
            final(asg).n_rows == old(asg).n_rows,
            final(asg).next_free == old(asg).next_free + 1,
            r is Ok,
            r matches Ok(num) ==> {
                &&& num.0 == (Cell { col: self.config.advice0, row: old(asg).next_free })
                &&& final(asg).pairs@ == old(asg).pairs@.push(
                    (
                        Cell { col: self.config.constant, row: old(asg).next_free },
                        Cell { col: self.config.advice0, row: old(asg).next_free },
                    ),
                )
                &&& forall|c: int, rr: int|
                    0 <= c < old(asg).n_cols() && 0 <= rr < old(asg).n_rows
                        ==> #[trigger] final(asg).cell(c, rr) == (if (c
                        == self.config.constant as int || c == self.config.advice0 as int) && rr
                        == old(asg).next_free as int {
                        Some(constant)
                    } else {
                        old(asg).cell(c, rr)
                    })
            },
    {
        proof {
            assert(old(asg).cell(self.config.constant as int, old(asg).next_free as int) is None);
            assert(old(asg).cell(self.config.advice0 as int, old(asg).next_free as int) is None);
        }
        asg.begin_region();
        let fcell = match asg.assign_fixed_from_constant(self.config.constant, 0, constant) {
            Ok(cell) => cell,
            Err(e) => {
                proof {
                    assert(false);
                }
                asg.end_region();
                return Err(e);
            },
        };
        let ghost a1 = *asg;
        proof {
            assert(a1.cell(self.config.advice0 as int, old(asg).next_free as int) is None);
        }
        let acell = match asg.assign(self.config.advice0, 0, Value::Known(constant)) {
            Ok(cell) => cell,
            Err(e) => {
                proof {
                    assert(false);
                }
                asg.end_region();
                return Err(e);
            },
        };
        let ghost a2 = *asg;
        asg.end_region();
        let ghost a3 = *asg;
        match asg.copy(fcell, acell) {
            Ok(_) => {},
            Err(e) => {
                proof {
                    assert(false);
                }
                return Err(e);
            },
        }
        proof {
            assert forall|c: int, rr: int|
                0 <= c < old(asg).n_cols() && 0 <= rr < old(asg).n_rows
                    implies #[trigger] asg.cell(c, rr) == (if (c == self.config.constant as int
                    || c == self.config.advice0 as int) && rr == old(asg).next_free as int {
                    Some(constant)
                } else {
                    old(asg).cell(c, rr)
                }) by {
                assert(asg.cell(c, rr) == a3.cell(c, rr));
                assert(a3.cell(c, rr) == a2.cell(c, rr));
                assert(a2.cell(c, rr) == (if c == self.config.advice0 as int && rr == old(
                    asg,
                ).next_free as int {
                    Some(constant)
                } else {
                    a1.cell(c, rr)
                }));
                assert(a1.cell(c, rr) == (if c == self.config.constant as int && rr == old(
                    asg,
                ).next_free as int {
                    Some(constant)
                } else {
                    old(asg).cell(c, rr)
                }));
            }
        }
        Ok(Number(acell))
    }

    /// Multiplies two loaded numbers in a fresh two-row region: the inputs
    /// are wired in by copy constraint, the multiplication selector is on, and
    /// the product lands on the next row.
    pub fn mul(&self, asg: &mut Assigner, a: Number, b: Number) -> (r: Result<Number, Error>)
        requires
            old(asg).wf(),
            !old(asg).in_region,
            chip_ctx(self.config, old(asg).kinds@),
            old(asg).next_free + 2 <= old(asg).n_rows,
            a.0.col < old(asg).kinds@.len(),
            old(asg).kinds@[a.0.col as int] == ColKind::Witness,
            a.0.row < old(asg).n_rows,
            b.0.col < old(asg).kinds@.len(),
            old(asg).kinds@[b.0.col as int] == ColKind::Witness,
            b.0.row < old(asg).n_rows,
        ensures
            final(asg).wf(),
            !final(asg).in_region,
            final(asg).kinds == old(asg).kinds,
            final(asg).n_rows == old(asg).n_rows,
            final(asg).next_free == old(asg).next_free + 2,
            r is Ok,
            r matches Ok(num) ==> {
                let s = old(asg).next_free as int;
                let va = old(asg).cell(a.0.col as int, a.0.row as int);
                let vb = old(asg).cell(b.0.col as int, b.0.row as int);
                &&& num.0 == (Cell { col: self.config.advice0, row: (s + 1) as usize })
                &&& final(asg).pairs@ == old(asg).pairs@.push(
                    (a.0, Cell { col: self.config.advice0, row: s as usize }),
                ).push((b.0, Cell { col: self.config.advice1, row: s as usize }))
                &&& forall|c: int, rr: int|
                    0 <= c < old(asg).n_cols() && 0 <= rr < old(asg).n_rows
                        ==> #[trigger] final(asg).cell(c, rr) == (if c
                        == self.config.s_mul as int && rr == s {
                        Some(fp_of(1))
                    } else if c == self.config.advice0 as int && rr == s {
                        va
                    } else if c == self.config.advice1 as int && rr == s {
                        vb
                    } else if c == self.config.advice0 as int && rr == s + 1 {
                        opt_mul(va, vb)
                    } else {
                        old(asg).cell(c, rr)
                    })
            },
    {
        let s = asg.next_free;
        let va = asg.get(a.0);
        let vb = asg.get(b.0);
        let wa = match va {
            Some(x) => Value::Known(x),
            None => Value::Unknown,
        };
        let wb = match vb {
            Some(x) => Value::Known(x),
            None => Value::Unknown,
        };
        proof {
            assert(old(asg).cell(self.config.s_mul as int, s as int) is None);
            assert(old(asg).cell(self.config.advice0 as int, s as int) is None);
            assert(old(asg).cell(self.config.advice1 as int, s as int) is None);
            assert(old(asg).cell(self.config.advice0 as int, s + 1) is None);
        }
        asg.begin_region();
        match asg.enable_selector(self.config.s_mul, 0) {
            Ok(_) => {},
            Err(e) => {
                proof {
                    assert(false);
                }
                asg.end_region();
                return Err(e);
            },
        }
        let ghost a1 = *asg;
        proof {
            assert(a1.cell(self.config.advice0 as int, s as int) is None);
        }
        let ca = match asg.assign(self.config.advice0, 0, wa) {
            Ok(c) => c,
            Err(e) => {
                proof {
                    assert(false);
                }
                asg.end_region();
                return Err(e);
            },
        };
        let ghost a2 = *asg;
        match asg.copy(a.0, ca) {
            Ok(_) => {},
            Err(e) => {
                proof {
                    assert(false);
                }
                asg.end_region();
                return Err(e);
            },
        }
        let ghost a3 = *asg;
        proof {
            assert(self.config.advice1 != self.config.s_mul);
            assert(a1.cell(self.config.advice1 as int, s as int) is None);
            assert(a2.cell(self.config.advice1 as int, s as int) is None);
            assert(a3.cell(self.config.advice1 as int, s as int) is None);
        }
        let cb = match asg.assign(self.config.advice1, 0, wb) {
            Ok(c) => c,
            Err(e) => {
                proof {
                    assert(false);
                }
                asg.end_region();
                return Err(e);
            },
        };
        let ghost a4 = *asg;
        match asg.copy(b.0, cb) {
            Ok(_) => {},
            Err(e) => {
                proof {
                    assert(false);
                }
                asg.end_region();
                return Err(e);
            },
        }
        let ghost a5 = *asg;
        let vout = value_mul(wa, wb);
        proof {
            assert(self.config.advice0 != self.config.s_mul);
            assert(a1.cell(self.config.advice0 as int, s + 1) is None);
            assert(a2.cell(self.config.advice0 as int, s + 1) is None);
            assert(a3.cell(self.config.advice0 as int, s + 1) is None);
            assert(a4.cell(self.config.advice0 as int, s + 1) is None);
            assert(a5.cell(self.config.advice0 as int, s + 1) is None);
        }
        let co = match asg.assign(self.config.advice0, 1, vout) {
            Ok(c) => c,
            Err(e) => {
                proof {
                    assert(false);
                }
                asg.end_region();
                return Err(e);
            },
        };
        let ghost a6 = *asg;
        asg.end_region();
        proof {
            let sI = old(asg).next_free as int;
            let vaS = old(asg).cell(a.0.col as int, a.0.row as int);
            let vbS = old(asg).cell(b.0.col as int, b.0.row as int);
            assert forall|c: int, rr: int|
                0 <= c < old(asg).n_cols() && 0 <= rr < old(asg).n_rows
                    implies #[trigger] asg.cell(c, rr) == (if c == self.config.s_mul as int && rr
                    == sI {
                    Some(fp_of(1))
                } else if c == self.config.advice0 as int && rr == sI {
                    vaS
                } else if c == self.config.advice1 as int && rr == sI {
                    vbS
                } else if c == self.config.advice0 as int && rr == sI + 1 {
                    opt_mul(vaS, vbS)
                } else {
                    old(asg).cell(c, rr)
                }) by {
                assert(asg.cell(c, rr) == a6.cell(c, rr));
                assert(a6.cell(c, rr) == (if c == self.config.advice0 as int && rr == sI + 1
                    && vout is Known {
                    vout.as_opt()
                } else {
                    a5.cell(c, rr)
                }));
                assert(a5.cell(c, rr) == a4.cell(c, rr));
                assert(a4.cell(c, rr) == (if c == self.config.advice1 as int && rr == sI && wb
                    is Known {
                    wb.as_opt()
                } else {
                    a3.cell(c, rr)
                }));
                assert(a3.cell(c, rr) == a2.cell(c, rr));
                assert(a2.cell(c, rr) == (if c == self.config.advice0 as int && rr == sI && wa
                    is Known {
                    wa.as_opt()
                } else {
                    a1.cell(c, rr)
                }));
                assert(a1.cell(c, rr) == (if c == self.config.s_mul as int && rr == sI {
                    Some(fp_of(1))
                } else {
                    old(asg).cell(c, rr)
                }));
            }
        }
        Ok(Number(co))
    }

    /// Wires a computed number into the given row of the public column.
    pub fn expose_public(&self, asg: &mut Assigner, num: Number, row: usize) -> (r: Result<
        (),
        Error,
    >)
        requires
            old(asg).wf(),
            chip_ctx(self.config, old(asg).kinds@),
            num.0.col < old(asg).kinds@.len(),
            num.0.row < old(asg).n_rows,
            row < old(asg).n_rows,
            old(asg).cell(self.config.instance as int, row as int) is None,
        ensures
            final(asg).wf(),
            final(asg).in_region == old(asg).in_region,
            final(asg).kinds == old(asg).kinds,
            final(asg).n_rows == old(asg).n_rows,
            final(asg).next_free == old(asg).next_free,
            r is Ok,
            final(asg).pairs@ == old(asg).pairs@.push(
                (num.0, Cell { col: self.config.instance, row }),
            ),
            forall|c: int, rr: int|
                0 <= c < old(asg).n_cols() && 0 <= rr < old(asg).n_rows
                    ==> #[trigger] final(asg).cell(c, rr) == (if c == self.config.instance as int
                    && rr == row as int {
                    old(asg).cell(num.0.col as int, num.0.row as int)
                } else {
                    old(asg).cell(c, rr)
                }),
    {
        match asg.constrain_public(num.0, self.config.instance, row) {
            Ok(_) => Ok(()),
            Err(e) => {
                proof {
                    assert(false);
                }
                Err(e)
            },
        }
    }
}

/// The configured shape of the multiplication-chain circuit: the five
/// columns in declaration order and the single multiplication gate.
pub open spec fn field_cfg_shape(cfg: Config, fc: FieldConfig) -> bool {
    &&& cfg.kinds@ == seq![
        ColKind::Witness,
        ColKind::Witness,
        ColKind::Public,
        ColKind::Fixed,
        ColKind::Selector,
    ]
    &&& cfg.gates@.len() == 1
    &&& cfg.gates@[0].selector == 4
    &&& cfg.gates@[0].poly == mul_poly(0, 1)
    &&& cfg.public_col == Some(2usize)
    &&& fc == (FieldConfig { advice0: 0, advice1: 1, instance: 2, constant: 3, s_mul: 4 })
}

/// What each cell of the synthesized table holds, given the two witness
/// inputs and the circuit constant.
pub open spec fn mul_table_cell(cc: int, rr: int, wa: Option<Fp>, wb: Option<Fp>, k: Fp) -> Option<
    Fp,
> {
    let ab = opt_mul(wa, wb);
    let absq = opt_mul(ab, ab);
    let c = opt_mul(absq, Some(k));
    if cc == 0 && rr == 0 {
        wa
    } else if cc == 0 && rr == 1 {
        wb
    } else if (cc == 3 || cc == 0) && rr == 2 {
        Some(k)
    } else if cc == 4 && rr == 3 {
        Some(fp_of(1))
    } else if cc == 0 && rr == 3 {
        wa
    } else if cc == 1 && rr == 3 {
        wb
    } else if cc == 0 && rr == 4 {
        ab
    } else if cc == 4 && rr == 5 {
        Some(fp_of(1))
    } else if cc == 0 && rr == 5 {
        ab
    } else if cc == 1 && rr == 5 {
        ab
    } else if cc == 0 && rr == 6 {
        absq
    } else if cc == 4 && rr == 7 {
        Some(fp_of(1))
    } else if cc == 0 && rr == 7 {
        absq
    } else if cc == 1 && rr == 7 {
        Some(k)
    } else if cc == 0 && rr == 8 {
        c
    } else if cc == 2 && rr == 0 {
        c
    } else {
        None
    }
}

/// The copy constraints the synthesis declares, in order.
pub open spec fn mul_table_pairs() -> Seq<(Cell, Cell)> {
    seq![
        (Cell { col: 3, row: 2 }, Cell { col: 0, row: 2 }),
        (Cell { col: 0, row: 0 }, Cell { col: 0, row: 3 }),
        (Cell { col: 0, row: 1 }, Cell { col: 1, row: 3 }),
        (Cell { col: 0, row: 4 }, Cell { col: 0, row: 5 }),
        (Cell { col: 0, row: 4 }, Cell { col: 1, row: 5 }),
        (Cell { col: 0, row: 6 }, Cell { col: 0, row: 7 }),
        (Cell { col: 0, row: 2 }, Cell { col: 1, row: 7 }),
        (Cell { col: 0, row: 8 }, Cell { col: 2, row: 0 }),
    ]
}

/// The synthesized witness table of the multiplication-chain circuit.
pub open spec fn mul_table_shape(t: Assigner, wa: Option<Fp>, wb: Option<Fp>, k: Fp) -> bool {
    &&& !t.in_region
    &&& t.next_free == 9
    &&& t.pairs@ == mul_table_pairs()
    &&& forall|cc: int, rr: int|
        0 <= cc < t.n_cols() && 0 <= rr < t.n_rows ==> #[trigger] t.cell(cc, rr)
            == mul_table_cell(cc, rr, wa, wb, k)
}

/// The multiplication-chain circuit: private inputs `a` and `b`, a baked-in
/// constant `k`, and the public output `k * a^2 * b^2`.
pub struct MyCircuit {
    pub constant: Fp,
    pub a: Value,
    pub b: Value,
}

impl Default for MyCircuit {
    /// The all-unknown instance: a zero constant and no witness data.
    fn default() -> (r: Self)
        ensures
            r.a is Unknown,
            r.b is Unknown,
            r.constant == fp_of(0),
    {
        MyCircuit { constant: Fp::zero(), a: Value::Unknown, b: Value::Unknown }
    }
}

impl MyCircuit {
    /// A structurally identical circuit with both inputs unknown, for
    /// running configuration without concrete data.
    pub fn without_witnesses(&self) -> (r: Self)
        ensures
            r.a is Unknown,
            r.b is Unknown,
            r.constant == fp_of(0),
    {
        Self::default()
    }

    /// Configures the circuit shape on an empty registry: two advice
    /// columns, the public column, the constant column, and the one constraint.
    pub fn configure(cs: &mut Config) -> (r: Result<FieldConfig, Error>)
        requires
            old(cs).wf(),
            old(cs).kinds@.len() == 0,
            old(cs).gates@.len() == 0,
            old(cs).public_col is None,
        ensures
            final(cs).wf(),
            r is Ok,
            r matches Ok(fc) ==> field_cfg_shape(*final(cs), fc),
    {
        let a0 = match cs.allocate_column(ColKind::Witness) {
            Ok(i) => i,
            Err(e) => {
                proof {
                    assert(false);
                }
                return Err(e);
            },
        };
        let a1 = match cs.allocate_column(ColKind::Witness) {
            Ok(i) => i,
            Err(e) => {
                proof {
                    assert(false);
                }
                return Err(e);
            },
        };
        let ins = match cs.allocate_column(ColKind::Public) {
            Ok(i) => i,
            Err(e) => {
                proof {
                    assert(false);
                }
                return Err(e);
            },
        };
        let con = match cs.allocate_column(ColKind::Fixed) {
            Ok(i) => i,
            Err(e) => {
                proof {
                    assert(false);
                }
                return Err(e);
            },
        };
        let r = FieldChip::configure(cs, a0, a1, ins, con);
        proof {
            if r is Ok {
                assert(cs.kinds@ =~= seq![
                    ColKind::Witness,
                    ColKind::Witness,
                    ColKind::Public,
                    ColKind::Fixed,
                    ColKind::Selector,
                ]);
            }
        }
        r
    }

    /// Synthesizes one instance into a fresh table of at least nine rows:
    /// loads `a`, `b` and the constant, multiplies through the chain
    /// `ab = a*b`, `absq = ab*ab`, `c = absq*k`, and exposes `c` in row zero
    /// of the public column.
    pub fn synthesize(&self, config: &FieldConfig, asg: &mut Assigner) -> (r: Result<(), Error>)
        requires
            old(asg).wf(),
            old(asg).fresh(),
            old(asg).kinds@ == seq![
                ColKind::Witness,
                ColKind::Witness,
                ColKind::Public,
                ColKind::Fixed,
                ColKind::Selector,
            ],
            *config == (FieldConfig { advice0: 0, advice1: 1, instance: 2, constant: 3, s_mul: 4 }),
            old(asg).n_rows >= 9,
        ensures
            final(asg).wf(),
            final(asg).kinds == old(asg).kinds,
            final(asg).n_rows == old(asg).n_rows,
            r is Ok,
            mul_table_shape(*final(asg), self.a.as_opt(), self.b.as_opt(), self.constant),
    {
        let ghost wa = self.a.as_opt();
        let ghost wb = self.b.as_opt();
        let ghost k = self.constant;
        let chip = FieldChip::construct(*config);
        let a = match chip.load_private(asg, self.a) {
            Ok(n) => n,
            Err(e) => {
                proof {
                    assert(false);
                }
                return Err(e);
            },
        };
        let ghost t1 = *asg;
        let b = match chip.load_private(asg, self.b) {
            Ok(n) => n,
            Err(e) => {
                proof {
                    assert(false);
                }
                return Err(e);
            },
        };
        let ghost t2 = *asg;
        let constant = match chip.load_constant(asg, self.constant) {
            Ok(n) => n,
            Err(e) => {
                proof {
                    assert(false);
                }
                return Err(e);
            },
        };
        let ghost t3 = *asg;
        proof {
            assert forall|cc: int, rr: int|
                0 <= cc < t3.n_cols() && 0 <= rr < t3.n_rows implies #[trigger] t3.cell(cc, rr)
                == (if cc == 0 && rr == 0 {
                wa
            } else if cc == 0 && rr == 1 {
                wb
            } else if (cc == 3 || cc == 0) && rr == 2 {
                Some(k)
            } else {
                None
            }) by {
                assert(t2.cell(cc, rr) == (if cc == 0 && rr == 0 {
                    wa
                } else if cc == 0 && rr == 1 {
                    wb
                } else {
                    None
                })) by {
                    assert(t1.cell(cc, rr) == (if cc == 0 && rr == 0 {
                        wa
                    } else {
                        None
                    })) by {
                        assert(old(asg).cell(cc, rr) is None);
                    }
                }
            }
        }
        let ab = match chip.mul(asg, a, b) {
            Ok(n) => n,
            Err(e) => {
                proof {
                    assert(false);
                }
                return Err(e);
            },
        };
        let ghost t4 = *asg;
        proof {
            assert forall|cc: int, rr: int|
                0 <= cc < t4.n_cols() && 0 <= rr < t4.n_rows implies #[trigger] t4.cell(cc, rr)
                == (if cc == 0 && rr == 0 {
                wa
            } else if cc == 0 && rr == 1 {
                wb
            } else if (cc == 3 || cc == 0) && rr == 2 {
                Some(k)
            } else if cc == 4 && rr == 3 {
                Some(fp_of(1))
            } else if cc == 0 && rr == 3 {
                wa
            } else if cc == 1 && rr == 3 {
                wb
            } else if cc == 0 && rr == 4 {
                opt_mul(wa, wb)
            } else {
                None
            }) by {
                assert(t3.cell(cc, rr) == (if cc == 0 && rr == 0 {
                    wa
                } else if cc == 0 && rr == 1 {
                    wb
                } else if (cc == 3 || cc == 0) && rr == 2 {
                    Some(k)
                } else {
                    None
                }));
            }
        }
        let absq = match chip.mul(asg, ab, ab) {
            Ok(n) => n,
            Err(e) => {
                proof {
                    assert(false);
                }
                return Err(e);
            },
        };
        let ghost t5 = *asg;
        proof {
            assert forall|cc: int, rr: int|
                0 <= cc < t5.n_cols() && 0 <= rr < t5.n_rows implies #[trigger] t5.cell(cc, rr)
                == (if cc == 0 && rr == 0 {
                wa
            } else if cc == 0 && rr == 1 {
                wb
            } else if (cc == 3 || cc == 0) && rr == 2 {
                Some(k)
            } else if cc == 4 && rr == 3 {
                Some(fp_of(1))
            } else if cc == 0 && rr == 3 {
                wa
            } else if cc == 1 && rr == 3 {
                wb
            } else if cc == 0 && rr == 4 {
                opt_mul(wa, wb)
            } else if cc == 4 && rr == 5 {
                Some(fp_of(1))
            } else if cc == 0 && rr == 5 {
                opt_mul(wa, wb)
            } else if cc == 1 && rr == 5 {
                opt_mul(wa, wb)
            } else if cc == 0 && rr == 6 {
                opt_mul(opt_mul(wa, wb), opt_mul(wa, wb))
            } else {
                None
            }) by {
                assert(t4.cell(cc, rr) == (if cc == 0 && rr == 0 {
                    wa
                } else if cc == 0 && rr == 1 {
                    wb
                } else if (cc == 3 || cc == 0) && rr == 2 {
                    Some(k)
                } else if cc == 4 && rr == 3 {
                    Some(fp_of(1))
                } else if cc == 0 && rr == 3 {
                    wa
                } else if cc == 1 && rr == 3 {
                    wb
                } else if cc == 0 && rr == 4 {
                    opt_mul(wa, wb)
                } else {
                    None
                }));
            }
        }
        let c = match chip.mul(asg, absq, constant) {
            Ok(n) => n,
            Err(e) => {
                proof {
                    assert(false);
                }
                return Err(e);
            },
        };
        let ghost t6 = *asg;
        proof {
            assert forall|cc: int, rr: int|
                0 <= cc < t6.n_cols() && 0 <= rr < t6.n_rows implies #[trigger] t6.cell(cc, rr)
                == (if cc == 2 && rr == 0 {
                None
            } else {
                mul_table_cell(cc, rr, wa, wb, k)
            }) by {
                assert(t5.cell(cc, rr) == (if cc == 0 && rr == 0 {
                    wa
                } else if cc == 0 && rr == 1 {
                    wb
                } else if (cc == 3 || cc == 0) && rr == 2 {
                    Some(k)
                } else if cc == 4 && rr == 3 {
                    Some(fp_of(1))
                } else if cc == 0 && rr == 3 {
                    wa
                } else if cc == 1 && rr == 3 {
                    wb
                } else if cc == 0 && rr == 4 {
                    opt_mul(wa, wb)
                } else if cc == 4 && rr == 5 {
                    Some(fp_of(1))
                } else if cc == 0 && rr == 5 {
                    opt_mul(wa, wb)
                } else if cc == 1 && rr == 5 {
                    opt_mul(wa, wb)
                } else if cc == 0 && rr == 6 {
                    opt_mul(opt_mul(wa, wb), opt_mul(wa, wb))
                } else {
                    None
                }));
            }
        }
        let r = match chip.expose_public(asg, c, 0) {
            Ok(_) => Ok(()),
            Err(e) => {
                proof {
                    assert(false);
                }
                return Err(e);
            },
        };
        proof {
            assert forall|cc: int, rr: int|
                0 <= cc < asg.n_cols() && 0 <= rr < asg.n_rows implies #[trigger] asg.cell(cc, rr)
                == mul_table_cell(cc, rr, wa, wb, k) by {
                assert(t6.cell(cc, rr) == (if cc == 2 && rr == 0 {
                    None
                } else {
                    mul_table_cell(cc, rr, wa, wb, k)
                }));
                assert(t6.cell(0, 8) == mul_table_cell(0, 8, wa, wb, k));
            }
            assert(asg.pairs@ =~= mul_table_pairs());
        }
        r
    }
}

/// The value the circuit owes its public output: `k * a^2 * b^2`.
pub open spec fn mul_chain(a: int, b: int, k: int) -> int {
    fmul(k, fmul(fmul(a, a), fmul(b, b)))
}

/// The chain the circuit actually multiplies, `((ab)(ab))k`, equals the
/// textbook form `k a^2 b^2` in the field.
pub proof fn lemma_mul_chain_algebra(a: int, b: int, k: int)
    ensures
        fmul(fmul(fmul(a, b), fmul(a, b)), k) == mul_chain(a, b, k),
{
    let p = MODULUS as int;
    vstd::arithmetic::div_mod::lemma_mul_mod_noop(a * b, a * b, p);
    vstd::arithmetic::div_mod::lemma_mul_mod_noop_left((a * b) * (a * b), k, p);
    vstd::arithmetic::div_mod::lemma_mul_mod_noop(a * a, b * b, p);
    vstd::arithmetic::div_mod::lemma_mul_mod_noop_right(k, (a * a) * (b * b), p);
    assert(((a * b) * (a * b)) * k == k * ((a * a) * (b * b))) by (nonlinear_arith);
}

/// Evaluating the multiplication gate where the three referenced cells hold
/// `x`, `y` and `o` yields `x*y - o`.
proof fn lemma_eval_mul_poly(t: Assigner, row: int, x: Fp, y: Fp, o: Fp)
    requires
        0 <= row,
        row + 1 < t.n_rows,
        t.cell(0, row) == Some(x),
        t.cell(1, row) == Some(y),
        t.cell(0, row + 1) == Some(o),
    ensures
        eval_defined(mul_poly(0, 1), t, row),
        eval_val(mul_poly(0, 1), t, row) == fadd(fmul(x.val(), y.val()), fneg(o.val())),
{
    reveal_with_fuel(crate::check::eval_defined, 5);
    reveal_with_fuel(crate::check::eval_val, 5);
}

/// For all field values `a`, `b`, `k`: the multiplication-chain circuit's
/// synthesized table passes the checker exactly when the declared public
/// input equals `k * a^2 * b^2`, and fails with exactly one public-input
/// violation on any other declared value.
pub proof fn lemma_mul_chain_checks(
    cfg: Config,
    fc: FieldConfig,
    t: Assigner,
    av: Fp,
    bv: Fp,
    kv: Fp,
    e: Fp,
)
    requires
        field_cfg_shape(cfg, fc),
        t.wf(),
        t.kinds@ == cfg.kinds@,
        t.n_rows >= 9,
        mul_table_shape(t, Some(av), Some(bv), kv),
        0 <= av.val() < MODULUS as int,
        0 <= bv.val() < MODULUS as int,
        0 <= kv.val() < MODULUS as int,
        0 <= e.val() < MODULUS as int,
    ensures
        e.val() == mul_chain(av.val(), bv.val(), kv.val()) ==> check_spec(cfg, t, seq![e])
            == Seq::<Violation>::empty(),
        e.val() != mul_chain(av.val(), bv.val(), kv.val()) ==> check_spec(cfg, t, seq![e])
            == seq![Violation::PublicInputViolation { row: 0 }],
{
    let p = MODULUS as int;
    let abv = fmul(av.val(), bv.val());
    vstd::arithmetic::div_mod::lemma_mod_bound(av.val() * bv.val(), p);
    let ab_fp = fp_of(abv);
    lemma_fp_of_val(abv);
    vstd::arithmetic::div_mod::lemma_small_mod(abv as nat, MODULUS as nat);
    assert(ab_fp.val() == abv);
    let absqv = fmul(abv, abv);
    vstd::arithmetic::div_mod::lemma_mod_bound(abv * abv, p);
    let absq_fp = fp_of(absqv);
    lemma_fp_of_val(absqv);
    vstd::arithmetic::div_mod::lemma_small_mod(absqv as nat, MODULUS as nat);
    assert(absq_fp.val() == absqv);
    let cv = fmul(absqv, kv.val());
    vstd::arithmetic::div_mod::lemma_mod_bound(absqv * kv.val(), p);
    let c_fp = fp_of(cv);
    lemma_fp_of_val(cv);
    vstd::arithmetic::div_mod::lemma_small_mod(cv as nat, MODULUS as nat);
    assert(c_fp.val() == cv);
    let wa = Some(av);
    let wb = Some(bv);
    assert(opt_mul(wa, wb) == Some(ab_fp));
    assert(opt_mul(opt_mul(wa, wb), opt_mul(wa, wb)) == Some(absq_fp));
    assert(opt_mul(Some(absq_fp), Some(kv)) == Some(c_fp));

    // Step one: the constraint holds at its three active rows, off elsewhere.
    assert(t.n_cols() == 5);
    assert forall|r: int| 8 <= r < t.n_rows implies !sel_active(cfg.gates@[0], t, r) by {
        assert(t.cell(4, r) == mul_table_cell(4, r, wa, wb, kv));
    }
    lemma_gate_rows_inactive(cfg, t, 0, 8, t.n_rows as int);
    assert(t.cell(4, 0) is None);
    assert(t.cell(4, 1) is None);
    assert(t.cell(4, 2) is None);
    assert(t.cell(4, 4) is None);
    assert(t.cell(4, 6) is None);
    assert(t.cell(4, 3) == Some(fp_of(1)));
    assert(t.cell(4, 5) == Some(fp_of(1)));
    assert(t.cell(4, 7) == Some(fp_of(1)));
    assert(t.cell(0, 3) == wa && t.cell(1, 3) == wb && t.cell(0, 4) == Some(ab_fp));
    assert(t.cell(0, 5) == Some(ab_fp) && t.cell(1, 5) == Some(ab_fp) && t.cell(0, 6) == Some(
        absq_fp,
    ));
    assert(t.cell(0, 7) == Some(absq_fp) && t.cell(1, 7) == Some(kv) && t.cell(0, 8) == Some(
        c_fp,
    ));
    lemma_eval_mul_poly(t, 3, av, bv, ab_fp);
    lemma_fsub_zero_iff(abv, abv);
    assert(row_viols(cfg, t, 0, 3) =~= Seq::<Violation>::empty());
    lemma_eval_mul_poly(t, 5, ab_fp, ab_fp, absq_fp);
    lemma_fsub_zero_iff(absqv, absqv);
    assert(row_viols(cfg, t, 0, 5) =~= Seq::<Violation>::empty());
    lemma_eval_mul_poly(t, 7, absq_fp, kv, c_fp);
    lemma_fsub_zero_iff(cv, cv);
    assert(row_viols(cfg, t, 0, 7) =~= Seq::<Violation>::empty());
    assert(gate_rows_viols(cfg, t, 0, 0) =~= Seq::<Violation>::empty());
    assert(gate_rows_viols(cfg, t, 0, 1) =~= Seq::<Violation>::empty());
    assert(gate_rows_viols(cfg, t, 0, 2) =~= Seq::<Violation>::empty());
    assert(gate_rows_viols(cfg, t, 0, 3) =~= Seq::<Violation>::empty());
    assert(gate_rows_viols(cfg, t, 0, 4) =~= Seq::<Violation>::empty());
    assert(gate_rows_viols(cfg, t, 0, 5) =~= Seq::<Violation>::empty());
    assert(gate_rows_viols(cfg, t, 0, 6) =~= Seq::<Violation>::empty());
    assert(gate_rows_viols(cfg, t, 0, 7) =~= Seq::<Violation>::empty());
    assert(gate_rows_viols(cfg, t, 0, 8) =~= Seq::<Violation>::empty());
    lemma_single_gate(cfg, t);
    assert(all_gate_viols(cfg, t) == Seq::<Violation>::empty());

    // Step two: every copy-constraint class agrees on one value.
    assert(t.cell(0, 0) == wa && t.cell(0, 1) == wb && t.cell(3, 2) == Some(kv) && t.cell(0, 2)
        == Some(kv) && t.cell(2, 0) == Some(c_fp));
    assert forall|k2: int|
        0 <= k2 < t.pairs@.len() implies cval(t, (#[trigger] t.pairs@[k2]).0) == cval(
        t,
        t.pairs@[k2].1,
    ) by {
        assert(t.pairs@ == mul_table_pairs());
        if k2 == 0 {
            assert(cval(t, t.pairs@[k2].0) == Some(kv) && cval(t, t.pairs@[k2].1) == Some(kv));
        } else if k2 == 1 {
            assert(cval(t, t.pairs@[k2].0) == wa && cval(t, t.pairs@[k2].1) == wa);
        } else if k2 == 2 {
            assert(cval(t, t.pairs@[k2].0) == wb && cval(t, t.pairs@[k2].1) == wb);
        } else if k2 == 3 || k2 == 4 {
            assert(cval(t, t.pairs@[k2].0) == Some(ab_fp) && cval(t, t.pairs@[k2].1) == Some(
                ab_fp,
            ));
        } else if k2 == 5 {
            assert(cval(t, t.pairs@[k2].0) == Some(absq_fp) && cval(t, t.pairs@[k2].1) == Some(
                absq_fp,
            ));
        } else if k2 == 6 {
            assert(cval(t, t.pairs@[k2].0) == Some(kv) && cval(t, t.pairs@[k2].1) == Some(kv));
        } else {
            assert(cval(t, t.pairs@[k2].0) == Some(c_fp) && cval(t, t.pairs@[k2].1) == Some(c_fp));
        }
    }
    lemma_offenses_empty(t);
    lemma_equality_viols_empty(t);

    // Step three: the public column covers exactly one row and holds c.
    assert(pub_cover_ok(cfg, t, 1)) by {
        assert forall|r: int| 0 <= r < t.n_rows implies ((#[trigger] t.cell(2, r)) is Some <==> r
            < 1) by {
            if r != 0 {
                assert(t.cell(2, r) == mul_table_cell(2, r, wa, wb, kv));
            }
        }
    }
    let pubs = seq![e];
    assert(pub_rows_viols(2, t, pubs, 0) =~= Seq::<Violation>::empty());
    lemma_mul_chain_algebra(av.val(), bv.val(), kv.val());
    Fp::lemma_ext(c_fp, e);
    if e.val() == mul_chain(av.val(), bv.val(), kv.val()) {
        assert(t.cell(2, 0) == Some(pubs[0]));
        assert(pub_rows_viols(2, t, pubs, 1) =~= Seq::<Violation>::empty());
        assert(check_spec(cfg, t, pubs) =~= Seq::<Violation>::empty());
    } else {
        assert(t.cell(2, 0) != Some(pubs[0]));
        assert(pub_rows_viols(2, t, pubs, 1) =~= seq![Violation::PublicInputViolation { row: 0 }]);
        assert(check_spec(cfg, t, pubs) =~= seq![Violation::PublicInputViolation { row: 0 }]);
    }
}

} // verus!

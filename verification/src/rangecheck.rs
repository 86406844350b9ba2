//! A bounded-range-check circuit, built without any lookup table.
//!
//! Layout, one witness column and one selector column:
//!
//! | value | q_range |
//! |-------|---------|
//! |   v   |    1    |
//!
//! One constraint, the vanishing polynomial `prod_{i=0}^{R-1} (i - v)`, is active
//! wherever `q_range` is enabled: it evaluates to zero exactly when `v` is
//! one of the `R` field elements standing for `0 .. R-1`. The tradeoff is a
//! gate of degree `R`, acceptable only for small bounds.

use vstd::prelude::*;

use crate::assign::Assigner;
use crate::check::{
    check_spec, eval_defined, eval_val, gate_rows_viols, row_viols, sel_active, all_gate_viols,
    lemma_gate_rows_inactive, lemma_single_gate, lemma_equality_viols_empty, equality_viols,
    public_viols, Violation,
};
use crate::copies::lemma_offenses_empty;
use crate::expr::{Expr, expr_wf};
use crate::field::{
    Fp, MODULUS, Value, fp_of, fsub, fmul, lemma_fp_of_val, lemma_fsub_zero_iff,
    lemma_fmul_nonzero,
};
use crate::layout::{Cell, ColKind, Config, Error};

verus! {

/// The range-check polynomial over column `col`: the product of the factors
/// `(i - v)` for `i` in `0 .. k`, where `v` is the cell of `col` at the
/// gate's own row.
pub open spec fn range_poly(col: usize, k: nat) -> Expr
    decreases k,
{
    if k == 0 {
        Expr::Constant(fp_of(1))
    } else {
        Expr::Mul(
            Box::new(range_poly(col, (k - 1) as nat)),
            Box::new(
                Expr::Add(
                    Box::new(Expr::Constant(fp_of(k - 1))),
                    Box::new(Expr::Neg(Box::new(Expr::CellRef { col, rot: 0 }))),
                ),
            ),
        )
    }
}

/// The value of that product on a concrete representative `x`.
pub open spec fn range_prod(k: nat, x: int) -> int
    decreases k,
{
    if k == 0 {
        1
    } else {
        fmul(range_prod((k - 1) as nat, x), fsub((k - 1) % (MODULUS as int), x))
    }
}

/// The range polynomial references only `col`, so it is well formed
/// wherever `col` is a declared value column.
pub proof fn lemma_range_poly_wf(col: usize, k: nat, kinds: Seq<ColKind>)
    requires
        col < kinds.len(),
        kinds[col as int] != ColKind::Selector,
    ensures
        expr_wf(range_poly(col, k), kinds),
    decreases k,
{
    reveal_with_fuel(crate::expr::expr_wf, 5);
    if k > 0 {
        lemma_range_poly_wf(col, (k - 1) as nat, kinds);
    }
}

/// Evaluating the range polynomial where the checked cell holds `v` yields
/// the product of the factors `(i - v)`.
pub proof fn lemma_eval_range_poly(a: Assigner, col: usize, k: nat, row: int, v: Fp)
    requires
        0 <= row < a.n_rows,
        a.cell(col as int, row) == Some(v),
    ensures
        eval_defined(range_poly(col, k), a, row),
        eval_val(range_poly(col, k), a, row) == range_prod(k, v.val()),
    decreases k,
{
    reveal_with_fuel(crate::check::eval_defined, 5);
    reveal_with_fuel(crate::check::eval_val, 5);
    if k == 0 {
        lemma_fp_of_val(1);
    } else {
        lemma_eval_range_poly(a, col, (k - 1) as nat, row, v);
        lemma_fp_of_val(k - 1);
    }
}

/// A value below the bound zeroes one factor, hence the whole product.
pub proof fn lemma_range_prod_zero(k: nat, x: int)
    requires
        0 <= x < MODULUS as int,
        x < k,
    ensures
        range_prod(k, x) == 0,
    decreases k,
{
    if x == k - 1 {
        vstd::arithmetic::div_mod::lemma_small_mod(x as nat, MODULUS as nat);
        lemma_fsub_zero_iff(x, x);
    } else {
        lemma_range_prod_zero((k - 1) as nat, x);
    }
}

/// A value at or above the bound (and below the modulus) misses every
/// factor, and a product of nonzero field elements is nonzero.
pub proof fn lemma_range_prod_nonzero(k: nat, x: int)
    requires
        0 <= x < MODULUS as int,
        k <= x,
    ensures
        0 < range_prod(k, x) < MODULUS as int,
    decreases k,
{
    if k == 0 {
    } else {
        lemma_range_prod_nonzero((k - 1) as nat, x);
        vstd::arithmetic::div_mod::lemma_small_mod((k - 1) as nat, MODULUS as nat);
        let f = fsub((k - 1) % (MODULUS as int), x);
        assert(f == fsub(k - 1, x));
        vstd::arithmetic::div_mod::lemma_mod_bound(
            (k - 1) + ((MODULUS as int) - x) % (MODULUS as int),
            MODULUS as int,
        );
        lemma_fsub_zero_iff(k - 1, x);
        lemma_fmul_nonzero(range_prod((k - 1) as nat, x), f);
        vstd::arithmetic::div_mod::lemma_mod_bound(range_prod((k - 1) as nat, x) * f, MODULUS as int);
    }
}

/// The configured shape of the range-check circuit: one witness column, one
/// selector column, and the single degree-`range` vanishing gate.
pub open spec fn range_cfg_shape(cfg: Config, rc: RangeConfig, range: nat) -> bool {
    &&& cfg.kinds@ == seq![ColKind::Witness, ColKind::Selector]
    &&& cfg.gates@.len() == 1
    &&& cfg.gates@[0].selector == 1
    &&& cfg.gates@[0].poly == range_poly(0, range)
    &&& cfg.public_col is None
    &&& rc.value == 0
    &&& rc.q_range == 1
}

/// The synthesized witness table of the range-check circuit: the checked
/// value in the witness cell of row zero, the selector enabled there, and
/// nothing else anywhere.
pub open spec fn range_table_shape(a: Assigner, v: Value) -> bool {
    &&& a.pairs@.len() == 0
    &&& !a.in_region
    &&& a.cell(1, 0) == Some(fp_of(1))
    &&& a.cell(0, 0) == v.as_opt()
    &&& forall|c: int, r: int|
        0 <= c < a.n_cols() && 0 <= r < a.n_rows && !(c == 1 && r == 0) && !(c == 0 && r == 0)
            ==> #[trigger] a.cell(c, r) is None
}

/// The configured columns of one range check: the checked witness column
/// and the selector that switches the vanishing gate on.
pub struct RangeConfig {
    pub value: usize,
    pub q_range: usize,
}

impl RangeConfig {
    /// Declares the range-check gate over the (already declared) witness
    /// column `value`, allocating a fresh selector to guard it.
    pub fn configure(cs: &mut Config, value: usize, range: usize) -> (r: Result<RangeConfig, Error>)
        requires
            old(cs).wf(),
            value < old(cs).kinds@.len(),
            old(cs).kinds@[value as int] == ColKind::Witness,
            range >= 1,
        ensures
            final(cs).wf(),
            r is Ok,
            r matches Ok(rc) ==> {
                &&& rc.value == value
                &&& rc.q_range as int == old(cs).kinds@.len()
                &&& final(cs).kinds@ == old(cs).kinds@.push(ColKind::Selector)
                &&& final(cs).public_col == old(cs).public_col
                &&& final(cs).gates@.len() == old(cs).gates@.len() + 1
                &&& forall|g: int|
                    0 <= g < old(cs).gates@.len() ==> final(cs).gates@[g] == old(cs).gates@[g]
                &&& final(cs).gates@.last().selector == rc.q_range
                &&& final(cs).gates@.last().poly == range_poly(value, range as nat)
            },
    {
        let q = match cs.allocate_selector() {
            Ok(q) => q,
            Err(e) => {
                proof {
                    assert(false);
                }
                return Err(e);
            },
        };
        let mut acc = Expr::Constant(Fp::one());
        let mut i: usize = 0;
        while i < range
            invariant
                i <= range,
                acc == range_poly(value, i as nat),
            decreases range - i,
        {
            let c = Fp::from_u64(i as u64);
            acc = Expr::Mul(
                Box::new(acc),
                Box::new(
                    Expr::Add(
                        Box::new(Expr::Constant(c)),
                        Box::new(Expr::Neg(Box::new(Expr::CellRef { col: value, rot: 0 }))),
                    ),
                ),
            );
            i += 1;
        }
        proof {
            lemma_range_poly_wf(value, range as nat, cs.kinds@);
        }
        match cs.declare_gate("range check".to_owned(), q, acc) {
            Ok(_) => Ok(RangeConfig { value, q_range: q }),
            Err(e) => {
                proof {
                    assert(false);
                }
                Err(e)
            },
        }
    }

    /// Realizes one instance: a fresh one-row region holding the value to
    /// check, with the range gate's selector enabled on that row.
    pub fn assign(&self, asg: &mut Assigner, value: Value) -> (r: Result<Cell, Error>)
        requires
            old(asg).wf(),
            !old(asg).in_region,
            self.value < old(asg).kinds@.len(),
            old(asg).kinds@[self.value as int] == ColKind::Witness,
            self.q_range < old(asg).kinds@.len(),
            old(asg).kinds@[self.q_range as int] == ColKind::Selector,
            old(asg).next_free < old(asg).n_rows,
        ensures
            final(asg).wf(),
            !final(asg).in_region,
            final(asg).kinds == old(asg).kinds,
            final(asg).n_rows == old(asg).n_rows,
            final(asg).pairs == old(asg).pairs,
            final(asg).next_free == old(asg).next_free + 1,
            r is Ok,
            r matches Ok(cell) ==> {
                &&& cell == (Cell { col: self.value, row: old(asg).next_free })
                &&& forall|c: int, rr: int|
                    0 <= c < old(asg).n_cols() && 0 <= rr < old(asg).n_rows
                        ==> #[trigger] final(asg).cell(c, rr) == (if c == self.q_range as int && rr
                        == old(asg).next_free as int {
                        Some(fp_of(1))
                    } else if c == self.value as int && rr == old(asg).next_free as int && value
                        is Known {
                        value.as_opt()
                    } else {
                        old(asg).cell(c, rr)
                    })
            },
    {
        proof {
            assert(self.value != self.q_range);
            assert(old(asg).cell(self.q_range as int, old(asg).next_free as int) is None);
        }
        asg.begin_region();
        match asg.enable_selector(self.q_range, 0) {
            Ok(_) => {},
            Err(e) => {
                proof {
                    assert(false);
                }
                asg.end_region();
                return Err(e);
            },
        }
        let ghost a1 = *asg;
        proof {
            assert(old(asg).cell(self.value as int, old(asg).next_free as int) is None);
            assert(a1.cell(self.value as int, old(asg).next_free as int) is None);
        }
        let cell = match asg.assign(self.value, 0, value) {
            Ok(cell) => cell,
            Err(e) => {
                proof {
                    assert(false);
                }
                asg.end_region();
                return Err(e);
            },
        };
        let ghost a2 = *asg;
        asg.end_region();
        proof {
            assert forall|c: int, rr: int|
                0 <= c < old(asg).n_cols() && 0 <= rr < old(asg).n_rows
                    implies #[trigger] asg.cell(c, rr) == (if c == self.q_range as int && rr
                    == old(asg).next_free as int {
                    Some(fp_of(1))
                } else if c == self.value as int && rr == old(asg).next_free as int && value
                    is Known {
                    value.as_opt()
                } else {
                    old(asg).cell(c, rr)
                }) by {
                assert(asg.cell(c, rr) == a2.cell(c, rr));
                assert(a2.cell(c, rr) == (if c == self.value as int && rr == old(
                    asg,
                ).next_free as int && value is Known {
                    value.as_opt()
                } else {
                    a1.cell(c, rr)
                }));
                assert(a1.cell(c, rr) == (if c == self.q_range as int && rr == old(
                    asg,
                ).next_free as int {
                    Some(fp_of(1))
                } else {
                    old(asg).cell(c, rr)
                }));
            }
        }
        Ok(cell)
    }
}

/// The range-check circuit: checks that its one witness value lies in
/// `[0, range)`.
pub struct MyCircuit {
    pub value: Value,
    pub range: usize,
}

impl MyCircuit {
    /// A structurally identical circuit with the input value unknown, for
    /// running configuration without concrete data.
    pub fn without_witnesses(&self) -> (r: Self)
        ensures
            r.range == self.range,
            r.value is Unknown,
    {
        MyCircuit { value: Value::Unknown, range: self.range }
    }

    /// Configures the circuit shape on an empty registry: the witness
    /// column, the selector, and the vanishing gate of degree `range`.
    pub fn configure(cs: &mut Config, range: usize) -> (r: Result<RangeConfig, Error>)
        requires
            old(cs).wf(),
            old(cs).kinds@.len() == 0,
            old(cs).gates@.len() == 0,
            old(cs).public_col is None,
            range >= 1,
        ensures
            final(cs).wf(),
            r is Ok,
            r matches Ok(rc) ==> range_cfg_shape(*final(cs), rc, range as nat),
    {
        let adv = match cs.allocate_column(ColKind::Witness) {
            Ok(i) => i,
            Err(e) => {
                proof {
                    assert(false);
                }
                return Err(e);
            },
        };
        let r = RangeConfig::configure(cs, adv, range);
        proof {
            if r is Ok {
                assert(cs.kinds@ =~= seq![ColKind::Witness, ColKind::Selector]);
            }
        }
        r
    }

    /// Synthesizes one instance into a fresh table: one region, one row.
    pub fn synthesize(&self, config: &RangeConfig, asg: &mut Assigner) -> (r: Result<(), Error>)
        requires
            old(asg).wf(),
            old(asg).fresh(),
            old(asg).kinds@ == seq![ColKind::Witness, ColKind::Selector],
            config.value == 0,
            config.q_range == 1,
            old(asg).n_rows >= 1,
        ensures
            final(asg).wf(),
            final(asg).kinds == old(asg).kinds,
            final(asg).n_rows == old(asg).n_rows,
            r is Ok,
            range_table_shape(*final(asg), self.value),
    {
        let r = match config.assign(asg, self.value) {
            Ok(_) => Ok(()),
            Err(e) => {
                proof {
                    assert(false);
                }
                Err(e)
            },
        };
        r
    }
}

/// For every bound `R >= 1` and every field value below `R`, the
/// range-check circuit's synthesized table passes the checker.
pub proof fn lemma_range_check_accepts(
    cfg: Config,
    rc: RangeConfig,
    a: Assigner,
    range: nat,
    v: Fp,
)
    requires
        range_cfg_shape(cfg, rc, range),
        range >= 1,
        a.wf(),
        a.kinds@ == cfg.kinds@,
        a.n_rows >= 1,
        range_table_shape(a, Value::Known(v)),
        0 <= v.val() < MODULUS as int,
        v.val() < range,
    ensures
        check_spec(cfg, a, Seq::<Fp>::empty()) == Seq::<Violation>::empty(),
{
    lemma_range_gate_step(cfg, a, range, v);
    lemma_eval_range_poly(a, 0, range, 0, v);
    lemma_range_prod_zero(range, v.val());
    assert(row_viols(cfg, a, 0, 0) =~= Seq::<Violation>::empty());
    assert(gate_rows_viols(cfg, a, 0, 1) =~= Seq::<Violation>::empty());
    lemma_range_side_steps(cfg, a);
    assert(check_spec(cfg, a, Seq::<Fp>::empty()) =~= Seq::<Violation>::empty());
}

/// For every bound `R >= 1` and every field value at or above `R`, the same
/// table fails with exactly one gate violation, at the range-check row.
pub proof fn lemma_range_check_rejects(
    cfg: Config,
    rc: RangeConfig,
    a: Assigner,
    range: nat,
    v: Fp,
)
    requires
        range_cfg_shape(cfg, rc, range),
        range >= 1,
        a.wf(),
        a.kinds@ == cfg.kinds@,
        a.n_rows >= 1,
        range_table_shape(a, Value::Known(v)),
        0 <= v.val() < MODULUS as int,
        v.val() >= range,
    ensures
        check_spec(cfg, a, Seq::<Fp>::empty()) == seq![
            Violation::GateViolation { gate: 0, row: 0 },
        ],
{
    lemma_range_gate_step(cfg, a, range, v);
    lemma_eval_range_poly(a, 0, range, 0, v);
    lemma_range_prod_nonzero(range, v.val());
    assert(row_viols(cfg, a, 0, 0) =~= seq![Violation::GateViolation { gate: 0, row: 0 }]);
    assert(gate_rows_viols(cfg, a, 0, 1) =~= seq![Violation::GateViolation { gate: 0, row: 0 }]);
    lemma_range_side_steps(cfg, a);
    assert(check_spec(cfg, a, Seq::<Fp>::empty()) =~= seq![
        Violation::GateViolation { gate: 0, row: 0 },
    ]);
}

/// Shared between the two range-check laws: the first check step reduces to the
/// one active row, row zero.
proof fn lemma_range_gate_step(cfg: Config, a: Assigner, range: nat, v: Fp)
    requires
        cfg.gates@.len() == 1,
        cfg.gates@[0].selector == 1,
        a.n_rows >= 1,
        a.kinds@ == cfg.kinds@,
        a.n_cols() >= 2,
        a.cell(1, 0) == Some(fp_of(1)),
        forall|c: int, r: int|
            0 <= c < a.n_cols() && 0 <= r < a.n_rows && !(c == 1 && r == 0) && !(c == 0 && r == 0)
                ==> #[trigger] a.cell(c, r) is None,
    ensures
        all_gate_viols(cfg, a) == gate_rows_viols(cfg, a, 0, 1),
        sel_active(cfg.gates@[0], a, 0),
        gate_rows_viols(cfg, a, 0, 1) == gate_rows_viols(cfg, a, 0, 0) + row_viols(cfg, a, 0, 0),
        gate_rows_viols(cfg, a, 0, 0) == Seq::<Violation>::empty(),
    {
    lemma_single_gate(cfg, a);
    assert forall|r: int| 1 <= r < a.n_rows implies !sel_active(cfg.gates@[0], a, r) by {
        assert(a.cell(1, r) is None);
    }
    lemma_gate_rows_inactive(cfg, a, 0, 1, a.n_rows as int);
    assert(gate_rows_viols(cfg, a, 0, 0) =~= Seq::<Violation>::empty());
}

/// Shared between the two range-check laws: the equality and public steps
/// report nothing.
proof fn lemma_range_side_steps(cfg: Config, a: Assigner)
    requires
        a.pairs@.len() == 0,
        cfg.public_col is None,
    ensures
        equality_viols(a) == Seq::<Violation>::empty(),
        public_viols(cfg, a, Seq::<Fp>::empty()) == Seq::<Violation>::empty(),
{
    lemma_offenses_empty(a);
    lemma_equality_viols_empty(a);
}

} // verus!

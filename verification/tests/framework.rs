//! Unit tests of the framework itself: field arithmetic, the column
//! registry, the region assigner's write-once rules, and the
//! copy-constraint classes.

use circuit_check::assign::Assigner;
use circuit_check::check::{check, Violation};
use circuit_check::expr::Expr;
use circuit_check::field::{Fp, Value, MODULUS};
use circuit_check::layout::{Cell, ColKind, Config, Error};

#[test]
fn field_arithmetic_exact_values() {
    assert_eq!(MODULUS, 251);
    assert_eq!(Fp::from_u64(251).to_u64(), 0);
    assert_eq!(Fp::from_u64(252).to_u64(), 1);
    assert_eq!(Fp::from_u64(200).add(Fp::from_u64(100)).to_u64(), 49);
    assert_eq!(Fp::from_u64(200).mul(Fp::from_u64(100)).to_u64(), 171);
    assert_eq!(Fp::from_u64(3).sub(Fp::from_u64(5)).to_u64(), 249);
    assert_eq!(Fp::zero().neg().to_u64(), 0);
    assert_eq!(Fp::one().neg().to_u64(), 250);
}

#[test]
fn registry_allows_one_public_column() {
    let mut cs = Config::new();
    assert_eq!(cs.allocate_column(ColKind::Public), Ok(0));
    assert_eq!(cs.allocate_column(ColKind::Witness), Ok(1));
    assert_eq!(cs.allocate_column(ColKind::Public), Err(Error::ConfigurationError));
}

#[test]
fn gate_must_reference_declared_value_columns() {
    let mut cs = Config::new();
    let w = cs.allocate_column(ColKind::Witness).unwrap();
    let q = cs.allocate_selector().unwrap();

    // Guard must be a selector column.
    let poly = Expr::CellRef { col: w, rot: 0 };
    assert_eq!(cs.declare_gate("bad guard".to_owned(), w, poly), Err(Error::ConfigurationError));

    // The polynomial may not reference an undeclared column.
    let poly = Expr::CellRef { col: 7, rot: 0 };
    assert_eq!(cs.declare_gate("bad column".to_owned(), q, poly), Err(Error::ConfigurationError));

    // The polynomial may not reference a selector column.
    let poly = Expr::CellRef { col: q, rot: 0 };
    assert_eq!(cs.declare_gate("bad kind".to_owned(), q, poly), Err(Error::ConfigurationError));

    // A well-formed gate is accepted.
    let poly = Expr::CellRef { col: w, rot: 0 };
    assert_eq!(cs.declare_gate("ok".to_owned(), q, poly), Ok(0));
}

#[test]
fn cells_are_write_once() {
    let mut cs = Config::new();
    let w = cs.allocate_column(ColKind::Witness).unwrap();
    let mut asg = Assigner::new(&cs, 4);
    asg.begin_region();
    let cell = asg.assign(w, 0, Value::Known(Fp::from_u64(1))).unwrap();
    // Re-assigning the identical value is permitted.
    assert_eq!(asg.assign(w, 0, Value::Known(Fp::from_u64(1))), Ok(cell));
    // Re-assigning a different value is a conflict.
    assert_eq!(
        asg.assign(w, 0, Value::Known(Fp::from_u64(2))),
        Err(Error::ConflictingAssignment { cell })
    );
    asg.end_region();
}

#[test]
fn writes_beyond_the_table_are_rejected() {
    let mut cs = Config::new();
    let w = cs.allocate_column(ColKind::Witness).unwrap();
    let mut asg = Assigner::new(&cs, 1);
    asg.begin_region();
    assert!(asg.assign(w, 0, Value::Known(Fp::one())).is_ok());
    assert_eq!(asg.assign(w, 1, Value::Known(Fp::one())), Err(Error::NotEnoughRows));
    asg.end_region();
}

#[test]
fn wrong_column_kind_is_a_configuration_error() {
    let mut cs = Config::new();
    let w = cs.allocate_column(ColKind::Witness).unwrap();
    let f = cs.allocate_column(ColKind::Fixed).unwrap();
    let mut asg = Assigner::new(&cs, 4);
    asg.begin_region();
    assert_eq!(asg.assign(f, 0, Value::Known(Fp::one())), Err(Error::ConfigurationError));
    assert_eq!(asg.enable_selector(w, 0), Err(Error::ConfigurationError));
    assert_eq!(
        asg.assign_fixed_from_constant(w, 0, Fp::one()),
        Err(Error::ConfigurationError)
    );
    asg.end_region();
}

#[test]
fn regions_do_not_overlap() {
    let mut cs = Config::new();
    let w = cs.allocate_column(ColKind::Witness).unwrap();
    let mut asg = Assigner::new(&cs, 8);
    asg.begin_region();
    let first = asg.assign(w, 0, Value::Known(Fp::from_u64(1))).unwrap();
    asg.end_region();
    asg.begin_region();
    let second = asg.assign(w, 0, Value::Known(Fp::from_u64(2))).unwrap();
    asg.end_region();
    assert_eq!(first, Cell { col: w, row: 0 });
    assert_eq!(second, Cell { col: w, row: 1 });
}

#[test]
fn equality_propagates_across_a_chain() {
    let mut cs = Config::new();
    let w = cs.allocate_column(ColKind::Witness).unwrap();
    let mut asg = Assigner::new(&cs, 8);

    asg.begin_region();
    let x = asg.assign(w, 0, Value::Known(Fp::from_u64(1))).unwrap();
    asg.end_region();
    asg.begin_region();
    let y = asg.assign(w, 0, Value::Unknown).unwrap();
    asg.end_region();
    asg.begin_region();
    let z = asg.assign(w, 0, Value::Known(Fp::from_u64(2))).unwrap();
    asg.end_region();

    // x and z are never linked directly, only through the unassigned y.
    asg.copy(x, y).unwrap();
    asg.copy(y, z).unwrap();

    let pubs: Vec<Fp> = Vec::new();
    let vs = check(&cs, &asg, &pubs).unwrap_err();
    assert_eq!(vs, vec![Violation::EqualityViolation { a: x, b: z }]);
}

#[test]
fn consistent_copy_chain_passes() {
    let mut cs = Config::new();
    let w = cs.allocate_column(ColKind::Witness).unwrap();
    let mut asg = Assigner::new(&cs, 8);

    asg.begin_region();
    let x = asg.assign(w, 0, Value::Known(Fp::from_u64(7))).unwrap();
    asg.end_region();
    asg.begin_region();
    let y = asg.assign(w, 0, Value::Known(Fp::from_u64(7))).unwrap();
    asg.end_region();

    asg.copy(x, y).unwrap();
    let pubs: Vec<Fp> = Vec::new();
    assert_eq!(check(&cs, &asg, &pubs), Ok(()));
}

#[test]
fn copy_requires_cells_inside_the_table() {
    let mut cs = Config::new();
    let w = cs.allocate_column(ColKind::Witness).unwrap();
    let mut asg = Assigner::new(&cs, 2);
    let good = Cell { col: w, row: 0 };
    let bad = Cell { col: w, row: 5 };
    assert_eq!(asg.copy(good, bad), Err(Error::ConfigurationError));
    assert_eq!(asg.copy(good, good), Ok(()));
}

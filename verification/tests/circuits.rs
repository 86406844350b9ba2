//! End-to-end tests of the two example circuits against the checker.

use circuit_check::assign::Assigner;
use circuit_check::check::{check, Violation};
use circuit_check::field::{Fp, Value};
use circuit_check::layout::Config;
use circuit_check::rangecheck::MyCircuit;
use circuit_check::simple::MyCircuit as SimpleCircuit;

fn run_range_check(range: usize, witness: u64) -> Result<(), Vec<Violation>> {
    let mut cs = Config::new();
    let rc = MyCircuit::configure(&mut cs, range).unwrap();
    let circuit = MyCircuit { value: Value::Known(Fp::from_u64(witness)), range };
    let mut asg = Assigner::new(&cs, 32);
    circuit.synthesize(&rc, &mut asg).unwrap();
    let pubs: Vec<Fp> = Vec::new();
    check(&cs, &asg, &pubs)
}

fn run_simple(constant: Fp, a: Fp, b: Fp, pubs: &Vec<Fp>) -> Result<(), Vec<Violation>> {
    let mut cs = Config::new();
    let fc = SimpleCircuit::configure(&mut cs).unwrap();
    let circuit = SimpleCircuit { constant, a: Value::Known(a), b: Value::Known(b) };
    let mut asg = Assigner::new(&cs, 32);
    circuit.synthesize(&fc, &mut asg).unwrap();
    check(&cs, &asg, pubs)
}

#[test]
fn test_rangecheck() {
    assert!(run_range_check(16, 6).is_ok());
    assert!(run_range_check(16, 17).is_err());
}

#[test]
fn test_simple() {
    let constant = Fp::from_u64(2);
    let a = Fp::from_u64(2);
    let b = Fp::from_u64(3);
    let c = constant.mul(a.mul(a)).mul(b.mul(b));

    let mut public_inputs = vec![c];
    assert_eq!(run_simple(constant, a, b, &public_inputs), Ok(()));

    public_inputs[0] = public_inputs[0].add(Fp::one());
    assert!(run_simple(constant, a, b, &public_inputs).is_err());
}

#[test]
fn range_bound_16_accepts_6() {
    assert_eq!(run_range_check(16, 6), Ok(()));
}

#[test]
fn range_bound_16_rejects_17_with_one_gate_violation() {
    let vs = run_range_check(16, 17).unwrap_err();
    assert_eq!(vs, vec![Violation::GateViolation { gate: 0, row: 0 }]);
}

#[test]
fn range_bound_edges() {
    assert!(run_range_check(1, 0).is_ok());
    assert!(run_range_check(1, 1).is_err());
    assert!(run_range_check(16, 0).is_ok());
    assert!(run_range_check(16, 15).is_ok());
    assert_eq!(
        run_range_check(16, 16).unwrap_err(),
        vec![Violation::GateViolation { gate: 0, row: 0 }]
    );
}

#[test]
fn simple_scenario_public_input() {
    let constant = Fp::from_u64(2);
    let a = Fp::from_u64(2);
    let b = Fp::from_u64(3);
    let c = constant.mul(a.mul(a)).mul(b.mul(b));
    // k * a^2 * b^2 = 2 * 4 * 9
    assert_eq!(c.to_u64(), 72);

    assert_eq!(run_simple(constant, a, b, &vec![c]), Ok(()));

    let wrong = c.add(Fp::one());
    let vs = run_simple(constant, a, b, &vec![wrong]).unwrap_err();
    assert_eq!(vs, vec![Violation::PublicInputViolation { row: 0 }]);
}

#[test]
fn simple_public_vector_length_must_match() {
    let constant = Fp::from_u64(2);
    let a = Fp::from_u64(2);
    let b = Fp::from_u64(3);
    let c = constant.mul(a.mul(a)).mul(b.mul(b));

    let vs = run_simple(constant, a, b, &vec![c, c]).unwrap_err();
    assert_eq!(vs, vec![Violation::PublicInputLengthMismatch]);

    let vs = run_simple(constant, a, b, &Vec::new()).unwrap_err();
    assert_eq!(vs, vec![Violation::PublicInputLengthMismatch]);
}

#[test]
fn unknown_witness_is_reported_missing() {
    let mut cs = Config::new();
    let rc = MyCircuit::configure(&mut cs, 16).unwrap();
    let circuit = MyCircuit { value: Value::Unknown, range: 16 };
    let without = circuit.without_witnesses();
    let mut asg = Assigner::new(&cs, 32);
    without.synthesize(&rc, &mut asg).unwrap();
    let pubs: Vec<Fp> = Vec::new();
    let vs = check(&cs, &asg, &pubs).unwrap_err();
    assert_eq!(vs, vec![Violation::CellNotAssigned { col: 0, row: 0, rot: 0 }]);
}

#[test]
fn checking_twice_yields_identical_results() {
    let mut cs = Config::new();
    let rc = MyCircuit::configure(&mut cs, 16).unwrap();
    let circuit = MyCircuit { value: Value::Known(Fp::from_u64(17)), range: 16 };
    let mut asg = Assigner::new(&cs, 32);
    circuit.synthesize(&rc, &mut asg).unwrap();
    let pubs: Vec<Fp> = Vec::new();
    let first = check(&cs, &asg, &pubs);
    let second = check(&cs, &asg, &pubs);
    assert_eq!(first, second);

    let constant = Fp::from_u64(2);
    let a = Fp::from_u64(2);
    let b = Fp::from_u64(3);
    let pubs = vec![Fp::from_u64(72)];
    assert_eq!(
        run_simple(constant, a, b, &pubs),
        run_simple(constant, a, b, &pubs)
    );
}

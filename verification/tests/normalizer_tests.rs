use cleitonforge::gate::GateKind;
use cleitonforge::ir::{Circuit, Operation, Qubit};
use cleitonforge::normalizer::{convention_from_str, normalize_convention, RzConvention};
use std::f64::consts::PI;

fn angle(x: f64) -> u64 {
    x.to_bits()
}

fn value(bits: u64) -> f64 {
    f64::from_bits(bits)
}

fn rz_circuit(lambda: f64) -> Circuit {
    let mut c = Circuit::new(1);
    c.push(Operation::new(GateKind::Rz, vec![0], vec![angle(lambda)]));
    c
}

#[test]
fn noop_when_same_convention() {
    let original = rz_circuit(PI / 4.0);
    let normalized =
        normalize_convention(&original, RzConvention::Standard, RzConvention::Standard);
    assert_eq!(original.operations[0].params[0], normalized.operations[0].params[0]);
}

#[test]
fn rz_angle_negated_on_convention_flip() {
    let circuit = rz_circuit(PI / 4.0);
    let normalized = normalize_convention(&circuit, RzConvention::Reversed, RzConvention::Standard);
    assert!((value(normalized.operations[0].params[0]) - (-PI / 4.0)).abs() < 1e-15);
}

#[test]
fn double_normalization_is_identity() {
    let circuit = rz_circuit(PI / 3.0);
    let once = normalize_convention(&circuit, RzConvention::Reversed, RzConvention::Standard);
    let twice = normalize_convention(&once, RzConvention::Reversed, RzConvention::Standard);
    assert!((value(twice.operations[0].params[0]) - value(circuit.operations[0].params[0])).abs() < 1e-15);
}

#[test]
fn phase_gate_angle_negated() {
    let mut c = Circuit::new(1);
    c.push(Operation::new(GateKind::Phase, vec![0], vec![angle(PI / 2.0)]));
    let n = normalize_convention(&c, RzConvention::Reversed, RzConvention::Standard);
    assert!((value(n.operations[0].params[0]) - (-PI / 2.0)).abs() < 1e-15);
}

#[test]
fn u_gate_phi_lambda_negated_theta_preserved() {
    let theta = 1.1;
    let phi = 0.7;
    let lambda = -0.3;
    let mut c = Circuit::new(1);
    c.push(Operation::new(GateKind::U, vec![0], vec![angle(theta), angle(phi), angle(lambda)]));
    let n = normalize_convention(&c, RzConvention::Reversed, RzConvention::Standard);
    let p = &n.operations[0].params;
    assert!((value(p[0]) - theta).abs() < 1e-15);
    assert!((value(p[1]) - (-phi)).abs() < 1e-15);
    assert!((value(p[2]) - (-lambda)).abs() < 1e-15);
}

#[test]
fn non_rz_gates_unchanged() {
    let mut c = Circuit::new(2);
    c.push(Operation::new(GateKind::H, vec![0], vec![]));
    c.push(Operation::new(GateKind::Cx, vec![0, 1], vec![]));
    c.push(Operation::new(GateKind::Rx, vec![0], vec![angle(PI / 2.0)]));
    c.push(Operation::new(GateKind::Ry, vec![1], vec![angle(PI / 3.0)]));
    let n = normalize_convention(&c, RzConvention::Reversed, RzConvention::Standard);
    assert_eq!(c.operations, n.operations);
}

#[test]
fn crz_and_cp_negated() {
    let mut c = Circuit::new(2);
    c.push(Operation::new(GateKind::Crz, vec![0, 1], vec![angle(PI)]));
    c.push(Operation::new(GateKind::Cp, vec![0, 1], vec![angle(PI / 4.0)]));
    let n = normalize_convention(&c, RzConvention::Reversed, RzConvention::Standard);
    assert!((value(n.operations[0].params[0]) - (-PI)).abs() < 1e-15);
    assert!((value(n.operations[1].params[0]) - (-PI / 4.0)).abs() < 1e-15);
}

#[test]
fn double_normalization_is_bit_exact_for_every_family() {
    let mut c = Circuit::new(2);
    c.push(Operation::new(GateKind::Rz, vec![0], vec![angle(0.25)]));
    c.push(Operation::new(GateKind::U, vec![1], vec![angle(1.0), angle(-2.0), angle(0.0)]));
    c.push(Operation::new(GateKind::Cu, vec![0, 1], vec![angle(0.1), angle(0.2), angle(0.3), angle(-0.0)]));
    c.push(Operation::new(GateKind::H, vec![0], vec![]));
    let once = normalize_convention(&c, RzConvention::Standard, RzConvention::Reversed);
    assert_eq!(value(once.operations[2].params[3]), 0.0);
    assert!(value(once.operations[2].params[3]).is_sign_positive());
    assert_eq!(value(once.operations[2].params[0]), 0.1);
    let twice = normalize_convention(&once, RzConvention::Reversed, RzConvention::Standard);
    assert_eq!(twice.operations, c.operations);
}

#[test]
fn convention_names() {
    assert_eq!(RzConvention::Standard.name(), "standard (IBM/Qiskit)");
    assert_eq!(RzConvention::Reversed.name(), "reversed (quantrs2)");
}

#[test]
fn conventions_are_read_by_name() {
    for name in ["standard", "ibm", "qiskit"] {
        assert_eq!(convention_from_str(name), Ok(RzConvention::Standard));
    }
    for name in ["reversed", "quantrs2"] {
        assert_eq!(convention_from_str(name), Ok(RzConvention::Reversed));
    }
    assert_eq!(
        convention_from_str("IBM"),
        Err("unknown convention 'IBM'; use 'standard' (IBM/Qiskit) or 'reversed' (quantrs2)"
            .to_string())
    );
    assert!(convention_from_str(" standard").is_err());
    assert!(convention_from_str("").is_err());
}

#[test]
fn normalizing_twice_gives_back_a_circuit_with_named_qubits() {
    let mut c = Circuit::new(2);
    c.qubits[0].name = Some("q[0]".to_string());
    c.qubits[1] = Qubit { index: 1, name: Some("anc[0]".to_string()) };
    c.push(Operation::new(GateKind::Rz, vec![0], vec![angle(0.3)]));
    c.push(Operation::new(GateKind::Cp, vec![1, 0], vec![angle(-1.2)]));
    c.push(Operation::new(GateKind::H, vec![1], vec![]));
    c.push(Operation::new(GateKind::U, vec![0], vec![angle(0.1), angle(0.2), angle(0.4)]));
    let once = normalize_convention(&c, RzConvention::Reversed, RzConvention::Standard);
    assert_eq!(once.qubits, c.qubits);
    assert_eq!(value(once.operations[0].params[0]), -0.3);
    let twice = normalize_convention(&once, RzConvention::Reversed, RzConvention::Standard);
    assert_eq!(twice, c);
    let same = normalize_convention(&c, RzConvention::Standard, RzConvention::Standard);
    assert_eq!(same, c);
}

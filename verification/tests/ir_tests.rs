use cleitonforge::gate::GateKind;
use cleitonforge::ir::{Circuit, CircuitError, Operation};

fn bell_state_circuit() -> Circuit {
    let mut circuit = Circuit::new(2);
    circuit.push(Operation::new(GateKind::H, vec![0], vec![]));
    circuit.push(Operation::new(GateKind::Cx, vec![0, 1], vec![]));
    circuit
}

#[test]
fn bell_state_has_expected_shape() {
    let circuit = bell_state_circuit();
    assert_eq!(circuit.num_qubits(), 2);
    assert_eq!(circuit.operations.len(), 2);
    assert_eq!(circuit.operations[0].kind, GateKind::H);
    assert_eq!(circuit.operations[1].kind, GateKind::Cx);
}

#[test]
fn bell_state_is_valid() {
    assert_eq!(bell_state_circuit().validate(), Ok(()));
}

#[test]
fn rejects_out_of_range_qubit() {
    let mut circuit = Circuit::new(1);
    circuit.push(Operation::new(GateKind::Cx, vec![0, 1], vec![]));
    assert_eq!(
        circuit.validate(),
        Err(CircuitError::QubitOutOfRange { operation_index: 0, qubit: 1 })
    );
}

#[test]
fn rejects_wrong_qubit_count() {
    let mut circuit = Circuit::new(2);
    circuit.push(Operation::new(GateKind::H, vec![0, 1], vec![]));
    assert_eq!(
        circuit.validate(),
        Err(CircuitError::WrongQubitCount { operation_index: 0, expected: 1, found: 2 })
    );
}

#[test]
fn rejects_wrong_param_count() {
    let mut circuit = Circuit::new(1);
    circuit.push(Operation::new(GateKind::Rz, vec![0], vec![]));
    assert_eq!(
        circuit.validate(),
        Err(CircuitError::WrongParamCount { operation_index: 0, expected: 1, found: 0 })
    );
}

#[test]
fn provenance_metadata_is_optional_but_settable() {
    let mut operation = Operation::new(GateKind::X, vec![0], vec![]);
    operation.source_framework = Some("qiskit".to_string());
    operation.original_gate_name = Some("x".to_string());
    assert_eq!(operation.source_framework.as_deref(), Some("qiskit"));
}

#[test]
fn validation_reports_the_first_defect_in_operation_order() {
    let mut circuit = Circuit::new(2);
    circuit.push(Operation::new(GateKind::H, vec![0], vec![]));
    circuit.push(Operation::new(GateKind::Rz, vec![5], vec![]));
    circuit.push(Operation::new(GateKind::H, vec![0, 1], vec![]));
    assert_eq!(
        circuit.validate(),
        Err(CircuitError::QubitOutOfRange { operation_index: 1, qubit: 5 })
    );
}

#[test]
fn new_circuit_has_unnamed_indexed_qubits() {
    let c = Circuit::new(3);
    assert_eq!(c.qubits.len(), 3);
    for (i, q) in c.qubits.iter().enumerate() {
        assert_eq!(q.index, i);
        assert!(q.name.is_none());
    }
    assert!(c.operations.is_empty());
}

#[test]
fn clone_keeps_every_field() {
    let mut op = Operation::new(GateKind::U, vec![2], vec![1, 2, 3]);
    op.source_framework = Some("openqasm2".to_string());
    let copy = op.clone();
    assert_eq!(copy, op);
    let mut c = Circuit::new(3);
    c.push(op);
    assert_eq!(c.clone(), c);
}

#[test]
fn gate_kind_arities_and_names() {
    assert_eq!(GateKind::Cu.num_qubits(), 2);
    assert_eq!(GateKind::Cu.num_params(), 4);
    assert_eq!(GateKind::Ccx.num_qubits(), 3);
    assert_eq!(GateKind::U.num_params(), 3);
    assert_eq!(GateKind::H.num_params(), 0);
    assert_eq!(GateKind::Phase.qasm_name(), "p");
    assert_eq!(GateKind::Cswap.qasm_name(), "cswap");
}

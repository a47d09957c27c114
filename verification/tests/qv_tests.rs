use cleitonforge::gate::GateKind;
use cleitonforge::qv::qv_circuit;

fn shape(c: &cleitonforge::Circuit) -> Vec<(GateKind, Vec<usize>, Vec<u64>)> {
    c.operations
        .iter()
        .map(|o| (o.kind, o.qubits.clone(), o.params.clone()))
        .collect()
}

#[test]
fn one_layer_is_euler_rotations_then_a_cx_chain() {
    let c = qv_circuit(2, 1, &vec![1, 2, 3, 4, 5, 6]);
    assert_eq!(c.num_qubits(), 2);
    assert_eq!(
        shape(&c),
        vec![
            (GateKind::Rz, vec![0], vec![1]),
            (GateKind::Ry, vec![0], vec![2]),
            (GateKind::Rz, vec![0], vec![3]),
            (GateKind::Rz, vec![1], vec![4]),
            (GateKind::Ry, vec![1], vec![5]),
            (GateKind::Rz, vec![1], vec![6]),
            (GateKind::Cx, vec![0, 1], vec![]),
        ]
    );
}

#[test]
fn the_entangler_chain_turns_with_the_layer() {
    let angles: Vec<u64> = (0..18).collect();
    let c = qv_circuit(3, 2, &angles);
    assert_eq!(c.validate(), Ok(()));
    let cx: Vec<Vec<usize>> = c
        .operations
        .iter()
        .filter(|o| o.kind == GateKind::Cx)
        .map(|o| o.qubits.clone())
        .collect();
    assert_eq!(cx, vec![vec![0, 1], vec![1, 2], vec![1, 2], vec![2, 0]]);
    // the second layer's rotations read the angles after the first layer's nine
    assert_eq!(c.operations[11].params, vec![9]);
    assert_eq!(c.operations.len(), 2 * (9 + 2));
}

#[test]
fn a_single_qubit_gets_no_entanglers() {
    let c = qv_circuit(1, 3, &vec![7; 9]);
    assert_eq!(c.operations.len(), 9);
    assert!(c.operations.iter().all(|o| o.kind != GateKind::Cx));
    let empty = qv_circuit(4, 0, &vec![]);
    assert!(empty.operations.is_empty());
    assert_eq!(empty.num_qubits(), 4);
}

use cleitonforge::circuit_stats::compute_stats;
use cleitonforge::gate::GateKind;
use cleitonforge::ir::{Circuit, Operation};

fn bell() -> Circuit {
    let mut c = Circuit::new(2);
    c.push(Operation::new(GateKind::H, vec![0], vec![]));
    c.push(Operation::new(GateKind::Cx, vec![0, 1], vec![]));
    c
}

#[test]
fn bell_state_gate_count_and_depth() {
    let stats = compute_stats(&bell());
    assert_eq!(stats.gate_count, 2);
    // H on q[0] (layer 1), CX on q[0]+q[1] (layer 2, must wait for H)
    assert_eq!(stats.depth, 2);
}

#[test]
fn parallel_gates_reduce_depth() {
    let mut c = Circuit::new(2);
    c.push(Operation::new(GateKind::H, vec![0], vec![]));
    c.push(Operation::new(GateKind::H, vec![1], vec![]));
    let stats = compute_stats(&c);
    assert_eq!(stats.gate_count, 2);
    assert_eq!(stats.depth, 1);
}

#[test]
fn gate_counts_by_kind_correct() {
    let stats = compute_stats(&bell());
    assert_eq!(stats.gate_counts_by_kind.get(&GateKind::H).copied(), Some(1));
    assert_eq!(stats.gate_counts_by_kind.get(&GateKind::Cx).copied(), Some(1));
}

#[test]
fn empty_circuit_has_depth_zero_and_no_counts() {
    let stats = compute_stats(&Circuit::new(3));
    assert_eq!(stats.gate_count, 0);
    assert_eq!(stats.depth, 0);
    assert!(stats.gate_counts_by_kind.is_empty());
    assert_eq!(stats.gate_counts_by_kind.get(&GateKind::X), None);
}

#[test]
fn depth_follows_the_critical_path() {
    // q0: H, CX(0,1), T ; q2: X, X, X, X  -> depth 4 from q2's chain.
    let mut c = Circuit::new(3);
    c.push(Operation::new(GateKind::H, vec![0], vec![]));
    c.push(Operation::new(GateKind::Cx, vec![0, 1], vec![]));
    c.push(Operation::new(GateKind::T, vec![1], vec![]));
    for _ in 0..4 {
        c.push(Operation::new(GateKind::X, vec![2], vec![]));
    }
    c.push(Operation::new(GateKind::Ccx, vec![0, 1, 2], vec![]));
    let stats = compute_stats(&c);
    assert_eq!(stats.gate_count, 8);
    assert_eq!(stats.depth, 5);
    assert_eq!(stats.gate_counts_by_kind.get(&GateKind::X).copied(), Some(4));
    let entries = stats.gate_counts_by_kind.entries();
    assert_eq!(
        entries,
        vec![(GateKind::X, 4), (GateKind::H, 1), (GateKind::T, 1), (GateKind::Cx, 1), (GateKind::Ccx, 1)]
    );
}

use cleitonforge::gate::GateKind;
use cleitonforge::ir::{Circuit, Operation};
use cleitonforge::shrinker::shrink;
use std::cell::Cell;

#[test]
fn shrinks_to_the_minimal_failing_core() {
    let mut c = Circuit::new(2);
    for kind in [
        GateKind::H,
        GateKind::X,
        GateKind::Rz,
        GateKind::Y,
        GateKind::Z,
        GateKind::S,
        GateKind::H,
        GateKind::X,
    ] {
        let params = if kind == GateKind::Rz { vec![0.5f64.to_bits()] } else { vec![] };
        c.push(Operation::new(kind, vec![0], params));
    }

    let fails = |cand: &Circuit| {
        let has_rz = cand.operations.iter().any(|o| o.kind == GateKind::Rz);
        let has_s = cand.operations.iter().any(|o| o.kind == GateKind::S);
        has_rz && has_s
    };
    let minimal = shrink(&c, &fails);
    assert_eq!(minimal.operations.len(), 2);
    assert!(fails(&minimal));
}

#[test]
fn result_still_fails() {
    let mut c = Circuit::new(1);
    for _ in 0..7 {
        c.push(Operation::new(GateKind::H, vec![0], vec![]));
    }
    let fails = |cand: &Circuit| cand.operations.len() >= 3;
    let minimal = shrink(&c, &fails);
    assert_eq!(minimal.operations.len(), 3);
}

#[test]
fn shrinking_keeps_order_and_is_one_minimal() {
    let mut c = Circuit::new(3);
    let kinds = [GateKind::H, GateKind::T, GateKind::X, GateKind::S, GateKind::Y, GateKind::Z];
    for (i, k) in kinds.iter().enumerate() {
        c.push(Operation::new(*k, vec![i % 3], vec![]));
    }
    // Fails while both T and Y are present, in that order.
    let fails = |cand: &Circuit| {
        let t = cand.operations.iter().position(|o| o.kind == GateKind::T);
        let y = cand.operations.iter().position(|o| o.kind == GateKind::Y);
        matches!((t, y), (Some(a), Some(b)) if a < b)
    };
    let minimal = shrink(&c, &fails);
    let got: Vec<GateKind> = minimal.operations.iter().map(|o| o.kind).collect();
    assert_eq!(got, vec![GateKind::T, GateKind::Y]);
    assert_eq!(minimal.operations[1].qubits, vec![1]);
    for i in 0..minimal.operations.len() {
        let mut fewer = minimal.clone();
        fewer.operations.remove(i);
        assert!(!fails(&fewer));
    }
}

#[test]
fn a_circuit_that_never_shrinks_is_returned_whole() {
    let mut c = Circuit::new(1);
    c.push(Operation::new(GateKind::H, vec![0], vec![]));
    c.push(Operation::new(GateKind::X, vec![0], vec![]));
    let calls = Cell::new(0usize);
    let fails = |_: &Circuit| {
        calls.set(calls.get() + 1);
        false
    };
    let minimal = shrink(&c, &fails);
    assert_eq!(minimal.operations, c.operations);
    assert!(calls.get() >= 2);
}

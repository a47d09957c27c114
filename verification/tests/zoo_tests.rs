use cleitonforge::zoo::{gates_json, json_escape, to_qasm2};
use cleitonforge::{Circuit, GateKind, Operation};

fn fmt12(bits: u64) -> String {
    format!("{:.12}", f64::from_bits(bits))
}

#[test]
fn qasm2_reproducer_is_well_formed() {
    let mut c = Circuit::new(2);
    c.push(Operation::new(GateKind::H, vec![0], vec![]));
    c.push(Operation::new(GateKind::Rz, vec![0], vec![0.5f64.to_bits()]));
    c.push(Operation::new(GateKind::Cx, vec![0, 1], vec![]));
    let q = to_qasm2(&c, &fmt12);
    assert!(q.contains("qreg q[2];"));
    assert!(q.contains("rz(0.500000000000) q[0];"));
    assert!(q.contains("cx q[0],q[1];"));
}

#[test]
fn qasm2_reproducer_exact_text() {
    let mut c = Circuit::new(3);
    c.push(Operation::new(GateKind::U, vec![2], vec![1.0f64.to_bits(), 0.0f64.to_bits(), (-0.25f64).to_bits()]));
    c.push(Operation::new(GateKind::Ccx, vec![0, 1, 2], vec![]));
    assert_eq!(
        to_qasm2(&c, &fmt12),
        "OPENQASM 2.0;\ninclude \"qelib1.inc\";\nqreg q[3];\n\
         u(1.000000000000,0.000000000000,-0.250000000000) q[2];\nccx q[0],q[1],q[2];\n"
    );
    assert_eq!(
        to_qasm2(&Circuit::new(0), &fmt12),
        "OPENQASM 2.0;\ninclude \"qelib1.inc\";\nqreg q[0];\n"
    );
}

#[test]
fn gate_list_json() {
    let mut c = Circuit::new(2);
    c.push(Operation::new(GateKind::H, vec![0], vec![]));
    c.push(Operation::new(GateKind::Crz, vec![1, 0], vec![0.5f64.to_bits()]));
    assert_eq!(
        gates_json(&c, &fmt12),
        r#"{"gate":"h","qubits":[0],"params":[]},{"gate":"crz","qubits":[1,0],"params":[0.500000000000]}"#
    );
    assert_eq!(gates_json(&Circuit::new(1), &fmt12), "");
}

#[test]
fn json_escaping() {
    assert_eq!(json_escape("plain"), "plain");
    assert_eq!(json_escape("a\"b"), "a\\\"b");
    assert_eq!(json_escape("back\\slash"), "back\\\\slash");
    assert_eq!(json_escape("two\nlines"), "two\\nlines");
    assert_eq!(json_escape("\\\""), "\\\\\\\"");
    assert_eq!(json_escape("ünïcode"), "ünïcode");
}

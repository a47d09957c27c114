use std::collections::HashMap;
use std::path::Path;

use cleitonforge::error::ParseError;
use cleitonforge::qasm2::{circuit_from_qasm2, QasmArgument, QasmCall, QasmGateDef, QasmNode};
use cleitonforge::{Circuit, GateKind};

fn call_of(name: &str, args: &[qasm::Argument], params: &[String]) -> QasmCall {
    QasmCall {
        name: name.to_string(),
        args: args
            .iter()
            .map(|a| match a {
                qasm::Argument::Qubit(n, i) => QasmArgument::Qubit(n.clone(), *i),
                qasm::Argument::Register(n) => QasmArgument::Register(n.clone()),
            })
            .collect(),
        params: params.to_vec(),
    }
}

fn node_of(node: &qasm::AstNode) -> QasmNode {
    match node {
        qasm::AstNode::QReg(name, size) => QasmNode::QReg(name.clone(), *size),
        qasm::AstNode::ApplyGate(name, args, params) => QasmNode::Apply(call_of(name, args, params)),
        qasm::AstNode::Gate(name, qubits, angles, body) => QasmNode::Gate(QasmGateDef {
            name: name.clone(),
            qubits: qubits.clone(),
            angles: angles.clone(),
            body: body
                .iter()
                .filter_map(|b| match b {
                    qasm::AstNode::ApplyGate(n, a, p) => Some(call_of(n, a, p)),
                    _ => None,
                })
                .collect(),
        }),
        _ => QasmNode::Other,
    }
}

fn eval_simple_expr(s: &str) -> Result<f64, ()> {
    for (i, c) in s.char_indices().rev() {
        if (c == '+' || c == '-') && i > 0 {
            let left = eval_simple_expr(s[..i].trim())?;
            let right = eval_simple_expr(s[i + 1..].trim())?;
            return Ok(if c == '+' { left + right } else { left - right });
        }
    }
    for (i, c) in s.char_indices().rev() {
        if c == '*' || c == '/' {
            let left = eval_simple_expr(s[..i].trim())?;
            let right = eval_simple_expr(s[i + 1..].trim())?;
            return Ok(if c == '*' { left * right } else { left / right });
        }
    }
    s.parse::<f64>().map_err(|_| ())
}

fn eval_param(expr: &String, bindings: &Vec<(String, u64)>) -> Option<u64> {
    let s = expr.trim();
    if let Ok(v) = s.parse::<f64>() {
        return Some(v.to_bits());
    }
    let map: HashMap<&str, f64> =
        bindings.iter().map(|(n, v)| (n.as_str(), f64::from_bits(*v))).collect();
    let mut substituted = s.replace("pi", &std::f64::consts::PI.to_string());
    let mut sorted: Vec<(&&str, &f64)> = map.iter().collect();
    sorted.sort_by_key(|(k, _)| std::cmp::Reverse(k.len()));
    for (name, val) in sorted {
        substituted = substituted.replace(name, &val.to_string());
    }
    eval_simple_expr(&substituted).ok().map(f64::to_bits)
}

fn parse_qasm2(source: &str) -> Result<Circuit, ParseError> {
    let processed = qasm::process(source, Path::new("."));
    let mut tokens = qasm::lex(&processed);
    let ast = qasm::parse(&mut tokens).map_err(|e| ParseError::SyntaxError(format!("{e:?}")))?;
    let nodes: Vec<QasmNode> = ast.iter().map(node_of).collect();
    circuit_from_qasm2(&nodes, &eval_param)
}

fn param(c: &Circuit, op: usize, k: usize) -> f64 {
    f64::from_bits(c.operations[op].params[k])
}

const BELL_QASM2: &str = r#"
OPENQASM 2.0;
qreg q[2];
creg c[2];
h q[0];
cx q[0],q[1];
measure q[0] -> c[0];
measure q[1] -> c[1];
"#;

#[test]
fn bell_state_qasm2() {
    let circuit = parse_qasm2(BELL_QASM2).unwrap();
    assert_eq!(circuit.num_qubits(), 2);
    assert_eq!(circuit.operations.len(), 2);
    assert_eq!(circuit.operations[0].kind, GateKind::H);
    assert_eq!(circuit.operations[0].qubits, vec![0]);
    assert_eq!(circuit.operations[1].kind, GateKind::Cx);
    assert_eq!(circuit.operations[1].qubits, vec![0, 1]);
}

#[test]
fn parameterized_gate_qasm2() {
    let source = "OPENQASM 2.0;\nqreg q[1];\nrz(pi/2) q[0];\n";
    let circuit = parse_qasm2(source).unwrap();
    assert_eq!(circuit.operations.len(), 1);
    assert_eq!(circuit.operations[0].kind, GateKind::Rz);
    let expected = std::f64::consts::FRAC_PI_2;
    assert!((param(&circuit, 0, 0) - expected).abs() < 1e-10);
}

#[test]
fn whole_register_single_qubit_gate() {
    let source = "OPENQASM 2.0;\nqreg q[3];\nh q;\n";
    let circuit = parse_qasm2(source).unwrap();
    assert_eq!(circuit.num_qubits(), 3);
    assert_eq!(circuit.operations.len(), 3);
    for (i, op) in circuit.operations.iter().enumerate() {
        assert_eq!(op.kind, GateKind::H);
        assert_eq!(op.qubits, vec![i]);
    }
}

#[test]
fn whole_register_two_qubit_gate() {
    let source = "OPENQASM 2.0;\nqreg q[2];\nqreg r[2];\ncx q,r;\n";
    let circuit = parse_qasm2(source).unwrap();
    assert_eq!(circuit.num_qubits(), 4);
    assert_eq!(circuit.operations.len(), 2);
    assert_eq!(circuit.operations[0].qubits, vec![0, 2]);
    assert_eq!(circuit.operations[1].qubits, vec![1, 3]);
}

#[test]
fn u2_gate_rewrites_to_u_qasm2() {
    let source = "OPENQASM 2.0;\nqreg q[1];\nu2(0,pi) q[0];\n";
    let circuit = parse_qasm2(source).unwrap();
    assert_eq!(circuit.operations.len(), 1);
    let op = &circuit.operations[0];
    assert_eq!(op.kind, GateKind::U);
    assert_eq!(op.params.len(), 3);
    assert!((param(&circuit, 0, 0) - std::f64::consts::FRAC_PI_2).abs() < 1e-10);
    assert!((param(&circuit, 0, 1) - 0.0).abs() < 1e-10);
    assert!((param(&circuit, 0, 2) - std::f64::consts::PI).abs() < 1e-10);
}

#[test]
fn custom_gate_no_params_inlined() {
    let source = r#"
OPENQASM 2.0;
gate ccz a, b, c {
    h c;
    ccx a, b, c;
    h c;
}
qreg q[3];
ccz q[0], q[1], q[2];
"#;
    let circuit = parse_qasm2(source).unwrap();
    assert_eq!(circuit.num_qubits(), 3);
    assert_eq!(circuit.operations.len(), 3);
    assert_eq!(circuit.operations[0].kind, GateKind::H);
    assert_eq!(circuit.operations[0].qubits, vec![2]);
    assert_eq!(circuit.operations[1].kind, GateKind::Ccx);
    assert_eq!(circuit.operations[1].qubits, vec![0, 1, 2]);
    assert_eq!(circuit.operations[2].kind, GateKind::H);
    assert_eq!(circuit.operations[2].qubits, vec![2]);
}

#[test]
fn custom_gate_with_params_inlined() {
    let source = r#"
OPENQASM 2.0;
gate rzz(theta) a, b {
    cx a, b;
    rz(theta) b;
    cx a, b;
}
qreg q[2];
rzz(pi/4) q[0], q[1];
"#;
    let circuit = parse_qasm2(source).unwrap();
    assert_eq!(circuit.operations.len(), 3);
    assert_eq!(circuit.operations[0].kind, GateKind::Cx);
    assert_eq!(circuit.operations[1].kind, GateKind::Rz);
    assert!((param(&circuit, 1, 0) - std::f64::consts::FRAC_PI_4).abs() < 1e-10);
    assert_eq!(circuit.operations[2].kind, GateKind::Cx);
}

#[test]
fn nested_custom_gate_inlined() {
    let source = r#"
OPENQASM 2.0;
gate my_cx a, b {
    cx a, b;
}
gate my_bell a, b {
    h a;
    my_cx a, b;
}
qreg q[2];
my_bell q[0], q[1];
"#;
    let circuit = parse_qasm2(source).unwrap();
    assert_eq!(circuit.operations.len(), 2);
    assert_eq!(circuit.operations[0].kind, GateKind::H);
    assert_eq!(circuit.operations[1].kind, GateKind::Cx);
}

#[test]
fn custom_gate_called_twice_independent() {
    let source = r#"
OPENQASM 2.0;
gate ccz a, b, c { h c; ccx a,b,c; h c; }
qreg q[3];
qreg r[3];
ccz q[0], q[1], q[2];
ccz r[0], r[1], r[2];
"#;
    let circuit = parse_qasm2(source).unwrap();
    assert_eq!(circuit.num_qubits(), 6);
    assert_eq!(circuit.operations.len(), 6);
    assert_eq!(circuit.operations[3].qubits, vec![5]);
    assert_eq!(circuit.operations[4].qubits, vec![3, 4, 5]);
}

// ── Further cases ────────────────────────────────────────────────────────────

#[test]
fn provenance_is_recorded_for_qasm2() {
    let circuit = parse_qasm2("OPENQASM 2.0;\nqreg q[1];\nU(0,0,0) q[0];\n").unwrap();
    let op = &circuit.operations[0];
    assert_eq!(op.kind, GateKind::U);
    assert_eq!(op.source_framework.as_deref(), Some("openqasm2"));
    assert_eq!(op.original_gate_name.as_deref(), Some("U"));
}

#[test]
fn undeclared_register_is_reported() {
    let err = parse_qasm2("OPENQASM 2.0;\nqreg q[1];\nh r[0];\n").unwrap_err();
    assert_eq!(err, ParseError::UndeclaredQubit("r".to_string()));
    let err = parse_qasm2("OPENQASM 2.0;\nqreg q[2];\nh q[5];\n").unwrap_err();
    assert_eq!(err, ParseError::UndeclaredQubit("q[5]".to_string()));
}

#[test]
fn unknown_gate_is_reported() {
    let err = parse_qasm2("OPENQASM 2.0;\nqreg q[1];\nfoo q[0];\n").unwrap_err();
    assert_eq!(err, ParseError::UnknownGate("foo".to_string()));
}

#[test]
fn register_size_mismatch_is_reported() {
    let err = parse_qasm2("OPENQASM 2.0;\nqreg q[2];\nqreg r[3];\ncx q,r;\n").unwrap_err();
    assert_eq!(
        err,
        ParseError::SyntaxError("register size mismatch in gate 'cx'".to_string())
    );
}

#[test]
fn single_qubit_argument_repeats_across_a_register() {
    let circuit = parse_qasm2("OPENQASM 2.0;\nqreg q[1];\nqreg r[3];\ncx q[0],r;\n").unwrap();
    assert_eq!(circuit.operations.len(), 3);
    assert_eq!(circuit.operations[0].qubits, vec![0, 1]);
    assert_eq!(circuit.operations[2].qubits, vec![0, 3]);
}

#[test]
fn user_gate_arity_is_checked() {
    let source = "OPENQASM 2.0;\ngate g a, b { cx a, b; }\nqreg q[3];\ng q[0], q[1], q[2];\n";
    let err = parse_qasm2(source).unwrap_err();
    assert_eq!(
        err,
        ParseError::SyntaxError("gate 'g' expects 2 qubits, got 3".to_string())
    );
    let source = "OPENQASM 2.0;\ngate g(t) a { rz(t) a; }\nqreg q[1];\ng(1,2) q[0];\n";
    let err = parse_qasm2(source).unwrap_err();
    assert_eq!(
        err,
        ParseError::SyntaxError("gate 'g' expects 1 params, got 2".to_string())
    );
}

#[test]
fn self_recursive_gate_hits_the_depth_limit() {
    let source = "OPENQASM 2.0;\ngate rec a { rec a; }\nqreg q[1];\nrec q[0];\n";
    let err = parse_qasm2(source).unwrap_err();
    assert_eq!(
        err,
        ParseError::SyntaxError("gate inline depth limit (32) exceeded at 'rec'".to_string())
    );
}

#[test]
fn invalid_parameter_is_reported() {
    let err = parse_qasm2("OPENQASM 2.0;\nqreg q[1];\nrz(foo) q[0];\n").unwrap_err();
    assert!(matches!(err, ParseError::InvalidParam(ref e) if e.trim() == "foo"));
}

#[test]
fn malformed_operation_fails_validation() {
    let err = parse_qasm2("OPENQASM 2.0;\nqreg q[2];\nh q[0], q[1];\n").unwrap_err();
    assert_eq!(
        err,
        ParseError::SyntaxError(
            "WrongQubitCount { operation_index: 0, expected: 1, found: 2 }".to_string()
        )
    );
    let err = parse_qasm2("OPENQASM 2.0;\nqreg q[1];\nrx q[0];\n").unwrap_err();
    assert_eq!(
        err,
        ParseError::SyntaxError(
            "WrongParamCount { operation_index: 0, expected: 1, found: 0 }".to_string()
        )
    );
}

#[test]
fn registers_declared_later_are_laid_out_in_order() {
    let circuit = parse_qasm2("OPENQASM 2.0;\nqreg a[2];\nh b[1];\nqreg b[2];\n").unwrap();
    assert_eq!(circuit.num_qubits(), 4);
    assert_eq!(circuit.operations[0].qubits, vec![3]);
}

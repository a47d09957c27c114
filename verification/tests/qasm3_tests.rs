use cleitonforge::error::ParseError;
use cleitonforge::qasm3::{
    circuit_from_qasm3, is_qasm3_source, Qasm3Call, Qasm3GateDef, Qasm3Index, Qasm3Operand, Qasm3Stmt,
};
use cleitonforge::{Circuit, GateKind};
use oq3_semantics::asg::{self, ArithOp, BinaryOp, Expr, Literal, TExpr, UnaryOp};
use oq3_semantics::symbols::{SymbolId, SymbolTable, SymbolType};
use oq3_semantics::syntax_to_semantics::parse_source_string;
use oq3_semantics::types::Type;

fn sym_number(id: &SymbolId) -> usize {
    let text = format!("{id:?}");
    text.trim_start_matches("SymbolId(").trim_end_matches(')').parse().unwrap()
}

fn index_of(indexes: &[asg::IndexOperator]) -> Qasm3Index {
    match indexes.first() {
        None => Qasm3Index::Missing,
        Some(asg::IndexOperator::ExpressionList(el)) => match el.expressions.first() {
            None => Qasm3Index::Empty,
            Some(t) => match t.expression() {
                Expr::Literal(Literal::Int(il)) => Qasm3Index::Int(*il.value() as usize),
                other => Qasm3Index::NonInteger(format!("{other:?}")),
            },
        },
        Some(asg::IndexOperator::SetExpression(_)) => Qasm3Index::SetExpression,
    }
}

fn operand_of(texpr: &TExpr) -> Qasm3Operand {
    match texpr.expression() {
        Expr::GateOperand(go) => match go {
            asg::GateOperand::Identifier(r) => Qasm3Operand::Identifier(r.as_ref().ok().map(sym_number)),
            asg::GateOperand::IndexedIdentifier(ii) => Qasm3Operand::Indexed(
                ii.identifier().as_ref().ok().map(sym_number),
                index_of(ii.indexes()),
            ),
            asg::GateOperand::HardwareQubit(hq) => Qasm3Operand::Hardware(hq.identifier().to_string()),
        },
        other => Qasm3Operand::NotOperand(format!("{other:?}")),
    }
}

fn call_of(gc: &asg::GateCall, table: &SymbolTable) -> Option<Qasm3Call<TExpr>> {
    let id = gc.name().as_ref().ok()?;
    Some(Qasm3Call {
        name: table[id].name().to_string(),
        operands: gc.qubits().iter().map(operand_of).collect(),
        params: gc.params().map(|p| p.to_vec()).unwrap_or_default(),
    })
}

fn stmt_of(stmt: &asg::Stmt, table: &SymbolTable) -> Qasm3Stmt<TExpr> {
    match stmt {
        asg::Stmt::DeclareQuantum(dq) => {
            let Ok(id) = dq.name() else { return Qasm3Stmt::Other };
            let sym = &table[id];
            let width = match sym.symbol_type() {
                Type::Qubit => 1,
                Type::QubitArray(dims) => dims.dims()[0],
                _ => return Qasm3Stmt::Other,
            };
            Qasm3Stmt::Qubits(sym_number(id), sym.name().to_string(), width)
        }
        asg::Stmt::GateCall(gc) => match call_of(gc, table) {
            Some(c) => Qasm3Stmt::Call(c),
            None => Qasm3Stmt::Other,
        },
        asg::Stmt::GateDefinition(gd) => {
            let Ok(id) = gd.name() else { return Qasm3Stmt::Other };
            Qasm3Stmt::Gate(Qasm3GateDef {
                name: table[id].name().to_string(),
                qubits: gd.qubits().iter().filter_map(|r| r.as_ref().ok().map(sym_number)).collect(),
                angles: gd
                    .params()
                    .map(|ps| ps.iter().filter_map(|r| r.as_ref().ok().map(sym_number)).collect())
                    .unwrap_or_default(),
                body: gd
                    .block()
                    .statements()
                    .iter()
                    .filter_map(|s| match s {
                        asg::Stmt::GateCall(gc) => call_of(gc, table),
                        _ => None,
                    })
                    .collect(),
            })
        }
        _ => Qasm3Stmt::Other,
    }
}

fn builtin_const(name: &str) -> Option<f64> {
    match name {
        "pi" => Some(std::f64::consts::PI),
        "euler" | "e" => Some(std::f64::consts::E),
        "tau" => Some(std::f64::consts::TAU),
        _ => None,
    }
}

fn eval_texpr(texpr: &TExpr, table: &SymbolTable, b: &[(usize, u64)]) -> Result<f64, ParseError> {
    match texpr.expression() {
        Expr::Literal(Literal::Float(fl)) => fl
            .value()
            .parse::<f64>()
            .map_err(|_| ParseError::InvalidParam(fl.value().to_string())),
        Expr::Literal(Literal::Int(il)) => Ok(*il.value() as f64),
        Expr::Identifier(r) => {
            let id = r.as_ref().map_err(|_| ParseError::InvalidParam("<error sym>".to_string()))?;
            if let Some((_, v)) = b.iter().rev().find(|(s, _)| *s == sym_number(id)) {
                return Ok(f64::from_bits(*v));
            }
            let name = table[id].name();
            builtin_const(name).ok_or_else(|| ParseError::InvalidParam(name.to_string()))
        }
        Expr::UnaryExpr(ue) => {
            let operand = eval_texpr(ue.operand(), table, b)?;
            Ok(match ue.op() {
                UnaryOp::Minus => -operand,
                _ => operand,
            })
        }
        Expr::Cast(cast) => eval_texpr(cast.operand(), table, b),
        Expr::BinaryExpr(be) => {
            let left = eval_texpr(be.left(), table, b)?;
            let right = eval_texpr(be.right(), table, b)?;
            match be.op() {
                BinaryOp::ArithOp(ArithOp::Add) => Ok(left + right),
                BinaryOp::ArithOp(ArithOp::Sub) => Ok(left - right),
                BinaryOp::ArithOp(ArithOp::Mul) => Ok(left * right),
                BinaryOp::ArithOp(ArithOp::Div) => Ok(left / right),
                other => Err(ParseError::InvalidParam(format!(
                    "unsupported binary op in parameter: {other:?}"
                ))),
            }
        }
        other => Err(ParseError::InvalidParam(format!("unsupported param expression: {other:?}"))),
    }
}

fn parse_qasm3(source: &str) -> Result<Circuit, ParseError> {
    let result = parse_source_string(source, None, None::<&[&std::path::Path]>);
    if result.any_syntax_errors() {
        return Err(ParseError::SyntaxError(
            "OpenQASM 3 syntax error (run with verbose diagnostics for details)".to_string(),
        ));
    }
    let (program, sem_errors, table) = result.take_context().as_tuple();
    if !sem_errors.is_empty() {
        return Err(ParseError::SyntaxError(format!(
            "{} semantic error(s) in OpenQASM 3 source",
            sem_errors.len()
        )));
    }
    let stmts: Vec<Qasm3Stmt<TExpr>> = program.stmts().iter().map(|s| stmt_of(s, &table)).collect();
    let eval = |e: &TExpr, b: &Vec<(usize, u64)>| eval_texpr(e, &table, b).map(f64::to_bits);
    circuit_from_qasm3(&stmts, &eval)
}

fn param(c: &Circuit, op: usize, k: usize) -> f64 {
    f64::from_bits(c.operations[op].params[k])
}

const BELL_QASM3: &str = r#"
OPENQASM 3.0;
include "stdgates.inc";
qubit[2] q;
h q[0];
cx q[0], q[1];
"#;

#[test]
fn bell_state_qasm3() {
    let circuit = parse_qasm3(BELL_QASM3).unwrap();
    assert_eq!(circuit.num_qubits(), 2);
    assert_eq!(circuit.operations.len(), 2);
    assert_eq!(circuit.operations[0].kind, GateKind::H);
    assert_eq!(circuit.operations[0].qubits, vec![0]);
    assert_eq!(circuit.operations[1].kind, GateKind::Cx);
    assert_eq!(circuit.operations[1].qubits, vec![0, 1]);
}

#[test]
fn provenance_metadata_is_qasm3() {
    let circuit = parse_qasm3(BELL_QASM3).unwrap();
    for op in &circuit.operations {
        assert_eq!(op.source_framework.as_deref(), Some("openqasm3"));
    }
}

#[test]
fn u2_gate_rewrites_to_u_qasm3() {
    let source = r#"
OPENQASM 3.0;
include "stdgates.inc";
qubit[1] q;
u2(0, pi) q[0];
"#;
    match parse_qasm3(source) {
        Ok(circuit) => {
            let op = &circuit.operations[0];
            assert_eq!(op.kind, GateKind::U);
            assert_eq!(op.params.len(), 3);
            assert!((param(&circuit, 0, 0) - std::f64::consts::FRAC_PI_2).abs() < 1e-10);
        }
        Err(_) => {
            // u2 is not among the standard gates of OpenQASM 3; rejecting it is acceptable.
        }
    }
}

#[test]
fn three_qubit_two_registers_qasm3() {
    let source = r#"
OPENQASM 3.0;
include "stdgates.inc";
qubit[2] q;
qubit[1] a;
h q[0];
cx q[0], q[1];
x a[0];
"#;
    let circuit = parse_qasm3(source).unwrap();
    assert_eq!(circuit.num_qubits(), 3);
    assert_eq!(circuit.operations.len(), 3);
    assert_eq!(circuit.operations[2].kind, GateKind::X);
    assert_eq!(circuit.operations[2].qubits, vec![2]);
}

#[test]
fn custom_gate_no_params_qasm3() {
    let source = r#"
OPENQASM 3.0;
include "stdgates.inc";
gate ccz a, b, c {
    h c;
    ccx a, b, c;
    h c;
}
qubit[3] q;
ccz q[0], q[1], q[2];
"#;
    let circuit = parse_qasm3(source).unwrap();
    assert_eq!(circuit.operations.len(), 3);
    assert_eq!(circuit.operations[0].kind, GateKind::H);
    assert_eq!(circuit.operations[0].qubits, vec![2]);
    assert_eq!(circuit.operations[1].kind, GateKind::Ccx);
    assert_eq!(circuit.operations[2].kind, GateKind::H);
    assert_eq!(circuit.operations[2].qubits, vec![2]);
}

#[test]
fn custom_gate_with_params_qasm3() {
    let source = r#"
OPENQASM 3.0;
include "stdgates.inc";
gate rzz(theta) a, b {
    cx a, b;
    rz(theta) b;
    cx a, b;
}
qubit[2] q;
rzz(pi/4) q[0], q[1];
"#;
    let circuit = parse_qasm3(source).unwrap();
    assert_eq!(circuit.operations.len(), 3);
    assert_eq!(circuit.operations[0].kind, GateKind::Cx);
    assert_eq!(circuit.operations[1].kind, GateKind::Rz);
    assert!((param(&circuit, 1, 0) - std::f64::consts::FRAC_PI_4).abs() < 1e-10);
    assert_eq!(circuit.operations[2].kind, GateKind::Cx);
}

#[test]
fn nested_custom_gate_qasm3() {
    let source = r#"
OPENQASM 3.0;
include "stdgates.inc";
gate my_cx a, b { cx a, b; }
gate my_bell a, b { h a; my_cx a, b; }
qubit[2] q;
my_bell q[0], q[1];
"#;
    let circuit = parse_qasm3(source).unwrap();
    assert_eq!(circuit.operations.len(), 2);
    assert_eq!(circuit.operations[0].kind, GateKind::H);
    assert_eq!(circuit.operations[1].kind, GateKind::Cx);
}

// ── Further cases, on statements built by hand ───────────────────────────────

fn no_params(_: &String, _: &Vec<(usize, u64)>) -> Result<u64, ParseError> {
    Err(ParseError::InvalidParam("none expected".to_string()))
}

fn call(name: &str, operands: Vec<Qasm3Operand>) -> Qasm3Call<String> {
    Qasm3Call { name: name.to_string(), operands, params: vec![] }
}

#[test]
fn qubits_are_named_after_their_registers() {
    let stmts = vec![
        Qasm3Stmt::Qubits(7, "q".to_string(), 2),
        Qasm3Stmt::Qubits(9, "anc".to_string(), 1),
        Qasm3Stmt::Call(call("x", vec![Qasm3Operand::Indexed(Some(9), Qasm3Index::Int(0))])),
    ];
    let c = circuit_from_qasm3(&stmts, &no_params).unwrap();
    let names: Vec<Option<String>> = c.qubits.iter().map(|q| q.name.clone()).collect();
    assert_eq!(
        names,
        vec![Some("q[0]".to_string()), Some("q[1]".to_string()), Some("anc[0]".to_string())]
    );
    assert_eq!(c.operations[0].qubits, vec![2]);
}

#[test]
fn operand_errors_are_reported() {
    let stmts = vec![
        Qasm3Stmt::Qubits(1, "q".to_string(), 2),
        Qasm3Stmt::Call(call("h", vec![Qasm3Operand::Identifier(Some(4))])),
    ];
    assert_eq!(
        circuit_from_qasm3(&stmts, &no_params).unwrap_err(),
        ParseError::UndeclaredQubit("SymbolId(4)".to_string())
    );
    let stmts = vec![
        Qasm3Stmt::Qubits(1, "q".to_string(), 2),
        Qasm3Stmt::Call(call("h", vec![Qasm3Operand::Hardware("$0".to_string())])),
    ];
    assert_eq!(
        circuit_from_qasm3(&stmts, &no_params).unwrap_err(),
        ParseError::SyntaxError(
            "hardware qubit '$0' not supported in circuit translation".to_string()
        )
    );
    let stmts = vec![
        Qasm3Stmt::Qubits(1, "q".to_string(), 2),
        Qasm3Stmt::Call(call("h", vec![Qasm3Operand::Indexed(Some(1), Qasm3Index::SetExpression)])),
    ];
    assert_eq!(
        circuit_from_qasm3(&stmts, &no_params).unwrap_err(),
        ParseError::SyntaxError("set-expression qubit indexing is not supported".to_string())
    );
}

#[test]
fn out_of_range_index_fails_validation() {
    let stmts = vec![
        Qasm3Stmt::Qubits(1, "q".to_string(), 2),
        Qasm3Stmt::Call(call("h", vec![Qasm3Operand::Indexed(Some(1), Qasm3Index::Int(5))])),
    ];
    assert_eq!(
        circuit_from_qasm3(&stmts, &no_params).unwrap_err(),
        ParseError::SyntaxError("QubitOutOfRange { operation_index: 0, qubit: 5 }".to_string())
    );
}

#[test]
fn body_operand_errors_are_reported() {
    let def = Qasm3GateDef {
        name: "g".to_string(),
        qubits: vec![3],
        angles: vec![],
        body: vec![call("h", vec![Qasm3Operand::Identifier(Some(8))])],
    };
    let stmts = vec![
        Qasm3Stmt::Gate(def),
        Qasm3Stmt::Qubits(1, "q".to_string(), 1),
        Qasm3Stmt::Call(call("g", vec![Qasm3Operand::Indexed(Some(1), Qasm3Index::Int(0))])),
    ];
    assert_eq!(
        circuit_from_qasm3(&stmts, &no_params).unwrap_err(),
        ParseError::UndeclaredQubit("SymbolId(8)".to_string())
    );
}

#[test]
fn source_version_is_recognised() {
    assert!(is_qasm3_source(BELL_QASM3));
    assert!(is_qasm3_source("OPENQASM 3.0;"));
    assert!(is_qasm3_source(" \t\u{3000}OPENQASM 3;"));
    assert!(!is_qasm3_source("OPENQASM 2.0;\nqreg q[1];"));
    assert!(!is_qasm3_source("// OPENQASM 3.0;"));
    assert!(!is_qasm3_source("OPENQASM"));
    assert!(!is_qasm3_source(""));
}

#[test]
fn whole_register_calls_expand_qasm3() {
    let source = r#"
OPENQASM 3.0;
include "stdgates.inc";
qubit[3] q;
h q;
"#;
    let c = parse_qasm3(source).unwrap();
    assert_eq!(c.operations.len(), 3);
    for (i, op) in c.operations.iter().enumerate() {
        assert_eq!(op.kind, GateKind::H);
        assert_eq!(op.qubits, vec![i]);
    }
}

#[test]
fn registers_of_one_width_pair_up_qasm3() {
    let source = r#"
OPENQASM 3.0;
include "stdgates.inc";
qubit[2] a;
qubit[2] b;
qubit[1] c;
cx a, b;
cx c[0], a;
"#;
    let c = parse_qasm3(source).unwrap();
    let pairs: Vec<Vec<usize>> = c.operations.iter().map(|o| o.qubits.clone()).collect();
    assert_eq!(pairs, vec![vec![0, 2], vec![1, 3], vec![4, 0], vec![4, 1]]);
}

#[test]
fn registers_of_different_widths_are_refused_qasm3() {
    let stmts = vec![
        Qasm3Stmt::Qubits(1, "a".to_string(), 2),
        Qasm3Stmt::Qubits(2, "b".to_string(), 3),
        Qasm3Stmt::Call(call(
            "cx",
            vec![Qasm3Operand::Identifier(Some(1)), Qasm3Operand::Identifier(Some(2))],
        )),
    ];
    assert_eq!(
        circuit_from_qasm3(&stmts, &no_params).unwrap_err(),
        ParseError::SyntaxError("register size mismatch in gate 'cx'".to_string())
    );
}

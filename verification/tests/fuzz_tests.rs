use cleitonforge::gate::GateKind;
use cleitonforge::generator::{
    eligible_table, pick_by_roll, random_gate_shape, take_operands, weight_table,
};
use cleitonforge::ir::{Circuit, Operation};
use cleitonforge::mirror::inverse_circuit;
use cleitonforge::sample::{bitstring, parse_bitstring, BitstringError, Lcg64};
use cleitonforge::triage::{classify, visibility_label, BugClass};
use cleitonforge::error::ParseError;
use rand::rngs::StdRng;
use rand::{Rng, SeedableRng};
use std::f64::consts::PI;

fn random_circuit(rng: &mut StdRng, num_qubits: usize, depth: usize) -> Circuit {
    let mut c = Circuit::new(num_qubits);
    for _ in 0..depth {
        let (gate, qubits) = random_gate_shape(rng, num_qubits);
        let params: Vec<u64> =
            (0..gate.num_params()).map(|_| rng.gen_range(-PI..PI).to_bits()).collect();
        c.push(Operation::new(gate, qubits, params));
    }
    c
}

#[test]
fn generated_circuits_are_valid() {
    let mut rng = StdRng::seed_from_u64(5);
    for _ in 0..500 {
        let c = random_circuit(&mut rng, 3, 10);
        assert_eq!(c.validate(), Ok(()));
        assert_eq!(c.operations.len(), 10);
    }
}

#[test]
fn single_qubit_circuits_only_use_single_qubit_gates() {
    let mut rng = StdRng::seed_from_u64(9);
    for _ in 0..200 {
        let c = random_circuit(&mut rng, 1, 6);
        assert_eq!(c.validate(), Ok(()));
    }
}

#[test]
fn generation_is_deterministic_in_seed() {
    let a = random_circuit(&mut StdRng::seed_from_u64(77), 3, 8);
    let b = random_circuit(&mut StdRng::seed_from_u64(77), 3, 8);
    assert_eq!(a.operations, b.operations);
}

fn every_kind_circuit() -> Circuit {
    let mut c = Circuit::new(3);
    let ops: Vec<(GateKind, Vec<usize>, Vec<f64>)> = vec![
        (GateKind::H, vec![0], vec![]),
        (GateKind::S, vec![1], vec![]),
        (GateKind::Tdg, vec![1], vec![]),
        (GateKind::Sx, vec![2], vec![]),
        (GateKind::Rx, vec![1], vec![0.3]),
        (GateKind::U, vec![2], vec![0.4, 0.8, 1.2]),
        (GateKind::Csx, vec![1, 0], vec![]),
        (GateKind::Cu, vec![0, 1], vec![0.5, 0.6, 0.7, 0.8]),
        (GateKind::Cswap, vec![2, 0, 1], vec![]),
    ];
    for (kind, qubits, params) in ops {
        c.push(Operation::new(kind, qubits, params.iter().map(|p| p.to_bits()).collect()));
    }
    c
}

#[test]
fn inverse_reverses_and_takes_adjoints() {
    let c = every_kind_circuit();
    let inv = inverse_circuit(&c);
    let kinds: Vec<GateKind> = inv.operations.iter().map(|o| o.kind).collect();
    assert_eq!(
        kinds,
        vec![
            GateKind::Cswap,
            GateKind::Cu,
            GateKind::Csx,
            GateKind::Csx,
            GateKind::Csx,
            GateKind::U,
            GateKind::Rx,
            GateKind::Sxdg,
            GateKind::T,
            GateKind::Sdg,
            GateKind::H,
        ]
    );
    let u = &inv.operations[5];
    let p: Vec<f64> = u.params.iter().map(|b| f64::from_bits(*b)).collect();
    assert_eq!(p, vec![-0.4, -1.2, -0.8]);
    let cu = &inv.operations[1];
    let p: Vec<f64> = cu.params.iter().map(|b| f64::from_bits(*b)).collect();
    assert_eq!(p, vec![-0.5, -0.7, -0.6, -0.8]);
    assert_eq!(inv.operations[2].qubits, vec![1, 0]);
    assert_eq!(inv.num_qubits(), 3);
}

#[test]
fn inverting_twice_restores_a_csx_free_circuit() {
    let mut c = Circuit::new(2);
    c.push(Operation::new(GateKind::U, vec![0], vec![1.0f64.to_bits(), 2.0f64.to_bits(), 3.0f64.to_bits()]));
    c.push(Operation::new(GateKind::T, vec![1], vec![]));
    c.push(Operation::new(GateKind::Cp, vec![0, 1], vec![0.25f64.to_bits()]));
    let back = inverse_circuit(&inverse_circuit(&c));
    assert_eq!(back.operations, c.operations);
}

#[test]
fn lcg_stream_is_deterministic() {
    let mut a = Lcg64::new(0);
    assert_eq!(a.next_u64(), 1_442_695_040_888_963_407);
    let second = 1_442_695_040_888_963_407u64
        .wrapping_mul(6_364_136_223_846_793_005)
        .wrapping_add(1_442_695_040_888_963_407);
    assert_eq!(a.next_u64(), second);
    let mut b = Lcg64::new(0);
    b.next_u64();
    assert_eq!(b.next_u64(), second);
}

#[test]
fn bitstrings_are_msb_first_and_padded() {
    assert_eq!(bitstring(0, 2), "00");
    assert_eq!(bitstring(3, 2), "11");
    assert_eq!(bitstring(1, 3), "001");
    assert_eq!(bitstring(5, 3), "101");
    assert_eq!(bitstring(5, 1), "101");
    assert_eq!(bitstring(0, 0), "0");
    assert_eq!(bitstring(6, 5), format!("{:0>width$b}", 6, width = 5));
}

#[test]
fn bitstrings_read_back_to_their_index() {
    for width in 0..6usize {
        for v in 0..40usize {
            assert_eq!(parse_bitstring(&bitstring(v, width)), Ok(v));
        }
    }
    assert_eq!(parse_bitstring("101"), Ok(5));
    assert_eq!(parse_bitstring("+101"), Ok(5));
    assert_eq!(parse_bitstring("0001"), Ok(1));
}

#[test]
fn malformed_bitstrings_are_refused_as_std_refuses_them() {
    let mut cases: Vec<String> = ["", "+", "12", "1-0", "++1", " 1", "+0", "0"]
        .iter()
        .map(|c| c.to_string())
        .collect();
    cases.push("1".repeat(usize::BITS as usize));
    cases.push("1".repeat(usize::BITS as usize + 1));
    for s in &cases {
        let s = s.as_str();
        let std_kind = usize::from_str_radix(s, 2).map_err(|e| e.kind().clone());
        let ours = parse_bitstring(s);
        match (std_kind, ours) {
            (Ok(a), Ok(b)) => assert_eq!(a, b),
            (Err(k), Err(e)) => {
                let expected = match k {
                    std::num::IntErrorKind::Empty => BitstringError::Empty,
                    std::num::IntErrorKind::InvalidDigit => BitstringError::InvalidDigit,
                    std::num::IntErrorKind::PosOverflow => BitstringError::PosOverflow,
                    other => panic!("unexpected kind {other:?}"),
                };
                assert_eq!(e, expected, "input {s:?}");
            }
            (a, b) => panic!("input {s:?}: std {a:?}, library {b:?}"),
        }
    }
    assert_eq!(parse_bitstring(""), Err(BitstringError::Empty));
    assert_eq!(parse_bitstring("+"), Err(BitstringError::InvalidDigit));
    assert_eq!(parse_bitstring("12"), Err(BitstringError::InvalidDigit));
    let too_long = format!("1{}", "0".repeat(usize::BITS as usize));
    assert_eq!(parse_bitstring(&too_long), Err(BitstringError::PosOverflow));
    // the overflow is reported before a later bad character
    let overflow_then_bad = format!("{}x", too_long);
    assert_eq!(parse_bitstring(&overflow_then_bad), Err(BitstringError::PosOverflow));
    assert_eq!(
        usize::from_str_radix(&overflow_then_bad, 2).unwrap_err().kind(),
        &std::num::IntErrorKind::PosOverflow
    );
}

#[test]
fn triage_classes_follow_gate_content() {
    let mut c = Circuit::new(1);
    c.push(Operation::new(GateKind::H, vec![0], vec![]));
    c.push(Operation::new(GateKind::Rz, vec![0], vec![0.5f64.to_bits()]));
    assert_eq!(classify(&c), BugClass::RotationConvention);

    let mut d = Circuit::new(2);
    d.push(Operation::new(GateKind::H, vec![0], vec![]));
    d.push(Operation::new(GateKind::Csx, vec![0, 1], vec![]));
    assert_eq!(classify(&d), BugClass::DiscretePhaseGate);

    let mut e = Circuit::new(2);
    e.push(Operation::new(GateKind::H, vec![0], vec![]));
    e.push(Operation::new(GateKind::Cx, vec![0, 1], vec![]));
    assert_eq!(classify(&e), BugClass::MultiQubitConvention);

    let mut f = Circuit::new(2);
    f.push(Operation::new(GateKind::X, vec![0], vec![]));
    assert_eq!(classify(&f), BugClass::Unclassified);
    assert_eq!(BugClass::Unclassified.label(), "unclassified");
    assert!(visibility_label(false).starts_with("INVISIBLE"));
    assert!(visibility_label(true).starts_with("visible"));
}

#[test]
fn parse_error_messages() {
    assert_eq!(ParseError::UnknownGate("foo".to_string()).describe(), "unknown gate: foo");
    assert_eq!(ParseError::SyntaxError("x".to_string()).describe(), "syntax error: x");
}

#[test]
fn eligible_tables_keep_the_gates_that_fit() {
    let (all, total) = eligible_table(3);
    assert_eq!(all, weight_table());
    assert_eq!(total, 77);
    let (single, total1) = eligible_table(1);
    assert!(single.iter().all(|(k, _)| k.num_qubits() == 1));
    assert_eq!(single.len(), 15);
    assert_eq!(total1, 53);
    let (two, total2) = eligible_table(2);
    assert!(two.iter().all(|(k, _)| k.num_qubits() <= 2));
    assert_eq!(total2, 75);
}

#[test]
fn each_gate_is_picked_by_as_many_rolls_as_it_weighs() {
    let (table, total) = eligible_table(3);
    assert_eq!(pick_by_roll(&table, 0), GateKind::Rz);
    assert_eq!(pick_by_roll(&table, 4), GateKind::Rz);
    assert_eq!(pick_by_roll(&table, 5), GateKind::Phase);
    assert_eq!(pick_by_roll(&table, total - 1), GateKind::Cswap);
    for (kind, weight) in &table {
        let rolls = (0..total).filter(|r| pick_by_roll(&table, *r) == *kind).count();
        assert_eq!(rolls as u32, *weight, "{kind:?}");
    }
    let weight_of = |k: GateKind| table.iter().find(|(g, _)| *g == k).unwrap().1;
    assert_eq!(weight_of(GateKind::Rz), 5 * weight_of(GateKind::X));
    assert_eq!(weight_of(GateKind::S), 5 * weight_of(GateKind::Z));
}

#[test]
fn operands_are_taken_without_replacement() {
    assert_eq!(take_operands(4, &vec![1, 1, 0]), vec![1, 2, 0]);
    assert_eq!(take_operands(3, &vec![2, 1, 0]), vec![2, 1, 0]);
    assert_eq!(take_operands(3, &vec![0, 0, 0]), vec![0, 1, 2]);
    assert_eq!(take_operands(5, &vec![]), Vec::<usize>::new());
}

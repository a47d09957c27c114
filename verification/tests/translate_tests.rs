use cleitonforge::gate::GateKind;
use cleitonforge::translate::{gate_kind_from_name, translate_gate, FRAC_PI_2_BITS};
use std::f64::consts::FRAC_PI_2;

fn angle(x: f64) -> u64 {
    x.to_bits()
}

#[test]
fn u2_rewrites_to_u_with_pi_over_2() {
    let (kind, params) = translate_gate("u2", vec![angle(0.5), angle(1.0)]).unwrap();
    assert_eq!(kind, GateKind::U);
    assert_eq!(params.len(), 3);
    assert!((f64::from_bits(params[0]) - FRAC_PI_2).abs() < 1e-15);
    assert_eq!(f64::from_bits(params[1]), 0.5);
    assert_eq!(f64::from_bits(params[2]), 1.0);
}

#[test]
fn u2_uppercase_also_works() {
    let (kind, _) = translate_gate("U2", vec![angle(0.0), angle(0.0)]).unwrap();
    assert_eq!(kind, GateKind::U);
}

#[test]
fn direct_gates_pass_params_unchanged() {
    let (kind, params) = translate_gate("rx", vec![angle(1.5)]).unwrap();
    assert_eq!(kind, GateKind::Rx);
    assert_eq!(params, vec![angle(1.5)]);
}

#[test]
fn unknown_gate_returns_none() {
    assert!(translate_gate("fakegate", vec![]).is_none());
}

#[test]
fn pi_over_two_bits_are_exact() {
    assert_eq!(FRAC_PI_2_BITS, FRAC_PI_2.to_bits());
}

#[test]
fn aliases_and_case_are_accepted() {
    assert_eq!(gate_kind_from_name("CNOT"), Some(GateKind::Cx));
    assert_eq!(gate_kind_from_name("Toffoli"), Some(GateKind::Ccx));
    assert_eq!(gate_kind_from_name("fredkin"), Some(GateKind::Cswap));
    assert_eq!(gate_kind_from_name("u1"), Some(GateKind::Phase));
    assert_eq!(gate_kind_from_name("U3"), Some(GateKind::U));
    assert_eq!(gate_kind_from_name("I"), Some(GateKind::Id));
    assert_eq!(gate_kind_from_name("cphase"), Some(GateKind::Cp));
    assert_eq!(gate_kind_from_name("cu3"), Some(GateKind::Cu));
    assert_eq!(gate_kind_from_name("u2"), None);
    assert_eq!(gate_kind_from_name(""), None);
    assert_eq!(gate_kind_from_name("cx "), None);
    // The Kelvin sign lowercases to an ASCII 'k'.
    assert_eq!(gate_kind_from_name("FREDKIN"), Some(GateKind::Cswap));
    assert_eq!(gate_kind_from_name("FRED\u{212A}IN"), Some(GateKind::Cswap));
}

#[test]
fn every_kind_is_found_by_its_canonical_name() {
    let kinds = [
        GateKind::Id, GateKind::X, GateKind::Y, GateKind::Z, GateKind::H, GateKind::S,
        GateKind::Sdg, GateKind::T, GateKind::Tdg, GateKind::Sx, GateKind::Sxdg, GateKind::Rx,
        GateKind::Ry, GateKind::Rz, GateKind::Phase, GateKind::U, GateKind::Cx, GateKind::Cy,
        GateKind::Cz, GateKind::Ch, GateKind::Csx, GateKind::Crx, GateKind::Cry, GateKind::Crz,
        GateKind::Cp, GateKind::Cu, GateKind::Swap, GateKind::Ccx, GateKind::Cswap,
    ];
    for k in kinds {
        assert_eq!(gate_kind_from_name(k.qasm_name()), Some(k));
        assert_eq!(gate_kind_from_name(&k.qasm_name().to_uppercase()), Some(k));
    }
}

use cleitonforge::backends::{
    backend_choice, parse_backend_list, BackendChoice, BackendError, ConjugatedStateVectorBackend, ConjugationScope, NativeStateVectorBackend,
    Q1tSimBackend, QuantRS2Backend, RoqoqoBackend,
};
use cleitonforge::certify::{CheckResult, CheckStatus};
use cleitonforge::gate::GateKind;
use cleitonforge::oracle::OracleLevel;

#[test]
fn q1tsim_backend_name() {
    assert_eq!(Q1tSimBackend.name(), "statevector-q1tsim");
}

#[test]
fn roqoqo_backend_name() {
    assert_eq!(RoqoqoBackend.name(), "statevector-roqoqo");
}

#[test]
fn other_backend_names() {
    assert_eq!(NativeStateVectorBackend.name(), "statevector-native");
    assert_eq!(QuantRS2Backend.name(), "statevector-quantrs2");
    assert_eq!(
        ConjugatedStateVectorBackend::new(ConjugationScope::AllGates).name(),
        "statevector-conjugated"
    );
    assert_eq!(
        ConjugatedStateVectorBackend::new(ConjugationScope::RotationSignOnly).name(),
        "statevector-rz-sign-bug"
    );
}

#[test]
fn conjugation_scope_selects_gates() {
    let all = ConjugatedStateVectorBackend::new(ConjugationScope::AllGates);
    let rz = ConjugatedStateVectorBackend::new(ConjugationScope::RotationSignOnly);
    assert_eq!(rz.scope, ConjugationScope::RotationSignOnly);
    for k in [GateKind::H, GateKind::S, GateKind::Cx, GateKind::Rx] {
        assert!(all.conjugates(k));
        assert!(!rz.conjugates(k));
    }
    for k in [GateKind::Rz, GateKind::Crz, GateKind::Phase, GateKind::Cp] {
        assert!(all.conjugates(k));
        assert!(rz.conjugates(k));
    }
}

#[test]
fn backend_error_message() {
    let e = BackendError("operation 3: bad".to_string());
    assert_eq!(e.describe(), "backend error: operation 3: bad");
}

#[test]
fn check_result_status_queries() {
    let pass = CheckResult { name: "a", dimension: "Rz sign", status: CheckStatus::Pass };
    let fail = CheckResult {
        name: "b",
        dimension: "T gate",
        status: CheckStatus::Fail { expected: "1".to_string(), got: "2".to_string() },
    };
    let skip = CheckResult {
        name: "c",
        dimension: "Endianness",
        status: CheckStatus::Skip { reason: "too short".to_string() },
    };
    assert!(pass.passed() && !pass.skipped());
    assert!(!fail.passed() && !fail.skipped());
    assert!(!skip.passed() && skip.skipped());
}

#[test]
fn oracle_labels() {
    assert_eq!(OracleLevel::Amplitude.label(), "N1-amplitude");
    assert_eq!(OracleLevel::Probability.label(), "N2-probability");
    assert_eq!(OracleLevel::Observable.label(), "N3-observable");
}

#[test]
fn backend_lists_are_read_by_name() {
    assert_eq!(
        parse_backend_list("statevector,quantrs2"),
        Ok(vec![BackendChoice::Native, BackendChoice::QuantRS2])
    );
    assert_eq!(
        parse_backend_list(" native ,\tquantrs2\n"),
        Ok(vec![BackendChoice::Native, BackendChoice::QuantRS2])
    );
    assert_eq!(parse_backend_list("quantrs2"), Ok(vec![BackendChoice::QuantRS2]));
    assert_eq!(parse_backend_list("statevector, qiskit ,x"), Err("qiskit".to_string()));
    assert_eq!(parse_backend_list("statevector,"), Err(String::new()));
    assert_eq!(parse_backend_list(""), Err(String::new()));
    assert_eq!(backend_choice("  statevector "), Some(BackendChoice::Native));
    assert_eq!(backend_choice("Statevector"), None);
}

//! Automatic classification of a minimized divergence.
//!
//! Triage answers the two questions a maintainer asks first: *what kind
//! of bug is this* (which QGCS dimension) and *could any standard
//! benchmark have caught it* (benchmark visibility). The oracle distances
//! that decide visibility are floating-point values computed outside this
//! crate; the classification by gate content is here.

use crate::gate::GateKind;
use crate::ir::{Circuit, OpView};
use vstd::prelude::*;

verus! {

/// Coarse bug classification aligned with QGCS dimensions.
#[derive(Debug, Clone, Copy, PartialEq, Eq, Structural)]
pub enum BugClass {
    /// Divergence in the diagonal rotation family (Rz/Phase/Crz/Cp):
    /// rotation sign or phase-placement convention.
    RotationConvention,
    /// Divergence involving discrete phase gates (S/T/Sx and daggers).
    DiscretePhaseGate,
    /// Divergence only visible with multi-qubit gates: entangler or
    /// qubit-ordering (endianness) convention.
    MultiQubitConvention,
    /// Anything else.
    Unclassified,
}

impl BugClass {
    /// Human-readable label of the class.
    pub fn label(&self) -> (s: &'static str)
        ensures
            s@ == (match *self {
                BugClass::RotationConvention => "rotation-convention (QGCS dim: Rz/Phase sign)"@,
                BugClass::DiscretePhaseGate => "discrete-phase-gate (QGCS dim: S/T/√X phase)"@,
                BugClass::MultiQubitConvention => "multi-qubit convention (QGCS dim: ordering)"@,
                BugClass::Unclassified => "unclassified"@,
            }),
    {
        match self {
            BugClass::RotationConvention => "rotation-convention (QGCS dim: Rz/Phase sign)",
            BugClass::DiscretePhaseGate => "discrete-phase-gate (QGCS dim: S/T/√X phase)",
            BugClass::MultiQubitConvention => "multi-qubit convention (QGCS dim: ordering)",
            BugClass::Unclassified => "unclassified",
        }
    }
}

/// A discrete phase gate: S, T, √X, their daggers, or controlled √X.
pub open spec fn is_discrete_phase(k: GateKind) -> bool {
    k == GateKind::S || k == GateKind::Sdg || k == GateKind::T || k == GateKind::Tdg || k
        == GateKind::Sx || k == GateKind::Sxdg || k == GateKind::Csx
}

/// The class of a minimal witness with operations `ops`: rotation family
/// first, then discrete phase gates, then circuits made only of
/// multi-qubit gates and `H`, and otherwise unclassified.
pub open spec fn class_of(ops: Seq<OpView>) -> BugClass {
    if exists|i: int| 0 <= i < ops.len() && (#[trigger] ops[i]).kind.is_rotation_family() {
        BugClass::RotationConvention
    } else if exists|i: int| 0 <= i < ops.len() && is_discrete_phase((#[trigger] ops[i]).kind) {
        BugClass::DiscretePhaseGate
    } else if forall|i: int|
        0 <= i < ops.len() ==> (#[trigger] ops[i]).kind.arity() >= 2 || ops[i].kind
            == GateKind::H {
        BugClass::MultiQubitConvention
    } else {
        BugClass::Unclassified
    }
}

/// Classifies a minimal witness by the gates it contains; see
/// [`class_of`].
pub fn classify(minimal: &Circuit) -> (class: BugClass)
    ensures
        class == class_of(minimal@.operations),
{
    let ghost ops = minimal@.operations;
    let mut has_rotation = false;
    let mut has_discrete_phase = false;
    let mut only_multi_qubit_complex = true;
    let mut i: usize = 0;
    while i < minimal.operations.len()
        invariant
            i <= minimal.operations.len(),
            ops == minimal@.operations,
            has_rotation == exists|j: int|
                0 <= j < i && (#[trigger] ops[j]).kind.is_rotation_family(),
            has_discrete_phase == exists|j: int|
                0 <= j < i && is_discrete_phase((#[trigger] ops[j]).kind),
            only_multi_qubit_complex == forall|j: int|
                0 <= j < i ==> (#[trigger] ops[j]).kind.arity() >= 2 || ops[j].kind
                    == GateKind::H,
        decreases minimal.operations.len() - i,
    {
        let k = minimal.operations[i].kind;
        assert(ops[i as int].kind == k);
        if k == GateKind::Rz || k == GateKind::Phase || k == GateKind::Crz || k == GateKind::Cp {
            has_rotation = true;
        }
        if k == GateKind::S || k == GateKind::Sdg || k == GateKind::T || k == GateKind::Tdg || k
            == GateKind::Sx || k == GateKind::Sxdg || k == GateKind::Csx {
            has_discrete_phase = true;
        }
        if !(k.num_qubits() >= 2 || k == GateKind::H) {
            only_multi_qubit_complex = false;
        }
        i = i + 1;
    }
    if has_rotation {
        BugClass::RotationConvention
    } else if has_discrete_phase {
        BugClass::DiscretePhaseGate
    } else if only_multi_qubit_complex {
        BugClass::MultiQubitConvention
    } else {
        BugClass::Unclassified
    }
}

/// The visibility verdict of a triage: whether some sampling benchmark
/// could in principle observe the divergence.
pub fn visibility_label(sampling_visible: bool) -> (s: &'static str)
    ensures
        s@ == (if sampling_visible {
            "visible to sampling benchmarks (probability-level)"@
        } else {
            "INVISIBLE to all sampling benchmarks (amplitude-only — theorem class)"@
        }),
{
    if sampling_visible {
        "visible to sampling benchmarks (probability-level)"
    } else {
        "INVISIBLE to all sampling benchmarks (amplitude-only — theorem class)"
    }
}

/// A witness's class follows from the gates it holds: a gate of the
/// diagonal rotation family (`Rz`, `Phase`, `Crz`, `Cp`) makes it a
/// rotation-convention bug; failing that, a discrete phase gate (`S`,
/// `Sdg`, `T`, `Tdg`, `Sx`, `Sxdg`, `Csx`) a discrete-phase-gate bug;
/// failing that, a circuit of multi-qubit gates and `H` only a
/// multi-qubit-convention bug; anything else is unclassified.
pub proof fn lemma_class_follows_gate_content(ops: Seq<OpView>)
    ensures
        ({
            let rot = exists|i: int| 0 <= i < ops.len() && ((#[trigger] ops[i]).kind == GateKind::Rz || ops[i].kind == GateKind::Phase || ops[i].kind == GateKind::Crz || ops[i].kind == GateKind::Cp);
            let disc = exists|i: int| 0 <= i < ops.len() && ((#[trigger] ops[i]).kind == GateKind::S || ops[i].kind == GateKind::Sdg || ops[i].kind == GateKind::T || ops[i].kind == GateKind::Tdg || ops[i].kind == GateKind::Sx || ops[i].kind == GateKind::Sxdg || ops[i].kind == GateKind::Csx);
            let multi = forall|i: int|
                0 <= i < ops.len() ==> (#[trigger] ops[i]).kind.arity() >= 2 || ops[i].kind
                    == GateKind::H;
            &&& rot ==> class_of(ops) == BugClass::RotationConvention
            &&& !rot && disc ==> class_of(ops) == BugClass::DiscretePhaseGate
            &&& !rot && !disc && multi ==> class_of(ops) == BugClass::MultiQubitConvention
            &&& !rot && !disc && !multi ==> class_of(ops) == BugClass::Unclassified
        }),
{
    let rot = exists|i: int| 0 <= i < ops.len() && ((#[trigger] ops[i]).kind == GateKind::Rz || ops[i].kind == GateKind::Phase || ops[i].kind == GateKind::Crz || ops[i].kind == GateKind::Cp);
    let disc = exists|i: int| 0 <= i < ops.len() && ((#[trigger] ops[i]).kind == GateKind::S || ops[i].kind == GateKind::Sdg || ops[i].kind == GateKind::T || ops[i].kind == GateKind::Tdg || ops[i].kind == GateKind::Sx || ops[i].kind == GateKind::Sxdg || ops[i].kind == GateKind::Csx);
    if rot {
        let i = choose|i: int| 0 <= i < ops.len() && ((#[trigger] ops[i]).kind == GateKind::Rz || ops[i].kind == GateKind::Phase || ops[i].kind == GateKind::Crz || ops[i].kind == GateKind::Cp);
        assert(ops[i].kind.is_rotation_family());
    } else {
        assert forall|i: int| 0 <= i < ops.len() implies !(#[trigger] ops[i]).kind.is_rotation_family() by {
            if ops[i].kind.is_rotation_family() {
                assert(ops[i].kind == GateKind::Rz || ops[i].kind == GateKind::Phase || ops[i].kind == GateKind::Crz || ops[i].kind == GateKind::Cp);
            }
        }
        if disc {
            let i = choose|i: int| 0 <= i < ops.len() && ((#[trigger] ops[i]).kind == GateKind::S || ops[i].kind == GateKind::Sdg || ops[i].kind == GateKind::T || ops[i].kind == GateKind::Tdg || ops[i].kind == GateKind::Sx || ops[i].kind == GateKind::Sxdg || ops[i].kind == GateKind::Csx);
            assert(is_discrete_phase(ops[i].kind));
        } else {
            assert forall|i: int| 0 <= i < ops.len() implies !is_discrete_phase((#[trigger] ops[i]).kind) by {
                if is_discrete_phase(ops[i].kind) {
                    assert(ops[i].kind == GateKind::S || ops[i].kind == GateKind::Sdg || ops[i].kind == GateKind::T || ops[i].kind == GateKind::Tdg || ops[i].kind == GateKind::Sx || ops[i].kind == GateKind::Sxdg || ops[i].kind == GateKind::Csx);
                }
            }
        }
    }
}

} // verus!

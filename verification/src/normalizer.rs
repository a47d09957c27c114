//! Rz sign-convention normalisation.

use crate::gate::GateKind;
use crate::ir::{ops_view, Circuit, CircuitView, OpView, Operation};
use crate::translate::chars_match;
use vstd::prelude::*;

verus! {

/// The sign convention used for Rz-family gates.
///
/// The IBM/Qiskit standard defines `Rz(λ) = [[e^{-iλ/2}, 0], [0, e^{+iλ/2}]]`.
/// Some frameworks (notably quantrs2-core) use the opposite sign.
///
/// Convention divergence is invisible in Clifford-only or random-angle
/// circuits but produces zero cross-backend fidelity on circuits with
/// specific angles (QAOA, VQE).
#[derive(Debug, Clone, Copy, PartialEq, Eq, Structural)]
pub enum RzConvention {
    /// IBM / Qiskit / OpenQASM 3 standard:
    /// `Rz(λ) = [[e^{-iλ/2}, 0], [0, e^{+iλ/2}]]`.
    Standard,
    /// Opposite sign convention:
    /// `Rz(λ) = [[e^{+iλ/2}, 0], [0, e^{-iλ/2}]]` (quantrs2-core).
    Reversed,
}

impl RzConvention {
    /// Returns the convention name as a static string.
    pub fn name(self) -> (s: &'static str)
        ensures
            s@ == (match self {
                RzConvention::Standard => "standard (IBM/Qiskit)"@,
                RzConvention::Reversed => "reversed (quantrs2)"@,
            }),
    {
        match self {
            RzConvention::Standard => "standard (IBM/Qiskit)",
            RzConvention::Reversed => "reversed (quantrs2)",
        }
    }
}

/// The convention that a name selects: `standard`, `ibm` or `qiskit`
/// the standard one, `reversed` or `quantrs2` the opposite one.
pub open spec fn convention_named(s: Seq<char>) -> Option<RzConvention> {
    if s == "standard"@ || s == "ibm"@ || s == "qiskit"@ {
        Some(RzConvention::Standard)
    } else if s == "reversed"@ || s == "quantrs2"@ {
        Some(RzConvention::Reversed)
    } else {
        None
    }
}

/// The message for a name that selects no convention.
pub open spec fn unknown_convention_text(s: Seq<char>) -> Seq<char> {
    "unknown convention '"@ + s + "'; use 'standard' (IBM/Qiskit) or 'reversed' (quantrs2)"@
}

/// Reads a convention by name; see [`convention_named`]. A name that
/// selects none is answered with [`unknown_convention_text`].
pub fn convention_from_str(s: &str) -> (r: Result<RzConvention, String>)
    ensures
        match r {
            Ok(c) => convention_named(s@) == Some(c),
            Err(e) => convention_named(s@) is None && e@ == unknown_convention_text(s@),
        },
{
    if chars_match(s, "standard") || chars_match(s, "ibm") || chars_match(s, "qiskit") {
        Ok(RzConvention::Standard)
    } else if chars_match(s, "reversed") || chars_match(s, "quantrs2") {
        Ok(RzConvention::Reversed)
    } else {
        let mut e = String::from_str("unknown convention '");
        e.append(s);
        e.append("'; use 'standard' (IBM/Qiskit) or 'reversed' (quantrs2)");
        Err(e)
    }
}

/// The sign bit of an IEEE-754 binary64 value.
pub const SIGN_BIT: u64 = 0x8000_0000_0000_0000u64;

/// The bit pattern of `-x` given that of `x`: IEEE-754 negation flips the
/// sign bit and nothing else.
pub open spec fn neg_bits(b: u64) -> u64 {
    b ^ SIGN_BIT
}

/// Negation of a binary64 value held as its bit pattern.
pub fn negate(b: u64) -> (r: u64)
    ensures
        r == neg_bits(b),
{
    b ^ SIGN_BIT
}

/// Negating twice gives the value back, bit for bit.
pub proof fn lemma_neg_bits_involution(b: u64)
    ensures
        neg_bits(neg_bits(b)) == b,
{
    assert((b ^ 0x8000_0000_0000_0000u64) ^ 0x8000_0000_0000_0000u64 == b) by (bit_vector);
}

/// How many parameters normalisation reads for a gate of the given kind.
pub open spec fn convention_param_count(kind: GateKind) -> nat {
    if kind.is_rotation_family() {
        1
    } else if kind == GateKind::U {
        3
    } else if kind == GateKind::Cu {
        4
    } else {
        0
    }
}

/// The parameters of a gate of kind `kind` after flipping the Rz sign
/// convention: the angle of `Rz`, `Phase`, `Crz`, `Cp`; `φ` and `λ` of `U`;
/// `φ`, `λ` and `γ` of `Cu`. Every other parameter is kept.
pub open spec fn flipped_params(kind: GateKind, p: Seq<u64>) -> Seq<u64> {
    if kind.is_rotation_family() {
        p.update(0, neg_bits(p[0]))
    } else if kind == GateKind::U {
        p.update(1, neg_bits(p[1])).update(2, neg_bits(p[2]))
    } else if kind == GateKind::Cu {
        p.update(1, neg_bits(p[1])).update(2, neg_bits(p[2])).update(3, neg_bits(p[3]))
    } else {
        p
    }
}

/// An operation after flipping the Rz sign convention.
pub open spec fn flipped_op(op: OpView) -> OpView {
    OpView { params: flipped_params(op.kind, op.params), ..op }
}

/// Operations that carry the parameters normalisation reads.
pub open spec fn has_convention_params(ops: Seq<OpView>) -> bool {
    forall|i: int|
        0 <= i < ops.len() ==> (#[trigger] ops[i]).params.len() >= convention_param_count(
            ops[i].kind,
        )
}

fn normalized_op(op: &Operation) -> (out: Operation)
    requires
        op.params.len() >= convention_param_count(op.kind),
    ensures
        out@ == flipped_op(op@),
{
    let mut out = op.clone();
    match op.kind {
        GateKind::Rz | GateKind::Phase | GateKind::Crz | GateKind::Cp => {
            out.params.set(0, negate(op.params[0]));
        },
        GateKind::U => {
            out.params.set(1, negate(op.params[1]));
            out.params.set(2, negate(op.params[2]));
        },
        GateKind::Cu => {
            out.params.set(1, negate(op.params[1]));
            out.params.set(2, negate(op.params[2]));
            out.params.set(3, negate(op.params[3]));
        },
        _ => {},
    }
    assert(out@ =~= flipped_op(op@));
    out
}

/// The circuit that normalising from `from` to `to` gives: the same
/// circuit when the conventions agree; otherwise the same qubits, with
/// every operation rewritten by [`flipped_op`].
pub open spec fn normalized(c: CircuitView, from: RzConvention, to: RzConvention) -> CircuitView {
    if from == to {
        c
    } else {
        CircuitView {
            qubits: c.qubits,
            operations: c.operations.map_values(|op: OpView| flipped_op(op)),
        }
    }
}

/// Rewrites `circuit` so that its Rz-family gate angles match `to`.
///
/// When `from == to` the circuit is returned unchanged (copied).
/// Otherwise the result has the same qubits and every operation with its
/// convention-dependent angles negated, as listed in [`flipped_params`];
/// `Rx`, `Ry`, `H`, `Cx` and the Clifford gates are left unchanged. The
/// transformation is its own inverse (see
/// [`lemma_normalizing_twice_gives_the_circuit_back`]).
pub fn normalize_convention(circuit: &Circuit, from: RzConvention, to: RzConvention) -> (out:
    Circuit)
    requires
        from != to ==> has_convention_params(circuit@.operations),
    ensures
        out@ == normalized(circuit@, from, to),
{
    if from == to {
        return circuit.clone();
    }
    let copy = circuit.clone();
    let mut out = Circuit { qubits: copy.qubits, operations: Vec::new() };
    assert(ops_view(out.operations@) =~= seq![]);
    let mut i: usize = 0;
    while i < circuit.operations.len()
        invariant
            i <= circuit.operations.len(),
            has_convention_params(circuit@.operations),
            out@.qubits == circuit@.qubits,
            out@.operations =~= circuit@.operations.subrange(0, i as int).map_values(
                |op: OpView| flipped_op(op),
            ),
        decreases circuit.operations.len() - i,
    {
        let op = &circuit.operations[i];
        assert(circuit@.operations[i as int] == op@);
        let flipped = normalized_op(op);
        out.push(flipped);
        i = i + 1;
        assert(circuit@.operations.subrange(0, i as int) =~= circuit@.operations.subrange(
            0,
            i - 1,
        ).push(op@));
    }
    assert(circuit@.operations.subrange(0, i as int) =~= circuit@.operations);
    assert(out@ =~= normalized(circuit@, from, to));
    out
}

/// Normalising twice, between the same two conventions, gives the
/// circuit back, qubits and operations alike: the rewrite is its own
/// inverse, bit for bit. The second call's precondition holds of the
/// first call's result.
pub proof fn lemma_normalizing_twice_gives_the_circuit_back(
    c: CircuitView,
    from: RzConvention,
    to: RzConvention,
)
    requires
        from != to ==> has_convention_params(c.operations),
    ensures
        from != to ==> has_convention_params(normalized(c, from, to).operations),
        normalized(normalized(c, from, to), from, to) == c,
{
    if from != to {
        lemma_normalization_is_an_involution(c.operations);
        let twice = normalized(normalized(c, from, to), from, to);
        assert(twice.operations == c.operations);
        assert(twice.qubits == c.qubits);
    }
}

/// Normalising twice gives the original operations back: the rewrite is
/// its own inverse, bit for bit.
pub proof fn lemma_normalization_is_an_involution(ops: Seq<OpView>)
    requires
        has_convention_params(ops),
    ensures
        ops.map_values(|op: OpView| flipped_op(op)).map_values(|op: OpView| flipped_op(op))
            == ops,
        has_convention_params(ops.map_values(|op: OpView| flipped_op(op))),
{
    let once = ops.map_values(|op: OpView| flipped_op(op));
    let twice = once.map_values(|op: OpView| flipped_op(op));
    assert forall|i: int| 0 <= i < ops.len() implies twice[i] == ops[i] by {
        let op = ops[i];
        assert(once[i] == flipped_op(op));
        let p = op.params;
        if op.kind.is_rotation_family() {
            lemma_neg_bits_involution(p[0]);
        } else if op.kind == GateKind::U {
            lemma_neg_bits_involution(p[1]);
            lemma_neg_bits_involution(p[2]);
        } else if op.kind == GateKind::Cu {
            lemma_neg_bits_involution(p[1]);
            lemma_neg_bits_involution(p[2]);
            lemma_neg_bits_involution(p[3]);
        }
        assert(flipped_params(op.kind, flipped_params(op.kind, p)) =~= p);
        assert(twice[i] =~= ops[i]);
    }
    assert(twice =~= ops);
}

/// What flipping the convention does to each gate, as the coverage table
/// documents it: the operation keeps its kind, qubits, provenance and
/// parameter count; `Rz(λ)`, `Phase(λ)`, `Crz(λ)`, `Cp(λ)` get `−λ`;
/// `U(θ,φ,λ)` gets `U(θ,−φ,−λ)`; `Cu(θ,φ,λ,γ)` gets `Cu(θ,−φ,−λ,−γ)`;
/// every other gate, `Rx` and `Ry` among them, keeps its parameters.
pub proof fn lemma_flip_follows_coverage_table(
    c: CircuitView,
    from: RzConvention,
    to: RzConvention,
    i: int,
)
    requires
        from != to,
        has_convention_params(c.operations),
        0 <= i < c.operations.len(),
    ensures
        ({
            let op = c.operations[i];
            let out = normalized(c, from, to).operations[i];
            let p = op.params;
            let r = out.params;
            &&& normalized(c, from, to).operations.len() == c.operations.len()
            &&& out.kind == op.kind && out.qubits == op.qubits
            &&& out.source_framework == op.source_framework
            &&& out.original_gate_name == op.original_gate_name
            &&& r.len() == p.len()
            &&& (op.kind == GateKind::Rz || op.kind == GateKind::Phase || op.kind
                == GateKind::Crz || op.kind == GateKind::Cp) ==> r[0] == neg_bits(p[0]) && r[0]
                != p[0] && forall|j: int| 1 <= j < p.len() ==> r[j] == p[j]
            &&& op.kind == GateKind::U ==> r[0] == p[0] && r[1] == neg_bits(p[1]) && r[2]
                == neg_bits(p[2]) && forall|j: int| 3 <= j < p.len() ==> r[j] == p[j]
            &&& op.kind == GateKind::Cu ==> r[0] == p[0] && r[1] == neg_bits(p[1]) && r[2]
                == neg_bits(p[2]) && r[3] == neg_bits(p[3]) && forall|j: int|
                4 <= j < p.len() ==> r[j] == p[j]
            &&& !(op.kind == GateKind::Rz || op.kind == GateKind::Phase || op.kind
                == GateKind::Crz || op.kind == GateKind::Cp || op.kind == GateKind::U || op.kind
                == GateKind::Cu) ==> r == p
        }),
{
    let op = c.operations[i];
    assert(op.params.len() >= convention_param_count(op.kind));
    if op.params.len() > 0 {
        let b = op.params[0];
        assert((b ^ 0x8000_0000_0000_0000u64) != b) by (bit_vector);
    }
}

} // verus!

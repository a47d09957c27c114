//! Exact circuit inversion over the IR, the structural half of
//! mirror-circuit benchmarking (C followed by C†).

use crate::gate::GateKind;
use crate::ir::{copy_vec, unnamed_qubits, Circuit, OpView, Operation};
use crate::normalizer::{lemma_neg_bits_involution, neg_bits, negate};
use vstd::prelude::*;

verus! {

/// How many parameters inversion reads for a gate of the given kind.
pub open spec fn inverse_param_count(kind: GateKind) -> nat {
    match kind {
        GateKind::Rx | GateKind::Ry | GateKind::Rz | GateKind::Phase | GateKind::Crx
        | GateKind::Cry | GateKind::Crz | GateKind::Cp => 1,
        GateKind::U => 3,
        GateKind::Cu => 4,
        _ => 0,
    }
}

/// Operations that carry the parameters inversion reads.
pub open spec fn has_inverse_params(ops: Seq<OpView>) -> bool {
    forall|i: int|
        0 <= i < ops.len() ==> (#[trigger] ops[i]).params.len() >= inverse_param_count(
            ops[i].kind,
        )
}

/// A fresh operation without provenance metadata.
pub open spec fn plain_op(kind: GateKind, qubits: Seq<usize>, params: Seq<u64>) -> OpView {
    OpView { kind, qubits, params, source_framework: None, original_gate_name: None }
}

/// The operations that implement the adjoint of `op`:
/// self-inverse gates stay, `S`/`T`/`Sx` swap with their daggers,
/// rotations negate their angle, `U(θ,φ,λ)† = U(−θ,−λ,−φ)`,
/// `CU(θ,φ,λ,γ)† = CU(−θ,−λ,−φ,−γ)`, and `Csx†` is written as `Csx³`.
pub open spec fn adjoint(op: OpView) -> Seq<OpView> {
    let q = op.qubits;
    let p = op.params;
    match op.kind {
        GateKind::S => seq![plain_op(GateKind::Sdg, q, seq![])],
        GateKind::Sdg => seq![plain_op(GateKind::S, q, seq![])],
        GateKind::T => seq![plain_op(GateKind::Tdg, q, seq![])],
        GateKind::Tdg => seq![plain_op(GateKind::T, q, seq![])],
        GateKind::Sx => seq![plain_op(GateKind::Sxdg, q, seq![])],
        GateKind::Sxdg => seq![plain_op(GateKind::Sx, q, seq![])],
        GateKind::Rx | GateKind::Ry | GateKind::Rz | GateKind::Phase | GateKind::Crx
        | GateKind::Cry | GateKind::Crz | GateKind::Cp => seq![
            plain_op(op.kind, q, seq![neg_bits(p[0])]),
        ],
        GateKind::U => seq![
            plain_op(GateKind::U, q, seq![neg_bits(p[0]), neg_bits(p[2]), neg_bits(p[1])]),
        ],
        GateKind::Cu => seq![
            plain_op(
                GateKind::Cu,
                q,
                seq![neg_bits(p[0]), neg_bits(p[2]), neg_bits(p[1]), neg_bits(p[3])],
            ),
        ],
        GateKind::Csx => seq![
            plain_op(GateKind::Csx, q, seq![]),
            plain_op(GateKind::Csx, q, seq![]),
            plain_op(GateKind::Csx, q, seq![]),
        ],
        _ => seq![plain_op(op.kind, q, seq![])],
    }
}

/// The operations of C† for a circuit with operations `ops`: the
/// operations in reverse order, each replaced by its [`adjoint`].
pub open spec fn inverse_ops(ops: Seq<OpView>) -> Seq<OpView>
    decreases ops.len(),
{
    if ops.len() == 0 {
        seq![]
    } else {
        inverse_ops(ops.drop_first()) + adjoint(ops[0])
    }
}

/// Appends to `inv` the operations that implement the adjoint of `op`.
fn push_adjoint(inv: &mut Circuit, op: &Operation)
    requires
        op.params.len() >= inverse_param_count(op.kind),
    ensures
        final(inv)@.qubits == old(inv)@.qubits,
        final(inv)@.operations == old(inv)@.operations + adjoint(op@),
{
    let ghost before = inv@.operations;
    let q = &op.qubits;
    let p = &op.params;
    match op.kind {
        GateKind::S => inv.push(Operation::new(GateKind::Sdg, copy_vec(q), Vec::new())),
        GateKind::Sdg => inv.push(Operation::new(GateKind::S, copy_vec(q), Vec::new())),
        GateKind::T => inv.push(Operation::new(GateKind::Tdg, copy_vec(q), Vec::new())),
        GateKind::Tdg => inv.push(Operation::new(GateKind::T, copy_vec(q), Vec::new())),
        GateKind::Sx => inv.push(Operation::new(GateKind::Sxdg, copy_vec(q), Vec::new())),
        GateKind::Sxdg => inv.push(Operation::new(GateKind::Sx, copy_vec(q), Vec::new())),
        GateKind::Rx | GateKind::Ry | GateKind::Rz | GateKind::Phase | GateKind::Crx
        | GateKind::Cry | GateKind::Crz | GateKind::Cp => {
            let mut params: Vec<u64> = Vec::new();
            params.push(negate(p[0]));
            inv.push(Operation::new(op.kind, copy_vec(q), params));
            assert(params@ =~= seq![neg_bits(p@[0])]);
        },
        GateKind::U => {
            let mut params: Vec<u64> = Vec::new();
            params.push(negate(p[0]));
            params.push(negate(p[2]));
            params.push(negate(p[1]));
            inv.push(Operation::new(GateKind::U, copy_vec(q), params));
            assert(params@ =~= seq![neg_bits(p@[0]), neg_bits(p@[2]), neg_bits(p@[1])]);
        },
        GateKind::Cu => {
            let mut params: Vec<u64> = Vec::new();
            params.push(negate(p[0]));
            params.push(negate(p[2]));
            params.push(negate(p[1]));
            params.push(negate(p[3]));
            inv.push(Operation::new(GateKind::Cu, copy_vec(q), params));
            assert(params@ =~= seq![
                neg_bits(p@[0]),
                neg_bits(p@[2]),
                neg_bits(p@[1]),
                neg_bits(p@[3]),
            ]);
        },
        GateKind::Csx => {
            inv.push(Operation::new(GateKind::Csx, copy_vec(q), Vec::new()));
            inv.push(Operation::new(GateKind::Csx, copy_vec(q), Vec::new()));
            inv.push(Operation::new(GateKind::Csx, copy_vec(q), Vec::new()));
        },
        _ => inv.push(Operation::new(op.kind, copy_vec(q), Vec::new())),
    }
    assert(inv@.operations =~= before + adjoint(op@));
}

/// Returns the exact inverse C† of a circuit: operations reversed, each
/// gate replaced by its adjoint (see [`adjoint`]), over the same number
/// of unnamed qubits.
///
/// Adjoints stay within the OpenQASM 3 `stdgates.inc` set, with one
/// exception: Csx† has no dedicated kind and is emitted as Csx repeated
/// three times (Sx⁴ = I, so Sx³ = Sx†).
pub fn inverse_circuit(circuit: &Circuit) -> (inv: Circuit)
    requires
        has_inverse_params(circuit@.operations),
    ensures
        inv@.qubits == unnamed_qubits(circuit@.qubits.len()),
        inv@.operations == inverse_ops(circuit@.operations),
{
    let ghost ops = circuit@.operations;
    let mut inv = Circuit::new(circuit.num_qubits());
    let mut i: usize = circuit.operations.len();
    assert(ops.subrange(i as int, ops.len() as int) =~= seq![]);
    while i > 0
        invariant
            i <= circuit.operations.len(),
            ops == circuit@.operations,
            has_inverse_params(ops),
            inv@.qubits == unnamed_qubits(circuit@.qubits.len()),
            inv@.operations == inverse_ops(ops.subrange(i as int, ops.len() as int)),
        decreases i,
    {
        i = i - 1;
        let op = &circuit.operations[i];
        assert(op@ == ops[i as int]);
        push_adjoint(&mut inv, op);
        assert(ops.subrange(i as int, ops.len() as int).drop_first() =~= ops.subrange(
            i + 1,
            ops.len() as int,
        ));
    }
    assert(ops.subrange(0, ops.len() as int) =~= ops);
    inv
}

/// Inversion turns a concatenation around: (A·B)† = B†·A†.
pub proof fn lemma_inverse_of_concat(a: Seq<OpView>, b: Seq<OpView>)
    ensures
        inverse_ops(a + b) == inverse_ops(b) + inverse_ops(a),
    decreases a.len(),
{
    if a.len() == 0 {
        assert(a + b =~= b);
        assert(inverse_ops(b) + inverse_ops(a) =~= inverse_ops(b));
    } else {
        assert((a + b).drop_first() =~= a.drop_first() + b);
        assert((a + b)[0] == a[0]);
        lemma_inverse_of_concat(a.drop_first(), b);
        assert(inverse_ops(a + b) =~= inverse_ops(b) + inverse_ops(a));
    }
}

proof fn lemma_adjoint_of_adjoint(op: OpView)
    requires
        op.params.len() >= inverse_param_count(op.kind),
        op.kind != GateKind::Csx,
    ensures
        adjoint(op).len() == 1,
        adjoint(adjoint(op)[0]) == seq![canonical_op(op)],
{
    let p = op.params;
    let a = adjoint(op)[0];
    match op.kind {
        GateKind::U => {
            lemma_neg_bits_involution(p[0]);
            lemma_neg_bits_involution(p[1]);
            lemma_neg_bits_involution(p[2]);
            assert(adjoint(a)[0].params =~= p.take(3));
        },
        GateKind::Cu => {
            lemma_neg_bits_involution(p[0]);
            lemma_neg_bits_involution(p[1]);
            lemma_neg_bits_involution(p[2]);
            lemma_neg_bits_involution(p[3]);
            assert(adjoint(a)[0].params =~= p.take(4));
        },
        GateKind::Rx | GateKind::Ry | GateKind::Rz | GateKind::Phase | GateKind::Crx
        | GateKind::Cry | GateKind::Crz | GateKind::Cp => {
            lemma_neg_bits_involution(p[0]);
            assert(adjoint(a)[0].params =~= p.take(1));
        },
        _ => {
            assert(adjoint(a)[0].params =~= p.take(0));
        },
    }
    assert(adjoint(a) =~= seq![canonical_op(op)]);
}

/// The operation `op` as inversion rebuilds it: the same kind and qubits,
/// the parameters its kind takes, and no provenance metadata.
pub open spec fn canonical_op(op: OpView) -> OpView {
    plain_op(op.kind, op.qubits, op.params.take(inverse_param_count(op.kind) as int))
}

/// For circuits without `Csx`, inverting twice gives back the original
/// operations, each rebuilt as in [`canonical_op`]: (C†)† = C.
pub proof fn lemma_double_inverse(ops: Seq<OpView>)
    requires
        has_inverse_params(ops),
        forall|i: int| 0 <= i < ops.len() ==> (#[trigger] ops[i]).kind != GateKind::Csx,
    ensures
        inverse_ops(inverse_ops(ops)) == ops.map_values(|op: OpView| canonical_op(op)),
    decreases ops.len(),
{
    if ops.len() == 0 {
        assert(ops.map_values(|op: OpView| canonical_op(op)) =~= seq![]);
    } else {
        let rest = ops.drop_first();
        let op = ops[0];
        assert forall|i: int| 0 <= i < rest.len() implies (#[trigger] rest[i]).kind
            != GateKind::Csx && rest[i].params.len() >= inverse_param_count(rest[i].kind) by {
            assert(rest[i] == ops[i + 1]);
        }
        lemma_double_inverse(rest);
        lemma_inverse_of_concat(inverse_ops(rest), adjoint(op));
        let a = adjoint(op);
        assert(a.len() == 1);
        assert(inverse_ops(a.drop_first()) =~= seq![]);
        assert(inverse_ops(a) =~= adjoint(a[0]));
        lemma_adjoint_of_adjoint(op);
        assert(ops.map_values(|op: OpView| canonical_op(op)) =~= seq![canonical_op(op)]
            + rest.map_values(|op: OpView| canonical_op(op)));
    }
}

/// The inverse of a one-gate circuit is that gate's adjoint, gate by gate
/// as the unitaries require: a rotation by θ is undone by the same
/// rotation by −θ (the sign bit of the angle flipped), `S`, `T` and `Sx`
/// by their daggers and back, `U(θ,φ,λ)` by `U(−θ,−λ,−φ)`,
/// `CU(θ,φ,λ,γ)` by `CU(−θ,−λ,−φ,−γ)`, `Csx` by `Csx³`, and every
/// self-inverse gate by itself. With [`lemma_inverse_of_concat`] this
/// fixes the inverse of every circuit.
pub proof fn lemma_inverse_of_each_gate(op: OpView)
    requires
        op.params.len() >= inverse_param_count(op.kind),
    ensures
        ({
            let inv = inverse_ops(seq![op]);
            let q = op.qubits;
            let p = op.params;
            &&& (op.kind == GateKind::Rx || op.kind == GateKind::Ry || op.kind == GateKind::Rz
                || op.kind == GateKind::Phase || op.kind == GateKind::Crx || op.kind
                == GateKind::Cry || op.kind == GateKind::Crz || op.kind == GateKind::Cp) ==> inv
                == seq![OpView { kind: op.kind, qubits: q, params: seq![neg_bits(p[0])], source_framework: None, original_gate_name: None }] && inv[0].params[0] != p[0]
            &&& op.kind == GateKind::S ==> inv == seq![OpView { kind: GateKind::Sdg, qubits: q, params: seq![], source_framework: None, original_gate_name: None }]
            &&& op.kind == GateKind::Sdg ==> inv == seq![OpView { kind: GateKind::S, qubits: q, params: seq![], source_framework: None, original_gate_name: None }]
            &&& op.kind == GateKind::T ==> inv == seq![OpView { kind: GateKind::Tdg, qubits: q, params: seq![], source_framework: None, original_gate_name: None }]
            &&& op.kind == GateKind::Tdg ==> inv == seq![OpView { kind: GateKind::T, qubits: q, params: seq![], source_framework: None, original_gate_name: None }]
            &&& op.kind == GateKind::Sx ==> inv == seq![OpView { kind: GateKind::Sxdg, qubits: q, params: seq![], source_framework: None, original_gate_name: None }]
            &&& op.kind == GateKind::Sxdg ==> inv == seq![OpView { kind: GateKind::Sx, qubits: q, params: seq![], source_framework: None, original_gate_name: None }]
            &&& op.kind == GateKind::U ==> inv == seq![OpView { kind: GateKind::U, qubits: q, params: seq![neg_bits(p[0]), neg_bits(p[2]), neg_bits(p[1])], source_framework: None, original_gate_name: None }]
            &&& op.kind == GateKind::Cu ==> inv == seq![OpView { kind: GateKind::Cu, qubits: q, params: seq![neg_bits(p[0]), neg_bits(p[2]), neg_bits(p[1]), neg_bits(p[3])], source_framework: None, original_gate_name: None }]
            &&& op.kind == GateKind::Csx ==> inv == seq![OpView { kind: GateKind::Csx, qubits: q, params: seq![], source_framework: None, original_gate_name: None }, OpView { kind: GateKind::Csx, qubits: q, params: seq![], source_framework: None, original_gate_name: None }, OpView { kind: GateKind::Csx, qubits: q, params: seq![], source_framework: None, original_gate_name: None }]
            &&& (op.kind == GateKind::Id || op.kind == GateKind::X || op.kind == GateKind::Y
                || op.kind == GateKind::Z || op.kind == GateKind::H || op.kind == GateKind::Cx
                || op.kind == GateKind::Cy || op.kind == GateKind::Cz || op.kind == GateKind::Ch
                || op.kind == GateKind::Swap || op.kind == GateKind::Ccx || op.kind
                == GateKind::Cswap) ==> inv == seq![OpView { kind: op.kind, qubits: q, params: seq![], source_framework: None, original_gate_name: None }]
        }),
{
    let one = seq![op];
    assert(one.drop_first() =~= Seq::<OpView>::empty());
    assert(one[0] == op);
    assert(inverse_ops(Seq::<OpView>::empty()) == Seq::<OpView>::empty());
    assert(inverse_ops(one) =~= Seq::<OpView>::empty() + adjoint(op));
    assert(inverse_ops(one) =~= adjoint(op));
    if op.params.len() > 0 {
        lemma_neg_bits_differs(op.params[0]);
    }
}

/// Flipping the sign bit always changes the bit pattern.
proof fn lemma_neg_bits_differs(b: u64)
    ensures
        neg_bits(b) != b,
{
    assert((b ^ 0x8000_0000_0000_0000u64) != b) by (bit_vector);
}

} // verus!

//! The layer structure of Quantum-Volume-style random circuits over the
//! Rz/Ry/CX basis: each layer applies an Euler rotation Rz·Ry·Rz to every
//! qubit, then a chain of CX entanglers whose starting offset turns with
//! the layer. The random angles are drawn by the caller and handed over
//! as binary64 bit patterns, three per qubit and layer, in the order in
//! which the gates are applied.

use crate::gate::GateKind;
use crate::ir::{op_well_formed, unnamed_qubits, Circuit, OpView, Operation};
use vstd::arithmetic::div_mod::{
    lemma_add_mod_noop_right,
    lemma_fundamental_div_mod,
    lemma_fundamental_div_mod_converse,
    lemma_mod_pos_bound,
};
use vstd::prelude::*;

verus! {

/// The `j`-th rotation of layer `layer` over `n` qubits: qubit `j / 3`
/// gets Rz, Ry, Rz for `j % 3` = 0, 1, 2, with the angle at position
/// `3 * n * layer + j`.
pub open spec fn rotation_op(n: nat, layer: nat, j: int, angles: Seq<u64>) -> OpView {
    OpView {
        kind: if j % 3 == 1 {
            GateKind::Ry
        } else {
            GateKind::Rz
        },
        qubits: seq![(j / 3) as usize],
        params: seq![angles[3 * n * layer + j]],
        source_framework: None,
        original_gate_name: None,
    }
}

/// The `q`-th entangler of layer `layer` over `n` qubits: a CX from qubit
/// `(q + layer) % n` to qubit `(q + layer + 1) % n`.
pub open spec fn entangler_op(n: nat, layer: nat, q: int) -> OpView {
    OpView {
        kind: GateKind::Cx,
        qubits: seq![((q + layer) % (n as int)) as usize, ((q + layer + 1) % (n as int)) as usize],
        params: seq![],
        source_framework: None,
        original_gate_name: None,
    }
}

/// The rotations of one layer, qubit by qubit.
pub open spec fn layer_rotations(n: nat, layer: nat, angles: Seq<u64>) -> Seq<OpView> {
    Seq::new(3 * n, |j: int| rotation_op(n, layer, j, angles))
}

/// The entanglers of one layer: `n - 1` of them when there are at least
/// two qubits, none otherwise.
pub open spec fn layer_entanglers(n: nat, layer: nat) -> Seq<OpView> {
    if n > 1 {
        Seq::new((n - 1) as nat, |q: int| entangler_op(n, layer, q))
    } else {
        seq![]
    }
}

/// The operations of the first `depth` layers over `n` qubits.
pub open spec fn qv_ops(n: nat, depth: nat, angles: Seq<u64>) -> Seq<OpView>
    decreases depth,
{
    if depth == 0 {
        seq![]
    } else {
        let l = (depth - 1) as nat;
        qv_ops(n, l, angles) + layer_rotations(n, l, angles) + layer_entanglers(n, l)
    }
}

/// Two neighbouring positions fall on different qubits of a ring of more
/// than one.
proof fn lemma_next_on_ring_differs(x: int, n: int)
    requires
        x >= 0,
        n > 1,
    ensures
        x % n != (x + 1) % n,
{
    lemma_fundamental_div_mod(x, n);
    lemma_mod_pos_bound(x, n);
    let q = x / n;
    let r = x % n;
    assert(x == q * n + r) by (nonlinear_arith)
        requires
            x == n * q + r,
    ;
    if r + 1 < n {
        lemma_fundamental_div_mod_converse(x + 1, n, q, r + 1);
    } else {
        assert(x + 1 == (q + 1) * n + 0) by (nonlinear_arith)
            requires
                x == q * n + r,
                r + 1 == n,
        ;
        lemma_fundamental_div_mod_converse(x + 1, n, q + 1, 0);
    }
}

/// Every gate of the layers acts on qubits below `n`, with the qubit and
/// parameter counts its kind expects.
pub proof fn lemma_qv_ops_well_formed(n: nat, depth: nat, angles: Seq<u64>)
    ensures
        forall|i: int|
            0 <= i < qv_ops(n, depth, angles).len() ==> op_well_formed(
                #[trigger] qv_ops(n, depth, angles)[i],
                n,
            ),
    decreases depth,
{
    if depth > 0 {
        let l = (depth - 1) as nat;
        lemma_qv_ops_well_formed(n, l, angles);
        let pre = qv_ops(n, l, angles);
        let rot = layer_rotations(n, l, angles);
        let ent = layer_entanglers(n, l);
        assert forall|j: int| 0 <= j < rot.len() implies op_well_formed(#[trigger] rot[j], n) by {
            assert(j / 3 < n);
        }
        assert forall|t: int| 0 <= t < ent.len() implies op_well_formed(#[trigger] ent[t], n) by {
            lemma_mod_pos_bound(t + l, n as int);
            lemma_mod_pos_bound(t + l + 1, n as int);
        }
        let all = qv_ops(n, depth, angles);
        assert forall|i: int| 0 <= i < all.len() implies op_well_formed(#[trigger] all[i], n) by {
            if i < pre.len() {
                assert(all[i] == pre[i]);
            } else if i < pre.len() + rot.len() {
                assert(all[i] == rot[i - pre.len()]);
            } else {
                assert(all[i] == ent[i - pre.len() - rot.len()]);
            }
        }
    }
}

proof fn lemma_layer_base(n: nat, layer: nat, depth: nat)
    requires
        layer < depth,
    ensures
        3 * n * layer + 3 * n == 3 * n * (layer + 1),
        3 * n * (layer + 1) <= 3 * n * depth,
        3 * n <= 3 * n * depth,
{
    assert(3 * n * layer + 3 * n == 3 * n * (layer + 1)) by (nonlinear_arith);
    assert(3 * n * (layer + 1) <= 3 * n * depth) by (nonlinear_arith)
        requires
            layer + 1 <= depth,
    ;
    assert(3 * n <= 3 * n * depth) by (nonlinear_arith)
        requires
            1 <= depth,
    ;
}

/// An operation on one qubit with one parameter.
fn single(kind: GateKind, q: usize, angle: u64) -> (op: Operation)
    ensures
        op@ == (OpView {
            kind,
            qubits: seq![q],
            params: seq![angle],
            source_framework: None,
            original_gate_name: None,
        }),
{
    let mut qs: Vec<usize> = Vec::new();
    qs.push(q);
    let mut ps: Vec<u64> = Vec::new();
    ps.push(angle);
    assert(qs@ =~= seq![q]);
    assert(ps@ =~= seq![angle]);
    Operation::new(kind, qs, ps)
}

/// The Quantum-Volume-style circuit over `num_qubits` unnamed qubits with
/// `depth` layers and the given angles: see [`qv_ops`]. The angles are
/// consumed three per qubit and layer, in gate order.
pub fn qv_circuit(num_qubits: usize, depth: usize, angles: &Vec<u64>) -> (c: Circuit)
    requires
        angles.len() == 3 * num_qubits * depth,
    ensures
        c@.qubits == unnamed_qubits(num_qubits as nat),
        c@.operations == qv_ops(num_qubits as nat, depth as nat, angles@),
        c@.well_formed(),
{
    let ghost n = num_qubits as nat;
    let mut c = Circuit::new(num_qubits);
    let mut layer: usize = 0;
    let mut base: usize = 0;
    assert(3 * n * 0 == 0);
    while layer < depth
        invariant
            layer <= depth,
            n == num_qubits,
            angles.len() == 3 * n * depth,
            base == 3 * n * layer,
            c@.qubits == unnamed_qubits(n),
            c@.operations == qv_ops(n, layer as nat, angles@),
        decreases depth - layer,
    {
        proof {
            lemma_layer_base(n, layer as nat, depth as nat);
        }
        let ghost start = c@.operations;
        let ghost l = layer as nat;
        let mut q: usize = 0;
        while q < num_qubits
            invariant
                q <= num_qubits,
                n == num_qubits,
                l == layer,
                angles.len() == 3 * n * depth,
                base == 3 * n * layer,
                base + 3 * n <= angles.len(),
                c@.qubits == unnamed_qubits(n),
                c@.operations == start + Seq::new(3 * q as nat, |j: int| rotation_op(n, l, j, angles@)),
            decreases num_qubits - q,
        {
            let ghost before = c@.operations;
            let i = base + 3 * q;
            c.push(single(GateKind::Rz, q, angles[i]));
            c.push(single(GateKind::Ry, q, angles[i + 1]));
            c.push(single(GateKind::Rz, q, angles[i + 2]));
            q = q + 1;
            assert(c@.operations =~= start + Seq::new(
                3 * q as nat,
                |j: int| rotation_op(n, l, j, angles@),
            )) by {
                let s = Seq::new(3 * q as nat, |j: int| rotation_op(n, l, j, angles@));
                let k = 3 * (q - 1);
                assert(rotation_op(n, l, k, angles@).params == seq![angles@[i as int]]);
                assert(rotation_op(n, l, k + 1, angles@).params == seq![angles@[i + 1]]);
                assert(rotation_op(n, l, k + 2, angles@).params == seq![angles@[i + 2]]);
                assert(c@.operations.len() == start.len() + s.len());
                assert forall|j: int| 0 <= j < c@.operations.len() implies c@.operations[j] == (
                start + s)[j] by {
                    if j >= before.len() {
                        let t = j - start.len();
                        assert(t == k || t == k + 1 || t == k + 2);
                    }
                }
            }
        }
        assert(Seq::new(3 * q as nat, |j: int| rotation_op(n, l, j, angles@)) =~= layer_rotations(
            n,
            l,
            angles@,
        ));
        let ghost mid = c@.operations;
        if num_qubits > 1 {
            let lm = layer % num_qubits;
            let mut k: usize = 0;
            while k < num_qubits - 1
                invariant
                    k <= num_qubits - 1,
                    num_qubits > 1,
                    n == num_qubits,
                    l == layer,
                    lm == layer % num_qubits,
                    3 * num_qubits <= usize::MAX,
                    c@.qubits == unnamed_qubits(n),
                    c@.operations == mid + Seq::new(k as nat, |t: int| entangler_op(n, l, t)),
                decreases num_qubits - 1 - k,
            {
                let a = (k + lm) % num_qubits;
                let b = (k + 1 + lm) % num_qubits;
                proof {
                    lemma_add_mod_noop_right(k as int, layer as int, num_qubits as int);
                    lemma_add_mod_noop_right(k + 1, layer as int, num_qubits as int);
                    lemma_next_on_ring_differs(k + layer, num_qubits as int);
                }
                assert(a == (k + layer) % (n as int));
                assert(b == (k + layer + 1) % (n as int));
                if a != b {
                    let mut qs: Vec<usize> = Vec::new();
                    qs.push(a);
                    qs.push(b);
                    let op = Operation::new(GateKind::Cx, qs, Vec::new());
                    assert(op@ =~= entangler_op(n, l, k as int));
                    c.push(op);
                }
                k = k + 1;
                assert(c@.operations =~= mid + Seq::new(k as nat, |t: int| entangler_op(n, l, t)));
            }
            assert(Seq::new(k as nat, |t: int| entangler_op(n, l, t)) =~= layer_entanglers(n, l));
        } else {
            assert(c@.operations =~= mid + layer_entanglers(n, l));
        }
        layer = layer + 1;
        base = base + 3 * num_qubits;
        assert(qv_ops(n, layer as nat, angles@) == qv_ops(n, l, angles@) + layer_rotations(
            n,
            l,
            angles@,
        ) + layer_entanglers(n, l));
    }
    proof {
        lemma_qv_ops_well_formed(n, depth as nat, angles@);
    }
    c
}

/// Operations per layer over `n` qubits: three rotations per qubit, then
/// `n - 1` entanglers when there are at least two qubits.
pub open spec fn ops_per_layer(n: nat) -> nat {
    3 * n + if n > 1 {
        (n - 1) as nat
    } else {
        0nat
    }
}

proof fn lemma_layers_in_place(n: nat, depth: nat, angles: Seq<u64>, l: nat, x: int)
    requires
        l < depth,
        0 <= x < ops_per_layer(n),
    ensures
        qv_ops(n, depth, angles).len() == depth * ops_per_layer(n),
        qv_ops(n, depth, angles)[l * ops_per_layer(n) + x] == (layer_rotations(n, l, angles)
            + layer_entanglers(n, l))[x],
    decreases depth,
{
    let per = ops_per_layer(n);
    let d1 = (depth - 1) as nat;
    lemma_qv_len(n, d1, angles);
    let pre = qv_ops(n, d1, angles);
    let lay = layer_rotations(n, d1, angles) + layer_entanglers(n, d1);
    assert(qv_ops(n, depth, angles) =~= pre + lay);
    assert(lay.len() == per);
    assert(d1 * per + per == depth * per) by (nonlinear_arith)
        requires
            d1 + 1 == depth,
    ;
    if l < d1 {
        lemma_layers_in_place(n, d1, angles, l, x);
        assert(l * per + x < d1 * per) by (nonlinear_arith)
            requires
                l < d1,
                x < per,
        ;
    } else {
        assert(l == d1);
    }
}

proof fn lemma_qv_len(n: nat, depth: nat, angles: Seq<u64>)
    ensures
        qv_ops(n, depth, angles).len() == depth * ops_per_layer(n),
    decreases depth,
{
    if depth > 0 {
        let d1 = (depth - 1) as nat;
        lemma_qv_len(n, d1, angles);
        assert(layer_rotations(n, d1, angles).len() == 3 * n);
        assert(layer_entanglers(n, d1).len() == if n > 1 {
            (n - 1) as nat
        } else {
            0nat
        });
        assert(d1 * ops_per_layer(n) + ops_per_layer(n) == depth * ops_per_layer(n))
            by (nonlinear_arith)
            requires
                d1 + 1 == depth,
        ;
        assert(qv_ops(n, depth, angles).len() == qv_ops(n, d1, angles).len() + layer_rotations(
            n,
            d1,
            angles,
        ).len() + layer_entanglers(n, d1).len());
    } else {
        assert(depth * ops_per_layer(n) == 0) by (nonlinear_arith)
            requires
                depth == 0,
        ;
    }
}

/// Every layer of the circuit is laid out alike: in layer `l`, qubit `q`
/// gets `Rz`, `Ry`, `Rz` with the angles `3n·l + 3q`, `+1`, `+2` of the
/// list, and then entangler `k` is a CX from qubit `(k + l) mod n` to its
/// ring neighbour `(k + l + 1) mod n`, a different qubit.
pub proof fn lemma_every_layer_is_euler_then_ring(
    n: nat,
    depth: nat,
    angles: Seq<u64>,
    l: nat,
    q: int,
    t: int,
    k: int,
)
    requires
        l < depth,
        n <= usize::MAX,
    ensures
        qv_ops(n, depth, angles).len() == depth * ops_per_layer(n),
        0 <= q < n && 0 <= t < 3 ==> qv_ops(n, depth, angles)[l * ops_per_layer(n) + 3 * q + t]
            == (OpView {
            kind: if t == 1 {
                GateKind::Ry
            } else {
                GateKind::Rz
            },
            qubits: seq![q as usize],
            params: seq![angles[3 * n * l + 3 * q + t]],
            source_framework: None,
            original_gate_name: None,
        }),
        n > 1 && 0 <= k < n - 1 ==> ({
            let op = qv_ops(n, depth, angles)[l * ops_per_layer(n) + 3 * n + k];
            &&& op.kind == GateKind::Cx && op.params.len() == 0 && op.qubits.len() == 2
            &&& op.qubits[0] == (k + l) % (n as int) && op.qubits[1] == (k + l + 1) % (n as int)
            &&& op.qubits[0] != op.qubits[1]
        }),
{
    lemma_qv_len(n, depth, angles);
    if 0 <= q < n && 0 <= t < 3 {
        lemma_layers_in_place(n, depth, angles, l, 3 * q + t);
        let r = layer_rotations(n, l, angles);
        assert((r + layer_entanglers(n, l))[3 * q + t] == r[3 * q + t]);
        assert((3 * q + t) / 3 == q);
        assert((3 * q + t) % 3 == t);
    }
    if n > 1 && 0 <= k < n - 1 {
        lemma_layers_in_place(n, depth, angles, l, 3 * n + k);
        let r = layer_rotations(n, l, angles);
        let e = layer_entanglers(n, l);
        assert((r + e)[3 * n + k] == e[k]);
        assert(e[k] == entangler_op(n, l, k));
        lemma_next_on_ring_differs(k + l, n as int);
        lemma_mod_pos_bound(k + l, n as int);
        lemma_mod_pos_bound(k + l + 1, n as int);
    }
}

} // verus!

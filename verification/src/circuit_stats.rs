//! Circuit depth and gate-count metrics, always computed on the canonical
//! IR so results are comparable across backends.

use crate::gate::GateKind;
use crate::ir::{Circuit, OpView};
use vstd::prelude::*;

verus! {

/// Number of gate kinds.
pub const NUM_GATE_KINDS: usize = 29;

/// Position of a gate kind in declaration order.
pub open spec fn kind_index(k: GateKind) -> nat {
    match k {
        GateKind::Id => 0,
        GateKind::X => 1,
        GateKind::Y => 2,
        GateKind::Z => 3,
        GateKind::H => 4,
        GateKind::S => 5,
        GateKind::Sdg => 6,
        GateKind::T => 7,
        GateKind::Tdg => 8,
        GateKind::Sx => 9,
        GateKind::Sxdg => 10,
        GateKind::Rx => 11,
        GateKind::Ry => 12,
        GateKind::Rz => 13,
        GateKind::Phase => 14,
        GateKind::U => 15,
        GateKind::Cx => 16,
        GateKind::Cy => 17,
        GateKind::Cz => 18,
        GateKind::Ch => 19,
        GateKind::Csx => 20,
        GateKind::Crx => 21,
        GateKind::Cry => 22,
        GateKind::Crz => 23,
        GateKind::Cp => 24,
        GateKind::Cu => 25,
        GateKind::Swap => 26,
        GateKind::Ccx => 27,
        GateKind::Cswap => 28,
    }
}

/// Position of a gate kind in declaration order.
pub fn kind_position(k: GateKind) -> (i: usize)
    ensures
        i == kind_index(k),
        i < NUM_GATE_KINDS,
{
    match k {
        GateKind::Id => 0,
        GateKind::X => 1,
        GateKind::Y => 2,
        GateKind::Z => 3,
        GateKind::H => 4,
        GateKind::S => 5,
        GateKind::Sdg => 6,
        GateKind::T => 7,
        GateKind::Tdg => 8,
        GateKind::Sx => 9,
        GateKind::Sxdg => 10,
        GateKind::Rx => 11,
        GateKind::Ry => 12,
        GateKind::Rz => 13,
        GateKind::Phase => 14,
        GateKind::U => 15,
        GateKind::Cx => 16,
        GateKind::Cy => 17,
        GateKind::Cz => 18,
        GateKind::Ch => 19,
        GateKind::Csx => 20,
        GateKind::Crx => 21,
        GateKind::Cry => 22,
        GateKind::Crz => 23,
        GateKind::Cp => 24,
        GateKind::Cu => 25,
        GateKind::Swap => 26,
        GateKind::Ccx => 27,
        GateKind::Cswap => 28,
    }
}

/// Gate kind number `i`, counting in declaration order.
pub fn kind_at(i: usize) -> (k: GateKind)
    requires
        i < NUM_GATE_KINDS,
    ensures
        kind_index(k) == i,
{
    match i {
        0 => GateKind::Id,
        1 => GateKind::X,
        2 => GateKind::Y,
        3 => GateKind::Z,
        4 => GateKind::H,
        5 => GateKind::S,
        6 => GateKind::Sdg,
        7 => GateKind::T,
        8 => GateKind::Tdg,
        9 => GateKind::Sx,
        10 => GateKind::Sxdg,
        11 => GateKind::Rx,
        12 => GateKind::Ry,
        13 => GateKind::Rz,
        14 => GateKind::Phase,
        15 => GateKind::U,
        16 => GateKind::Cx,
        17 => GateKind::Cy,
        18 => GateKind::Cz,
        19 => GateKind::Ch,
        20 => GateKind::Csx,
        21 => GateKind::Crx,
        22 => GateKind::Cry,
        23 => GateKind::Crz,
        24 => GateKind::Cp,
        25 => GateKind::Cu,
        26 => GateKind::Swap,
        27 => GateKind::Ccx,
        _ => GateKind::Cswap,
    }
}

/// Number of operations among the first `k` of `ops` whose kind is `kind`.
pub open spec fn count_kind(ops: Seq<OpView>, kind: GateKind, k: int) -> nat
    decreases k,
{
    if k <= 0 {
        0
    } else {
        count_kind(ops, kind, k - 1) + if ops[k - 1].kind == kind {
            1nat
        } else {
            0nat
        }
    }
}

/// How many times each gate kind appears in a circuit.
pub struct KindCounts {
    counts: Vec<usize>,
}

impl KindCounts {
    #[verifier::type_invariant]
    spec fn inv(self) -> bool {
        self.counts.len() == NUM_GATE_KINDS
    }

    /// How many operations of kind `k` were counted.
    pub closed spec fn count_of(self, k: GateKind) -> nat {
        self.counts@[kind_index(k) as int] as nat
    }

    /// The count for `kind`, or `None` when that kind does not occur.
    pub fn get(&self, kind: &GateKind) -> (r: Option<&usize>)
        ensures
            match r {
                Some(c) => *c == self.count_of(*kind) && *c > 0,
                None => self.count_of(*kind) == 0,
            },
    {
        proof {
            use_type_invariant(self);
        }
        let i = kind_position(*kind);
        if self.counts[i] > 0 {
            Some(&self.counts[i])
        } else {
            None
        }
    }

    /// Whether no kind occurs at all.
    pub fn is_empty(&self) -> (b: bool)
        ensures
            b <==> forall|k: GateKind| self.count_of(k) == 0,
    {
        proof {
            use_type_invariant(self);
        }
        let mut i: usize = 0;
        while i < NUM_GATE_KINDS
            invariant
                i <= NUM_GATE_KINDS,
                self.counts.len() == NUM_GATE_KINDS,
                forall|j: int| 0 <= j < i ==> self.counts@[j] == 0,
            decreases NUM_GATE_KINDS - i,
        {
            if self.counts[i] > 0 {
                let k = kind_at(i);
                assert(self.count_of(k) > 0);
                return false;
            }
            i = i + 1;
        }
        assert forall|k: GateKind| self.count_of(k) == 0 by {
            assert(kind_index(k) < NUM_GATE_KINDS);
        }
        true
    }

    /// The kinds that occur, with their counts, in declaration order of
    /// the kinds.
    pub fn entries(&self) -> (es: Vec<(GateKind, usize)>)
        ensures
            forall|i: int|
                0 <= i < es.len() ==> es@[i].1 == self.count_of(es@[i].0) && es@[i].1 > 0,
            forall|i: int, j: int|
                0 <= i < j < es.len() ==> kind_index(es@[i].0) < kind_index(es@[j].0),
            forall|k: GateKind|
                self.count_of(k) > 0 ==> exists|i: int| 0 <= i < es.len() && es@[i].0 == k,
    {
        proof {
            use_type_invariant(self);
        }
        let mut es: Vec<(GateKind, usize)> = Vec::new();
        let mut i: usize = 0;
        while i < NUM_GATE_KINDS
            invariant
                i <= NUM_GATE_KINDS,
                self.counts.len() == NUM_GATE_KINDS,
                forall|m: int|
                    0 <= m < es.len() ==> es@[m].1 == self.count_of(es@[m].0) && es@[m].1 > 0
                        && kind_index(es@[m].0) < i,
                forall|m: int, j: int|
                    0 <= m < j < es.len() ==> kind_index(es@[m].0) < kind_index(es@[j].0),
                forall|k: GateKind|
                    self.count_of(k) > 0 && kind_index(k) < i ==> exists|m: int|
                        0 <= m < es.len() && es@[m].0 == k,
            decreases NUM_GATE_KINDS - i,
        {
            let ghost old_es = es@;
            if self.counts[i] > 0 {
                let k = kind_at(i);
                es.push((k, self.counts[i]));
                assert(es@[es.len() - 1].0 == k);
            }
            proof {
                assert forall|k: GateKind|
                    self.count_of(k) > 0 && kind_index(k) < i + 1 implies exists|m: int|
                    0 <= m < es.len() && es@[m].0 == k by {
                    if kind_index(k) == i {
                        assert(es@[es.len() - 1].0 == k);
                    } else {
                        let m = choose|m: int| 0 <= m < old_es.len() && old_es[m].0 == k;
                        assert(es@[m] == old_es[m]);
                    }
                }
            }
            i = i + 1;
        }
        es
    }
}

/// Per-gate-kind count and total, plus circuit depth.
pub struct CircuitStats {
    /// Total number of gate operations.
    pub gate_count: usize,
    /// Circuit depth: number of sequential layers when independent
    /// operations on different qubits are parallelized.
    pub depth: usize,
    /// How many times each `GateKind` appears.
    pub gate_counts_by_kind: KindCounts,
}

/// The largest layer among the first `j` qubits of `qs`.
pub open spec fn max_layer(layer: Seq<nat>, qs: Seq<usize>, j: int) -> nat
    decreases j,
{
    if j <= 0 {
        0
    } else {
        let m = max_layer(layer, qs, j - 1);
        let v = layer[qs[j - 1] as int];
        if v > m {
            v
        } else {
            m
        }
    }
}

/// The layer of an operation on qubits `qs`: one past the last layer that
/// occupies any of them.
pub open spec fn op_layer(layer: Seq<nat>, qs: Seq<usize>) -> nat {
    max_layer(layer, qs, qs.len() as int) + 1
}

/// The layers after the qubits `qs` become occupied up to layer `v`.
pub open spec fn occupy(layer: Seq<nat>, qs: Seq<usize>, v: nat) -> Seq<nat> {
    Seq::new(layer.len(), |i: int| if qs.contains(i as usize) { v } else { layer[i] })
}

/// The layer at which each of the `n` qubits is last occupied, and the
/// deepest layer so far, after the first `k` operations of `ops`.
pub open spec fn depth_state(ops: Seq<OpView>, n: nat, k: int) -> (Seq<nat>, nat)
    decreases k,
{
    if k <= 0 {
        (Seq::new(n, |i: int| 0nat), 0nat)
    } else {
        let (layer, d) = depth_state(ops, n, k - 1);
        let v = op_layer(layer, ops[k - 1].qubits);
        (occupy(layer, ops[k - 1].qubits, v), if v > d {
            v
        } else {
            d
        })
    }
}

/// The depth of a circuit over `n` qubits: the critical path, where each
/// operation's layer is one more than the latest layer of any of its
/// qubits.
pub open spec fn circuit_depth(ops: Seq<OpView>, n: nat) -> nat {
    depth_state(ops, n, ops.len() as int).1
}

/// Every operation references only qubits below `n`.
pub open spec fn qubits_in_range(ops: Seq<OpView>, n: nat) -> bool {
    forall|i: int, j: int|
        0 <= i < ops.len() && 0 <= j < ops[i].qubits.len() ==> #[trigger] ops[i].qubits[j] < n
}

proof fn lemma_max_layer_bound(layer: Seq<nat>, qs: Seq<usize>, j: int, b: nat)
    requires
        forall|i: int| 0 <= i < layer.len() ==> layer[i] <= b,
        forall|i: int| 0 <= i < qs.len() ==> qs[i] < layer.len(),
        j <= qs.len(),
    ensures
        max_layer(layer, qs, j) <= b,
    decreases j,
{
    if j > 0 {
        lemma_max_layer_bound(layer, qs, j - 1, b);
    }
}

proof fn lemma_depth_state_bounds(ops: Seq<OpView>, n: nat, k: int)
    requires
        0 <= k <= ops.len(),
        qubits_in_range(ops, n),
    ensures
        depth_state(ops, n, k).0.len() == n,
        forall|i: int| 0 <= i < n ==> depth_state(ops, n, k).0[i] <= k,
        depth_state(ops, n, k).1 <= k,
        k > 0 ==> depth_state(ops, n, k).1 >= 1,
    decreases k,
{
    if k > 0 {
        lemma_depth_state_bounds(ops, n, k - 1);
        let (layer, d) = depth_state(ops, n, k - 1);
        let qs = ops[k - 1].qubits;
        assert forall|i: int| 0 <= i < qs.len() implies qs[i] < layer.len() by {
            assert(ops[k - 1].qubits[i] < n);
        }
        lemma_max_layer_bound(layer, qs, qs.len() as int, (k - 1) as nat);
    }
}

proof fn lemma_count_kind_bound(ops: Seq<OpView>, kind: GateKind, k: int)
    ensures
        count_kind(ops, kind, k) <= if k < 0 {
            0
        } else {
            k
        },
    decreases k,
{
    if k > 0 {
        lemma_count_kind_bound(ops, kind, k - 1);
    }
}

/// Computes circuit statistics from the canonical IR.
///
/// Depth is calculated as the critical path: for each operation, its
/// layer is 1 + max(layer of previous operations on any of its qubits).
pub fn compute_stats(circuit: &Circuit) -> (stats: CircuitStats)
    requires
        qubits_in_range(circuit@.operations, circuit@.qubits.len()),
    ensures
        stats.gate_count == circuit@.operations.len(),
        stats.depth == circuit_depth(circuit@.operations, circuit@.qubits.len()),
        forall|k: GateKind|
            #![trigger stats.gate_counts_by_kind.count_of(k)]
            stats.gate_counts_by_kind.count_of(k) == count_kind(
                circuit@.operations,
                k,
                circuit@.operations.len() as int,
            ),
        stats.depth <= stats.gate_count,
        stats.gate_count > 0 ==> stats.depth >= 1,
{
    let n = circuit.num_qubits();
    let ghost ops = circuit@.operations;
    let ghost nn = n as nat;
    let mut qubit_layer: Vec<usize> = Vec::new();
    let mut i: usize = 0;
    while i < n
        invariant
            i <= n,
            qubit_layer@.len() == i,
            forall|j: int| 0 <= j < i ==> qubit_layer@[j] == 0,
        decreases n - i,
    {
        qubit_layer.push(0);
        i = i + 1;
    }
    let mut counts: Vec<usize> = Vec::new();
    let mut i: usize = 0;
    while i < NUM_GATE_KINDS
        invariant
            i <= NUM_GATE_KINDS,
            counts@.len() == i,
            forall|j: int| 0 <= j < i ==> counts@[j] == 0,
        decreases NUM_GATE_KINDS - i,
    {
        counts.push(0);
        i = i + 1;
    }
    let mut max_depth: usize = 0;
    let mut k: usize = 0;
    assert(qubit_layer@.map_values(|x: usize| x as nat) =~= depth_state(ops, nn, 0).0);
    while k < circuit.operations.len()
        invariant
            k <= circuit.operations.len(),
            ops == circuit@.operations,
            n == circuit@.qubits.len(),
            nn == n,
            qubits_in_range(ops, nn),
            qubit_layer@.len() == n,
            qubit_layer@.map_values(|x: usize| x as nat) == depth_state(ops, nn, k as int).0,
            max_depth == depth_state(ops, nn, k as int).1,
            counts@.len() == NUM_GATE_KINDS,
            forall|kind: GateKind|
                #![trigger kind_index(kind)]
                counts@[kind_index(kind) as int] == count_kind(ops, kind, k as int),
        decreases circuit.operations.len() - k,
    {
        proof {
            lemma_depth_state_bounds(ops, nn, k as int);
        }
        let op = &circuit.operations[k];
        assert(op@ == ops[k as int]);
        let ghost layer = depth_state(ops, nn, k as int).0;
        let ghost qs = op.qubits@;
        assert forall|t: int| 0 <= t < qs.len() implies qs[t] < n by {
            assert(ops[k as int].qubits[t] < nn);
        }
        // Largest layer among the operation's qubits.
        let mut m: usize = 0;
        let mut j: usize = 0;
        while j < op.qubits.len()
            invariant
                j <= op.qubits.len(),
                qs == op.qubits@,
                qubit_layer@.len() == n,
                layer == qubit_layer@.map_values(|x: usize| x as nat),
                forall|t: int| 0 <= t < qs.len() ==> qs[t] < n,
                m == max_layer(layer, qs, j as int),
            decreases op.qubits.len() - j,
        {
            let q = op.qubits[j];
            assert(layer[q as int] == qubit_layer@[q as int]);
            if qubit_layer[q] > m {
                m = qubit_layer[q];
            }
            j = j + 1;
        }
        proof {
            assert forall|t: int| 0 <= t < qs.len() implies qs[t] < layer.len() by {
                assert(ops[k as int].qubits[t] < nn);
            }
            lemma_max_layer_bound(layer, qs, qs.len() as int, k as nat);
        }
        let op_layer_v = m + 1;
        let mut j: usize = 0;
        while j < op.qubits.len()
            invariant
                j <= op.qubits.len(),
                qs == op.qubits@,
                qubit_layer@.len() == n,
                layer.len() == n,
                forall|t: int| 0 <= t < qs.len() ==> qs[t] < n,
                qubit_layer@.map_values(|x: usize| x as nat) =~= occupy(
                    layer,
                    qs.subrange(0, j as int),
                    op_layer_v as nat,
                ),
            decreases op.qubits.len() - j,
        {
            let q = op.qubits[j];
            let ghost before = qubit_layer@;
            qubit_layer.set(q, op_layer_v);
            j = j + 1;
            assert(qubit_layer@.map_values(|x: usize| x as nat) =~= occupy(
                layer,
                qs.subrange(0, j as int),
                op_layer_v as nat,
            )) by {
                assert forall|t: int| 0 <= t < n implies #[trigger] qs.subrange(0, j as int).contains(
                    t as usize,
                ) == (qs.subrange(0, j - 1).contains(t as usize) || t == q) by {
                    if t == q {
                        assert(qs.subrange(0, j as int)[j - 1] == q);
                    }
                    if qs.subrange(0, j - 1).contains(t as usize) {
                        let w = choose|w: int|
                            0 <= w < j - 1 && #[trigger] qs.subrange(0, j - 1)[w] == t as usize;
                        assert(qs.subrange(0, j as int)[w] == t as usize);
                    }
                    if qs.subrange(0, j as int).contains(t as usize) {
                        let w = choose|w: int|
                            0 <= w < j && #[trigger] qs.subrange(0, j as int)[w] == t as usize;
                        if w < j - 1 {
                            assert(qs.subrange(0, j - 1)[w] == t as usize);
                        }
                    }
                }
                assert forall|t: int| 0 <= t < n implies qubit_layer@.map_values(
                    |x: usize| x as nat,
                )[t] == occupy(layer, qs.subrange(0, j as int), op_layer_v as nat)[t] by {
                    assert(before.map_values(|x: usize| x as nat)[t] == occupy(
                        layer,
                        qs.subrange(0, j - 1),
                        op_layer_v as nat,
                    )[t]);
                    assert(qs.subrange(0, j as int).contains(t as usize) == (qs.subrange(
                        0,
                        j - 1,
                    ).contains(t as usize) || t == q));
                }
            }
        }
        assert(qs.subrange(0, qs.len() as int) =~= qs);
        if op_layer_v > max_depth {
            max_depth = op_layer_v;
        }
        let idx = kind_position(op.kind);
        proof {
            lemma_count_kind_bound(ops, op.kind, k as int);
            assert(counts@[kind_index(op.kind) as int] == count_kind(ops, op.kind, k as int));
        }
        counts.set(idx, counts[idx] + 1);
        k = k + 1;
        assert forall|kind: GateKind|
            #![trigger kind_index(kind)]
            counts@[kind_index(kind) as int] == count_kind(ops, kind, k as int) by {
            if kind_index(kind) == idx {
                assert(kind == op.kind) by {
                    assert(kind_index(kind) == kind_index(op.kind));
                }
            } else {
                assert(kind != op.kind);
            }
        }
    }
    proof {
        lemma_depth_state_bounds(ops, nn, ops.len() as int);
    }
    let stats = CircuitStats {
        gate_count: circuit.operations.len(),
        depth: max_depth,
        gate_counts_by_kind: KindCounts { counts },
    };
    assert forall|kind: GateKind| #[trigger]
        stats.gate_counts_by_kind.count_of(kind) == count_kind(
            ops,
            kind,
            ops.len() as int,
        ) by {
        assert(counts@[kind_index(kind) as int] == count_kind(ops, kind, k as int));
    }
    stats
}

// ── The depth law ────────────────────────────────────────────────────────────

/// Two operations act on a common qubit.
pub open spec fn share_qubit(a: OpView, b: OpView) -> bool {
    exists|s: int, t: int|
        0 <= s < a.qubits.len() && 0 <= t < b.qubits.len() && #[trigger] a.qubits[s]
            == #[trigger] b.qubits[t]
}

/// A dependency chain of `ops`: positions in increasing order, each
/// operation sharing a qubit with the next, so that none can run in the
/// same layer as, or before, the one before it.
pub open spec fn is_dependency_chain(ops: Seq<OpView>, chain: Seq<int>) -> bool {
    &&& forall|t: int| 0 <= t < chain.len() ==> 0 <= #[trigger] chain[t] < ops.len()
    &&& forall|t: int|
        0 <= t < chain.len() - 1 ==> #[trigger] chain[t] < chain[t + 1] && share_qubit(
            ops[chain[t]],
            ops[chain[t + 1]],
        )
}

/// The layer that operation `j` is placed in.
spec fn layer_of(ops: Seq<OpView>, n: nat, j: int) -> nat {
    op_layer(depth_state(ops, n, j).0, ops[j].qubits)
}

proof fn lemma_max_layer_ge(layer: Seq<nat>, qs: Seq<usize>, j: int, idx: int)
    requires
        0 <= idx < j <= qs.len(),
    ensures
        max_layer(layer, qs, j) >= layer[qs[idx] as int],
    decreases j,
{
    if idx < j - 1 {
        lemma_max_layer_ge(layer, qs, j - 1, idx);
    }
}

/// Once placed, an operation's qubits are busy through its layer: the
/// layer recorded for a qubit never goes down.
proof fn lemma_layers_grow(ops: Seq<OpView>, n: nat, k1: int, k2: int, q: usize)
    requires
        qubits_in_range(ops, n),
        0 <= k1 <= k2 <= ops.len(),
        0 <= q < n,
    ensures
        depth_state(ops, n, k2).0[q as int] >= depth_state(ops, n, k1).0[q as int],
    decreases k2 - k1,
{
    if k1 < k2 {
        lemma_layers_grow(ops, n, k1, k2 - 1, q);
        lemma_depth_state_bounds(ops, n, k2 - 1);
        let layer = depth_state(ops, n, k2 - 1).0;
        let qs = ops[k2 - 1].qubits;
        let v = op_layer(layer, qs);
        assert(depth_state(ops, n, k2).0 == occupy(layer, qs, v));
        assert(layer.len() == n);
        if qs.contains(q) {
            let idx = choose|idx: int| 0 <= idx < qs.len() && qs[idx] == q;
            lemma_max_layer_ge(layer, qs, qs.len() as int, idx);
            assert(layer[q as int] <= max_layer(layer, qs, qs.len() as int));
            assert(occupy(layer, qs, v)[q as int] == v);
        } else {
            assert(occupy(layer, qs, v)[q as int] == layer[q as int]);
        }
        assert(depth_state(ops, n, k2).0[q as int] >= layer[q as int]);
        assert(layer[q as int] >= depth_state(ops, n, k1).0[q as int]);
    }
}

proof fn lemma_layer_placed(ops: Seq<OpView>, n: nat, j: int, s: int)
    requires
        qubits_in_range(ops, n),
        0 <= j < ops.len(),
        0 <= s < ops[j].qubits.len(),
    ensures
        depth_state(ops, n, j + 1).0[ops[j].qubits[s] as int] == layer_of(ops, n, j),
        depth_state(ops, n, j + 1).1 >= layer_of(ops, n, j),
{
    lemma_depth_state_bounds(ops, n, j);
    let qs = ops[j].qubits;
    assert(qs[s] < n);
    assert(qs.contains(qs[s]));
}

proof fn lemma_depth_grows(ops: Seq<OpView>, n: nat, k1: int, k2: int)
    requires
        0 <= k1 <= k2,
    ensures
        depth_state(ops, n, k2).1 >= depth_state(ops, n, k1).1,
    decreases k2 - k1,
{
    if k1 < k2 {
        lemma_depth_grows(ops, n, k1, k2 - 1);
    }
}

/// An operation sharing a qubit with an earlier one is placed in a later
/// layer.
proof fn lemma_shared_qubit_is_later(ops: Seq<OpView>, n: nat, i: int, j: int)
    requires
        qubits_in_range(ops, n),
        0 <= i < j < ops.len(),
        share_qubit(ops[i], ops[j]),
    ensures
        layer_of(ops, n, j) > layer_of(ops, n, i),
{
    let (s, t) = choose|s: int, t: int|
        0 <= s < ops[i].qubits.len() && 0 <= t < ops[j].qubits.len() && #[trigger] ops[i].qubits[s]
            == #[trigger] ops[j].qubits[t];
    let q = ops[i].qubits[s];
    assert(q < n);
    lemma_layer_placed(ops, n, i, s);
    lemma_layers_grow(ops, n, i + 1, j, q);
    assert(depth_state(ops, n, i + 1).0[q as int] == layer_of(ops, n, i));
    lemma_max_layer_ge(depth_state(ops, n, j).0, ops[j].qubits, ops[j].qubits.len() as int, t);
}

proof fn lemma_chain_layers(ops: Seq<OpView>, n: nat, chain: Seq<int>, t: int)
    requires
        qubits_in_range(ops, n),
        is_dependency_chain(ops, chain),
        0 <= t < chain.len(),
    ensures
        layer_of(ops, n, chain[t]) >= t + 1,
    decreases t,
{
    if t > 0 {
        lemma_chain_layers(ops, n, chain, t - 1);
        assert(chain[t - 1] < chain[t]);
        assert(0 <= chain[t - 1] < ops.len());
        assert(0 <= chain[t] < ops.len());
        lemma_shared_qubit_is_later(ops, n, chain[t - 1], chain[t]);
    }
}

/// The depth is at least the length of every dependency chain: after an
/// operation is placed in a layer, all of its qubits (not only the first)
/// stay busy through that layer, so any later operation sharing one of
/// them lands in a deeper layer.
pub proof fn lemma_depth_covers_every_chain(ops: Seq<OpView>, n: nat, chain: Seq<int>)
    requires
        qubits_in_range(ops, n),
        is_dependency_chain(ops, chain),
    ensures
        circuit_depth(ops, n) >= chain.len(),
{
    if chain.len() > 0 {
        let t = chain.len() - 1;
        lemma_chain_layers(ops, n, chain, t);
        let j = chain[t];
        assert(0 <= j < ops.len());
        lemma_depth_state_bounds(ops, n, j);
        if ops[j].qubits.len() > 0 {
            lemma_layer_placed(ops, n, j, 0);
        } else {
            assert(depth_state(ops, n, j + 1).1 >= layer_of(ops, n, j));
        }
        lemma_depth_grows(ops, n, j + 1, ops.len() as int);
    }
}

/// The largest layer among the first `j` qubits is 0 or the layer of one
/// of them.
proof fn lemma_max_layer_attained(layer: Seq<nat>, qs: Seq<usize>, j: int)
    requires
        0 <= j <= qs.len(),
    ensures
        max_layer(layer, qs, j) == 0 || exists|idx: int|
            0 <= idx < j && layer[qs[idx] as int] == max_layer(layer, qs, j),
    decreases j,
{
    if j > 0 {
        lemma_max_layer_attained(layer, qs, j - 1);
        let m = max_layer(layer, qs, j - 1);
        let v = layer[qs[j - 1] as int];
        if v > m {
            assert(layer[qs[j - 1] as int] == max_layer(layer, qs, j));
        } else if m != 0 {
            let idx = choose|idx: int| 0 <= idx < j - 1 && layer[qs[idx] as int] == m;
            assert(layer[qs[idx] as int] == max_layer(layer, qs, j));
        }
    }
}

/// The layer recorded for a qubit is 0, or the layer of an earlier
/// operation on that qubit.
proof fn lemma_layer_source(ops: Seq<OpView>, n: nat, k: int, q: usize)
    requires
        qubits_in_range(ops, n),
        0 <= k <= ops.len(),
        q < n,
    ensures
        depth_state(ops, n, k).0[q as int] == 0 || exists|i: int, s: int|
            0 <= i < k && 0 <= s < ops[i].qubits.len() && ops[i].qubits[s] == q
                && layer_of(ops, n, i) == depth_state(ops, n, k).0[q as int],
    decreases k,
{
    if k > 0 {
        lemma_layer_source(ops, n, k - 1, q);
        lemma_depth_state_bounds(ops, n, k - 1);
        let layer = depth_state(ops, n, k - 1).0;
        let qs = ops[k - 1].qubits;
        let v = op_layer(layer, qs);
        assert(depth_state(ops, n, k).0 == occupy(layer, qs, v));
        if qs.contains(q) {
            let s = choose|s: int| 0 <= s < qs.len() && qs[s] == q;
            assert(occupy(layer, qs, v)[q as int] == v);
            assert(layer_of(ops, n, k - 1) == v);
        } else {
            assert(occupy(layer, qs, v)[q as int] == layer[q as int]);
        }
    }
}

/// A dependency chain that ends at operation `j` and is as long as the
/// layer `j` is placed in.
proof fn lemma_chain_to(ops: Seq<OpView>, n: nat, j: int) -> (chain: Seq<int>)
    requires
        qubits_in_range(ops, n),
        0 <= j < ops.len(),
    ensures
        is_dependency_chain(ops, chain),
        chain.len() == layer_of(ops, n, j),
        chain.len() > 0 && chain.last() == j,
    decreases j,
{
    lemma_depth_state_bounds(ops, n, j);
    let layer = depth_state(ops, n, j).0;
    let qs = ops[j].qubits;
    lemma_max_layer_attained(layer, qs, qs.len() as int);
    let m = max_layer(layer, qs, qs.len() as int);
    if m == 0 {
        let c = seq![j];
        assert(is_dependency_chain(ops, c));
        c
    } else {
        let t = choose|t: int| 0 <= t < qs.len() && layer[qs[t] as int] == m;
        let q = qs[t];
        assert(q < n);
        lemma_layer_source(ops, n, j, q);
        let (i, s) = choose|i: int, s: int|
            0 <= i < j && 0 <= s < ops[i].qubits.len() && ops[i].qubits[s] == q && layer_of(
                ops,
                n,
                i,
            ) == layer[q as int];
        let prev = lemma_chain_to(ops, n, i);
        let c = prev.push(j);
        assert(share_qubit(ops[i], ops[j])) by {
            assert(ops[i].qubits[s] == ops[j].qubits[t]);
        }
        assert forall|u: int| 0 <= u < c.len() implies 0 <= #[trigger] c[u] < ops.len() by {
            if u < prev.len() {
                assert(c[u] == prev[u]);
            }
        }
        assert forall|u: int| 0 <= u < c.len() - 1 implies #[trigger] c[u] < c[u + 1]
            && share_qubit(ops[c[u]], ops[c[u + 1]]) by {
            if u < prev.len() - 1 {
                assert(c[u] == prev[u] && c[u + 1] == prev[u + 1]);
            } else {
                assert(c[u] == i && c[u + 1] == j);
            }
        }
        c
    }
}

/// The depth is 0 or the layer of some operation.
proof fn lemma_depth_attained(ops: Seq<OpView>, n: nat, k: int)
    requires
        0 <= k <= ops.len(),
    ensures
        depth_state(ops, n, k).1 == 0 || exists|j: int|
            0 <= j < k && layer_of(ops, n, j) == depth_state(ops, n, k).1,
    decreases k,
{
    if k > 0 {
        lemma_depth_attained(ops, n, k - 1);
        let v = layer_of(ops, n, k - 1);
        if v > depth_state(ops, n, k - 1).1 {
            assert(depth_state(ops, n, k).1 == v);
        } else if depth_state(ops, n, k - 1).1 != 0 {
            let j = choose|j: int|
                0 <= j < k - 1 && layer_of(ops, n, j) == depth_state(ops, n, k - 1).1;
            assert(layer_of(ops, n, j) == depth_state(ops, n, k).1);
        }
    }
}

/// The depth is exactly the length of the longest dependency chain: no
/// chain is longer (see [`lemma_depth_covers_every_chain`]), and some
/// chain is as long, so an operation is never placed deeper than its
/// dependencies force.
pub proof fn lemma_depth_is_longest_chain(ops: Seq<OpView>, n: nat)
    requires
        qubits_in_range(ops, n),
    ensures
        exists|chain: Seq<int>|
            #[trigger] is_dependency_chain(ops, chain) && chain.len() == circuit_depth(ops, n),
        forall|chain: Seq<int>|
            #[trigger] is_dependency_chain(ops, chain) ==> chain.len() <= circuit_depth(ops, n),
{
    lemma_depth_attained(ops, n, ops.len() as int);
    if circuit_depth(ops, n) == 0 {
        let c = Seq::<int>::empty();
        assert(is_dependency_chain(ops, c) && c.len() == circuit_depth(ops, n));
    } else {
        let j = choose|j: int|
            0 <= j < ops.len() && layer_of(ops, n, j) == depth_state(ops, n, ops.len() as int).1;
        let c = lemma_chain_to(ops, n, j);
        assert(is_dependency_chain(ops, c) && c.len() == circuit_depth(ops, n));
    }
    assert forall|chain: Seq<int>| #[trigger] is_dependency_chain(ops, chain) implies chain.len()
        <= circuit_depth(ops, n) by {
        lemma_depth_covers_every_chain(ops, n, chain);
    }
}

proof fn lemma_count_kind_prefix(ops: Seq<OpView>, op: OpView, kind: GateKind, k: int)
    requires
        0 <= k <= ops.len(),
    ensures
        count_kind(ops.push(op), kind, k) == count_kind(ops, kind, k),
    decreases k,
{
    if k > 0 {
        lemma_count_kind_prefix(ops, op, kind, k - 1);
        assert(ops.push(op)[k - 1] == ops[k - 1]);
    }
}

/// Gate counting: an empty circuit counts no gate of any kind, and one
/// more operation adds one to the count of its own kind and nothing to
/// the others.
pub proof fn lemma_counts_add_up(ops: Seq<OpView>, op: OpView, kind: GateKind)
    ensures
        count_kind(Seq::<OpView>::empty(), kind, 0) == 0,
        count_kind(ops.push(op), kind, ops.len() + 1int) == count_kind(ops, kind, ops.len() as int)
            + if op.kind == kind {
            1int
        } else {
            0int
        },
{
    lemma_count_kind_prefix(ops, op, kind, ops.len() as int);
    assert(ops.push(op)[ops.len() as int] == op);
}

} // verus!

//! Typed random gate selection over the IR.
//!
//! Convention-sensitive gates (the diagonal phase family and the discrete
//! complex gates) are weighted 5× relative to plain Paulis: phase
//! convention bugs only surface when a bugged gate meets a correctly
//! implemented complex gate, so the generator biases the search toward
//! exactly those mixtures. This module chooses each gate and its distinct
//! qubit operands; the random angles of parametric gates are drawn by the
//! caller.

use crate::gate::GateKind;
use rand::rngs::StdRng;
use rand::Rng;
use vstd::prelude::*;

verus! {

#[verifier::external_type_specification]
#[verifier::external_body]
pub struct ExStdRng(StdRng);

/// Calls `rand::Rng::gen_range(0..bound)` on a `u32` range. The value is
/// random: only its range is stated, the distribution is not.
#[verifier::external_body]
fn draw_below_u32(rng: &mut StdRng, bound: u32) -> (r: u32)
    requires
        bound > 0,
    ensures
        r < bound,
{
    rng.gen_range(0..bound)
}

/// Calls `rand::Rng::gen_range(0..bound)` on a `usize` range. The value is
/// random: only its range is stated, the distribution is not.
#[verifier::external_body]
fn draw_below_usize(rng: &mut StdRng, bound: usize) -> (r: usize)
    requires
        bound > 0,
    ensures
        r < bound,
{
    rng.gen_range(0..bound)
}

/// Gate pool with sampling weights, in the order in which the draw walks
/// it. Phase-family and complex discrete gates carry weight 5;
/// structural/real gates fill out coverage.
pub open spec fn gate_weights() -> Seq<(GateKind, u32)> {
    seq![
        (GateKind::Rz, 5u32),
        (GateKind::Phase, 5u32),
        (GateKind::Crz, 5u32),
        (GateKind::Cp, 5u32),
        (GateKind::S, 5u32),
        (GateKind::Sdg, 5u32),
        (GateKind::T, 5u32),
        (GateKind::Tdg, 5u32),
        (GateKind::Sx, 5u32),
        (GateKind::Sxdg, 5u32),
        (GateKind::H, 4u32),
        (GateKind::Rx, 2u32),
        (GateKind::Ry, 2u32),
        (GateKind::U, 2u32),
        (GateKind::Cx, 3u32),
        (GateKind::Cy, 1u32),
        (GateKind::Cz, 1u32),
        (GateKind::Ch, 1u32),
        (GateKind::Csx, 2u32),
        (GateKind::Crx, 1u32),
        (GateKind::Cry, 1u32),
        (GateKind::Cu, 1u32),
        (GateKind::X, 1u32),
        (GateKind::Y, 1u32),
        (GateKind::Z, 1u32),
        (GateKind::Swap, 1u32),
        (GateKind::Ccx, 1u32),
        (GateKind::Cswap, 1u32),
    ]
}

/// Sampling weights of every gate kind; see [`gate_weights`].
pub fn weight_table() -> (t: Vec<(GateKind, u32)>)
    ensures
        t@ == gate_weights(),
{
    let t = vec![
        (GateKind::Rz, 5u32),
        (GateKind::Phase, 5u32),
        (GateKind::Crz, 5u32),
        (GateKind::Cp, 5u32),
        (GateKind::S, 5u32),
        (GateKind::Sdg, 5u32),
        (GateKind::T, 5u32),
        (GateKind::Tdg, 5u32),
        (GateKind::Sx, 5u32),
        (GateKind::Sxdg, 5u32),
        (GateKind::H, 4u32),
        (GateKind::Rx, 2u32),
        (GateKind::Ry, 2u32),
        (GateKind::U, 2u32),
        (GateKind::Cx, 3u32),
        (GateKind::Cy, 1u32),
        (GateKind::Cz, 1u32),
        (GateKind::Ch, 1u32),
        (GateKind::Csx, 2u32),
        (GateKind::Crx, 1u32),
        (GateKind::Cry, 1u32),
        (GateKind::Cu, 1u32),
        (GateKind::X, 1u32),
        (GateKind::Y, 1u32),
        (GateKind::Z, 1u32),
        (GateKind::Swap, 1u32),
        (GateKind::Ccx, 1u32),
        (GateKind::Cswap, 1u32),
    ];
    assert(t@ =~= gate_weights());
    t
}

/// The entries of `t` whose gate acts on at most `max_qubits` qubits, in
/// order.
pub open spec fn eligible(t: Seq<(GateKind, u32)>, max_qubits: nat) -> Seq<(GateKind, u32)>
    decreases t.len(),
{
    if t.len() == 0 {
        seq![]
    } else {
        eligible(t.drop_last(), max_qubits) + if t.last().0.arity() <= max_qubits {
            seq![t.last()]
        } else {
            seq![]
        }
    }
}

/// Sum of the weights of `t`.
pub open spec fn total_weight(t: Seq<(GateKind, u32)>) -> nat
    decreases t.len(),
{
    if t.len() == 0 {
        0
    } else {
        total_weight(t.drop_last()) + t.last().1 as nat
    }
}

/// Kind that a roll selects from a weighted list: the first entry
/// whose cumulative weight exceeds the roll, or the last entry.
pub open spec fn weighted_pick(t: Seq<(GateKind, u32)>, roll: int) -> GateKind
    decreases t.len(),
{
    if t.len() <= 1 || roll < t[0].1 {
        t[0].0
    } else {
        weighted_pick(t.drop_first(), roll - t[0].1)
    }
}

proof fn lemma_eligible_members(t: Seq<(GateKind, u32)>, m: nat)
    ensures
        forall|i: int|
            0 <= i < eligible(t, m).len() ==> (#[trigger] eligible(t, m)[i]).0.arity() <= m,
    decreases t.len(),
{
    if t.len() > 0 {
        lemma_eligible_members(t.drop_last(), m);
        let e = eligible(t.drop_last(), m);
        assert forall|i: int|
            0 <= i < eligible(t, m).len() implies (#[trigger] eligible(t, m)[i]).0.arity()
            <= m by {
            if i < e.len() {
                assert(eligible(t, m)[i] == e[i]);
            }
        }
    }
}

proof fn lemma_weighted_pick_member(t: Seq<(GateKind, u32)>, roll: int)
    requires
        t.len() > 0,
    ensures
        exists|i: int| 0 <= i < t.len() && t[i].0 == weighted_pick(t, roll),
    decreases t.len(),
{
    if t.len() <= 1 || roll < t[0].1 {
        assert(t[0].0 == weighted_pick(t, roll));
    } else {
        lemma_weighted_pick_member(t.drop_first(), roll - t[0].1);
        let i = choose|i: int|
            0 <= i < t.drop_first().len() && t.drop_first()[i].0 == weighted_pick(
                t.drop_first(),
                roll - t[0].1,
            );
        assert(t[i + 1] == t.drop_first()[i]);
    }
}

/// The weight carried by the entries of `t` before position `i`: the
/// rolls below it select one of those entries.
pub open spec fn weight_before(t: Seq<(GateKind, u32)>, i: int) -> nat {
    total_weight(t.subrange(0, i))
}

proof fn lemma_total_weight_prepend(a: (GateKind, u32), t: Seq<(GateKind, u32)>)
    ensures
        total_weight(seq![a] + t) == a.1 as nat + total_weight(t),
    decreases t.len(),
{
    if t.len() > 0 {
        assert((seq![a] + t).drop_last() =~= seq![a] + t.drop_last());
        assert((seq![a] + t).last() == t.last());
        lemma_total_weight_prepend(a, t.drop_last());
    } else {
        assert(seq![a] + t =~= seq![a]);
        assert(seq![a].drop_last() =~= Seq::<(GateKind, u32)>::empty());
        assert(total_weight(Seq::<(GateKind, u32)>::empty()) == 0);
        assert(seq![a].last() == a);
    }
}

/// Each entry of a weighted list is selected by the rolls of its own
/// stretch: the `t[i].1` rolls from [`weight_before`]`(t, i)` on all pick
/// `t[i].0`. So an entry of weight 5 is drawn by five times as many rolls
/// as an entry of weight 1.
pub proof fn lemma_pick_by_stretch(t: Seq<(GateKind, u32)>, i: int, roll: int)
    requires
        0 <= i < t.len(),
        weight_before(t, i) <= roll < weight_before(t, i) + t[i].1,
    ensures
        weighted_pick(t, roll) == t[i].0,
    decreases t.len(),
{
    if i == 0 {
        assert(t.subrange(0, 0) =~= Seq::<(GateKind, u32)>::empty());
    } else {
        let rest = t.drop_first();
        assert(t.subrange(0, i) =~= seq![t[0]] + rest.subrange(0, i - 1));
        lemma_total_weight_prepend(t[0], rest.subrange(0, i - 1));
        assert(rest[i - 1] == t[i]);
        lemma_pick_by_stretch(rest, i - 1, roll - t[0].1);
    }
}

/// In the weight table, every phase-family gate (`Rz`, `Phase`, `Crz`,
/// `Cp`) and every discrete complex gate (`S`, `Sdg`, `T`, `Tdg`, `Sx`,
/// `Sxdg`) weighs 5, five times as much as each plain Pauli (`X`, `Y`,
/// `Z`), which weighs 1.
pub proof fn lemma_phase_gates_weigh_five_paulis_one()
    ensures
        forall|i: int|
            #![trigger gate_weights()[i]]
            0 <= i < gate_weights().len() ==> {
                let (k, w) = gate_weights()[i];
                &&& (k == GateKind::Rz || k == GateKind::Phase || k == GateKind::Crz || k
                    == GateKind::Cp || k == GateKind::S || k == GateKind::Sdg || k == GateKind::T
                    || k == GateKind::Tdg || k == GateKind::Sx || k == GateKind::Sxdg) ==> w == 5
                &&& (k == GateKind::X || k == GateKind::Y || k == GateKind::Z) ==> w == 1
            },
{
}

/// The entries of the weight table whose gates act on at most
/// `max_qubits` qubits, with their total weight; see [`eligible`] and
/// [`total_weight`].
pub fn eligible_table(max_qubits: usize) -> (r: (Vec<(GateKind, u32)>, u32))
    ensures
        r.0@ == eligible(gate_weights(), max_qubits as nat),
        r.1 == total_weight(r.0@),
        max_qubits > 0 ==> r.0@.len() > 0 && r.1 > 0,
{
    let table = weight_table();
    let ghost m = max_qubits as nat;
    let mut elig: Vec<(GateKind, u32)> = Vec::new();
    let mut total: u32 = 0;
    let mut i: usize = 0;
    while i < table.len()
        invariant
            table@ == gate_weights(),
            i <= table.len(),
            m == max_qubits,
            elig@ == eligible(table@.subrange(0, i as int), m),
            total == total_weight(elig@),
            total <= 5 * i,
            max_qubits > 0 && i >= 1 ==> total >= 5 && elig@.len() > 0,
        decreases table.len() - i,
    {
        let (kind, weight) = table[i];
        assert(weight <= 5);
        let ghost before = elig@;
        assert(table@.subrange(0, i + 1).drop_last() =~= table@.subrange(0, i as int));
        if kind.num_qubits() <= max_qubits {
            elig.push((kind, weight));
            assert(elig@.drop_last() =~= before);
            total = total + weight;
        } else {
            assert(elig@ =~= before + seq![]);
        }
        i = i + 1;
        assert(elig@ =~= eligible(table@.subrange(0, i as int), m));
    }
    assert(table@.subrange(0, table.len() as int) =~= table@);
    (elig, total)
}

/// The kind that `roll` selects from the weighted list `elig`; see
/// [`weighted_pick`].
pub fn pick_by_roll(elig: &Vec<(GateKind, u32)>, roll: u32) -> (k: GateKind)
    requires
        elig@.len() > 0,
        roll < total_weight(elig@),
    ensures
        k == weighted_pick(elig@, roll as int),
{
    let ghost e = elig@;
    let ghost roll0 = roll as int;
    let mut rest = roll;
    let mut j: usize = 0;
    assert(e.subrange(0, e.len() as int) =~= e);
    while j < elig.len() - 1
        invariant
            e == elig@,
            e.len() > 0,
            j < e.len(),
            roll0 == roll,
            weighted_pick(e, roll0) == weighted_pick(
                e.subrange(j as int, e.len() as int),
                rest as int,
            ),
        decreases e.len() - j,
    {
        let (kind, weight) = elig[j];
        let ghost suffix = e.subrange(j as int, e.len() as int);
        assert(suffix[0] == (kind, weight));
        if rest < weight {
            assert(weighted_pick(suffix, rest as int) == kind);
            return kind;
        }
        rest = rest - weight;
        assert(suffix.drop_first() =~= e.subrange(j + 1, e.len() as int));
        j = j + 1;
    }
    assert(e.subrange(j as int, e.len() as int).len() == 1);
    assert(e.subrange(j as int, e.len() as int)[0] == e[j as int]);
    elig[j].0
}

/// Picks a gate kind acting on at most `max_qubits` qubits: one draw of a
/// roll below the total weight of [`eligible_table`], turned into a kind
/// by [`pick_by_roll`].
pub fn pick_gate(rng: &mut StdRng, max_qubits: usize) -> (kind: GateKind)
    requires
        max_qubits > 0,
    ensures
        kind.arity() <= max_qubits,
        exists|roll: int|
            0 <= roll < total_weight(eligible(gate_weights(), max_qubits as nat)) && kind
                == weighted_pick(eligible(gate_weights(), max_qubits as nat), roll),
{
    let (elig, total) = eligible_table(max_qubits);
    let roll = draw_below_u32(rng, total);
    let kind = pick_by_roll(&elig, roll);
    proof {
        lemma_weighted_pick_member(elig@, roll as int);
        lemma_eligible_members(gate_weights(), max_qubits as nat);
    }
    kind
}

/// The qubits `0..n` that remain after the first `k` of `idxs` took
/// theirs.
pub open spec fn remaining_qubits(n: nat, idxs: Seq<usize>) -> Seq<usize>
    decreases idxs.len(),
{
    if idxs.len() == 0 {
        Seq::new(n, |i: int| i as usize)
    } else {
        let before = remaining_qubits(n, idxs.drop_last());
        before.remove(idxs.last() as int)
    }
}

/// The operands that the positions `idxs` take out of the qubits `0..n`,
/// one after the other, without replacement: position `idxs[t]` counts
/// among the qubits left after the first `t` were taken.
pub open spec fn operands_taken(n: nat, idxs: Seq<usize>) -> Seq<usize>
    decreases idxs.len(),
{
    if idxs.len() == 0 {
        seq![]
    } else {
        let before = remaining_qubits(n, idxs.drop_last());
        operands_taken(n, idxs.drop_last()).push(before[idxs.last() as int])
    }
}

/// Each position lies within the qubits left when it is used.
pub open spec fn positions_fit(n: nat, idxs: Seq<usize>) -> bool {
    forall|t: int| 0 <= t < idxs.len() ==> #[trigger] idxs[t] < n - t
}

/// Takes out of the qubits `0..num_qubits`, one after the other, the
/// qubit at each position of `idxs` among those left; see
/// [`operands_taken`]. The qubits taken are distinct and below
/// `num_qubits`.
pub fn take_operands(num_qubits: usize, idxs: &Vec<usize>) -> (q: Vec<usize>)
    requires
        positions_fit(num_qubits as nat, idxs@),
    ensures
        q@ == operands_taken(num_qubits as nat, idxs@),
        q.len() == idxs.len(),
        forall|i: int| 0 <= i < q.len() ==> q@[i] < num_qubits,
        forall|i: int, j: int| 0 <= i < j < q.len() ==> q@[i] != q@[j],
{
    let mut available: Vec<usize> = Vec::new();
    let mut a: usize = 0;
    while a < num_qubits
        invariant
            a <= num_qubits,
            available@ == Seq::new(a as nat, |i: int| i as usize),
        decreases num_qubits - a,
    {
        available.push(a);
        a = a + 1;
        assert(available@ =~= Seq::new(a as nat, |i: int| i as usize));
    }
    let ghost n = num_qubits as nat;
    assert(idxs@.subrange(0, 0) =~= Seq::<usize>::empty());
    let mut qubits: Vec<usize> = Vec::new();
    let mut t: usize = 0;
    while t < idxs.len()
        invariant
            t <= idxs.len(),
            n == num_qubits,
            positions_fit(n, idxs@),
            available@ == remaining_qubits(n, idxs@.subrange(0, t as int)),
            qubits@ == operands_taken(n, idxs@.subrange(0, t as int)),
            qubits.len() == t,
            available.len() == num_qubits - t,
            forall|i: int| 0 <= i < available.len() ==> available@[i] < num_qubits,
            forall|i: int| 0 <= i < qubits.len() ==> qubits@[i] < num_qubits,
            forall|i: int, j: int| 0 <= i < j < available.len() ==> available@[i] != available@[j],
            forall|i: int, j: int| 0 <= i < j < qubits.len() ==> qubits@[i] != qubits@[j],
            forall|i: int, j: int|
                0 <= i < qubits.len() && 0 <= j < available.len() ==> qubits@[i] != available@[j],
        decreases idxs.len() - t,
    {
        let idx = idxs[t];
        assert(idxs@[t as int] < n - t);
        let ghost before = available@;
        let ghost pre = idxs@.subrange(0, t as int);
        let ghost post = idxs@.subrange(0, t + 1);
        assert(post.drop_last() =~= pre);
        assert(post.last() == idx);
        let q = available.remove(idx);
        assert forall|j: int| 0 <= j < available.len() implies available@[j] != q by {
            if j < idx {
                assert(available@[j] == before[j]);
            } else {
                assert(available@[j] == before[j + 1]);
            }
        }
        assert forall|i: int, j: int|
            0 <= i < qubits.len() && 0 <= j < available.len() implies qubits@[i]
            != available@[j] by {
            if j < idx {
                assert(available@[j] == before[j]);
            } else {
                assert(available@[j] == before[j + 1]);
            }
        }
        assert forall|i: int, j: int| 0 <= i < j < available.len() implies available@[i]
            != available@[j] by {
            let bi = if i < idx {
                i
            } else {
                i + 1
            };
            let bj = if j < idx {
                j
            } else {
                j + 1
            };
            assert(available@[i] == before[bi]);
            assert(available@[j] == before[bj]);
        }
        qubits.push(q);
        t = t + 1;
        assert(available@ =~= remaining_qubits(n, post));
        assert(qubits@ =~= operands_taken(n, post));
    }
    assert(idxs@.subrange(0, t as int) =~= idxs@);
    qubits
}

/// Draws one random gate for a circuit over `num_qubits` qubits: its kind
/// (see [`pick_gate`]) and distinct qubit operands, drawn one by one
/// without replacement: the `t`-th draw is a position below
/// `num_qubits - t`, and [`take_operands`] takes the qubit there.
pub fn random_gate_shape(rng: &mut StdRng, num_qubits: usize) -> (shape: (GateKind, Vec<usize>))
    requires
        num_qubits > 0,
    ensures
        shape.0.arity() <= num_qubits,
        shape.1.len() == shape.0.arity(),
        forall|i: int| 0 <= i < shape.1.len() ==> shape.1@[i] < num_qubits,
        forall|i: int, j: int| 0 <= i < j < shape.1.len() ==> shape.1@[i] != shape.1@[j],
        exists|roll: int|
            0 <= roll < total_weight(eligible(gate_weights(), num_qubits as nat)) && shape.0
                == weighted_pick(eligible(gate_weights(), num_qubits as nat), roll),
        exists|idxs: Seq<usize>|
            idxs.len() == shape.0.arity() && positions_fit(num_qubits as nat, idxs) && shape.1@
                == operands_taken(num_qubits as nat, idxs),
{
    let gate = pick_gate(rng, num_qubits);
    let nq = gate.num_qubits();
    let mut idxs: Vec<usize> = Vec::new();
    let mut t: usize = 0;
    while t < nq
        invariant
            t <= nq,
            nq <= num_qubits,
            idxs.len() == t,
            positions_fit(num_qubits as nat, idxs@),
        decreases nq - t,
    {
        let idx = draw_below_usize(rng, num_qubits - t);
        let ghost before = idxs@;
        idxs.push(idx);
        assert forall|s: int| 0 <= s < idxs@.len() implies #[trigger] idxs@[s] < num_qubits - s by {
            if s < t {
                assert(idxs@[s] == before[s]);
            }
        }
        t = t + 1;
    }
    let qubits = take_operands(num_qubits, &idxs);
    (gate, qubits)
}

} // verus!

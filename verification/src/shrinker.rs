//! Delta-debugging shrinker: reduces a diverging circuit to a minimal
//! counterexample while preserving the failure.
//!
//! Two passes: chunked removal (ddmin-style halving) for speed on long
//! circuits, then greedy single-gate removal until a fixed point. The
//! result is 1-minimal: removing any single remaining gate makes the
//! divergence disappear, which is what makes a bug report convincing.

use crate::ir::{ops_view, unnamed_qubits, Circuit, OpView, Operation};
use vstd::prelude::*;

verus! {

/// `sub` consists of the operations of `full` at the strictly increasing
/// positions `kept`.
pub open spec fn kept_from(sub: Seq<OpView>, full: Seq<OpView>, kept: Seq<int>) -> bool {
    &&& kept.len() == sub.len()
    &&& forall|j: int| 0 <= j < kept.len() ==> 0 <= #[trigger] kept[j] < full.len()
    &&& forall|j: int| 0 <= j < kept.len() ==> sub[j] == full[#[trigger] kept[j]]
    &&& forall|a: int, b: int| 0 <= a < b < kept.len() ==> #[trigger] kept[a] < #[trigger] kept[b]
}

/// `sub` is a subsequence of `full`: some operations removed, the rest kept
/// in order.
pub open spec fn is_subsequence(sub: Seq<OpView>, full: Seq<OpView>) -> bool {
    exists|kept: Seq<int>| kept_from(sub, full, kept)
}

/// A circuit over `n` unnamed qubits with the operations `ops`.
pub open spec fn is_rebuilt(c: Circuit, n: nat, ops: Seq<OpView>) -> bool {
    c@.qubits == unnamed_qubits(n) && c@.operations == ops
}

/// The predicate answered `answer` for a circuit over `n` unnamed qubits
/// with the operations `ops`.
pub open spec fn answered<F: Fn(&Circuit) -> bool>(
    f: F,
    n: nat,
    ops: Seq<OpView>,
    answer: bool,
) -> bool {
    exists|c: Circuit| #[trigger] is_rebuilt(c, n, ops) && f.ensures((&c,), answer)
}

/// `ops` without the operations at positions `start..end`.
pub open spec fn cut(ops: Seq<OpView>, start: int, end: int) -> Seq<OpView> {
    ops.subrange(0, start) + ops.subrange(end, ops.len() as int)
}

fn rebuild(num_qubits: usize, ops: &Vec<Operation>) -> (c: Circuit)
    ensures
        is_rebuilt(c, num_qubits as nat, ops_view(ops@)),
{
    let mut c = Circuit::new(num_qubits);
    let mut i: usize = 0;
    while i < ops.len()
        invariant
            i <= ops.len(),
            c@.qubits == unnamed_qubits(num_qubits as nat),
            c@.operations =~= ops_view(ops@.subrange(0, i as int)),
        decreases ops.len() - i,
    {
        c.push(ops[i].clone());
        i = i + 1;
        assert(ops@.subrange(0, i as int) =~= ops@.subrange(0, i - 1).push(ops@[i - 1]));
    }
    assert(ops@.subrange(0, i as int) =~= ops@);
    c
}

fn without_range(ops: &Vec<Operation>, start: usize, end: usize) -> (res: Vec<Operation>)
    requires
        start <= end <= ops.len(),
    ensures
        ops_view(res@) == cut(ops_view(ops@), start as int, end as int),
        res.len() == ops.len() - (end - start),
{
    let mut res: Vec<Operation> = Vec::new();
    let mut i: usize = 0;
    while i < ops.len()
        invariant
            start <= end <= ops.len(),
            i <= ops.len(),
            res.len() == if i <= start {
                i as int
            } else if i <= end {
                start as int
            } else {
                i - (end - start)
            },
            ops_view(res@) =~= cut(
                ops_view(ops@.subrange(0, i as int)),
                if i <= start {
                    i as int
                } else {
                    start as int
                },
                if i <= start {
                    i as int
                } else if i <= end {
                    i as int
                } else {
                    end as int
                },
            ),
        decreases ops.len() - i,
    {
        let ghost old_res = res@;
        if i < start || i >= end {
            res.push(ops[i].clone());
        }
        i = i + 1;
        proof {
            let full = ops_view(ops@.subrange(0, i as int));
            let prev = ops_view(ops@.subrange(0, i - 1));
            assert(ops@.subrange(0, i as int) =~= ops@.subrange(0, i - 1).push(ops@[i - 1]));
            assert(full =~= prev.push(ops@[i - 1]@));
            if i - 1 < start || i - 1 >= end {
                assert(res@ == old_res.push(res@[res.len() - 1]));
                assert(ops_view(res@) =~= ops_view(old_res).push(ops@[i - 1]@));
            } else {
                assert(res@ == old_res);
            }
        }
    }
    assert(ops@.subrange(0, ops.len() as int) =~= ops@);
    res
}

proof fn lemma_cut_keeps_subsequence(
    cur: Seq<OpView>,
    full: Seq<OpView>,
    kept: Seq<int>,
    start: int,
    end: int,
)
    requires
        kept_from(cur, full, kept),
        0 <= start <= end <= cur.len(),
    ensures
        kept_from(cut(cur, start, end), full, cut_indices(kept, start, end)),
{
    let nk = cut_indices(kept, start, end);
    let nc = cut(cur, start, end);
    assert forall|j: int| 0 <= j < nk.len() implies 0 <= #[trigger] nk[j] < full.len() && nc[j]
        == full[nk[j]] by {
        if j < start {
            assert(nk[j] == kept[j]);
        } else {
            assert(nk[j] == kept[j + (end - start)]);
        }
    }
    assert forall|a: int, b: int| 0 <= a < b < nk.len() implies #[trigger] nk[a] < #[trigger] nk[b] by {
        let ia = if a < start {
            a
        } else {
            a + (end - start)
        };
        let ib = if b < start {
            b
        } else {
            b + (end - start)
        };
        assert(nk[a] == kept[ia]);
        assert(nk[b] == kept[ib]);
    }
}

/// `kept` without the entries at positions `start..end`.
pub open spec fn cut_indices(kept: Seq<int>, start: int, end: int) -> Seq<int> {
    kept.subrange(0, start) + kept.subrange(end, kept.len() as int)
}


/// The answer that a predicate gives about the circuit over `n` unnamed
/// qubits with the operations `ops`.
pub open spec fn verdict_of<F: Fn(&Circuit) -> bool>(f: F, n: nat) -> spec_fn(Seq<OpView>) -> bool {
    |ops: Seq<OpView>|
        {
            let (r, c) = choose|r: bool, c: Circuit|
                #![trigger f.ensures((&c,), r)]
                is_rebuilt(c, n, ops) && f.ensures((&c,), r);
            r
        }
}

/// The predicate answers alike about circuits with the same content.
pub open spec fn judges_by_content<F: Fn(&Circuit) -> bool>(f: F) -> bool {
    forall|c1: Circuit, c2: Circuit, r1: bool, r2: bool|
        #![trigger f.ensures((&c1,), r1), f.ensures((&c2,), r2)]
        f.ensures((&c1,), r1) && f.ensures((&c2,), r2) && c1@ == c2@ ==> r1 == r2
}

/// One scan of the chunked pass at chunk size `chunk`, from position
/// `start`: the first chunk whose removal leaves a non-empty failing
/// circuit is removed and the scan starts over.
pub open spec fn chunk_scan(
    ops: Seq<OpView>,
    chunk: int,
    start: int,
    fails: spec_fn(Seq<OpView>) -> bool,
) -> Seq<OpView>
    decreases ops.len(), ops.len() + chunk - start,
{
    if chunk < 1 || start < 0 || start >= ops.len() {
        ops
    } else {
        let end = if start + chunk <= ops.len() {
            start + chunk
        } else {
            ops.len() as int
        };
        let candidate = cut(ops, start, end);
        if candidate.len() > 0 && fails(candidate) {
            chunk_scan(candidate, chunk, 0, fails)
        } else {
            chunk_scan(ops, chunk, end, fails)
        }
    }
}

/// The chunked pass: scans at chunk sizes `chunk`, `chunk / 2`, ..., 1.
pub open spec fn chunk_passes(ops: Seq<OpView>, chunk: int, fails: spec_fn(Seq<OpView>) -> bool) -> Seq<
    OpView,
>
    decreases chunk,
{
    if chunk < 1 {
        ops
    } else {
        chunk_passes(chunk_scan(ops, chunk, 0, fails), chunk / 2, fails)
    }
}

/// One sweep of the single-operation pass from position `i`: an
/// operation whose removal leaves a non-empty failing circuit is removed;
/// also whether anything was.
pub open spec fn single_sweep(
    ops: Seq<OpView>,
    i: int,
    changed: bool,
    fails: spec_fn(Seq<OpView>) -> bool,
) -> (Seq<OpView>, bool)
    decreases ops.len() - i,
{
    if i < 0 || i >= ops.len() {
        (ops, changed)
    } else {
        let candidate = ops.remove(i);
        if candidate.len() > 0 && fails(candidate) {
            single_sweep(candidate, i, true, fails)
        } else {
            single_sweep(ops, i + 1, changed, fails)
        }
    }
}

/// A sweep never lengthens the operations, and reports a change only
/// when it shortened them (or was told one had happened).
pub proof fn lemma_single_sweep(ops: Seq<OpView>, i: int, changed: bool, fails: spec_fn(Seq<OpView>) -> bool)
    ensures
        single_sweep(ops, i, changed, fails).0.len() <= ops.len(),
        single_sweep(ops, i, changed, fails).1 ==> changed || single_sweep(
            ops,
            i,
            changed,
            fails,
        ).0.len() < ops.len(),
    decreases ops.len() - i,
{
    if !(i < 0 || i >= ops.len()) {
        let candidate = ops.remove(i);
        if candidate.len() > 0 && fails(candidate) {
            lemma_single_sweep(candidate, i, true, fails);
        } else {
            lemma_single_sweep(ops, i + 1, changed, fails);
        }
    }
}

/// The single-operation pass: sweeps until a sweep removes nothing.
pub open spec fn sweeps(ops: Seq<OpView>, fails: spec_fn(Seq<OpView>) -> bool) -> Seq<OpView>
    decreases ops.len(),
{
    let next = single_sweep(ops, 0, false, fails);
    if next.1 {
        proof {
            lemma_single_sweep(ops, 0, false, fails);
        }
        sweeps(next.0, fails)
    } else {
        next.0
    }
}

/// What shrinking `ops` gives when `fails` says which operation
/// sequences still fail: the chunked pass from half the length, then the
/// single-operation pass.
pub open spec fn shrunk(ops: Seq<OpView>, fails: spec_fn(Seq<OpView>) -> bool) -> Seq<OpView> {
    sweeps(chunk_passes(ops, (ops.len() / 2) as int, fails), fails)
}

proof fn lemma_verdict_agrees<F: Fn(&Circuit) -> bool>(f: F, n: nat, c: Circuit, ops: Seq<OpView>, r: bool)
    requires
        judges_by_content(f),
        is_rebuilt(c, n, ops),
        f.ensures((&c,), r),
    ensures
        (verdict_of(f, n))(ops) == r,
{
    let (r2, c2) = choose|r2: bool, c2: Circuit|
        #![trigger f.ensures((&c2,), r2)]
        is_rebuilt(c2, n, ops) && f.ensures((&c2,), r2);
    assert(c2@ == c@);
    assert(f.ensures((&c2,), r2));
}

/// Shrinks `circuit` to a 1-minimal counterexample under `still_fails`.
///
/// `still_fails` must return true for the input circuit; the returned
/// circuit then also satisfies it. The result, over the same number of
/// unnamed qubits, keeps a subsequence of the input operations in order,
/// is empty only when the input is, and is 1-minimal: the last time the
/// predicate was asked about the result with any single operation
/// removed, it answered `false`. When the predicate answers alike about
/// circuits with the same content, the result is exactly [`shrunk`]: the
/// chunked pass, then the single-operation pass. The predicate is only
/// ever asked about circuits with at least one operation, so it need admit
/// no others.
pub fn shrink<F: Fn(&Circuit) -> bool>(circuit: &Circuit, still_fails: &F) -> (out: Circuit)
    requires
        forall|c: &Circuit| c.operations.len() > 0 ==> still_fails.requires((c,)),
    ensures
        out@.qubits == unnamed_qubits(circuit@.qubits.len()),
        is_subsequence(out@.operations, circuit@.operations),
        out@.operations.len() == 0 <==> circuit@.operations.len() == 0,
        out@.operations == circuit@.operations || answered(
            *still_fails,
            circuit@.qubits.len(),
            out@.operations,
            true,
        ),
        out@.operations.len() > 1 ==> forall|i: int|
            0 <= i < out@.operations.len() ==> #[trigger] answered(
                *still_fails,
                circuit@.qubits.len(),
                out@.operations.remove(i),
                false,
            ),
        judges_by_content(*still_fails) ==> out@.operations == shrunk(
            circuit@.operations,
            verdict_of(*still_fails, circuit@.qubits.len()),
        ),
{
    let nq = circuit.num_qubits();
    let ghost n = nq as nat;
    let ghost orig = circuit@.operations;
    let mut current: Vec<Operation> = crate::ir::clone_ops(&circuit.operations);
    let ghost mut kept: Seq<int> = Seq::new(orig.len(), |j: int| j);
    assert(kept_from(ops_view(current@), orig, kept));
    let ghost fails = verdict_of(*still_fails, n);
    let ghost judged = judges_by_content(*still_fails);
    let ghost target = shrunk(orig, fails);

    // Pass 1: remove contiguous chunks, halving the chunk size.
    let mut chunk: usize = current.len() / 2;
    while chunk >= 1
        invariant
            forall|c: &Circuit| c.operations.len() > 0 ==> still_fails.requires((c,)),
            n == nq,
            kept_from(ops_view(current@), orig, kept),
            current.len() == 0 <==> orig.len() == 0,
            ops_view(current@) == orig || answered(*still_fails, n, ops_view(current@), true),
            fails == verdict_of(*still_fails, n),
            judged == judges_by_content(*still_fails),
            judged ==> target == sweeps(chunk_passes(ops_view(current@), chunk as int, fails), fails),
        decreases chunk,
    {
        let ghost scan_from = ops_view(current@);
        let mut start: usize = 0;
        while start < current.len()
            invariant
                forall|c: &Circuit| c.operations.len() > 0 ==> still_fails.requires((c,)),
                n == nq,
                chunk >= 1,
                kept_from(ops_view(current@), orig, kept),
                current.len() == 0 <==> orig.len() == 0,
                ops_view(current@) == orig || answered(
                    *still_fails,
                    n,
                    ops_view(current@),
                    true,
                ),
                fails == verdict_of(*still_fails, n),
                judged == judges_by_content(*still_fails),
                judged ==> target == sweeps(chunk_passes(scan_from, chunk as int, fails), fails),
                judged ==> chunk_scan(scan_from, chunk as int, 0, fails) == chunk_scan(
                    ops_view(current@),
                    chunk as int,
                    start as int,
                    fails,
                ),
            decreases current.len(), current.len() + chunk - start,
        {
            let ghost cur = ops_view(current@);
            let end = if chunk <= current.len() - start {
                start + chunk
            } else {
                current.len()
            };
            let candidate = without_range(&current, start, end);
            let mut accepted = false;
            if candidate.len() > 0 {
                let c = rebuild(nq, &candidate);
                assert(ops_view(c.operations@).len() == c.operations.len());
                assert(ops_view(candidate@).len() == candidate.len());
                let verdict = still_fails(&c);
                proof {
                    if judged {
                        lemma_verdict_agrees(*still_fails, n, c, ops_view(candidate@), verdict);
                    }
                }
                if verdict {
                    accepted = true;
                    proof {
                        if judged {
                            assert(chunk_scan(cur, chunk as int, start as int, fails) == chunk_scan(
                                ops_view(candidate@),
                                chunk as int,
                                0,
                                fails,
                            ));
                        }
                        lemma_cut_keeps_subsequence(
                            ops_view(current@),
                            orig,
                            kept,
                            start as int,
                            end as int,
                        );
                        kept = cut_indices(kept, start as int, end as int);
                        assert(is_rebuilt(c, n, ops_view(candidate@)));
                    }
                    current = candidate;
                    start = 0;
                }
            }
            if !accepted {
                proof {
                    if judged {
                        assert(chunk_scan(cur, chunk as int, start as int, fails) == chunk_scan(
                            cur,
                            chunk as int,
                            end as int,
                            fails,
                        ));
                    }
                }
                start = end;
            }
        }
        chunk = chunk / 2;
    }

    // Pass 2: greedy single-gate removal to a fixed point (1-minimal).
    let mut changed = true;
    while changed
        invariant
            forall|c: &Circuit| c.operations.len() > 0 ==> still_fails.requires((c,)),
            n == nq,
            kept_from(ops_view(current@), orig, kept),
            current.len() == 0 <==> orig.len() == 0,
            ops_view(current@) == orig || answered(*still_fails, n, ops_view(current@), true),
            !changed ==> (current.len() > 1 ==> forall|j: int|
                0 <= j < current.len() ==> #[trigger] answered(
                    *still_fails,
                    n,
                    ops_view(current@).remove(j),
                    false,
                )),
            fails == verdict_of(*still_fails, n),
            judged == judges_by_content(*still_fails),
            judged ==> target == if changed {
                sweeps(ops_view(current@), fails)
            } else {
                ops_view(current@)
            },
        decreases current.len() + if changed {
            1int
        } else {
            0int
        },
    {
        changed = false;
        let ghost len_before = current.len();
        let ghost sweep_from = ops_view(current@);
        assert(judged ==> target == sweeps(sweep_from, fails));
        let mut i: usize = 0;
        while i < current.len()
            invariant
                forall|c: &Circuit| c.operations.len() > 0 ==> still_fails.requires((c,)),
                n == nq,
                kept_from(ops_view(current@), orig, kept),
                current.len() == 0 <==> orig.len() == 0,
                ops_view(current@) == orig || answered(
                    *still_fails,
                    n,
                    ops_view(current@),
                    true,
                ),
                changed ==> current.len() < len_before,
                !changed ==> current.len() == len_before,
                !changed ==> forall|j: int|
                    0 <= j < i && current.len() > 1 ==> #[trigger] answered(
                        *still_fails,
                        n,
                        ops_view(current@).remove(j),
                        false,
                    ),
                fails == verdict_of(*still_fails, n),
                judged == judges_by_content(*still_fails),
                judged ==> target == sweeps(sweep_from, fails),
                judged ==> single_sweep(sweep_from, 0, false, fails) == single_sweep(
                    ops_view(current@),
                    i as int,
                    changed,
                    fails,
                ),
            decreases current.len() - i,
        {
            let ghost cur = ops_view(current@);
            let candidate = without_range(&current, i, i + 1);
            proof {
                assert(cut(ops_view(current@), i as int, i + 1) =~= ops_view(current@).remove(
                    i as int,
                ));
            }
            let mut accepted = false;
            if candidate.len() > 0 {
                let c = rebuild(nq, &candidate);
                assert(ops_view(c.operations@).len() == c.operations.len());
                assert(ops_view(candidate@).len() == candidate.len());
                let verdict = still_fails(&c);
                proof {
                    if judged {
                        lemma_verdict_agrees(*still_fails, n, c, ops_view(candidate@), verdict);
                    }
                }
                if verdict {
                    accepted = true;
                    proof {
                        if judged {
                            assert(single_sweep(cur, i as int, changed, fails) == single_sweep(
                                ops_view(candidate@),
                                i as int,
                                true,
                                fails,
                            ));
                        }
                        lemma_cut_keeps_subsequence(
                            ops_view(current@),
                            orig,
                            kept,
                            i as int,
                            i + 1,
                        );
                        kept = cut_indices(kept, i as int, i + 1);
                        assert(is_rebuilt(c, n, ops_view(candidate@)));
                    }
                    current = candidate;
                    changed = true;
                } else {
                    proof {
                        assert(is_rebuilt(c, n, ops_view(current@).remove(i as int)));
                        assert(answered(
                            *still_fails,
                            n,
                            ops_view(current@).remove(i as int),
                            false,
                        ));
                    }
                }
            }
            if !accepted {
                proof {
                    if judged {
                        assert(single_sweep(cur, i as int, changed, fails) == single_sweep(
                            cur,
                            i + 1,
                            changed,
                            fails,
                        ));
                    }
                }
                i = i + 1;
            }
        }
        proof {
            if judged {
                assert(single_sweep(sweep_from, 0, false, fails) == (ops_view(current@), changed));
            }
        }
    }
    let out = rebuild(nq, &current);
    assert(out@.operations == ops_view(current@));
    out
}

} // verus!

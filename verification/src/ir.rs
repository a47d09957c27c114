//! Canonical circuit representation shared by every parser, backend, and
//! metric. Parsers translate framework-specific circuits into this IR;
//! backends and metrics only ever see this IR, which is what makes results
//! comparable across frameworks.
//!
//! Numeric gate parameters are held as the IEEE-754 binary64 bit patterns
//! of the angles (`f64::to_bits`), so that the circuit structure can be
//! reasoned about exactly.

use crate::gate::GateKind;
use vstd::prelude::*;

verus! {

/// A single qubit in a [`Circuit`], identified by its index.
#[derive(Debug, PartialEq, Eq)]
pub struct Qubit {
    pub index: usize,
    /// Optional name as it appeared in the source (e.g. `q[0]`).
    pub name: Option<String>,
}

impl Clone for Qubit {
    fn clone(&self) -> (res: Self)
        ensures
            res == *self,
    {
        Qubit { index: self.index, name: clone_opt_string(&self.name) }
    }
}

/// Copies an optional string.
pub fn clone_opt_string(s: &Option<String>) -> (res: Option<String>)
    ensures
        res == *s,
{
    match s {
        Some(x) => Some(x.clone()),
        None => None,
    }
}

/// A single gate application within a [`Circuit`].
#[derive(Debug, PartialEq)]
pub struct Operation {
    pub kind: GateKind,
    /// Indices of the qubits this operation acts on, in the order
    /// expected by `kind` (e.g. for `Cx`, `qubits[0]` is the control and
    /// `qubits[1]` is the target).
    pub qubits: Vec<usize>,
    /// Numeric parameters (e.g. rotation angles), each held as the
    /// IEEE-754 binary64 bit pattern of the value.
    pub params: Vec<u64>,
    /// Name of the framework this operation came from, if known.
    pub source_framework: Option<String>,
    /// Gate name as the framework spelled it, if it
    /// differs from the canonical `qasm_name`.
    pub original_gate_name: Option<String>,
}

/// The mathematical content of an [`Operation`].
#[verifier::ext_equal]
pub struct OpView {
    pub kind: GateKind,
    pub qubits: Seq<usize>,
    pub params: Seq<u64>,
    pub source_framework: Option<Seq<char>>,
    pub original_gate_name: Option<Seq<char>>,
}

/// The text of an optional string.
pub open spec fn opt_text(s: Option<String>) -> Option<Seq<char>> {
    match s {
        Some(x) => Some(x@),
        None => None,
    }
}

impl View for Operation {
    type V = OpView;

    open spec fn view(&self) -> OpView {
        OpView {
            kind: self.kind,
            qubits: self.qubits@,
            params: self.params@,
            source_framework: opt_text(self.source_framework),
            original_gate_name: opt_text(self.original_gate_name),
        }
    }
}

/// Copies a vector of plain integers.
pub fn copy_vec<T: Copy>(v: &Vec<T>) -> (res: Vec<T>)
    ensures
        res@ == v@,
{
    let mut res: Vec<T> = Vec::new();
    let mut i: usize = 0;
    while i < v.len()
        invariant
            i <= v.len(),
            res@ == v@.subrange(0, i as int),
        decreases v.len() - i,
    {
        res.push(v[i]);
        i = i + 1;
    }
    res
}

impl Clone for Operation {
    fn clone(&self) -> (res: Self)
        ensures
            res@ == self@,
    {
        Operation {
            kind: self.kind,
            qubits: copy_vec(&self.qubits),
            params: copy_vec(&self.params),
            source_framework: clone_opt_string(&self.source_framework),
            original_gate_name: clone_opt_string(&self.original_gate_name),
        }
    }
}

impl Operation {
    /// Builds an operation with no provenance metadata.
    pub fn new(kind: GateKind, qubits: Vec<usize>, params: Vec<u64>) -> (op: Self)
        ensures
            op@ == (OpView {
                kind,
                qubits: qubits@,
                params: params@,
                source_framework: None,
                original_gate_name: None,
            }),
    {
        Operation { kind, qubits, params, source_framework: None, original_gate_name: None }
    }
}

/// An error describing why a [`Circuit`] is not well-formed.
#[derive(Debug, Clone, Copy, PartialEq, Eq, Structural)]
pub enum CircuitError {
    /// An operation referenced a qubit index outside `0..num_qubits`.
    QubitOutOfRange { operation_index: usize, qubit: usize },
    /// An operation's qubit count didn't match what its `GateKind` expects.
    WrongQubitCount { operation_index: usize, expected: usize, found: usize },
    /// An operation's parameter count didn't match what its `GateKind` expects.
    WrongParamCount { operation_index: usize, expected: usize, found: usize },
}

/// A quantum circuit in the canonical intermediate representation: a fixed
/// set of qubits and a sequence of gate applications over them.
#[derive(Debug, PartialEq)]
pub struct Circuit {
    pub qubits: Vec<Qubit>,
    pub operations: Vec<Operation>,
}

/// The mathematical content of a [`Circuit`].
#[verifier::ext_equal]
pub struct CircuitView {
    pub qubits: Seq<Qubit>,
    pub operations: Seq<OpView>,
}

/// The views of a sequence of operations.
pub open spec fn ops_view(ops: Seq<Operation>) -> Seq<OpView> {
    ops.map_values(|o: Operation| o@)
}

impl View for Circuit {
    type V = CircuitView;

    open spec fn view(&self) -> CircuitView {
        CircuitView { qubits: self.qubits@, operations: ops_view(self.operations@) }
    }
}

/// `n` unnamed qubits with indices `0..n`.
pub open spec fn unnamed_qubits(n: nat) -> Seq<Qubit> {
    Seq::new(n, |i: int| Qubit { index: i as usize, name: None })
}

/// The first qubit of `qs` at or after position `j` that is not below `n`.
pub open spec fn first_out_of_range(qs: Seq<usize>, n: nat, j: int) -> Option<usize>
    decreases qs.len() - j,
{
    if j < 0 || j >= qs.len() {
        None
    } else if qs[j] >= n {
        Some(qs[j])
    } else {
        first_out_of_range(qs, n, j + 1)
    }
}

/// The defect of operation `op`, at position `i` in a circuit of `n`
/// qubits, in the order in which validation looks for them.
pub open spec fn op_defect(op: OpView, i: int, n: nat) -> Option<CircuitError> {
    match first_out_of_range(op.qubits, n, 0) {
        Some(q) => Some(CircuitError::QubitOutOfRange { operation_index: i as usize, qubit: q }),
        None => if op.qubits.len() != op.kind.arity() {
            Some(
                CircuitError::WrongQubitCount {
                    operation_index: i as usize,
                    expected: op.kind.arity() as usize,
                    found: op.qubits.len() as usize,
                },
            )
        } else if op.params.len() != op.kind.param_arity() {
            Some(
                CircuitError::WrongParamCount {
                    operation_index: i as usize,
                    expected: op.kind.param_arity() as usize,
                    found: op.params.len() as usize,
                },
            )
        } else {
            None
        },
    }
}

/// The first defect among `ops[i..]`.
pub open spec fn first_defect(ops: Seq<OpView>, n: nat, i: int) -> Option<CircuitError>
    decreases ops.len() - i,
{
    if i < 0 || i >= ops.len() {
        None
    } else {
        match op_defect(ops[i], i, n) {
            Some(e) => Some(e),
            None => first_defect(ops, n, i + 1),
        }
    }
}

/// An operation that references only qubits below `n` and has the qubit
/// and parameter counts its kind expects.
pub open spec fn op_well_formed(op: OpView, n: nat) -> bool {
    &&& forall|j: int| 0 <= j < op.qubits.len() ==> op.qubits[j] < n
    &&& op.qubits.len() == op.kind.arity()
    &&& op.params.len() == op.kind.param_arity()
}

impl CircuitView {
    /// Every operation is well-formed with respect to the qubit count.
    pub open spec fn well_formed(self) -> bool {
        forall|i: int|
            0 <= i < self.operations.len() ==> op_well_formed(
                #[trigger] self.operations[i],
                self.qubits.len(),
            )
    }

    /// The result that validation gives for this circuit.
    pub open spec fn validation(self) -> Result<(), CircuitError> {
        match first_defect(self.operations, self.qubits.len(), 0) {
            Some(e) => Err(e),
            None => Ok(()),
        }
    }
}

proof fn lemma_first_out_of_range_none(qs: Seq<usize>, n: nat, j: int)
    requires
        0 <= j <= qs.len(),
    ensures
        first_out_of_range(qs, n, j) is None <==> forall|k: int| j <= k < qs.len() ==> qs[k] < n,
    decreases qs.len() - j,
{
    if j < qs.len() {
        lemma_first_out_of_range_none(qs, n, j + 1);
    }
}

proof fn lemma_op_defect_none(op: OpView, i: int, n: nat)
    ensures
        op_defect(op, i, n) is None <==> op_well_formed(op, n),
{
    lemma_first_out_of_range_none(op.qubits, n, 0);
}

/// `first_defect(ops, n, i)` is `None` exactly when every operation from
/// position `i` on is well-formed.
pub proof fn lemma_first_defect_none(ops: Seq<OpView>, n: nat, i: int)
    requires
        0 <= i <= ops.len(),
    ensures
        first_defect(ops, n, i) is None <==> forall|k: int|
            i <= k < ops.len() ==> op_well_formed(#[trigger] ops[k], n),
    decreases ops.len() - i,
{
    if i < ops.len() {
        lemma_op_defect_none(ops[i], i, n);
        lemma_first_defect_none(ops, n, i + 1);
    }
}

impl Default for Circuit {
    fn default() -> (c: Self)
        ensures
            c@.qubits.len() == 0,
            c@.operations.len() == 0,
    {
        Circuit { qubits: Vec::new(), operations: Vec::new() }
    }
}

impl Clone for Circuit {
    fn clone(&self) -> (res: Self)
        ensures
            res@ == self@,
    {
        let mut qubits: Vec<Qubit> = Vec::new();
        let mut i: usize = 0;
        while i < self.qubits.len()
            invariant
                i <= self.qubits.len(),
                qubits@ == self.qubits@.subrange(0, i as int),
            decreases self.qubits.len() - i,
        {
            qubits.push(self.qubits[i].clone());
            i = i + 1;
        }
        let operations = clone_ops(&self.operations);
        let res = Circuit { qubits, operations };
        assert(res@.qubits =~= self@.qubits);
        res
    }
}

/// Copies a sequence of operations.
pub fn clone_ops(ops: &Vec<Operation>) -> (res: Vec<Operation>)
    ensures
        ops_view(res@) == ops_view(ops@),
{
    let mut res: Vec<Operation> = Vec::new();
    let mut i: usize = 0;
    while i < ops.len()
        invariant
            i <= ops.len(),
            res@.len() == i,
            ops_view(res@) =~= ops_view(ops@.subrange(0, i as int)),
        decreases ops.len() - i,
    {
        let op = ops[i].clone();
        assert(op@ == ops@[i as int]@);
        let ghost old_res = res@;
        res.push(op);
        assert(res@ == old_res.push(op));
        i = i + 1;
        assert(ops_view(res@) =~= ops_view(ops@.subrange(0, i as int))) by {
            assert forall|k: int| 0 <= k < i implies ops_view(res@)[k] == ops_view(
                ops@.subrange(0, i as int),
            )[k] by {
                assert(ops_view(res@).len() == res@.len());
                if k < i - 1 {
                    assert(ops_view(old_res)[k] == ops_view(ops@.subrange(0, i - 1))[k]);
                    assert(res@[k] == old_res[k]);
                } else {
                    assert(res@[k] == op);
                }
            }
        }
    }
    assert(ops@.subrange(0, ops.len() as int) =~= ops@);
    res
}

impl Circuit {
    /// Creates an empty circuit with `num_qubits` unnamed qubits.
    pub fn new(num_qubits: usize) -> (c: Self)
        ensures
            c@.qubits == unnamed_qubits(num_qubits as nat),
            c@.operations.len() == 0,
    {
        let mut qubits: Vec<Qubit> = Vec::new();
        let mut index: usize = 0;
        while index < num_qubits
            invariant
                index <= num_qubits,
                qubits@ == unnamed_qubits(index as nat),
            decreases num_qubits - index,
        {
            qubits.push(Qubit { index, name: None });
            index = index + 1;
            assert(qubits@ =~= unnamed_qubits(index as nat));
        }
        Circuit { qubits, operations: Vec::new() }
    }

    /// Number of qubits of the circuit.
    pub fn num_qubits(&self) -> (n: usize)
        ensures
            n == self@.qubits.len(),
    {
        self.qubits.len()
    }

    /// Appends an operation to the circuit.
    pub fn push(&mut self, operation: Operation)
        ensures
            final(self)@.qubits == old(self)@.qubits,
            final(self)@.operations == old(self)@.operations.push(operation@),
    {
        self.operations.push(operation);
        assert(final(self)@.operations =~= old(self)@.operations.push(operation@));
    }

    /// Checks that every operation references valid qubit indices and has
    /// the qubit/parameter counts its `GateKind` expects. The first defect
    /// found, operation by operation, is reported.
    pub fn validate(&self) -> (res: Result<(), CircuitError>)
        ensures
            res == self@.validation(),
            res is Ok <==> self@.well_formed(),
    {
        proof {
            lemma_first_defect_none(self@.operations, self@.qubits.len(), 0);
        }
        let num_qubits = self.num_qubits();
        let ghost ops = self@.operations;
        let ghost n = self@.qubits.len();
        let mut operation_index: usize = 0;
        while operation_index < self.operations.len()
            invariant
                operation_index <= self.operations.len(),
                num_qubits == n,
                ops == self@.operations,
                n == self@.qubits.len(),
                first_defect(ops, n, 0) == first_defect(ops, n, operation_index as int),
            decreases self.operations.len() - operation_index,
        {
            let operation = &self.operations[operation_index];
            assert(operation@ == ops[operation_index as int]);
            let mut j: usize = 0;
            while j < operation.qubits.len()
                invariant
                    j <= operation.qubits.len(),
                    first_out_of_range(operation.qubits@, n, 0) == first_out_of_range(
                        operation.qubits@,
                        n,
                        j as int,
                    ),
                    num_qubits == n,
                    operation_index < self.operations.len(),
                    ops == self@.operations,
                    n == self@.qubits.len(),
                    operation@ == ops[operation_index as int],
                    first_defect(ops, n, 0) == first_defect(ops, n, operation_index as int),
                decreases operation.qubits.len() - j,
            {
                let qubit = operation.qubits[j];
                if qubit >= num_qubits {
                    return Err(CircuitError::QubitOutOfRange { operation_index, qubit });
                }
                j = j + 1;
            }
            let expected_qubits = operation.kind.num_qubits();
            if operation.qubits.len() != expected_qubits {
                return Err(
                    CircuitError::WrongQubitCount {
                        operation_index,
                        expected: expected_qubits,
                        found: operation.qubits.len(),
                    },
                );
            }
            let expected_params = operation.kind.num_params();
            if operation.params.len() != expected_params {
                return Err(
                    CircuitError::WrongParamCount {
                        operation_index,
                        expected: expected_params,
                        found: operation.params.len(),
                    },
                );
            }
            operation_index = operation_index + 1;
        }
        Ok(())
    }
}

} // verus!

//! Building a circuit from an OpenQASM 2.0 program: qubit register layout,
//! argument resolution, broadcasting of gates over whole registers, and
//! recursive inlining of user-defined gates.
//!
//! The program arrives as a syntax tree of plain values ([`QasmNode`]).
//! Only gate applications and qubit register declarations matter here;
//! classical registers, measurements, barriers, resets, opaque
//! declarations and conditionals are skipped, since they have no bearing
//! on the unitary part of the circuit that backends simulate.
//!
//! Parameter expressions are evaluated by a caller-supplied evaluator,
//! which is asked for each expression together with the formal parameter
//! bindings in force (none at the top level). Its answers are binary64 bit
//! patterns, and `None` marks an expression that cannot be evaluated.

use crate::error::{ParseError, ParseErrorView};
use crate::gate::GateKind;
use crate::ir::{copy_vec, unnamed_qubits, Circuit, CircuitError, CircuitView, OpView, Operation};
use crate::text::{decimal, decimal_string};
use crate::translate::{chars_match, str_lowercase, translate_gate, translation_of_lowercase};
use vstd::prelude::*;

verus! {

/// A gate argument: one qubit of a register (`q[2]`), or a whole
/// register (`q`).
pub enum QasmArgument {
    Qubit(String, i32),
    Register(String),
}

/// A gate application `name(params) args;`, with its parameter
/// expressions as written.
pub struct QasmCall {
    pub name: String,
    pub args: Vec<QasmArgument>,
    pub params: Vec<String>,
}

/// A user gate definition `gate name(angles) qubits { body }`.
pub struct QasmGateDef {
    pub name: String,
    pub qubits: Vec<String>,
    pub angles: Vec<String>,
    pub body: Vec<QasmCall>,
}

/// A top-level statement of an OpenQASM 2.0 program.
pub enum QasmNode {
    /// `qreg name[size];`
    QReg(String, i32),
    /// A gate application.
    Apply(QasmCall),
    /// A user gate definition.
    Gate(QasmGateDef),
    /// Any statement without bearing on the unitary part of the circuit.
    Other,
}

/// How deep user gates may be nested inside one another.
pub const MAX_INLINE_DEPTH: usize = 32;

/// A parameter evaluator as seen in specifications: the value of an
/// expression under formal parameter bindings, or `None`.
pub type ParamEval = spec_fn(Seq<char>, Seq<(Seq<char>, u64)>) -> Option<u64>;

// ── Registers ────────────────────────────────────────────────────────────────

/// Number of qubits declared by the registers among the first `k`
/// statements.
pub open spec fn declared_before(ast: Seq<QasmNode>, k: int) -> int
    decreases k,
{
    if k <= 0 {
        0
    } else {
        declared_before(ast, k - 1) + match ast[k - 1] {
            QasmNode::QReg(_, size) => size as int,
            _ => 0,
        }
    }
}

/// Number of qubits the program declares; the registers are laid out one
/// after another in declaration order.
pub open spec fn total_qubits(ast: Seq<QasmNode>) -> int {
    declared_before(ast, ast.len() as int)
}

/// Register sizes are non-negative and the qubits they declare can be
/// indexed by `usize`.
pub open spec fn registers_fit(ast: Seq<QasmNode>) -> bool {
    &&& forall|k: int|
        0 <= k < ast.len() ==> (#[trigger] ast[k] matches QasmNode::QReg(_, size) ==> size >= 0)
    &&& total_qubits(ast) <= usize::MAX
}

/// First index and size of the last register named `name` among the
/// first `k` statements.
pub open spec fn register_upto(ast: Seq<QasmNode>, k: int, name: Seq<char>) -> Option<(int, int)>
    decreases k,
{
    if k <= 0 {
        None
    } else {
        match ast[k - 1] {
            QasmNode::QReg(n, size) => if n@ == name {
                Some((declared_before(ast, k - 1), size as int))
            } else {
                register_upto(ast, k - 1, name)
            },
            _ => register_upto(ast, k - 1, name),
        }
    }
}

/// First index and size of the register `name`; a later declaration of
/// the same name replaces an earlier one.
pub open spec fn register_named(ast: Seq<QasmNode>, name: Seq<char>) -> Option<(int, int)> {
    register_upto(ast, ast.len() as int, name)
}

/// The indices `base, base + 1, ..., base + size - 1`.
pub open spec fn index_range(base: int, size: int) -> Seq<usize> {
    Seq::new(size as nat, |i: int| (base + i) as usize)
}

/// The qubit indices that a top-level argument denotes.
pub open spec fn resolve_top(ast: Seq<QasmNode>, arg: QasmArgument) -> Result<
    Seq<usize>,
    ParseErrorView,
> {
    match arg {
        QasmArgument::Qubit(name, index) => match register_named(ast, name@) {
            None => Err(ParseErrorView::UndeclaredQubit(name@)),
            Some((base, size)) => if (index as usize) >= size {
                Err(
                    ParseErrorView::UndeclaredQubit(
                        name@ + "["@ + decimal((index as usize) as nat) + "]"@,
                    ),
                )
            } else {
                Ok(seq![(base + (index as usize)) as usize])
            },
        },
        QasmArgument::Register(name) => match register_named(ast, name@) {
            None => Err(ParseErrorView::UndeclaredQubit(name@)),
            Some((base, size)) => Ok(index_range(base, size)),
        },
    }
}

/// The qubit lists of `args[j..]`, or the first argument's error.
pub open spec fn resolve_top_all(ast: Seq<QasmNode>, args: Seq<QasmArgument>, j: int) -> Result<
    Seq<Seq<usize>>,
    ParseErrorView,
>
    decreases args.len() - j,
{
    if j < 0 || j >= args.len() {
        Ok(seq![])
    } else {
        match resolve_top(ast, args[j]) {
            Err(e) => Err(e),
            Ok(l) => match resolve_top_all(ast, args, j + 1) {
                Err(e) => Err(e),
                Ok(ls) => Ok(seq![l] + ls),
            },
        }
    }
}

// ── Broadcasting ─────────────────────────────────────────────────────────────

/// The longest of the lists.
pub open spec fn max_len(lists: Seq<Seq<usize>>) -> nat
    decreases lists.len(),
{
    if lists.len() == 0 {
        0
    } else {
        let m = max_len(lists.drop_last());
        if lists.last().len() > m {
            lists.last().len()
        } else {
            m
        }
    }
}

/// How many times a gate applies: the length of its longest argument
/// list, or once when it has no arguments.
pub open spec fn broadcast_width(lists: Seq<Seq<usize>>) -> nat {
    if lists.len() == 0 {
        1
    } else {
        max_len(lists)
    }
}

/// Every argument is a single qubit or a register of width `n`.
pub open spec fn broadcast_ok(lists: Seq<Seq<usize>>, n: nat) -> bool {
    forall|k: int| 0 <= k < lists.len() ==> #[trigger] lists[k].len() == 1 || lists[k].len() == n
}

/// The qubits of application number `i` of a broadcast gate: single
/// qubits repeat, registers contribute their `i`-th qubit.
pub open spec fn pick(lists: Seq<Seq<usize>>, i: int) -> Seq<usize> {
    lists.map_values(|v: Seq<usize>| if v.len() == 1 { v[0] } else { v[i] })
}

// ── Parameters ───────────────────────────────────────────────────────────────

/// The text of formal parameter bindings.
pub open spec fn binding_text(b: Seq<(String, u64)>) -> Seq<(Seq<char>, u64)> {
    b.map_values(|p: (String, u64)| (p.0@, p.1))
}

/// Formal parameter names bound to actual values, pair by pair.
pub open spec fn bindings(names: Seq<String>, vals: Seq<u64>) -> Seq<(Seq<char>, u64)> {
    Seq::new(
        if names.len() <= vals.len() { names.len() } else { vals.len() },
        |k: int| (names[k]@, vals[k]),
    )
}

/// The values of `exprs[j..]` under bindings `b`, asked in order; the
/// first expression without a value is reported.
pub open spec fn eval_list(exprs: Seq<String>, b: Seq<(Seq<char>, u64)>, ev: ParamEval, j: int) -> Result<
    Seq<u64>,
    ParseErrorView,
>
    decreases exprs.len() - j,
{
    if j < 0 || j >= exprs.len() {
        Ok(seq![])
    } else {
        match ev(exprs[j]@, b) {
            None => Err(ParseErrorView::InvalidParam(exprs[j]@)),
            Some(v) => match eval_list(exprs, b, ev, j + 1) {
                Err(e) => Err(e),
                Ok(vs) => Ok(seq![v] + vs),
            },
        }
    }
}

/// The evaluator that a closure implements, read through the text of its
/// arguments.
pub open spec fn evaluator_of<F: Fn(&String, &Vec<(String, u64)>) -> Option<u64>>(eval: F) -> ParamEval {
    |e: Seq<char>, b: Seq<(Seq<char>, u64)>|
        {
            let (r, es, bs) = choose|r: Option<u64>, es: String, bs: Vec<(String, u64)>|
                #![trigger call_ensures(eval, (&es, &bs), r)]
                es@ == e && binding_text(bs@) == b && call_ensures(eval, (&es, &bs), r);
            r
        }
}

/// The closure gives one answer for one expression text under one set of
/// bindings.
pub open spec fn answers_by_text<F: Fn(&String, &Vec<(String, u64)>) -> Option<u64>>(eval: F) -> bool {
    forall|e1: String, b1: Vec<(String, u64)>, r1: Option<u64>, e2: String, b2: Vec<(String, u64)>, r2: Option<u64>|
        #![trigger call_ensures(eval, (&e1, &b1), r1), call_ensures(eval, (&e2, &b2), r2)]
        call_ensures(eval, (&e1, &b1), r1) && call_ensures(eval, (&e2, &b2), r2) && e1@ == e2@
            && binding_text(b1@) == binding_text(b2@) ==> r1 == r2
}

// ── User gates ───────────────────────────────────────────────────────────────

/// The last definition of gate `name` among the first `k` statements.
pub open spec fn def_upto(ast: Seq<QasmNode>, k: int, name: Seq<char>) -> Option<QasmGateDef>
    decreases k,
{
    if k <= 0 {
        None
    } else {
        match ast[k - 1] {
            QasmNode::Gate(d) => if d.name@ == name {
                Some(d)
            } else {
                def_upto(ast, k - 1, name)
            },
            _ => def_upto(ast, k - 1, name),
        }
    }
}

/// The definition of gate `name`; a later definition replaces an earlier
/// one.
pub open spec fn def_named(ast: Seq<QasmNode>, name: Seq<char>) -> Option<QasmGateDef> {
    def_upto(ast, ast.len() as int, name)
}

/// The actual qubit bound to the last of the first `k` formal qubit names
/// that reads `name`.
pub open spec fn formal_upto(names: Seq<String>, qubits: Seq<usize>, k: int, name: Seq<char>) -> Option<
    usize,
>
    decreases k,
{
    if k <= 0 {
        None
    } else if names[k - 1]@ == name {
        Some(qubits[k - 1])
    } else {
        formal_upto(names, qubits, k - 1, name)
    }
}

/// The register name an argument mentions.
pub open spec fn arg_name(arg: QasmArgument) -> String {
    match arg {
        QasmArgument::Qubit(n, _) => n,
        QasmArgument::Register(n) => n,
    }
}

/// The actual qubits of the arguments `args[j..]` of a call inside the
/// body of `def`, whose formal qubits are bound to `qubits`. An index
/// after a formal name is ignored.
pub open spec fn resolve_formals(
    def: QasmGateDef,
    qubits: Seq<usize>,
    args: Seq<QasmArgument>,
    j: int,
) -> Result<Seq<usize>, ParseErrorView>
    decreases args.len() - j,
{
    if j < 0 || j >= args.len() {
        Ok(seq![])
    } else {
        match formal_upto(def.qubits@, qubits, def.qubits.len() as int, arg_name(args[j])@) {
            None => Err(ParseErrorView::UndeclaredQubit(arg_name(args[j])@)),
            Some(q) => match resolve_formals(def, qubits, args, j + 1) {
                Err(e) => Err(e),
                Ok(qs) => Ok(seq![q] + qs),
            },
        }
    }
}

// ── Messages ─────────────────────────────────────────────────────────────────

/// `'name'`
pub open spec fn quoted(name: Seq<char>) -> Seq<char> {
    "'"@ + name + "'"@
}

/// Reported when user gates nest deeper than [`MAX_INLINE_DEPTH`].
pub open spec fn depth_exceeded(name: Seq<char>) -> ParseErrorView {
    ParseErrorView::SyntaxError("gate inline depth limit (32) exceeded at "@ + quoted(name))
}

/// Reported when a user gate gets the wrong number of qubits.
pub open spec fn qubit_count_mismatch(name: Seq<char>, expected: nat, got: nat) -> ParseErrorView {
    ParseErrorView::SyntaxError(
        "gate "@ + quoted(name) + " expects "@ + decimal(expected) + " qubits, got "@ + decimal(
            got,
        ),
    )
}

/// Reported when a user gate gets the wrong number of parameters.
pub open spec fn param_count_mismatch(name: Seq<char>, expected: nat, got: nat) -> ParseErrorView {
    ParseErrorView::SyntaxError(
        "gate "@ + quoted(name) + " expects "@ + decimal(expected) + " params, got "@ + decimal(
            got,
        ),
    )
}

/// Reported when the registers a gate is broadcast over differ in size.
pub open spec fn size_mismatch(name: Seq<char>) -> ParseErrorView {
    ParseErrorView::SyntaxError("register size mismatch in gate "@ + quoted(name))
}

/// How a circuit defect reads, as `{:?}` formats it.
pub open spec fn circuit_error_text(e: CircuitError) -> Seq<char> {
    match e {
        CircuitError::QubitOutOfRange { operation_index, qubit } => "QubitOutOfRange { operation_index: "@
            + decimal(operation_index as nat) + ", qubit: "@ + decimal(qubit as nat) + " }"@,
        CircuitError::WrongQubitCount { operation_index, expected, found } =>
            "WrongQubitCount { operation_index: "@ + decimal(operation_index as nat)
            + ", expected: "@ + decimal(expected as nat) + ", found: "@ + decimal(found as nat)
            + " }"@,
        CircuitError::WrongParamCount { operation_index, expected, found } =>
            "WrongParamCount { operation_index: "@ + decimal(operation_index as nat)
            + ", expected: "@ + decimal(expected as nat) + ", found: "@ + decimal(found as nat)
            + " }"@,
    }
}

// ── Expansion ────────────────────────────────────────────────────────────────

/// The operation that a built-in gate application becomes.
pub open spec fn emitted(kind: GateKind, qubits: Seq<usize>, params: Seq<u64>, name: Seq<char>) -> OpView {
    OpView {
        kind,
        qubits,
        params,
        source_framework: Some("openqasm2"@),
        original_gate_name: Some(name),
    }
}

/// Operations `acc` followed by those of `r`, or the error of `r`.
pub open spec fn after<T>(acc: Seq<T>, r: Result<Seq<T>, ParseErrorView>) -> Result<
    Seq<T>,
    ParseErrorView,
> {
    match r {
        Ok(rest) => Ok(acc + rest),
        Err(e) => Err(e),
    }
}

/// The operations that applying gate `name` to `qubits` with `params`
/// yields at inlining depth `depth`: a built-in gate becomes one
/// operation, a user gate is inlined.
pub open spec fn expand_call(
    ast: Seq<QasmNode>,
    name: String,
    qubits: Seq<usize>,
    params: Seq<u64>,
    depth: int,
    ev: ParamEval,
) -> Result<Seq<OpView>, ParseErrorView>
    decreases 34 - depth, 0int,
{
    if depth > 32 {
        Err(depth_exceeded(name@))
    } else {
        match translation_of_lowercase(str_lowercase(name@), params) {
            Some((kind, p)) => Ok(seq![emitted(kind, qubits, p, name@)]),
            None => match def_named(ast, name@) {
                None => Err(ParseErrorView::UnknownGate(name@)),
                Some(def) => if qubits.len() != def.qubits.len() {
                    Err(qubit_count_mismatch(name@, def.qubits@.len(), qubits.len()))
                } else if params.len() != def.angles.len() {
                    Err(param_count_mismatch(name@, def.angles@.len(), params.len()))
                } else {
                    expand_body(ast, def, qubits, params, depth + 1, ev, 0)
                },
            },
        }
    }
}

/// The operations of the calls `def.body[j..]`, with the formal qubits
/// and parameters of `def` bound to `qubits` and `params`.
pub open spec fn expand_body(
    ast: Seq<QasmNode>,
    def: QasmGateDef,
    qubits: Seq<usize>,
    params: Seq<u64>,
    depth: int,
    ev: ParamEval,
    j: int,
) -> Result<Seq<OpView>, ParseErrorView>
    decreases 34 - depth, def.body.len() - j + 1,
{
    if j < 0 || j >= def.body.len() {
        Ok(seq![])
    } else {
        let call = def.body[j];
        match resolve_formals(def, qubits, call.args@, 0) {
            Err(e) => Err(e),
            Ok(qs) => match eval_list(call.params@, bindings(def.angles@, params), ev, 0) {
                Err(e) => Err(e),
                Ok(vals) => match expand_call(ast, call.name, qs, vals, depth, ev) {
                    Err(e) => Err(e),
                    Ok(ops) => after(ops, expand_body(ast, def, qubits, params, depth, ev, j + 1)),
                },
            },
        }
    }
}

/// The operations of applications `i..n` of a gate broadcast over the
/// argument lists `lists`.
pub open spec fn expand_broadcast(
    ast: Seq<QasmNode>,
    name: String,
    lists: Seq<Seq<usize>>,
    vals: Seq<u64>,
    n: int,
    ev: ParamEval,
    i: int,
) -> Result<Seq<OpView>, ParseErrorView>
    decreases n - i,
{
    if i < 0 || i >= n {
        Ok(seq![])
    } else {
        match expand_call(ast, name, pick(lists, i), vals, 0, ev) {
            Err(e) => Err(e),
            Ok(ops) => after(ops, expand_broadcast(ast, name, lists, vals, n, ev, i + 1)),
        }
    }
}

/// The operations of a top-level gate application: its parameters are
/// evaluated, its arguments resolved, and it is applied once per
/// position of the registers it is broadcast over.
pub open spec fn expand_statement(ast: Seq<QasmNode>, call: QasmCall, ev: ParamEval) -> Result<
    Seq<OpView>,
    ParseErrorView,
> {
    match eval_list(call.params@, seq![], ev, 0) {
        Err(e) => Err(e),
        Ok(vals) => match resolve_top_all(ast, call.args@, 0) {
            Err(e) => Err(e),
            Ok(lists) => if !broadcast_ok(lists, broadcast_width(lists)) {
                Err(size_mismatch(call.name@))
            } else {
                expand_broadcast(ast, call.name, lists, vals, broadcast_width(lists) as int, ev, 0)
            },
        },
    }
}

/// The operations of the statements `ast[k..]`.
pub open spec fn expand_program(ast: Seq<QasmNode>, ev: ParamEval, k: int) -> Result<
    Seq<OpView>,
    ParseErrorView,
>
    decreases ast.len() - k,
{
    if k < 0 || k >= ast.len() {
        Ok(seq![])
    } else {
        match ast[k] {
            QasmNode::Apply(call) => match expand_statement(ast, call, ev) {
                Err(e) => Err(e),
                Ok(ops) => after(ops, expand_program(ast, ev, k + 1)),
            },
            _ => expand_program(ast, ev, k + 1),
        }
    }
}

/// The circuit that a program denotes: its registers' qubits and the
/// operations of its gate applications, provided they form a well-formed
/// circuit.
pub open spec fn qasm2_circuit(ast: Seq<QasmNode>, ev: ParamEval) -> Result<
    CircuitView,
    ParseErrorView,
> {
    match expand_program(ast, ev, 0) {
        Err(e) => Err(e),
        Ok(ops) => {
            let c = CircuitView {
                qubits: unnamed_qubits(total_qubits(ast) as nat),
                operations: ops,
            };
            match c.validation() {
                Err(ce) => Err(ParseErrorView::SyntaxError(circuit_error_text(ce))),
                Ok(_) => Ok(c),
            }
        },
    }
}

// ── Executable parts ─────────────────────────────────────────────────────────

proof fn lemma_declared_monotone(ast: Seq<QasmNode>, i: int, j: int)
    requires
        0 <= i <= j <= ast.len(),
        forall|k: int|
            0 <= k < ast.len() ==> (#[trigger] ast[k] matches QasmNode::QReg(_, size) ==> size >= 0),
    ensures
        0 <= declared_before(ast, i) <= declared_before(ast, j),
    decreases j,
{
    if j > 0 {
        if i < j {
            lemma_declared_monotone(ast, i, j - 1);
        } else {
            lemma_declared_monotone(ast, j - 1, j - 1);
        }
        assert(ast[j - 1] matches QasmNode::QReg(_, size) ==> size >= 0);
    }
}

/// First index and size of the register `name`; see [`register_named`].
fn find_register(ast: &Vec<QasmNode>, name: &String) -> (r: Option<(usize, usize)>)
    requires
        registers_fit(ast@),
    ensures
        match register_named(ast@, name@) {
            None => r is None,
            Some((base, size)) => r == Some((base as usize, size as usize)) && 0 <= base && 0
                <= size && base + size <= total_qubits(ast@),
        },
{
    proof {
        lemma_declared_monotone(ast@, 0, ast@.len() as int);
    }
    let mut found: Option<(usize, usize)> = None;
    let mut total: usize = 0;
    let mut i: usize = 0;
    while i < ast.len()
        invariant
            i <= ast.len(),
            registers_fit(ast@),
            total == declared_before(ast@, i as int),
            total <= total_qubits(ast@),
            match register_upto(ast@, i as int, name@) {
                None => found is None,
                Some((base, size)) => found == Some((base as usize, size as usize)) && 0 <= base
                    && 0 <= size && base + size <= declared_before(ast@, i as int),
            },
        decreases ast.len() - i,
    {
        proof {
            lemma_declared_monotone(ast@, i as int + 1, ast@.len() as int);
            lemma_declared_monotone(ast@, i as int, i as int);
        }
        match &ast[i] {
            QasmNode::QReg(n, size) => {
                assert(ast@[i as int] matches QasmNode::QReg(_, sz) ==> sz >= 0);
                let sz = *size as usize;
                if chars_match(n.as_str(), name.as_str()) {
                    found = Some((total, sz));
                }
                total = total + sz;
            },
            _ => {},
        }
        i = i + 1;
    }
    found
}

/// Builds the indices `base, ..., base + size - 1`.
pub(crate) fn index_range_vec(base: usize, size: usize) -> (v: Vec<usize>)
    requires
        base + size <= usize::MAX,
    ensures
        v@ == index_range(base as int, size as int),
{
    let mut v: Vec<usize> = Vec::new();
    let mut i: usize = 0;
    while i < size
        invariant
            i <= size,
            base + size <= usize::MAX,
            v@ == index_range(base as int, i as int),
        decreases size - i,
    {
        v.push(base + i);
        i = i + 1;
        assert(v@ =~= index_range(base as int, i as int));
    }
    v
}

/// `base[index]`
pub(crate) fn indexed_name(name: &String, index: usize) -> (s: String)
    ensures
        s@ == name@ + "["@ + decimal(index as nat) + "]"@,
{
    let mut s = name.clone();
    s.append("[");
    let digits = decimal_string(index);
    s.append(digits.as_str());
    s.append("]");
    s
}

/// The qubit indices of a top-level argument; see [`resolve_top`].
fn resolve_top_arg(ast: &Vec<QasmNode>, arg: &QasmArgument) -> (r: Result<Vec<usize>, ParseError>)
    requires
        registers_fit(ast@),
    ensures
        match r {
            Ok(v) => resolve_top(ast@, *arg) == Ok::<Seq<usize>, ParseErrorView>(v@),
            Err(e) => resolve_top(ast@, *arg) == Err::<Seq<usize>, ParseErrorView>(e@),
        },
{
    match arg {
        QasmArgument::Qubit(name, index) => match find_register(ast, name) {
            None => Err(ParseError::UndeclaredQubit(name.clone())),
            Some((base, size)) => {
                let idx = *index as usize;
                if idx >= size {
                    Err(ParseError::UndeclaredQubit(indexed_name(name, idx)))
                } else {
                    let mut v: Vec<usize> = Vec::new();
                    v.push(base + idx);
                    assert(v@ =~= seq![(base + idx) as usize]);
                    Ok(v)
                }
            },
        },
        QasmArgument::Register(name) => match find_register(ast, name) {
            None => Err(ParseError::UndeclaredQubit(name.clone())),
            Some((base, size)) => Ok(index_range_vec(base, size)),
        },
    }
}

/// The views of a list of qubit lists.
pub open spec fn lists_view(lists: Seq<Vec<usize>>) -> Seq<Seq<usize>> {
    lists.map_values(|v: Vec<usize>| v@)
}

/// The qubit lists of all top-level arguments; see [`resolve_top_all`].
fn resolve_top_args(ast: &Vec<QasmNode>, args: &Vec<QasmArgument>) -> (r: Result<
    Vec<Vec<usize>>,
    ParseError,
>)
    requires
        registers_fit(ast@),
    ensures
        match r {
            Ok(v) => resolve_top_all(ast@, args@, 0) == Ok::<Seq<Seq<usize>>, ParseErrorView>(
                lists_view(v@),
            ),
            Err(e) => resolve_top_all(ast@, args@, 0) == Err::<Seq<Seq<usize>>, ParseErrorView>(
                e@,
            ),
        },
{
    let mut lists: Vec<Vec<usize>> = Vec::new();
    let mut j: usize = 0;
    while j < args.len()
        invariant
            j <= args.len(),
            registers_fit(ast@),
            resolve_top_all(ast@, args@, 0) == after(
                lists_view(lists@),
                resolve_top_all(ast@, args@, j as int),
            ),
        decreases args.len() - j,
    {
        match resolve_top_arg(ast, &args[j]) {
            Err(e) => {
                return Err(e);
            },
            Ok(l) => {
                let ghost before = lists_view(lists@);
                let ghost lv = l@;
                lists.push(l);
                assert(lists_view(lists@) =~= before.push(lv));
                j = j + 1;
                assert(resolve_top_all(ast@, args@, 0) == after(
                    lists_view(lists@),
                    resolve_top_all(ast@, args@, j as int),
                )) by {
                    match resolve_top_all(ast@, args@, j as int) {
                        Ok(ls) => {
                            assert(before + (seq![lv] + ls) =~= before.push(lv) + ls);
                        },
                        Err(_) => {},
                    }
                }
            },
        }
    }
    assert(lists_view(lists@) + seq![] =~= lists_view(lists@));
    Ok(lists)
}

proof fn lemma_max_len(lists: Seq<Seq<usize>>)
    ensures
        forall|k: int| 0 <= k < lists.len() ==> #[trigger] lists[k].len() <= max_len(lists),
        lists.len() > 0 ==> exists|k: int| 0 <= k < lists.len() && #[trigger] lists[k].len() == max_len(lists),
    decreases lists.len(),
{
    if lists.len() > 0 {
        let init = lists.drop_last();
        lemma_max_len(init);
        assert forall|k: int| 0 <= k < lists.len() implies #[trigger] lists[k].len() <= max_len(lists) by {
            if k < lists.len() - 1 {
                assert(lists[k] == init[k]);
            }
        }
        if lists.last().len() <= max_len(init) && init.len() > 0 {
            let k = choose|k: int| 0 <= k < init.len() && #[trigger] init[k].len() == max_len(init);
            assert(lists[k] == init[k]);
        } else {
            assert(lists[lists.len() - 1].len() == max_len(lists));
        }
    }
}

/// The broadcast width of the argument lists, when every list is a
/// single qubit or as long as the longest; see [`broadcast_ok`].
pub(crate) fn broadcast_of(lists: &Vec<Vec<usize>>) -> (r: Option<usize>)
    ensures
        match r {
            Some(n) => n == broadcast_width(lists_view(lists@)) && broadcast_ok(
                lists_view(lists@),
                n as nat,
            ),
            None => !broadcast_ok(
                lists_view(lists@),
                broadcast_width(lists_view(lists@)),
            ),
        },
{
    let ghost lv = lists_view(lists@);
    let mut m: usize = 0;
    let mut i: usize = 0;
    while i < lists.len()
        invariant
            i <= lists.len(),
            lv == lists_view(lists@),
            m == max_len(lv.subrange(0, i as int)),
        decreases lists.len() - i,
    {
        assert(lv.subrange(0, i as int + 1).drop_last() =~= lv.subrange(0, i as int));
        assert(lv[i as int] == lists@[i as int]@);
        if lists[i].len() > m {
            m = lists[i].len();
        }
        i = i + 1;
    }
    assert(lv.subrange(0, lists.len() as int) =~= lv);
    let n: usize = if lists.len() == 0 {
        1
    } else {
        m
    };
    let mut k: usize = 0;
    while k < lists.len()
        invariant
            k <= lists.len(),
            lv == lists_view(lists@),
            n == broadcast_width(lv),
            forall|t: int| 0 <= t < k ==> #[trigger] lv[t].len() == 1 || lv[t].len() == n,
        decreases lists.len() - k,
    {
        assert(lv[k as int] == lists@[k as int]@);
        if lists[k].len() != 1 && lists[k].len() != n {
            return None;
        }
        k = k + 1;
    }
    Some(n)
}

/// The qubits of application number `i` of a broadcast gate; see
/// [`pick`].
pub(crate) fn pick_qubits(lists: &Vec<Vec<usize>>, i: usize) -> (v: Vec<usize>)
    requires
        forall|k: int|
            0 <= k < lists@.len() ==> #[trigger] lists@[k]@.len() == 1 || i < lists@[k]@.len(),
    ensures
        v@ == pick(lists_view(lists@), i as int),
{
    let mut v: Vec<usize> = Vec::new();
    let mut k: usize = 0;
    while k < lists.len()
        invariant
            k <= lists.len(),
            forall|t: int|
                0 <= t < lists@.len() ==> #[trigger] lists@[t]@.len() == 1 || i < lists@[t]@.len(),
            v@ =~= pick(lists_view(lists@), i as int).subrange(0, k as int),
        decreases lists.len() - k,
    {
        let l = &lists[k];
        assert(lists@[k as int]@.len() == 1 || i < lists@[k as int]@.len());
        if l.len() == 1 {
            v.push(l[0]);
        } else {
            v.push(l[i]);
        }
        k = k + 1;
    }
    v
}

proof fn lemma_eval_agrees<F: Fn(&String, &Vec<(String, u64)>) -> Option<u64>>(
    eval: F,
    e: String,
    b: Vec<(String, u64)>,
    r: Option<u64>,
)
    requires
        answers_by_text(eval),
        call_ensures(eval, (&e, &b), r),
    ensures
        (evaluator_of(eval))(e@, binding_text(b@)) == r,
{
    let ev = evaluator_of(eval);
    let (r2, es, bs) = choose|r2: Option<u64>, es: String, bs: Vec<(String, u64)>|
        #![trigger call_ensures(eval, (&es, &bs), r2)]
        es@ == e@ && binding_text(bs@) == binding_text(b@) && call_ensures(eval, (&es, &bs), r2);
    assert(ev(e@, binding_text(b@)) == r2);
    assert(call_ensures(eval, (&es, &bs), r2));
}

/// The values of the expressions `exprs` under bindings `b`; see
/// [`eval_list`].
fn eval_params<F: Fn(&String, &Vec<(String, u64)>) -> Option<u64>>(
    exprs: &Vec<String>,
    b: &Vec<(String, u64)>,
    eval: &F,
) -> (r: Result<Vec<u64>, ParseError>)
    requires
        forall|e: &String, bb: &Vec<(String, u64)>| eval.requires((e, bb)),
        answers_by_text(*eval),
    ensures
        match r {
            Ok(v) => eval_list(exprs@, binding_text(b@), evaluator_of(*eval), 0) == Ok::<
                Seq<u64>,
                ParseErrorView,
            >(v@),
            Err(e) => eval_list(exprs@, binding_text(b@), evaluator_of(*eval), 0) == Err::<
                Seq<u64>,
                ParseErrorView,
            >(e@),
        },
{
    let ghost ev = evaluator_of(*eval);
    let ghost bt = binding_text(b@);
    let mut vals: Vec<u64> = Vec::new();
    let mut j: usize = 0;
    while j < exprs.len()
        invariant
            j <= exprs.len(),
            forall|e: &String, bb: &Vec<(String, u64)>| eval.requires((e, bb)),
            answers_by_text(*eval),
            ev == evaluator_of(*eval),
            bt == binding_text(b@),
            eval_list(exprs@, bt, ev, 0) == after(vals@, eval_list(exprs@, bt, ev, j as int)),
        decreases exprs.len() - j,
    {
        let answer = eval(&exprs[j], b);
        proof {
            lemma_eval_agrees(*eval, exprs@[j as int], *b, answer);
        }
        match answer {
            None => {
                return Err(ParseError::InvalidParam(exprs[j].clone()));
            },
            Some(v) => {
                let ghost before = vals@;
                vals.push(v);
                j = j + 1;
                assert(eval_list(exprs@, bt, ev, 0) == after(
                    vals@,
                    eval_list(exprs@, bt, ev, j as int),
                )) by {
                    match eval_list(exprs@, bt, ev, j as int) {
                        Ok(vs) => {
                            assert(before + (seq![v] + vs) =~= vals@ + vs);
                        },
                        Err(_) => {},
                    }
                }
            },
        }
    }
    assert(vals@ + seq![] =~= vals@);
    Ok(vals)
}

/// The definition of gate `name`; see [`def_named`].
fn find_def<'a>(ast: &'a Vec<QasmNode>, name: &String) -> (r: Option<&'a QasmGateDef>)
    ensures
        match r {
            Some(d) => def_named(ast@, name@) == Some(*d),
            None => def_named(ast@, name@) is None,
        },
{
    let mut found: Option<&QasmGateDef> = None;
    let mut i: usize = 0;
    while i < ast.len()
        invariant
            i <= ast.len(),
            match found {
                Some(d) => def_upto(ast@, i as int, name@) == Some(*d),
                None => def_upto(ast@, i as int, name@) is None,
            },
        decreases ast.len() - i,
    {
        match &ast[i] {
            QasmNode::Gate(d) => {
                if chars_match(d.name.as_str(), name.as_str()) {
                    found = Some(d);
                }
            },
            _ => {},
        }
        i = i + 1;
    }
    found
}

/// The actual qubit bound to the formal qubit `name`; see
/// [`formal_upto`].
fn find_formal(names: &Vec<String>, qubits: &Vec<usize>, name: &String) -> (r: Option<usize>)
    requires
        names@.len() == qubits@.len(),
    ensures
        r == formal_upto(names@, qubits@, names@.len() as int, name@),
{
    let mut found: Option<usize> = None;
    let mut k: usize = 0;
    while k < names.len()
        invariant
            k <= names.len(),
            names@.len() == qubits@.len(),
            found == formal_upto(names@, qubits@, k as int, name@),
        decreases names.len() - k,
    {
        if chars_match(names[k].as_str(), name.as_str()) {
            found = Some(qubits[k]);
        }
        k = k + 1;
    }
    found
}

/// The actual qubits of the arguments of a call inside the body of
/// `def`; see [`resolve_formals`].
fn resolve_formal_args(def: &QasmGateDef, qubits: &Vec<usize>, args: &Vec<QasmArgument>) -> (r:
    Result<Vec<usize>, ParseError>)
    requires
        def.qubits@.len() == qubits@.len(),
    ensures
        match r {
            Ok(v) => resolve_formals(*def, qubits@, args@, 0) == Ok::<
                Seq<usize>,
                ParseErrorView,
            >(v@),
            Err(e) => resolve_formals(*def, qubits@, args@, 0) == Err::<
                Seq<usize>,
                ParseErrorView,
            >(e@),
        },
{
    let mut out: Vec<usize> = Vec::new();
    let mut j: usize = 0;
    while j < args.len()
        invariant
            j <= args.len(),
            def.qubits@.len() == qubits@.len(),
            resolve_formals(*def, qubits@, args@, 0) == after(
                out@,
                resolve_formals(*def, qubits@, args@, j as int),
            ),
        decreases args.len() - j,
    {
        let name = match &args[j] {
            QasmArgument::Qubit(n, _) => n,
            QasmArgument::Register(n) => n,
        };
        assert(*name == arg_name(args@[j as int]));
        match find_formal(&def.qubits, qubits, name) {
            None => {
                return Err(ParseError::UndeclaredQubit(name.clone()));
            },
            Some(q) => {
                let ghost before = out@;
                out.push(q);
                j = j + 1;
                assert(resolve_formals(*def, qubits@, args@, 0) == after(
                    out@,
                    resolve_formals(*def, qubits@, args@, j as int),
                )) by {
                    match resolve_formals(*def, qubits@, args@, j as int) {
                        Ok(qs) => {
                            assert(before + (seq![q] + qs) =~= out@ + qs);
                        },
                        Err(_) => {},
                    }
                }
            },
        }
    }
    assert(out@ + seq![] =~= out@);
    Ok(out)
}

/// Binds the formal parameter names to the actual values, pair by pair.
fn make_bindings(names: &Vec<String>, vals: &Vec<u64>) -> (b: Vec<(String, u64)>)
    requires
        names@.len() == vals@.len(),
    ensures
        binding_text(b@) == bindings(names@, vals@),
        b@.len() == names@.len(),
        forall|t: int|
            0 <= t < b@.len() ==> (#[trigger] b@[t]).0@ == names@[t]@ && b@[t].1 == vals@[t],
{
    let mut b: Vec<(String, u64)> = Vec::new();
    let mut k: usize = 0;
    while k < names.len()
        invariant
            k <= names.len(),
            names@.len() == vals@.len(),
            b@.len() == k,
            forall|t: int| 0 <= t < k ==> #[trigger] b@[t].0@ == names@[t]@ && b@[t].1 == vals@[t],
        decreases names.len() - k,
    {
        b.push((names[k].clone(), vals[k]));
        k = k + 1;
    }
    assert(binding_text(b@) =~= bindings(names@, vals@));
    assert(forall|t: int| 0 <= t < b@.len() ==> (#[trigger] b@[t]).0@ == names@[t]@);
    assert(forall|t: int| 0 <= t < b@.len() ==> (#[trigger] b@[t]).1 == vals@[t]);
    b
}

/// `"{prefix}'{name}'"`
pub(crate) fn quoted_after(prefix: &str, name: &String) -> (s: String)
    ensures
        s@ == prefix@ + quoted(name@),
{
    let mut s = String::from_str(prefix);
    s.append("'");
    s.append(name.as_str());
    s.append("'");
    assert(s@ =~= prefix@ + quoted(name@));
    s
}

/// The message of a user gate called with the wrong number of qubits or
/// parameters; `what` names which.
pub(crate) fn count_mismatch_text(name: &String, expected: usize, got: usize, what: &str) -> (s: String)
    ensures
        s@ == "gate "@ + quoted(name@) + " expects "@ + decimal(expected as nat) + what@
            + decimal(got as nat),
{
    let mut s = quoted_after("gate ", name);
    s.append(" expects ");
    let e = decimal_string(expected);
    s.append(e.as_str());
    s.append(what);
    let g = decimal_string(got);
    s.append(g.as_str());
    s
}

/// `{:?}` of a circuit defect; see [`circuit_error_text`].
pub fn circuit_error_string(e: CircuitError) -> (s: String)
    ensures
        s@ == circuit_error_text(e),
{
    match e {
        CircuitError::QubitOutOfRange { operation_index, qubit } => {
            let mut s = String::from_str("QubitOutOfRange { operation_index: ");
            let a = decimal_string(operation_index);
            s.append(a.as_str());
            s.append(", qubit: ");
            let b = decimal_string(qubit);
            s.append(b.as_str());
            s.append(" }");
            s
        },
        CircuitError::WrongQubitCount { operation_index, expected, found } => {
            let mut s = String::from_str("WrongQubitCount { operation_index: ");
            let a = decimal_string(operation_index);
            s.append(a.as_str());
            s.append(", expected: ");
            let b = decimal_string(expected);
            s.append(b.as_str());
            s.append(", found: ");
            let c = decimal_string(found);
            s.append(c.as_str());
            s.append(" }");
            s
        },
        CircuitError::WrongParamCount { operation_index, expected, found } => {
            let mut s = String::from_str("WrongParamCount { operation_index: ");
            let a = decimal_string(operation_index);
            s.append(a.as_str());
            s.append(", expected: ");
            let b = decimal_string(expected);
            s.append(b.as_str());
            s.append(", found: ");
            let c = decimal_string(found);
            s.append(c.as_str());
            s.append(" }");
            s
        },
    }
}

/// `circuit` with the operations `ops` appended, or the error of `r`.
pub open spec fn extended(circuit: CircuitView, r: Result<Seq<OpView>, ParseErrorView>, out: Result<Circuit, ParseError>) -> bool {
    match r {
        Ok(ops) => out matches Ok(c) && c@.qubits == circuit.qubits && c@.operations
            == circuit.operations + ops,
        Err(e) => out matches Err(x) && x@ == e,
    }
}

/// Applies gate `name` to `qubits` with `params` at inlining depth
/// `depth`, appending its operations to `circuit`; see [`expand_call`].
fn apply_call<F: Fn(&String, &Vec<(String, u64)>) -> Option<u64>>(
    ast: &Vec<QasmNode>,
    name: &String,
    qubits: &Vec<usize>,
    params: &Vec<u64>,
    depth: usize,
    eval: &F,
    circuit: Circuit,
) -> (r: Result<Circuit, ParseError>)
    requires
        depth <= 33,
        forall|e: &String, bb: &Vec<(String, u64)>| eval.requires((e, bb)),
        answers_by_text(*eval),
    ensures
        extended(
            circuit@,
            expand_call(ast@, *name, qubits@, params@, depth as int, evaluator_of(*eval)),
            r,
        ),
    decreases 34 - depth, 0int,
{
    if depth > MAX_INLINE_DEPTH {
        return Err(
            ParseError::SyntaxError(
                quoted_after("gate inline depth limit (32) exceeded at ", name),
            ),
        );
    }
    match translate_gate(name.as_str(), copy_vec(params)) {
        Some((kind, final_params)) => {
            let mut op = Operation::new(kind, copy_vec(qubits), final_params);
            op.source_framework = Some(String::from_str("openqasm2"));
            op.original_gate_name = Some(name.clone());
            let ghost opv = op@;
            let mut c = circuit;
            c.push(op);
            assert(c@.operations =~= circuit@.operations + seq![opv]);
            return Ok(c);
        },
        None => {},
    }
    match find_def(ast, name) {
        None => Err(ParseError::UnknownGate(name.clone())),
        Some(def) => {
            if qubits.len() != def.qubits.len() {
                return Err(
                    ParseError::SyntaxError(
                        count_mismatch_text(name, def.qubits.len(), qubits.len(), " qubits, got "),
                    ),
                );
            }
            if params.len() != def.angles.len() {
                return Err(
                    ParseError::SyntaxError(
                        count_mismatch_text(name, def.angles.len(), params.len(), " params, got "),
                    ),
                );
            }
            inline_body(ast, def, qubits, params, depth + 1, eval, circuit)
        },
    }
}

/// Inlines the body of `def` with its formal qubits and parameters bound
/// to `qubits` and `params`; see [`expand_body`].
fn inline_body<F: Fn(&String, &Vec<(String, u64)>) -> Option<u64>>(
    ast: &Vec<QasmNode>,
    def: &QasmGateDef,
    qubits: &Vec<usize>,
    params: &Vec<u64>,
    depth: usize,
    eval: &F,
    circuit: Circuit,
) -> (r: Result<Circuit, ParseError>)
    requires
        1 <= depth <= 33,
        qubits@.len() == def.qubits@.len(),
        params@.len() == def.angles@.len(),
        forall|e: &String, bb: &Vec<(String, u64)>| eval.requires((e, bb)),
        answers_by_text(*eval),
    ensures
        extended(
            circuit@,
            expand_body(ast@, *def, qubits@, params@, depth as int, evaluator_of(*eval), 0),
            r,
        ),
    decreases 34 - depth, 1int,
{
    let ghost ev = evaluator_of(*eval);
    let ghost ops0 = circuit@.operations;
    let ghost mut acc: Seq<OpView> = seq![];
    let b = make_bindings(&def.angles, params);
    let mut c = circuit;
    let mut j: usize = 0;
    while j < def.body.len()
        invariant
            j <= def.body.len(),
            1 <= depth <= 33,
            qubits@.len() == def.qubits@.len(),
            params@.len() == def.angles@.len(),
            forall|e: &String, bb: &Vec<(String, u64)>| eval.requires((e, bb)),
            answers_by_text(*eval),
            ev == evaluator_of(*eval),
            binding_text(b@) == bindings(def.angles@, params@),
            c@.qubits == circuit@.qubits,
            c@.operations == ops0 + acc,
            ops0 == circuit@.operations,
            expand_body(ast@, *def, qubits@, params@, depth as int, ev, 0) == after(
                acc,
                expand_body(ast@, *def, qubits@, params@, depth as int, ev, j as int),
            ),
        decreases def.body.len() - j,
    {
        let call = &def.body[j];
        let qs = match resolve_formal_args(def, qubits, &call.args) {
            Err(e) => {
                return Err(e);
            },
            Ok(qs) => qs,
        };
        let vals = match eval_params(&call.params, &b, eval) {
            Err(e) => {
                return Err(e);
            },
            Ok(vals) => vals,
        };
        let ghost prev = c@;
        c = match apply_call(ast, &call.name, &qs, &vals, depth, eval, c) {
            Err(e) => {
                return Err(e);
            },
            Ok(next) => next,
        };
        proof {
            let ops = expand_call(ast@, call.name, qs@, vals@, depth as int, ev)->Ok_0;
            let rest = expand_body(ast@, *def, qubits@, params@, depth as int, ev, j + 1);
            assert(expand_body(ast@, *def, qubits@, params@, depth as int, ev, j as int) == after(
                ops,
                rest,
            ));
            match rest {
                Ok(t) => {
                    assert(acc + (ops + t) =~= (acc + ops) + t);
                },
                Err(_) => {},
            }
            assert(c@.operations =~= ops0 + (acc + ops));
            acc = acc + ops;
        }
        j = j + 1;
    }
    assert(acc + seq![] =~= acc);
    Ok(c)
}

/// Number of qubits the program declares; see [`total_qubits`].
fn count_qubits(ast: &Vec<QasmNode>) -> (n: usize)
    requires
        registers_fit(ast@),
    ensures
        n == total_qubits(ast@),
{
    let mut total: usize = 0;
    let mut i: usize = 0;
    while i < ast.len()
        invariant
            i <= ast.len(),
            registers_fit(ast@),
            total == declared_before(ast@, i as int),
        decreases ast.len() - i,
    {
        proof {
            lemma_declared_monotone(ast@, i as int + 1, ast@.len() as int);
        }
        match &ast[i] {
            QasmNode::QReg(_, size) => {
                assert(ast@[i as int] matches QasmNode::QReg(_, sz) ==> sz >= 0);
                total = total + *size as usize;
            },
            _ => {},
        }
        i = i + 1;
    }
    total
}

/// Applies a top-level gate application, broadcast over its registers;
/// see [`expand_statement`].
fn apply_statement<F: Fn(&String, &Vec<(String, u64)>) -> Option<u64>>(
    ast: &Vec<QasmNode>,
    call: &QasmCall,
    eval: &F,
    circuit: Circuit,
) -> (r: Result<Circuit, ParseError>)
    requires
        registers_fit(ast@),
        forall|e: &String, bb: &Vec<(String, u64)>| eval.requires((e, bb)),
        answers_by_text(*eval),
    ensures
        extended(circuit@, expand_statement(ast@, *call, evaluator_of(*eval)), r),
{
    let ghost ev = evaluator_of(*eval);
    let unbound: Vec<(String, u64)> = Vec::new();
    assert(binding_text(unbound@) =~= seq![]);
    let vals = match eval_params(&call.params, &unbound, eval) {
        Err(e) => {
            return Err(e);
        },
        Ok(vals) => vals,
    };
    let lists = match resolve_top_args(ast, &call.args) {
        Err(e) => {
            return Err(e);
        },
        Ok(lists) => lists,
    };
    let ghost lv = lists_view(lists@);
    let n = match broadcast_of(&lists) {
        None => {
            return Err(
                ParseError::SyntaxError(
                    quoted_after("register size mismatch in gate ", &call.name),
                ),
            );
        },
        Some(n) => n,
    };
    assert(expand_statement(ast@, *call, ev) == expand_broadcast(ast@, call.name, lv, vals@, n as int, ev, 0));
    let ghost ops0 = circuit@.operations;
    let ghost mut acc: Seq<OpView> = seq![];
    let mut c = circuit;
    let mut i: usize = 0;
    while i < n
        invariant
            i <= n,
            forall|e: &String, bb: &Vec<(String, u64)>| eval.requires((e, bb)),
            answers_by_text(*eval),
            ev == evaluator_of(*eval),
            lv == lists_view(lists@),
            n == broadcast_width(lv),
            broadcast_ok(lv, n as nat),
            c@.qubits == circuit@.qubits,
            c@.operations == ops0 + acc,
            ops0 == circuit@.operations,
            expand_statement(ast@, *call, ev) == expand_broadcast(ast@, call.name, lv, vals@, n as int, ev, 0),
            expand_broadcast(ast@, call.name, lv, vals@, n as int, ev, 0) == after(
                acc,
                expand_broadcast(ast@, call.name, lv, vals@, n as int, ev, i as int),
            ),
        decreases n - i,
    {
        assert forall|k: int| 0 <= k < lists@.len() implies #[trigger] lists@[k]@.len() == 1 || i
            < lists@[k]@.len() by {
            assert(lv[k] == lists@[k]@);
        }
        let qs = pick_qubits(&lists, i);
        c = match apply_call(ast, &call.name, &qs, &vals, 0, eval, c) {
            Err(e) => {
                assert(expand_broadcast(ast@, call.name, lv, vals@, n as int, ev, i as int) == Err::<
                    Seq<OpView>,
                    ParseErrorView,
                >(e@));
                return Err(e);
            },
            Ok(next) => next,
        };
        proof {
            let ops = expand_call(ast@, call.name, qs@, vals@, 0, ev)->Ok_0;
            let rest = expand_broadcast(ast@, call.name, lv, vals@, n as int, ev, i + 1);
            match rest {
                Ok(t) => {
                    assert(acc + (ops + t) =~= (acc + ops) + t);
                },
                Err(_) => {},
            }
            assert(c@.operations =~= ops0 + (acc + ops));
            acc = acc + ops;
        }
        i = i + 1;
    }
    assert(acc + seq![] =~= acc);
    Ok(c)
}

/// Builds the circuit that an OpenQASM 2.0 program denotes; see
/// [`qasm2_circuit`].
///
/// Registers are laid out one after another in declaration order. Gate
/// applications are translated in program order: a gate applied to whole
/// registers is applied once per position, a user-defined gate is inlined
/// with its formal qubits and parameters substituted, and every other
/// statement is skipped. `eval` gives the value of a parameter expression
/// under the formal parameter bindings in force, or `None` when it has
/// none. The result is validated before it is returned.
pub fn circuit_from_qasm2<F: Fn(&String, &Vec<(String, u64)>) -> Option<u64>>(
    ast: &Vec<QasmNode>,
    eval: &F,
) -> (res: Result<Circuit, ParseError>)
    requires
        registers_fit(ast@),
        forall|e: &String, b: &Vec<(String, u64)>| eval.requires((e, b)),
        answers_by_text(*eval),
    ensures
        match res {
            Ok(c) => qasm2_circuit(ast@, evaluator_of(*eval)) == Ok::<CircuitView, ParseErrorView>(
                c@,
            ),
            Err(e) => qasm2_circuit(ast@, evaluator_of(*eval)) == Err::<CircuitView, ParseErrorView>(
                e@,
            ),
        },        res matches Ok(c) ==> c@.well_formed(),
{
    let ghost ev = evaluator_of(*eval);
    let total = count_qubits(ast);
    let mut c = Circuit::new(total);
    let ghost mut acc: Seq<OpView> = seq![];
    let mut k: usize = 0;
    while k < ast.len()
        invariant
            k <= ast.len(),
            registers_fit(ast@),
            forall|e: &String, bb: &Vec<(String, u64)>| eval.requires((e, bb)),
            answers_by_text(*eval),
            ev == evaluator_of(*eval),
            c@.qubits == unnamed_qubits(total as nat),
            total == total_qubits(ast@),
            c@.operations == acc,
            expand_program(ast@, ev, 0) == after(acc, expand_program(ast@, ev, k as int)),
        decreases ast.len() - k,
    {
        match &ast[k] {
            QasmNode::Apply(call) => {
                let ghost prev = c@.operations;
                c = match apply_statement(ast, call, eval, c) {
                    Err(e) => {
                        return Err(e);
                    },
                    Ok(next) => next,
                };
                proof {
                    let ops = expand_statement(ast@, *call, ev)->Ok_0;
                    let rest = expand_program(ast@, ev, k + 1);
                    match rest {
                        Ok(t) => {
                            assert(acc + (ops + t) =~= (acc + ops) + t);
                        },
                        Err(_) => {},
                    }
                    acc = acc + ops;
                }
            },
            _ => {},
        }
        k = k + 1;
    }
    assert(acc + seq![] =~= acc);
    match c.validate() {
        Err(ce) => Err(ParseError::SyntaxError(circuit_error_string(ce))),
        Ok(()) => Ok(c),
    }
}

/// The value the first binding of `name` at or after position `j` gives.
pub open spec fn bound_value(b: Seq<(Seq<char>, u64)>, name: Seq<char>, j: int) -> Option<u64>
    decreases b.len() - j,
{
    if j < 0 || j >= b.len() {
        None
    } else if b[j].0 == name {
        Some(b[j].1)
    } else {
        bound_value(b, name, j + 1)
    }
}

/// Formal parameters are bound in order: the `k`-th formal parameter of a
/// user gate gets the `k`-th actual value, as far as both lists go. When
/// the formal names differ from one another, looking a formal name up in
/// the bindings gives the value passed in its position.
pub proof fn lemma_formals_bound_in_order(names: Seq<String>, vals: Seq<u64>)
    ensures
        bindings(names, vals).len() == if names.len() <= vals.len() {
            names.len()
        } else {
            vals.len()
        },
        forall|k: int|
            0 <= k < bindings(names, vals).len() ==> #[trigger] bindings(names, vals)[k] == (
                names[k]@,
                vals[k],
            ),
        names.len() == vals.len() && (forall|i: int, j: int|
            0 <= i < j < names.len() ==> names[i]@ != names[j]@) ==> forall|k: int|
            0 <= k < names.len() ==> #[trigger] bound_value(bindings(names, vals), names[k]@, 0)
                == Some(vals[k]),
{
    let b = bindings(names, vals);
    if names.len() == vals.len() && (forall|i: int, j: int|
        0 <= i < j < names.len() ==> names[i]@ != names[j]@) {
        assert forall|k: int| 0 <= k < names.len() implies #[trigger] bound_value(
            b,
            names[k]@,
            0,
        ) == Some(vals[k]) by {
            lemma_bound_value_first(names, vals, k, k);
        }
    }
}

proof fn lemma_bound_value_first(names: Seq<String>, vals: Seq<u64>, k: int, j: int)
    requires
        names.len() == vals.len(),
        forall|i: int, j: int| 0 <= i < j < names.len() ==> names[i]@ != names[j]@,
        0 <= j <= k < names.len(),
    ensures
        bound_value(bindings(names, vals), names[k]@, k - j) == Some(vals[k]),
    decreases j,
{
    let b = bindings(names, vals);
    if j > 0 {
        lemma_bound_value_first(names, vals, k, j - 1);
        assert(b[k - j].0 == names[k - j]@);
        assert(names[k - j]@ != names[k]@);
    }
}

/// The qubits of application `i` of a gate broadcast over `lists`, spelled
/// out: each single qubit repeats, each register gives its `i`-th qubit.
pub open spec fn application_qubits(lists: Seq<Seq<usize>>, i: int) -> Seq<usize> {
    Seq::new(lists.len(), |k: int| if lists[k].len() == 1 { lists[k][0] } else { lists[k][i] })
}

/// Broadcasting a standard gate over registers of width `n` gives `n`
/// operations, one per position in order. Application `i` acts on the
/// `i`-th qubit of every register operand and on every single qubit
/// operand.
pub proof fn lemma_broadcast_applies_per_position(
    ast: Seq<QasmNode>,
    name: String,
    lists: Seq<Seq<usize>>,
    vals: Seq<u64>,
    n: int,
    ev: ParamEval,
    kind: GateKind,
    p: Seq<u64>,
)
    requires
        0 <= n,
        translation_of_lowercase(str_lowercase(name@), vals) == Some((kind, p)),
    ensures
        expand_broadcast(ast, name, lists, vals, n, ev, 0) == Ok::<Seq<OpView>, ParseErrorView>(
            Seq::new(n as nat, |i: int| emitted(kind, application_qubits(lists, i), p, name@)),
        ),
{
    lemma_broadcast_from(ast, name, lists, vals, n, ev, kind, p, 0);
    assert(Seq::new((n - 0) as nat, |t: int| emitted(kind, application_qubits(lists, 0 + t), p, name@))
        =~= Seq::new(n as nat, |i: int| emitted(kind, application_qubits(lists, i), p, name@)));
}

proof fn lemma_broadcast_from(
    ast: Seq<QasmNode>,
    name: String,
    lists: Seq<Seq<usize>>,
    vals: Seq<u64>,
    n: int,
    ev: ParamEval,
    kind: GateKind,
    p: Seq<u64>,
    i: int,
)
    requires
        0 <= i <= n,
        translation_of_lowercase(str_lowercase(name@), vals) == Some((kind, p)),
    ensures
        expand_broadcast(ast, name, lists, vals, n, ev, i) == Ok::<Seq<OpView>, ParseErrorView>(
            Seq::new((n - i) as nat, |t: int| emitted(kind, application_qubits(lists, i + t), p, name@)),
        ),
    decreases n - i,
{
    let want = Seq::new((n - i) as nat, |t: int| emitted(kind, application_qubits(lists, i + t), p, name@));
    if i < n {
        lemma_broadcast_from(ast, name, lists, vals, n, ev, kind, p, i + 1);
        assert(pick(lists, i) =~= application_qubits(lists, i));
        let rest = Seq::new((n - i - 1) as nat, |t: int| emitted(kind, application_qubits(lists, i + 1 + t), p, name@));
        assert(seq![emitted(kind, application_qubits(lists, i), p, name@)] + rest =~= want);
    } else {
        assert(want =~= Seq::<OpView>::empty());
    }
}

/// A register named without an index stands for all of its qubits, in
/// order from its first index; with an index inside it, for the one qubit
/// that many places after its first; with an index past its end, for no
/// qubit at all: the argument is undeclared.
pub proof fn lemma_register_arguments(ast: Seq<QasmNode>, name: String, base: int, size: int, index: i32)
    requires
        register_named(ast, name@) == Some((base, size)),
        0 <= base,
        0 <= size,
    ensures
        resolve_top(ast, QasmArgument::Register(name)) == Ok::<Seq<usize>, ParseErrorView>(
            Seq::new(size as nat, |i: int| (base + i) as usize),
        ),
        (index as usize) < size ==> resolve_top(ast, QasmArgument::Qubit(name, index)) == Ok::<
            Seq<usize>,
            ParseErrorView,
        >(seq![(base + (index as usize)) as usize]),
        (index as usize) >= size ==> resolve_top(ast, QasmArgument::Qubit(name, index)) is Err,
{
    assert(index_range(base, size) =~= Seq::new(size as nat, |i: int| (base + i) as usize));
}

} // verus!

//! Building a circuit from an OpenQASM 3 program: qubit declarations,
//! operand resolution, broadcasting of gates over whole registers, and
//! recursive inlining of user-defined gates.
//!
//! The program arrives as a list of statements of plain values
//! ([`Qasm3Stmt`]) in which symbols are identified by their numbers in the
//! symbol table. Parameter expressions are kept in whatever form the
//! caller's evaluator reads (`P`); the evaluator is asked for each of them
//! together with the formal parameter bindings in force (none at the top
//! level), and answers with a binary64 bit pattern or the error to report.
//! Measurements, classical declarations and control flow are skipped.

use crate::error::{ParseError, ParseErrorView};
use crate::gate::GateKind;
use crate::ir::{copy_vec, first_defect, CircuitView, Circuit, OpView, Operation, Qubit, opt_text};
use crate::qasm2::{
    after, broadcast_of, broadcast_ok, broadcast_width, circuit_error_string, circuit_error_text,
    count_mismatch_text, depth_exceeded, index_range, index_range_vec, indexed_name, lists_view,
    pick, pick_qubits, qubit_count_mismatch, quoted, quoted_after, size_mismatch,
    MAX_INLINE_DEPTH,
};
use crate::memory::{next_ws, white_space};
use crate::text::{decimal, decimal_string};
use crate::translate::{chars_match, str_lowercase, translate_gate, translation_of_lowercase};
use vstd::prelude::*;

verus! {

/// The index written after a register in a gate operand.
pub enum Qasm3Index {
    /// No index operator follows the identifier.
    Missing,
    /// An empty index list.
    Empty,
    /// An integer literal.
    Int(usize),
    /// Any other expression, by its `{:?}` text.
    NonInteger(String),
    /// A set expression.
    SetExpression,
}

/// A gate operand.
pub enum Qasm3Operand {
    /// A bare identifier, by its symbol number; `None` when the symbol did
    /// not resolve.
    Identifier(Option<usize>),
    /// An indexed identifier `name[index]`.
    Indexed(Option<usize>, Qasm3Index),
    /// A hardware qubit such as `$0`, by its text.
    Hardware(String),
    /// An expression that is not a gate operand, by its `{:?}` text.
    NotOperand(String),
}

/// A gate call: name, operands and parameter
/// expressions.
pub struct Qasm3Call<P> {
    pub name: String,
    pub operands: Vec<Qasm3Operand>,
    pub params: Vec<P>,
}

/// A user gate definition: formal qubits and angles by symbol number, and
/// the calls of its body.
pub struct Qasm3GateDef<P> {
    pub name: String,
    pub qubits: Vec<usize>,
    pub angles: Vec<usize>,
    pub body: Vec<Qasm3Call<P>>,
}

/// A top-level statement of an OpenQASM 3 program.
pub enum Qasm3Stmt<P> {
    /// A qubit or qubit-array declaration: symbol number, name, width.
    Qubits(usize, String, usize),
    /// A gate call.
    Call(Qasm3Call<P>),
    /// A user gate definition.
    Gate(Qasm3GateDef<P>),
    /// Any statement without bearing on the unitary part of the circuit.
    Other,
}

/// A parameter evaluator as seen in specifications.
pub type Param3Eval<P> = spec_fn(P, Seq<(usize, u64)>) -> Result<u64, ParseErrorView>;

/// The content of an evaluator's answer.
pub open spec fn answer_view(r: Result<u64, ParseError>) -> Result<u64, ParseErrorView> {
    match r {
        Ok(v) => Ok(v),
        Err(e) => Err(e@),
    }
}

/// The evaluator that a closure implements.
pub open spec fn evaluator3_of<P, F: Fn(&P, &Vec<(usize, u64)>) -> Result<u64, ParseError>>(
    eval: F,
) -> Param3Eval<P> {
    |e: P, b: Seq<(usize, u64)>|
        {
            let (r, bs) = choose|r: Result<u64, ParseError>, bs: Vec<(usize, u64)>|
                #![trigger call_ensures(eval, (&e, &bs), r)]
                bs@ == b && call_ensures(eval, (&e, &bs), r);
            answer_view(r)
        }
}

/// The closure gives one answer for one expression under one set of
/// bindings.
pub open spec fn answers_consistently<P, F: Fn(&P, &Vec<(usize, u64)>) -> Result<u64, ParseError>>(
    eval: F,
) -> bool {
    forall|e: P, b1: Vec<(usize, u64)>, r1: Result<u64, ParseError>, b2: Vec<(usize, u64)>, r2: Result<u64, ParseError>|
        #![trigger call_ensures(eval, (&e, &b1), r1), call_ensures(eval, (&e, &b2), r2)]
        call_ensures(eval, (&e, &b1), r1) && call_ensures(eval, (&e, &b2), r2) && b1@ == b2@
            ==> answer_view(r1) == answer_view(r2)
}

// ── Declarations ─────────────────────────────────────────────────────────────

/// The width of a statement's declaration, if it declares qubits.
pub open spec fn width_of<P>(s: Qasm3Stmt<P>) -> int {
    match s {
        Qasm3Stmt::Qubits(_, _, w) => w as int,
        _ => 0,
    }
}

/// Number of qubits declared among the first `k` statements.
pub open spec fn declared3_before<P>(ast: Seq<Qasm3Stmt<P>>, k: int) -> int
    decreases k,
{
    if k <= 0 {
        0
    } else {
        declared3_before(ast, k - 1) + width_of(ast[k - 1])
    }
}

/// Number of qubits the program declares.
pub open spec fn total3<P>(ast: Seq<Qasm3Stmt<P>>) -> int {
    declared3_before(ast, ast.len() as int)
}

/// First index and width of the last declaration of symbol `id` among
/// the first `k` statements.
pub open spec fn register3_upto<P>(ast: Seq<Qasm3Stmt<P>>, k: int, id: usize) -> Option<(int, int)>
    decreases k,
{
    if k <= 0 {
        None
    } else {
        match ast[k - 1] {
            Qasm3Stmt::Qubits(s, _, w) => if s == id {
                Some((declared3_before(ast, k - 1), w as int))
            } else {
                register3_upto(ast, k - 1, id)
            },
            _ => register3_upto(ast, k - 1, id),
        }
    }
}

/// First index and width of the qubits declared for symbol `id`.
pub open spec fn register3_of<P>(ast: Seq<Qasm3Stmt<P>>, id: usize) -> Option<(int, int)> {
    register3_upto(ast, ast.len() as int, id)
}

/// Names of the qubits declared among the first `k` statements: `q[0]`,
/// `q[1]`, ... for each declaration `q`, in order.
pub open spec fn names_upto<P>(ast: Seq<Qasm3Stmt<P>>, k: int) -> Seq<Seq<char>>
    decreases k,
{
    if k <= 0 {
        seq![]
    } else {
        names_upto(ast, k - 1) + match ast[k - 1] {
            Qasm3Stmt::Qubits(_, name, w) => Seq::new(
                w as nat,
                |i: int| name@ + "["@ + decimal(i as nat) + "]"@,
            ),
            _ => seq![],
        }
    }
}

/// Names of all declared qubits.
pub open spec fn qubit_names<P>(ast: Seq<Qasm3Stmt<P>>) -> Seq<Seq<char>> {
    names_upto(ast, ast.len() as int)
}

/// The declared qubits fit `usize` indices, and so does every literal
/// qubit index added to the first index of its register.
pub open spec fn declarations_fit<P>(ast: Seq<Qasm3Stmt<P>>) -> bool {
    &&& total3(ast) <= usize::MAX
    &&& forall|k: int, j: int|
        0 <= k < ast.len() && ast[k] is Call && 0 <= j < ast[k]->Call_0.operands@.len() ==> (
        #[trigger] ast[k]->Call_0.operands@[j] matches Qasm3Operand::Indexed(_, Qasm3Index::Int(
            v,
        )) ==> total3(ast) + v <= usize::MAX)
}

/// `SymbolId(id)`, as `{:?}` formats a symbol number.
pub open spec fn symbol_text(id: usize) -> Seq<char> {
    "SymbolId("@ + decimal(id as nat) + ")"@
}

/// The qubits a top-level operand denotes: every qubit of a register
/// named without an index, in order, or the one qubit an index selects.
pub open spec fn operand_qubits<P>(ast: Seq<Qasm3Stmt<P>>, op: Qasm3Operand) -> Result<
    Seq<usize>,
    ParseErrorView,
> {
    match op {
        Qasm3Operand::NotOperand(text) => Err(
            ParseErrorView::SyntaxError("expected gate operand, got "@ + text@),
        ),
        Qasm3Operand::Identifier(None) => Err(ParseErrorView::UndeclaredQubit("<error>"@)),
        Qasm3Operand::Identifier(Some(id)) => match register3_of(ast, id) {
            None => Err(ParseErrorView::UndeclaredQubit(symbol_text(id))),
            Some((b, w)) => Ok(index_range(b, w)),
        },
        Qasm3Operand::Indexed(None, _) => Err(ParseErrorView::UndeclaredQubit("<error>"@)),
        Qasm3Operand::Indexed(Some(id), index) => match register3_of(ast, id) {
            None => Err(ParseErrorView::UndeclaredQubit(symbol_text(id))),
            Some((b, _)) => match index {
                Qasm3Index::Missing => Err(ParseErrorView::SyntaxError("missing qubit index"@)),
                Qasm3Index::Empty => Err(ParseErrorView::SyntaxError("empty index list"@)),
                Qasm3Index::Int(v) => Ok(seq![(b + v) as usize]),
                Qasm3Index::NonInteger(text) => Err(
                    ParseErrorView::SyntaxError("non-integer qubit index: "@ + text@),
                ),
                Qasm3Index::SetExpression => Err(
                    ParseErrorView::SyntaxError(
                        "set-expression qubit indexing is not supported"@,
                    ),
                ),
            },
        },
        Qasm3Operand::Hardware(name) => Err(
            ParseErrorView::SyntaxError(
                "hardware qubit "@ + quoted(name@) + " not supported in circuit translation"@,
            ),
        ),
    }
}

/// The qubit lists of the top-level operands `ops[j..]`.
pub open spec fn operand_lists<P>(ast: Seq<Qasm3Stmt<P>>, ops: Seq<Qasm3Operand>, j: int) -> Result<
    Seq<Seq<usize>>,
    ParseErrorView,
>
    decreases ops.len() - j,
{
    if j < 0 || j >= ops.len() {
        Ok(seq![])
    } else {
        match operand_qubits(ast, ops[j]) {
            Err(e) => Err(e),
            Ok(l) => match operand_lists(ast, ops, j + 1) {
                Err(e) => Err(e),
                Ok(ls) => Ok(seq![l] + ls),
            },
        }
    }
}

/// The actual qubit bound to the last of the first `k` formal qubits that
/// is symbol `id`.
pub open spec fn formal3_upto(ids: Seq<usize>, qubits: Seq<usize>, k: int, id: usize) -> Option<usize>
    decreases k,
{
    if k <= 0 {
        None
    } else if ids[k - 1] == id {
        Some(qubits[k - 1])
    } else {
        formal3_upto(ids, qubits, k - 1, id)
    }
}

/// The qubit an operand inside a gate body denotes, the formal qubits
/// `ids` being bound to `qubits`. An index after a formal qubit is
/// ignored.
pub open spec fn body_operand(ids: Seq<usize>, qubits: Seq<usize>, op: Qasm3Operand) -> Result<
    usize,
    ParseErrorView,
> {
    match op {
        Qasm3Operand::NotOperand(text) => Err(
            ParseErrorView::SyntaxError("expected gate operand in body, got "@ + text@),
        ),
        Qasm3Operand::Identifier(None) => Err(ParseErrorView::UndeclaredQubit("<err>"@)),
        Qasm3Operand::Indexed(None, _) => Err(ParseErrorView::UndeclaredQubit("<err>"@)),
        Qasm3Operand::Hardware(name) => Err(
            ParseErrorView::SyntaxError("hardware qubit "@ + quoted(name@) + " in gate body"@),
        ),
        Qasm3Operand::Identifier(Some(id)) => match formal3_upto(ids, qubits, ids.len() as int, id) {
            None => Err(ParseErrorView::UndeclaredQubit(symbol_text(id))),
            Some(q) => Ok(q),
        },
        Qasm3Operand::Indexed(Some(id), _) => match formal3_upto(ids, qubits, ids.len() as int, id) {
            None => Err(ParseErrorView::UndeclaredQubit(symbol_text(id))),
            Some(q) => Ok(q),
        },
    }
}

/// The qubits of the body operands `ops[j..]`.
pub open spec fn body_operands(ids: Seq<usize>, qubits: Seq<usize>, ops: Seq<Qasm3Operand>, j: int) -> Result<
    Seq<usize>,
    ParseErrorView,
>
    decreases ops.len() - j,
{
    if j < 0 || j >= ops.len() {
        Ok(seq![])
    } else {
        match body_operand(ids, qubits, ops[j]) {
            Err(e) => Err(e),
            Ok(q) => match body_operands(ids, qubits, ops, j + 1) {
                Err(e) => Err(e),
                Ok(qs) => Ok(seq![q] + qs),
            },
        }
    }
}

/// Formal angles bound to actual values, pair by pair, as far as both go.
pub open spec fn bindings3(ids: Seq<usize>, vals: Seq<u64>) -> Seq<(usize, u64)> {
    Seq::new(
        if ids.len() <= vals.len() { ids.len() } else { vals.len() },
        |k: int| (ids[k], vals[k]),
    )
}

/// The values of the parameter expressions `exprs[j..]` under bindings
/// `b`, asked in order; the first error is reported.
pub open spec fn eval3_list<P>(exprs: Seq<P>, b: Seq<(usize, u64)>, ev: Param3Eval<P>, j: int) -> Result<
    Seq<u64>,
    ParseErrorView,
>
    decreases exprs.len() - j,
{
    if j < 0 || j >= exprs.len() {
        Ok(seq![])
    } else {
        match ev(exprs[j], b) {
            Err(e) => Err(e),
            Ok(v) => match eval3_list(exprs, b, ev, j + 1) {
                Err(e) => Err(e),
                Ok(vs) => Ok(seq![v] + vs),
            },
        }
    }
}

/// The last definition of gate `name` among the first `k` statements.
pub open spec fn def3_upto<P>(ast: Seq<Qasm3Stmt<P>>, k: int, name: Seq<char>) -> Option<
    Qasm3GateDef<P>,
>
    decreases k,
{
    if k <= 0 {
        None
    } else {
        match ast[k - 1] {
            Qasm3Stmt::Gate(d) => if d.name@ == name {
                Some(d)
            } else {
                def3_upto(ast, k - 1, name)
            },
            _ => def3_upto(ast, k - 1, name),
        }
    }
}

/// The operation that a built-in gate call becomes.
pub open spec fn emitted3(kind: GateKind, qubits: Seq<usize>, params: Seq<u64>, name: Seq<char>) -> OpView {
    OpView {
        kind,
        qubits,
        params,
        source_framework: Some("openqasm3"@),
        original_gate_name: Some(name),
    }
}

/// The operations that calling gate `name` on `qubits` with `params`
/// yields at inlining depth `depth`.
pub open spec fn expand3_call<P>(
    ast: Seq<Qasm3Stmt<P>>,
    name: String,
    qubits: Seq<usize>,
    params: Seq<u64>,
    depth: int,
    ev: Param3Eval<P>,
) -> Result<Seq<OpView>, ParseErrorView>
    decreases 34 - depth, 0int,
{
    if depth > 32 {
        Err(depth_exceeded(name@))
    } else {
        match translation_of_lowercase(str_lowercase(name@), params) {
            Some((kind, p)) => Ok(seq![emitted3(kind, qubits, p, name@)]),
            None => match def3_upto(ast, ast.len() as int, name@) {
                None => Err(ParseErrorView::UnknownGate(name@)),
                Some(def) => if qubits.len() != def.qubits.len() {
                    Err(qubit_count_mismatch(name@, def.qubits@.len(), qubits.len()))
                } else {
                    expand3_body(ast, def, qubits, params, depth + 1, ev, 0)
                },
            },
        }
    }
}

/// The operations of the calls `def.body[j..]`, the formal qubits and
/// angles of `def` being bound to `qubits` and `params`.
pub open spec fn expand3_body<P>(
    ast: Seq<Qasm3Stmt<P>>,
    def: Qasm3GateDef<P>,
    qubits: Seq<usize>,
    params: Seq<u64>,
    depth: int,
    ev: Param3Eval<P>,
    j: int,
) -> Result<Seq<OpView>, ParseErrorView>
    decreases 34 - depth, def.body.len() - j + 1,
{
    if j < 0 || j >= def.body.len() {
        Ok(seq![])
    } else {
        let call = def.body[j];
        match body_operands(def.qubits@, qubits, call.operands@, 0) {
            Err(e) => Err(e),
            Ok(qs) => match eval3_list(call.params@, bindings3(def.angles@, params), ev, 0) {
                Err(e) => Err(e),
                Ok(vals) => match expand3_call(ast, call.name, qs, vals, depth, ev) {
                    Err(e) => Err(e),
                    Ok(ops) => after(ops, expand3_body(ast, def, qubits, params, depth, ev, j + 1)),
                },
            },
        }
    }
}

/// The operations of applications `i..n` of a gate broadcast over the
/// operand lists `lists`.
pub open spec fn expand3_broadcast<P>(
    ast: Seq<Qasm3Stmt<P>>,
    name: String,
    lists: Seq<Seq<usize>>,
    vals: Seq<u64>,
    n: int,
    ev: Param3Eval<P>,
    i: int,
) -> Result<Seq<OpView>, ParseErrorView>
    decreases n - i,
{
    if i < 0 || i >= n {
        Ok(seq![])
    } else {
        match expand3_call(ast, name, pick(lists, i), vals, 0, ev) {
            Err(e) => Err(e),
            Ok(ops) => after(ops, expand3_broadcast(ast, name, lists, vals, n, ev, i + 1)),
        }
    }
}

/// The operations of a top-level gate call: operands resolved, then
/// parameters evaluated, then the call applied once per position of the
/// registers it is given whole (`h q;` over `qubit[3] q;` is `h q[0];
/// h q[1]; h q[2];`), single qubits repeating. Registers given whole must
/// have one width.
pub open spec fn expand3_statement<P>(ast: Seq<Qasm3Stmt<P>>, call: Qasm3Call<P>, ev: Param3Eval<P>) -> Result<
    Seq<OpView>,
    ParseErrorView,
> {
    match operand_lists(ast, call.operands@, 0) {
        Err(e) => Err(e),
        Ok(lists) => match eval3_list(call.params@, seq![], ev, 0) {
            Err(e) => Err(e),
            Ok(vals) => if !broadcast_ok(lists, broadcast_width(lists)) {
                Err(size_mismatch(call.name@))
            } else {
                expand3_broadcast(ast, call.name, lists, vals, broadcast_width(lists) as int, ev, 0)
            },
        },
    }
}

/// The operations of the statements `ast[k..]`.
pub open spec fn expand3_program<P>(ast: Seq<Qasm3Stmt<P>>, ev: Param3Eval<P>, k: int) -> Result<
    Seq<OpView>,
    ParseErrorView,
>
    decreases ast.len() - k,
{
    if k < 0 || k >= ast.len() {
        Ok(seq![])
    } else {
        match ast[k] {
            Qasm3Stmt::Call(call) => match expand3_statement(ast, call, ev) {
                Err(e) => Err(e),
                Ok(ops) => after(ops, expand3_program(ast, ev, k + 1)),
            },
            _ => expand3_program(ast, ev, k + 1),
        }
    }
}

/// The operations that a program denotes, provided they form a
/// well-formed circuit over its declared qubits.
pub open spec fn qasm3_operations<P>(ast: Seq<Qasm3Stmt<P>>, ev: Param3Eval<P>) -> Result<
    Seq<OpView>,
    ParseErrorView,
> {
    match expand3_program(ast, ev, 0) {
        Err(e) => Err(e),
        Ok(ops) => match first_defect(ops, total3(ast) as nat, 0) {
            Some(ce) => Err(ParseErrorView::SyntaxError(circuit_error_text(ce))),
            None => Ok(ops),
        },
    }
}

/// `c` has the declared qubits, named after their registers, and the
/// operations `ops`.
pub open spec fn circuit_denotes<P>(c: CircuitView, ast: Seq<Qasm3Stmt<P>>, ops: Seq<OpView>) -> bool {
    &&& named_qubits(c.qubits, qubit_names(ast))
    &&& c.operations == ops
}

// ── Executable parts ─────────────────────────────────────────────────────────

proof fn lemma_declared3<P>(ast: Seq<Qasm3Stmt<P>>, i: int, j: int)
    requires
        0 <= i <= j <= ast.len(),
    ensures
        0 <= declared3_before(ast, i) <= declared3_before(ast, j),
        names_upto(ast, j).len() == declared3_before(ast, j),
    decreases j,
{
    if j > 0 {
        if i < j {
            lemma_declared3(ast, i, j - 1);
        } else {
            lemma_declared3(ast, j - 1, j - 1);
        }
    }
}

/// Number of qubits the program declares; see [`total3`].
fn count3<P>(ast: &Vec<Qasm3Stmt<P>>) -> (n: usize)
    requires
        total3(ast@) <= usize::MAX,
    ensures
        n == total3(ast@),
{
    let mut total: usize = 0;
    let mut i: usize = 0;
    while i < ast.len()
        invariant
            i <= ast.len(),
            total3(ast@) <= usize::MAX,
            total == declared3_before(ast@, i as int),
        decreases ast.len() - i,
    {
        proof {
            lemma_declared3(ast@, i as int + 1, ast@.len() as int);
        }
        match &ast[i] {
            Qasm3Stmt::Qubits(_, _, w) => {
                total = total + *w;
            },
            _ => {},
        }
        i = i + 1;
    }
    total
}

/// `name[0]`, ..., `name[w-1]`.
pub open spec fn register_names(name: Seq<char>, w: nat) -> Seq<Seq<char>> {
    Seq::new(w, |i: int| name + "["@ + decimal(i as nat) + "]"@)
}

/// Qubit `q` has index `i` and name `name`.
pub open spec fn has_name(q: Qubit, i: int, name: Seq<char>) -> bool {
    q.index == i && opt_text(q.name) == Some(name)
}

/// Qubit `i` of `qs` has index `i` and name `names[i]`.
pub open spec fn named_qubits(qs: Seq<Qubit>, names: Seq<Seq<char>>) -> bool {
    &&& qs.len() == names.len()
    &&& forall|i: int| 0 <= i < qs.len() ==> has_name(#[trigger] qs[i], i, names[i])
}

/// `qs` followed by the `w` qubits `name[0]`, ..., `name[w-1]`, numbered
/// on from `qs`.
fn with_register_qubits(qs: Vec<Qubit>, name: &String, w: usize, Ghost(names): Ghost<Seq<Seq<char>>>) -> (out: Vec<Qubit>)
    requires
        qs@.len() + w <= usize::MAX,
        named_qubits(qs@, names),
    ensures
        named_qubits(out@, names + register_names(name@, w as nat)),
{
    let base = qs.len();
    let mut out = qs;
    let mut i: usize = 0;
    assert(names + register_names(name@, 0) =~= names);
    while i < w
        invariant
            i <= w,
            base + w <= usize::MAX,
            base == names.len(),
            named_qubits(out@, names + register_names(name@, i as nat)),
        decreases w - i,
    {
        let q = Qubit { index: base + i, name: Some(indexed_name(name, i)) };
        let ghost before = out@;
        out.push(q);
        proof {
            let ns = names + register_names(name@, i as nat + 1);
            assert(ns =~= (names + register_names(name@, i as nat)).push(name@ + "["@ + decimal(i as nat) + "]"@));
            assert forall|t: int| 0 <= t < out@.len() implies has_name(#[trigger] out@[t], t, ns[t]) by {
                if t < before.len() {
                    assert(out@[t] == before[t]);
                }
            }
        }
        i = i + 1;
    }
    out
}

/// The named qubits of the declarations, in order.
fn declared_qubits<P>(ast: &Vec<Qasm3Stmt<P>>) -> (qs: Vec<Qubit>)
    requires
        total3(ast@) <= usize::MAX,
    ensures
        named_qubits(qs@, qubit_names(ast@)),
{
    let mut qs: Vec<Qubit> = Vec::new();
    let mut k: usize = 0;
    while k < ast.len()
        invariant
            k <= ast.len(),
            total3(ast@) <= usize::MAX,
            qs@.len() == declared3_before(ast@, k as int),
            named_qubits(qs@, names_upto(ast@, k as int)),
        decreases ast.len() - k,
    {
        proof {
            lemma_declared3(ast@, k as int + 1, ast@.len() as int);
            lemma_declared3(ast@, k as int, k as int + 1);
        }
        let ghost prev = names_upto(ast@, k as int);
        match &ast[k] {
            Qasm3Stmt::Qubits(_, name, w) => {
                assert(names_upto(ast@, k as int + 1) == prev + register_names(name@, *w as nat));
                qs = with_register_qubits(qs, name, *w, Ghost(prev));
            },
            _ => {
                assert(names_upto(ast@, k as int + 1) =~= prev);
            },
        }
        k = k + 1;
    }
    qs
}

/// First index and width of the qubits of symbol `id`; see
/// [`register3_of`].
fn find_register3<P>(ast: &Vec<Qasm3Stmt<P>>, id: usize) -> (r: Option<(usize, usize)>)
    requires
        total3(ast@) <= usize::MAX,
    ensures
        match register3_of(ast@, id) {
            None => r is None,
            Some((b, w)) => r == Some((b as usize, w as usize)) && 0 <= b && 0 <= w && b + w
                <= total3(ast@),
        },
{
    let mut found: Option<(usize, usize)> = None;
    let mut total: usize = 0;
    let mut i: usize = 0;
    while i < ast.len()
        invariant
            i <= ast.len(),
            total3(ast@) <= usize::MAX,
            total == declared3_before(ast@, i as int),
            match register3_upto(ast@, i as int, id) {
                None => found is None,
                Some((b, w)) => found == Some((b as usize, w as usize)) && 0 <= b && 0 <= w && b
                    + w <= declared3_before(ast@, i as int),
            },
        decreases ast.len() - i,
    {
        proof {
            lemma_declared3(ast@, i as int + 1, ast@.len() as int);
            lemma_declared3(ast@, i as int, i as int + 1);
        }
        match &ast[i] {
            Qasm3Stmt::Qubits(s, _, w) => {
                if *s == id {
                    found = Some((total, *w));
                }
                total = total + *w;
            },
            _ => {},
        }
        i = i + 1;
    }
    proof {
        lemma_declared3(ast@, ast@.len() as int, ast@.len() as int);
    }
    found
}

/// `SymbolId(id)`
fn symbol_string(id: usize) -> (s: String)
    ensures
        s@ == symbol_text(id),
{
    let mut s = String::from_str("SymbolId(");
    let d = decimal_string(id);
    s.append(d.as_str());
    s.append(")");
    s
}

/// `{prefix}{text}`
fn prefixed(prefix: &str, text: &String) -> (s: String)
    ensures
        s@ == prefix@ + text@,
{
    let mut s = String::from_str(prefix);
    s.append(text.as_str());
    s
}

/// The qubits of a top-level operand; see [`operand_qubits`].
fn resolve_operand<P>(ast: &Vec<Qasm3Stmt<P>>, op: &Qasm3Operand, bound: usize) -> (r: Result<
    Vec<usize>,
    ParseError,
>)
    requires
        total3(ast@) <= usize::MAX,
        bound == total3(ast@),
        op matches Qasm3Operand::Indexed(_, Qasm3Index::Int(v)) ==> bound + *v <= usize::MAX,
    ensures
        match r {
            Ok(q) => operand_qubits(ast@, *op) == Ok::<Seq<usize>, ParseErrorView>(q@),
            Err(e) => operand_qubits(ast@, *op) == Err::<Seq<usize>, ParseErrorView>(e@),
        },
{
    match op {
        Qasm3Operand::NotOperand(text) => Err(
            ParseError::SyntaxError(prefixed("expected gate operand, got ", text)),
        ),
        Qasm3Operand::Identifier(None) => Err(ParseError::UndeclaredQubit(String::from_str("<error>"))),
        Qasm3Operand::Identifier(Some(id)) => match find_register3(ast, *id) {
            None => Err(ParseError::UndeclaredQubit(symbol_string(*id))),
            Some((b, w)) => Ok(index_range_vec(b, w)),
        },
        Qasm3Operand::Indexed(None, _) => Err(ParseError::UndeclaredQubit(String::from_str("<error>"))),
        Qasm3Operand::Indexed(Some(id), index) => match find_register3(ast, *id) {
            None => Err(ParseError::UndeclaredQubit(symbol_string(*id))),
            Some((b, _)) => match index {
                Qasm3Index::Missing => Err(ParseError::SyntaxError(String::from_str("missing qubit index"))),
                Qasm3Index::Empty => Err(ParseError::SyntaxError(String::from_str("empty index list"))),
                Qasm3Index::Int(v) => {
                    let mut one: Vec<usize> = Vec::new();
                    one.push(b + *v);
                    assert(one@ =~= seq![(b + *v) as usize]);
                    Ok(one)
                },
                Qasm3Index::NonInteger(text) => Err(
                    ParseError::SyntaxError(prefixed("non-integer qubit index: ", text)),
                ),
                Qasm3Index::SetExpression => Err(
                    ParseError::SyntaxError(
                        String::from_str("set-expression qubit indexing is not supported"),
                    ),
                ),
            },
        },
        Qasm3Operand::Hardware(name) => {
            let mut s = quoted_after("hardware qubit ", name);
            s.append(" not supported in circuit translation");
            Err(ParseError::SyntaxError(s))
        },
    }
}

/// The qubit lists of the top-level operands of the call at statement
/// `k`; see [`operand_lists`].
fn resolve_operands<P>(ast: &Vec<Qasm3Stmt<P>>, k: usize, bound: usize) -> (r: Result<
    Vec<Vec<usize>>,
    ParseError,
>)
    requires
        declarations_fit(ast@),
        bound == total3(ast@),
        k < ast@.len(),
        ast@[k as int] is Call,
    ensures
        match r {
            Ok(v) => operand_lists(ast@, ast@[k as int]->Call_0.operands@, 0) == Ok::<
                Seq<Seq<usize>>,
                ParseErrorView,
            >(lists_view(v@)),
            Err(e) => operand_lists(ast@, ast@[k as int]->Call_0.operands@, 0) == Err::<
                Seq<Seq<usize>>,
                ParseErrorView,
            >(e@),
        },
{
    let call = match &ast[k] {
        Qasm3Stmt::Call(c) => c,
        _ => {
            proof {
                assert(false);
            }
            return Ok(Vec::new());
        },
    };
    let ghost ops = call.operands@;
    let mut out: Vec<Vec<usize>> = Vec::new();
    let mut j: usize = 0;
    assert(lists_view(out@) =~= seq![]);
    while j < call.operands.len()
        invariant
            j <= call.operands.len(),
            declarations_fit(ast@),
            bound == total3(ast@),
            k < ast@.len(),
            ast@[k as int] == Qasm3Stmt::Call(*call),
            ops == call.operands@,
            operand_lists(ast@, ops, 0) == after(
                lists_view(out@),
                operand_lists(ast@, ops, j as int),
            ),
        decreases call.operands.len() - j,
    {
        assert(ast@[k as int]->Call_0.operands@[j as int] == ops[j as int]);
        match resolve_operand(ast, &call.operands[j], bound) {
            Err(e) => {
                return Err(e);
            },
            Ok(q) => {
                let ghost before = lists_view(out@);
                let ghost qv = q@;
                out.push(q);
                assert(lists_view(out@) =~= before.push(qv));
                j = j + 1;
                assert(operand_lists(ast@, ops, 0) == after(
                    lists_view(out@),
                    operand_lists(ast@, ops, j as int),
                )) by {
                    match operand_lists(ast@, ops, j as int) {
                        Ok(qs) => {
                            assert(before + (seq![qv] + qs) =~= lists_view(out@) + qs);
                        },
                        Err(_) => {},
                    }
                }
            },
        }
    }
    assert(lists_view(out@) + seq![] =~= lists_view(out@));
    Ok(out)
}

/// The actual qubit bound to formal qubit `id`; see [`formal3_upto`].
fn find_formal3(ids: &Vec<usize>, qubits: &Vec<usize>, id: usize) -> (r: Option<usize>)
    requires
        ids@.len() == qubits@.len(),
    ensures
        r == formal3_upto(ids@, qubits@, ids@.len() as int, id),
{
    let mut found: Option<usize> = None;
    let mut k: usize = 0;
    while k < ids.len()
        invariant
            k <= ids.len(),
            ids@.len() == qubits@.len(),
            found == formal3_upto(ids@, qubits@, k as int, id),
        decreases ids.len() - k,
    {
        if ids[k] == id {
            found = Some(qubits[k]);
        }
        k = k + 1;
    }
    found
}

/// The qubit a body operand denotes; see [`body_operand`].
fn resolve_body_operand(ids: &Vec<usize>, qubits: &Vec<usize>, op: &Qasm3Operand) -> (r: Result<
    usize,
    ParseError,
>)
    requires
        ids@.len() == qubits@.len(),
    ensures
        match r {
            Ok(q) => body_operand(ids@, qubits@, *op) == Ok::<usize, ParseErrorView>(q),
            Err(e) => body_operand(ids@, qubits@, *op) == Err::<usize, ParseErrorView>(e@),
        },
{
    let id = match op {
        Qasm3Operand::NotOperand(text) => {
            return Err(ParseError::SyntaxError(prefixed("expected gate operand in body, got ", text)));
        },
        Qasm3Operand::Identifier(None) => {
            return Err(ParseError::UndeclaredQubit(String::from_str("<err>")));
        },
        Qasm3Operand::Indexed(None, _) => {
            return Err(ParseError::UndeclaredQubit(String::from_str("<err>")));
        },
        Qasm3Operand::Hardware(name) => {
            let mut s = quoted_after("hardware qubit ", name);
            s.append(" in gate body");
            return Err(ParseError::SyntaxError(s));
        },
        Qasm3Operand::Identifier(Some(id)) => *id,
        Qasm3Operand::Indexed(Some(id), _) => *id,
    };
    match find_formal3(ids, qubits, id) {
        None => Err(ParseError::UndeclaredQubit(symbol_string(id))),
        Some(q) => Ok(q),
    }
}

/// The qubits of the operands of a call in a gate body; see
/// [`body_operands`].
fn resolve_body_operands(ids: &Vec<usize>, qubits: &Vec<usize>, ops: &Vec<Qasm3Operand>) -> (r:
    Result<Vec<usize>, ParseError>)
    requires
        ids@.len() == qubits@.len(),
    ensures
        match r {
            Ok(v) => body_operands(ids@, qubits@, ops@, 0) == Ok::<Seq<usize>, ParseErrorView>(v@),
            Err(e) => body_operands(ids@, qubits@, ops@, 0) == Err::<Seq<usize>, ParseErrorView>(
                e@,
            ),
        },
{
    let mut out: Vec<usize> = Vec::new();
    let mut j: usize = 0;
    while j < ops.len()
        invariant
            j <= ops.len(),
            ids@.len() == qubits@.len(),
            body_operands(ids@, qubits@, ops@, 0) == after(
                out@,
                body_operands(ids@, qubits@, ops@, j as int),
            ),
        decreases ops.len() - j,
    {
        match resolve_body_operand(ids, qubits, &ops[j]) {
            Err(e) => {
                return Err(e);
            },
            Ok(q) => {
                let ghost before = out@;
                out.push(q);
                j = j + 1;
                assert(body_operands(ids@, qubits@, ops@, 0) == after(
                    out@,
                    body_operands(ids@, qubits@, ops@, j as int),
                )) by {
                    match body_operands(ids@, qubits@, ops@, j as int) {
                        Ok(qs) => {
                            assert(before + (seq![q] + qs) =~= out@ + qs);
                        },
                        Err(_) => {},
                    }
                }
            },
        }
    }
    assert(out@ + seq![] =~= out@);
    Ok(out)
}

/// Binds formal angles to actual values, pair by pair, as far as both go.
fn make_bindings3(ids: &Vec<usize>, vals: &Vec<u64>) -> (b: Vec<(usize, u64)>)
    ensures
        b@ == bindings3(ids@, vals@),
        b@.len() == if ids@.len() <= vals@.len() {
            ids@.len()
        } else {
            vals@.len()
        },
        forall|t: int| 0 <= t < b@.len() ==> #[trigger] b@[t] == (ids@[t], vals@[t]),
{
    let n = if ids.len() <= vals.len() {
        ids.len()
    } else {
        vals.len()
    };
    let mut b: Vec<(usize, u64)> = Vec::new();
    let mut k: usize = 0;
    while k < n
        invariant
            k <= n,
            n <= ids@.len(),
            n <= vals@.len(),
            n == (if ids@.len() <= vals@.len() { ids@.len() } else { vals@.len() }),
            b@ =~= bindings3(ids@, vals@).subrange(0, k as int),
        decreases n - k,
    {
        b.push((ids[k], vals[k]));
        k = k + 1;
    }
    assert(bindings3(ids@, vals@).subrange(0, n as int) =~= bindings3(ids@, vals@));
    b
}

proof fn lemma_eval3_agrees<P, F: Fn(&P, &Vec<(usize, u64)>) -> Result<u64, ParseError>>(
    eval: F,
    e: P,
    b: Vec<(usize, u64)>,
    r: Result<u64, ParseError>,
)
    requires
        answers_consistently(eval),
        call_ensures(eval, (&e, &b), r),
    ensures
        (evaluator3_of(eval))(e, b@) == answer_view(r),
{
    let ev = evaluator3_of(eval);
    let (r2, bs) = choose|r2: Result<u64, ParseError>, bs: Vec<(usize, u64)>|
        #![trigger call_ensures(eval, (&e, &bs), r2)]
        bs@ == b@ && call_ensures(eval, (&e, &bs), r2);
    assert(ev(e, b@) == answer_view(r2));
    assert(call_ensures(eval, (&e, &bs), r2));
}

/// The values of the parameter expressions `exprs` under bindings `b`;
/// see [`eval3_list`].
fn eval3_params<P, F: Fn(&P, &Vec<(usize, u64)>) -> Result<u64, ParseError>>(
    exprs: &Vec<P>,
    b: &Vec<(usize, u64)>,
    eval: &F,
) -> (r: Result<Vec<u64>, ParseError>)
    requires
        forall|e: &P, bb: &Vec<(usize, u64)>| eval.requires((e, bb)),
        answers_consistently(*eval),
    ensures
        match r {
            Ok(v) => eval3_list(exprs@, b@, evaluator3_of(*eval), 0) == Ok::<
                Seq<u64>,
                ParseErrorView,
            >(v@),
            Err(e) => eval3_list(exprs@, b@, evaluator3_of(*eval), 0) == Err::<
                Seq<u64>,
                ParseErrorView,
            >(e@),
        },
{
    let ghost ev = evaluator3_of(*eval);
    let mut vals: Vec<u64> = Vec::new();
    let mut j: usize = 0;
    while j < exprs.len()
        invariant
            j <= exprs.len(),
            forall|e: &P, bb: &Vec<(usize, u64)>| eval.requires((e, bb)),
            answers_consistently(*eval),
            ev == evaluator3_of(*eval),
            eval3_list(exprs@, b@, ev, 0) == after(vals@, eval3_list(exprs@, b@, ev, j as int)),
        decreases exprs.len() - j,
    {
        let answer = eval(&exprs[j], b);
        proof {
            lemma_eval3_agrees(*eval, exprs@[j as int], *b, answer);
        }
        match answer {
            Err(e) => {
                return Err(e);
            },
            Ok(v) => {
                let ghost before = vals@;
                vals.push(v);
                j = j + 1;
                assert(eval3_list(exprs@, b@, ev, 0) == after(
                    vals@,
                    eval3_list(exprs@, b@, ev, j as int),
                )) by {
                    match eval3_list(exprs@, b@, ev, j as int) {
                        Ok(vs) => {
                            assert(before + (seq![v] + vs) =~= vals@ + vs);
                        },
                        Err(_) => {},
                    }
                }
            },
        }
    }
    assert(vals@ + seq![] =~= vals@);
    Ok(vals)
}

/// The definition of gate `name`; see [`def3_upto`].
fn find_def3<'a, P>(ast: &'a Vec<Qasm3Stmt<P>>, name: &String) -> (r: Option<&'a Qasm3GateDef<P>>)
    ensures
        match r {
            Some(d) => def3_upto(ast@, ast@.len() as int, name@) == Some(*d),
            None => def3_upto(ast@, ast@.len() as int, name@) is None,
        },
{
    let mut found: Option<&Qasm3GateDef<P>> = None;
    let mut i: usize = 0;
    while i < ast.len()
        invariant
            i <= ast.len(),
            match found {
                Some(d) => def3_upto(ast@, i as int, name@) == Some(*d),
                None => def3_upto(ast@, i as int, name@) is None,
            },
        decreases ast.len() - i,
    {
        match &ast[i] {
            Qasm3Stmt::Gate(d) => {
                if d.name == *name {
                    found = Some(d);
                }
            },
            _ => {},
        }
        i = i + 1;
    }
    found
}

/// `circuit` with the operations of `r` appended, or the error of `r`.
pub open spec fn extended3(circuit: CircuitView, r: Result<Seq<OpView>, ParseErrorView>, out: Result<Circuit, ParseError>) -> bool {
    match r {
        Ok(ops) => out matches Ok(c) && c@.qubits == circuit.qubits && c@.operations
            == circuit.operations + ops,
        Err(e) => out matches Err(x) && x@ == e,
    }
}

/// Calls gate `name` on `qubits` with `params` at inlining depth `depth`;
/// see [`expand3_call`].
fn apply3_call<P, F: Fn(&P, &Vec<(usize, u64)>) -> Result<u64, ParseError>>(
    ast: &Vec<Qasm3Stmt<P>>,
    name: &String,
    qubits: &Vec<usize>,
    params: &Vec<u64>,
    depth: usize,
    eval: &F,
    circuit: Circuit,
) -> (r: Result<Circuit, ParseError>)
    requires
        depth <= 33,
        forall|e: &P, bb: &Vec<(usize, u64)>| eval.requires((e, bb)),
        answers_consistently(*eval),
    ensures
        extended3(
            circuit@,
            expand3_call(ast@, *name, qubits@, params@, depth as int, evaluator3_of(*eval)),
            r,
        ),
    decreases 34 - depth, 0int,
{
    if depth > MAX_INLINE_DEPTH {
        return Err(
            ParseError::SyntaxError(
                quoted_after("gate inline depth limit (32) exceeded at ", name),
            ),
        );
    }
    match translate_gate(name.as_str(), copy_vec(params)) {
        Some((kind, final_params)) => {
            let mut op = Operation::new(kind, copy_vec(qubits), final_params);
            op.source_framework = Some(String::from_str("openqasm3"));
            op.original_gate_name = Some(name.clone());
            let ghost opv = op@;
            let mut c = circuit;
            c.push(op);
            assert(c@.operations =~= circuit@.operations + seq![opv]);
            return Ok(c);
        },
        None => {},
    }
    match find_def3(ast, name) {
        None => Err(ParseError::UnknownGate(name.clone())),
        Some(def) => {
            if qubits.len() != def.qubits.len() {
                return Err(
                    ParseError::SyntaxError(
                        count_mismatch_text(name, def.qubits.len(), qubits.len(), " qubits, got "),
                    ),
                );
            }
            inline3_body(ast, def, qubits, params, depth + 1, eval, circuit)
        },
    }
}

/// Inlines the body of `def`; see [`expand3_body`].
fn inline3_body<P, F: Fn(&P, &Vec<(usize, u64)>) -> Result<u64, ParseError>>(
    ast: &Vec<Qasm3Stmt<P>>,
    def: &Qasm3GateDef<P>,
    qubits: &Vec<usize>,
    params: &Vec<u64>,
    depth: usize,
    eval: &F,
    circuit: Circuit,
) -> (r: Result<Circuit, ParseError>)
    requires
        1 <= depth <= 33,
        qubits@.len() == def.qubits@.len(),
        forall|e: &P, bb: &Vec<(usize, u64)>| eval.requires((e, bb)),
        answers_consistently(*eval),
    ensures
        extended3(
            circuit@,
            expand3_body(ast@, *def, qubits@, params@, depth as int, evaluator3_of(*eval), 0),
            r,
        ),
    decreases 34 - depth, 1int,
{
    let ghost ev = evaluator3_of(*eval);
    let ghost ops0 = circuit@.operations;
    let ghost mut acc: Seq<OpView> = seq![];
    let b = make_bindings3(&def.angles, params);
    let mut c = circuit;
    let mut j: usize = 0;
    while j < def.body.len()
        invariant
            j <= def.body.len(),
            1 <= depth <= 33,
            qubits@.len() == def.qubits@.len(),
            forall|e: &P, bb: &Vec<(usize, u64)>| eval.requires((e, bb)),
            answers_consistently(*eval),
            ev == evaluator3_of(*eval),
            b@ == bindings3(def.angles@, params@),
            c@.qubits == circuit@.qubits,
            c@.operations == ops0 + acc,
            ops0 == circuit@.operations,
            expand3_body(ast@, *def, qubits@, params@, depth as int, ev, 0) == after(
                acc,
                expand3_body(ast@, *def, qubits@, params@, depth as int, ev, j as int),
            ),
        decreases def.body.len() - j,
    {
        let call = &def.body[j];
        let qs = match resolve_body_operands(&def.qubits, qubits, &call.operands) {
            Err(e) => {
                return Err(e);
            },
            Ok(qs) => qs,
        };
        let vals = match eval3_params(&call.params, &b, eval) {
            Err(e) => {
                return Err(e);
            },
            Ok(vals) => vals,
        };
        c = match apply3_call(ast, &call.name, &qs, &vals, depth, eval, c) {
            Err(e) => {
                return Err(e);
            },
            Ok(next) => next,
        };
        proof {
            let ops = expand3_call(ast@, call.name, qs@, vals@, depth as int, ev)->Ok_0;
            let rest = expand3_body(ast@, *def, qubits@, params@, depth as int, ev, j + 1);
            match rest {
                Ok(t) => {
                    assert(acc + (ops + t) =~= (acc + ops) + t);
                },
                Err(_) => {},
            }
            assert(c@.operations =~= ops0 + (acc + ops));
            acc = acc + ops;
        }
        j = j + 1;
    }
    assert(acc + seq![] =~= acc);
    Ok(c)
}

/// Applies the top-level gate call at statement `k`; see
/// [`expand3_statement`].
fn apply3_statement<P, F: Fn(&P, &Vec<(usize, u64)>) -> Result<u64, ParseError>>(
    ast: &Vec<Qasm3Stmt<P>>,
    k: usize,
    bound: usize,
    eval: &F,
    circuit: Circuit,
) -> (r: Result<Circuit, ParseError>)
    requires
        declarations_fit(ast@),
        bound == total3(ast@),
        k < ast@.len(),
        ast@[k as int] is Call,
        forall|e: &P, bb: &Vec<(usize, u64)>| eval.requires((e, bb)),
        answers_consistently(*eval),
    ensures
        extended3(
            circuit@,
            expand3_statement(ast@, ast@[k as int]->Call_0, evaluator3_of(*eval)),
            r,
        ),
{
    let ghost ev = evaluator3_of(*eval);
    let lists = match resolve_operands(ast, k, bound) {
        Err(e) => {
            return Err(e);
        },
        Ok(lists) => lists,
    };
    let call = match &ast[k] {
        Qasm3Stmt::Call(c) => c,
        _ => {
            proof {
                assert(false);
            }
            return Err(ParseError::UnknownGate(String::new()));
        },
    };
    let unbound: Vec<(usize, u64)> = Vec::new();
    assert(unbound@ =~= seq![]);
    let vals = match eval3_params(&call.params, &unbound, eval) {
        Err(e) => {
            return Err(e);
        },
        Ok(vals) => vals,
    };
    let ghost lv = lists_view(lists@);
    let n = match broadcast_of(&lists) {
        None => {
            return Err(
                ParseError::SyntaxError(
                    quoted_after("register size mismatch in gate ", &call.name),
                ),
            );
        },
        Some(n) => n,
    };
    assert(expand3_statement(ast@, *call, ev) == expand3_broadcast(
        ast@,
        call.name,
        lv,
        vals@,
        n as int,
        ev,
        0,
    ));
    let ghost ops0 = circuit@.operations;
    let ghost mut acc: Seq<OpView> = seq![];
    let mut c = circuit;
    let mut i: usize = 0;
    while i < n
        invariant
            i <= n,
            forall|e: &P, bb: &Vec<(usize, u64)>| eval.requires((e, bb)),
            answers_consistently(*eval),
            ev == evaluator3_of(*eval),
            lv == lists_view(lists@),
            n == broadcast_width(lv),
            broadcast_ok(lv, n as nat),
            k < ast@.len(),
            ast@[k as int] == Qasm3Stmt::Call(*call),
            c@.qubits == circuit@.qubits,
            c@.operations == ops0 + acc,
            ops0 == circuit@.operations,
            expand3_statement(ast@, *call, ev) == expand3_broadcast(
                ast@,
                call.name,
                lv,
                vals@,
                n as int,
                ev,
                0,
            ),
            expand3_broadcast(ast@, call.name, lv, vals@, n as int, ev, 0) == after(
                acc,
                expand3_broadcast(ast@, call.name, lv, vals@, n as int, ev, i as int),
            ),
        decreases n - i,
    {
        assert forall|t: int| 0 <= t < lists@.len() implies #[trigger] lists@[t]@.len() == 1 || i
            < lists@[t]@.len() by {
            assert(lv[t] == lists@[t]@);
        }
        let qs = pick_qubits(&lists, i);
        c = match apply3_call(ast, &call.name, &qs, &vals, 0, eval, c) {
            Err(e) => {
                assert(expand3_broadcast(ast@, call.name, lv, vals@, n as int, ev, i as int)
                    == Err::<Seq<OpView>, ParseErrorView>(e@));
                return Err(e);
            },
            Ok(next) => next,
        };
        proof {
            let ops = expand3_call(ast@, call.name, qs@, vals@, 0, ev)->Ok_0;
            let rest = expand3_broadcast(ast@, call.name, lv, vals@, n as int, ev, i + 1);
            match rest {
                Ok(t) => {
                    assert(acc + (ops + t) =~= (acc + ops) + t);
                },
                Err(_) => {},
            }
            assert(c@.operations =~= ops0 + (acc + ops));
            acc = acc + ops;
        }
        i = i + 1;
    }
    assert(acc + seq![] =~= acc);
    assert(c@.operations =~= circuit@.operations + acc);
    Ok(c)
}

/// Builds the circuit that an OpenQASM 3 program denotes.
///
/// Each qubit declaration `qubit[n] q;` contributes the qubits `q[0]`, ...,
/// `q[n-1]`, numbered on in declaration order. Gate calls are applied in
/// program order: operands are resolved, then parameters evaluated by
/// `eval`; a call given whole registers is applied once per position of
/// the registers (`h q;` over `qubit[3] q;` is `h q[0]; h q[1]; h q[2];`),
/// and a user-defined gate is inlined with its formal qubits and angles
/// substituted. Every other statement is skipped, and the result is
/// validated before it is returned.
pub fn circuit_from_qasm3<P, F: Fn(&P, &Vec<(usize, u64)>) -> Result<u64, ParseError>>(
    ast: &Vec<Qasm3Stmt<P>>,
    eval: &F,
) -> (res: Result<Circuit, ParseError>)
    requires
        declarations_fit(ast@),
        forall|e: &P, b: &Vec<(usize, u64)>| eval.requires((e, b)),
        answers_consistently(*eval),
    ensures
        match res {
            Ok(c) => qasm3_operations(ast@, evaluator3_of(*eval)) matches Ok(ops)
                && circuit_denotes(c@, ast@, ops),
            Err(e) => qasm3_operations(ast@, evaluator3_of(*eval)) == Err::<
                Seq<OpView>,
                ParseErrorView,
            >(e@),
        },        res matches Ok(c) ==> c@.well_formed(),
{
    let ghost ev = evaluator3_of(*eval);
    let bound = count3(ast);
    let qubits = declared_qubits(ast);
    proof {
        lemma_declared3(ast@, ast@.len() as int, ast@.len() as int);
    }
    let mut c = Circuit { qubits, operations: Vec::new() };
    let ghost q0 = c@.qubits;
    let ghost mut acc: Seq<OpView> = seq![];
    assert(c@.operations =~= acc);
    let mut k: usize = 0;
    while k < ast.len()
        invariant
            k <= ast.len(),
            declarations_fit(ast@),
            bound == total3(ast@),
            forall|e: &P, bb: &Vec<(usize, u64)>| eval.requires((e, bb)),
            answers_consistently(*eval),
            ev == evaluator3_of(*eval),
            c@.qubits == q0,
            named_qubits(q0, qubit_names(ast@)),
            q0.len() == total3(ast@),
            c@.operations == acc,
            expand3_program(ast@, ev, 0) == after(acc, expand3_program(ast@, ev, k as int)),
        decreases ast.len() - k,
    {
        if let Qasm3Stmt::Call(call) = &ast[k] {
            c = match apply3_statement(ast, k, bound, eval, c) {
                Err(e) => {
                    return Err(e);
                },
                Ok(next) => next,
            };
            proof {
                let ops = expand3_statement(ast@, *call, ev)->Ok_0;
                let rest = expand3_program(ast@, ev, k + 1);
                match rest {
                    Ok(t) => {
                        assert(acc + (ops + t) =~= (acc + ops) + t);
                    },
                    Err(_) => {},
                }
                acc = acc + ops;
            }
        }
        k = k + 1;
    }
    assert(acc + seq![] =~= acc);
    match c.validate() {
        Err(ce) => Err(ParseError::SyntaxError(circuit_error_string(ce))),
        Ok(()) => Ok(c),
    }
}

/// A source in OpenQASM 3: after its leading white space, it starts with
/// `OPENQASM 3`.
pub open spec fn declares_qasm3(s: Seq<char>) -> bool {
    let k = next_ws(s, 0, s.len() as int, false);
    s.len() - k >= 10 && s.subrange(k, k + 10) == "OPENQASM 3"@
}

/// Whether a source is OpenQASM 3 rather than OpenQASM 2; see
/// [`declares_qasm3`].
pub fn is_qasm3_source(source: &str) -> (b: bool)
    ensures
        b == declares_qasm3(source@),
{
    let n = source.unicode_len();
    let mut k: usize = 0;
    while k < n && white_space(source.get_char(k))
        invariant
            k <= n,
            n == source@.len(),
            next_ws(source@, 0, n as int, false) == next_ws(source@, k as int, n as int, false),
        decreases n - k,
    {
        k = k + 1;
    }
    proof {
        reveal_strlit("OPENQASM 3");
    }
    if n - k < 10 {
        return false;
    }
    let head = source.substring_char(k, k + 10);
    chars_match(head, "OPENQASM 3")
}

/// The value the first binding of symbol `id` at or after position `j`
/// gives.
pub open spec fn bound3_value(b: Seq<(usize, u64)>, id: usize, j: int) -> Option<u64>
    decreases b.len() - j,
{
    if j < 0 || j >= b.len() {
        None
    } else if b[j].0 == id {
        Some(b[j].1)
    } else {
        bound3_value(b, id, j + 1)
    }
}

/// Formal angles are bound in order: the `k`-th formal angle symbol of a
/// user gate gets the `k`-th actual value, as far as both lists go. When
/// the formal symbols differ from one another, looking one up in the
/// bindings gives the value passed in its position.
pub proof fn lemma_formal_angles_bound_in_order(ids: Seq<usize>, vals: Seq<u64>)
    ensures
        bindings3(ids, vals).len() == if ids.len() <= vals.len() {
            ids.len()
        } else {
            vals.len()
        },
        forall|k: int|
            0 <= k < bindings3(ids, vals).len() ==> #[trigger] bindings3(ids, vals)[k] == (
                ids[k],
                vals[k],
            ),
        ids.len() <= vals.len() && (forall|i: int, j: int|
            0 <= i < j < ids.len() ==> ids[i] != ids[j]) ==> forall|k: int|
            0 <= k < ids.len() ==> #[trigger] bound3_value(bindings3(ids, vals), ids[k], 0)
                == Some(vals[k]),
{
    if ids.len() <= vals.len() && (forall|i: int, j: int|
        0 <= i < j < ids.len() ==> ids[i] != ids[j]) {
        assert forall|k: int| 0 <= k < ids.len() implies #[trigger] bound3_value(
            bindings3(ids, vals),
            ids[k],
            0,
        ) == Some(vals[k]) by {
            lemma_bound3_value_first(ids, vals, k, k);
        }
    }
}

proof fn lemma_bound3_value_first(ids: Seq<usize>, vals: Seq<u64>, k: int, j: int)
    requires
        ids.len() <= vals.len(),
        forall|i: int, j: int| 0 <= i < j < ids.len() ==> ids[i] != ids[j],
        0 <= j <= k < ids.len(),
    ensures
        bound3_value(bindings3(ids, vals), ids[k], k - j) == Some(vals[k]),
    decreases j,
{
    let b = bindings3(ids, vals);
    if j > 0 {
        lemma_bound3_value_first(ids, vals, k, j - 1);
        assert(b[k - j].0 == ids[k - j]);
        assert(ids[k - j] != ids[k]);
    }
}

/// The qubits of application `i` of a gate broadcast over `lists`, spelled
/// out: each single qubit repeats, each register gives its `i`-th qubit.
pub open spec fn application_qubits3(lists: Seq<Seq<usize>>, i: int) -> Seq<usize> {
    Seq::new(lists.len(), |k: int| if lists[k].len() == 1 { lists[k][0] } else { lists[k][i] })
}

/// Broadcasting a standard gate over registers of width `n` gives `n`
/// operations, one per position in order. Application `i` acts on the
/// `i`-th qubit of every register operand and on every single qubit
/// operand.
pub proof fn lemma_broadcast_applies_per_position3<P>(
    ast: Seq<Qasm3Stmt<P>>,
    name: String,
    lists: Seq<Seq<usize>>,
    vals: Seq<u64>,
    n: int,
    ev: Param3Eval<P>,
    kind: GateKind,
    p: Seq<u64>,
)
    requires
        0 <= n,
        translation_of_lowercase(str_lowercase(name@), vals) == Some((kind, p)),
    ensures
        expand3_broadcast(ast, name, lists, vals, n, ev, 0) == Ok::<Seq<OpView>, ParseErrorView>(
            Seq::new(n as nat, |i: int| emitted3(kind, application_qubits3(lists, i), p, name@)),
        ),
{
    lemma_broadcast_from3(ast, name, lists, vals, n, ev, kind, p, 0);
    assert(Seq::new((n - 0) as nat, |t: int| emitted3(kind, application_qubits3(lists, 0 + t), p, name@))
        =~= Seq::new(n as nat, |i: int| emitted3(kind, application_qubits3(lists, i), p, name@)));
}

proof fn lemma_broadcast_from3<P>(
    ast: Seq<Qasm3Stmt<P>>,
    name: String,
    lists: Seq<Seq<usize>>,
    vals: Seq<u64>,
    n: int,
    ev: Param3Eval<P>,
    kind: GateKind,
    p: Seq<u64>,
    i: int,
)
    requires
        0 <= i <= n,
        translation_of_lowercase(str_lowercase(name@), vals) == Some((kind, p)),
    ensures
        expand3_broadcast(ast, name, lists, vals, n, ev, i) == Ok::<Seq<OpView>, ParseErrorView>(
            Seq::new((n - i) as nat, |t: int| emitted3(kind, application_qubits3(lists, i + t), p, name@)),
        ),
    decreases n - i,
{
    let want = Seq::new((n - i) as nat, |t: int| emitted3(kind, application_qubits3(lists, i + t), p, name@));
    if i < n {
        lemma_broadcast_from3(ast, name, lists, vals, n, ev, kind, p, i + 1);
        assert(pick(lists, i) =~= application_qubits3(lists, i));
        let rest = Seq::new((n - i - 1) as nat, |t: int| emitted3(kind, application_qubits3(lists, i + 1 + t), p, name@));
        assert(seq![emitted3(kind, application_qubits3(lists, i), p, name@)] + rest =~= want);
    } else {
        assert(want =~= Seq::<OpView>::empty());
    }
}

/// A register named without an index stands for all of its qubits, in
/// order from its first index; with an integer index, for the one qubit
/// that many places after its first.
pub proof fn lemma_register_operands3<P>(ast: Seq<Qasm3Stmt<P>>, id: usize, b: int, w: int, v: usize)
    requires
        register3_of(ast, id) == Some((b, w)),
        0 <= b,
        0 <= w,
    ensures
        operand_qubits(ast, Qasm3Operand::Identifier(Some(id))) == Ok::<Seq<usize>, ParseErrorView>(
            Seq::new(w as nat, |i: int| (b + i) as usize),
        ),
        operand_qubits(ast, Qasm3Operand::Indexed(Some(id), Qasm3Index::Int(v))) == Ok::<
            Seq<usize>,
            ParseErrorView,
        >(seq![(b + v) as usize]),
{
    assert(index_range(b, w) =~= Seq::new(w as nat, |i: int| (b + i) as usize));
}

} // verus!

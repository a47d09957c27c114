//! Text renderings of a bug-zoo entry: the OpenQASM 2 reproducer of a
//! circuit, its gate list as JSON, and JSON string escaping.
//!
//! Gate parameters are rendered by a caller-supplied formatter, which
//! turns the binary64 bit pattern of an angle into its decimal text.

use crate::ir::{Circuit, OpView};
use crate::text::{decimal, decimal_string};
use vstd::prelude::*;

verus! {

/// A parameter formatter as seen in specifications.
pub type ParamText = spec_fn(u64) -> Seq<char>;

/// The text that a formatting closure gives for a bit pattern.
pub open spec fn formatter_of<F: Fn(u64) -> String>(fmt: F) -> ParamText {
    |x: u64|
        {
            let r = choose|r: String| #![trigger call_ensures(fmt, (x,), r)] call_ensures(fmt, (x,), r);
            r@
        }
}

/// The closure gives one text for one bit pattern.
pub open spec fn formats_consistently<F: Fn(u64) -> String>(fmt: F) -> bool {
    forall|x: u64, r1: String, r2: String|
        #![trigger call_ensures(fmt, (x,), r1), call_ensures(fmt, (x,), r2)]
        call_ensures(fmt, (x,), r1) && call_ensures(fmt, (x,), r2) ==> r1@ == r2@
}

/// The texts of `items`, separated by commas.
pub open spec fn comma_joined(items: Seq<Seq<char>>) -> Seq<char>
    decreases items.len(),
{
    if items.len() == 0 {
        seq![]
    } else if items.len() == 1 {
        items[0]
    } else {
        comma_joined(items.drop_last()) + ","@ + items.last()
    }
}

/// `q[i]`
pub open spec fn qubit_ref(i: usize) -> Seq<char> {
    "q["@ + decimal(i as nat) + "]"@
}

/// The parameter list of an operation: empty when it has none, else the
/// formatted values in parentheses.
pub open spec fn params_text(params: Seq<u64>, fmt: ParamText) -> Seq<char> {
    if params.len() == 0 {
        seq![]
    } else {
        "("@ + comma_joined(params.map_values(|p: u64| fmt(p))) + ")"@
    }
}

/// One reproducer line: `name(params) q[a],q[b];`
pub open spec fn qasm2_line(op: OpView, fmt: ParamText) -> Seq<char> {
    op.kind.canonical_name() + params_text(op.params, fmt) + " "@ + comma_joined(
        op.qubits.map_values(|q: usize| qubit_ref(q)),
    ) + ";\n"@
}

/// The reproducer lines of `ops`.
pub open spec fn qasm2_lines(ops: Seq<OpView>, fmt: ParamText) -> Seq<char>
    decreases ops.len(),
{
    if ops.len() == 0 {
        seq![]
    } else {
        qasm2_lines(ops.drop_last(), fmt) + qasm2_line(ops.last(), fmt)
    }
}

/// The OpenQASM 2 reproducer of a circuit with `n` qubits and operations
/// `ops`: the header, one register `q` holding every qubit, and one line
/// per operation.
pub open spec fn qasm2_text(n: nat, ops: Seq<OpView>, fmt: ParamText) -> Seq<char> {
    "OPENQASM 2.0;\ninclude \"qelib1.inc\";\n"@ + "qreg q["@ + decimal(n) + "];\n"@ + qasm2_lines(
        ops,
        fmt,
    )
}

/// One gate of the JSON gate list:
/// `{"gate":"name","qubits":[a,b],"params":[x,y]}`
pub open spec fn gate_json(op: OpView, fmt: ParamText) -> Seq<char> {
    "{\"gate\":\""@ + op.kind.canonical_name() + "\",\"qubits\":["@ + comma_joined(
        op.qubits.map_values(|q: usize| decimal(q as nat)),
    ) + "],\"params\":["@ + comma_joined(op.params.map_values(|p: u64| fmt(p))) + "]}"@
}

/// The JSON objects of the gates `ops`, separated by commas.
pub open spec fn gates_json_text(ops: Seq<OpView>, fmt: ParamText) -> Seq<char> {
    comma_joined(ops.map_values(|op: OpView| gate_json(op, fmt)))
}

/// A character as it appears inside a JSON string literal: backslash,
/// double quote and newline are escaped.
pub open spec fn escaped_char(c: char) -> Seq<char> {
    if c == '\\' {
        seq!['\\', '\\']
    } else if c == '"' {
        seq!['\\', '"']
    } else if c == '\n' {
        seq!['\\', 'n']
    } else {
        seq![c]
    }
}

/// `s` with every character escaped for a JSON string literal.
pub open spec fn escaped(s: Seq<char>) -> Seq<char>
    decreases s.len(),
{
    if s.len() == 0 {
        seq![]
    } else {
        escaped(s.drop_last()) + escaped_char(s.last())
    }
}

/// Escapes backslashes, double quotes and newlines so that `s` can stand
/// inside a JSON string literal.
pub fn json_escape(s: &str) -> (out: String)
    ensures
        out@ == escaped(s@),
{
    let n = s.unicode_len();
    let mut out = String::new();
    let mut i: usize = 0;
    while i < n
        invariant
            i <= n,
            n == s@.len(),
            out@ == escaped(s@.subrange(0, i as int)),
        decreases n - i,
    {
        let c = s.get_char(i);
        assert(s@.subrange(0, i as int + 1).drop_last() =~= s@.subrange(0, i as int));
        assert(s@.subrange(0, i as int + 1).last() == c);
        let ghost before = out@;
        proof {
            reveal_strlit("\\\\");
            reveal_strlit("\\\"");
            reveal_strlit("\\n");
        }
        if c == '\\' {
            out.append("\\\\");
        } else if c == '"' {
            out.append("\\\"");
        } else if c == '\n' {
            out.append("\\n");
        } else {
            let piece = s.substring_char(i, i + 1);
            assert(piece@ =~= seq![c]);
            out.append(piece);
        }
        assert(out@ =~= before + escaped_char(c));
        i = i + 1;
    }
    assert(s@.subrange(0, n as int) =~= s@);
    out
}

/// Appends `items` joined by commas, each rendered by `render`.
fn push_joined_decimal(out: &mut String, items: &Vec<usize>, prefix: &str, suffix: &str)
    ensures
        final(out)@ == old(out)@ + comma_joined(
            items@.map_values(|q: usize| prefix@ + decimal(q as nat) + suffix@),
        ),
{
    let ghost start = out@;
    let mut i: usize = 0;
    while i < items.len()
        invariant
            i <= items.len(),
            out@ == start + comma_joined(
                items@.subrange(0, i as int).map_values(
                    |q: usize| prefix@ + decimal(q as nat) + suffix@,
                ),
            ),
        decreases items.len() - i,
    {
        let ghost before = out@;
        let ghost done = items@.subrange(0, i as int).map_values(
            |q: usize| prefix@ + decimal(q as nat) + suffix@,
        );
        let ghost next = items@.subrange(0, i as int + 1).map_values(
            |q: usize| prefix@ + decimal(q as nat) + suffix@,
        );
        assert(next.drop_last() =~= done);
        if i > 0 {
            out.append(",");
        }
        out.append(prefix);
        let d = decimal_string(items[i]);
        out.append(d.as_str());
        out.append(suffix);
        i = i + 1;
        proof {
            if i == 1 {
                assert(done.len() == 0);
                assert(next.len() == 1);
            }
            assert(out@ =~= start + comma_joined(next));
        }
    }
    assert(items@.subrange(0, items.len() as int) =~= items@);
}

/// Appends the formatted `params`, joined by commas.
fn push_joined_params<F: Fn(u64) -> String>(out: &mut String, params: &Vec<u64>, fmt: &F)
    requires
        forall|x: u64| fmt.requires((x,)),
        formats_consistently(*fmt),
    ensures
        final(out)@ == old(out)@ + comma_joined(
            params@.map_values(|p: u64| (formatter_of(*fmt))(p)),
        ),
{
    let ghost ft = formatter_of(*fmt);
    let ghost start = out@;
    let mut i: usize = 0;
    while i < params.len()
        invariant
            i <= params.len(),
            forall|x: u64| fmt.requires((x,)),
            formats_consistently(*fmt),
            ft == formatter_of(*fmt),
            out@ == start + comma_joined(
                params@.subrange(0, i as int).map_values(|p: u64| ft(p)),
            ),
        decreases params.len() - i,
    {
        let ghost done = params@.subrange(0, i as int).map_values(|p: u64| ft(p));
        let ghost next = params@.subrange(0, i as int + 1).map_values(|p: u64| ft(p));
        assert(next.drop_last() =~= done);
        if i > 0 {
            out.append(",");
        }
        let text = fmt(params[i]);
        proof {
            let r = choose|r: String| #![trigger call_ensures(*fmt, (params@[i as int],), r)] call_ensures(
                *fmt,
                (params@[i as int],),
                r,
            );
            assert(call_ensures(*fmt, (params@[i as int],), r));
            assert(ft(params@[i as int]) == text@);
        }
        out.append(text.as_str());
        i = i + 1;
        proof {
            assert(next.last() == ft(params@[i - 1]));
            assert(out@ =~= start + comma_joined(next));
        }
    }
    assert(params@.subrange(0, params.len() as int) =~= params@);
}

/// Renders a circuit as an OpenQASM 2 reproducer, one line per
/// operation, using `fmt` for the parameter values; see [`qasm2_text`].
pub fn to_qasm2<F: Fn(u64) -> String>(circuit: &Circuit, fmt: &F) -> (out: String)
    requires
        forall|x: u64| fmt.requires((x,)),
        formats_consistently(*fmt),
    ensures
        out@ == qasm2_text(circuit@.qubits.len(), circuit@.operations, formatter_of(*fmt)),
{
    let ghost ft = formatter_of(*fmt);
    let mut out = String::from_str("OPENQASM 2.0;\ninclude \"qelib1.inc\";\n");
    out.append("qreg q[");
    let n = decimal_string(circuit.num_qubits());
    out.append(n.as_str());
    out.append("];\n");
    let ghost head = out@;
    let ghost ops = circuit@.operations;
    let mut k: usize = 0;
    while k < circuit.operations.len()
        invariant
            k <= circuit.operations.len(),
            forall|x: u64| fmt.requires((x,)),
            formats_consistently(*fmt),
            ft == formatter_of(*fmt),
            ops == circuit@.operations,
            out@ == head + qasm2_lines(ops.subrange(0, k as int), ft),
        decreases circuit.operations.len() - k,
    {
        let op = &circuit.operations[k];
        assert(op@ == ops[k as int]);
        assert(ops.subrange(0, k as int + 1).drop_last() =~= ops.subrange(0, k as int));
        let ghost before = out@;
        out.append(op.kind.qasm_name());
        if op.params.len() > 0 {
            out.append("(");
            push_joined_params(&mut out, &op.params, fmt);
            out.append(")");
        }
        out.append(" ");
        push_joined_decimal(&mut out, &op.qubits, "q[", "]");
        out.append(";\n");
        proof {
            assert(op.params@.map_values(|p: u64| (formatter_of(*fmt))(p)) =~= op@.params.map_values(
                |p: u64| ft(p),
            ));
            assert(op.qubits@.map_values(|q: usize| "q["@ + decimal(q as nat) + "]"@)
                =~= op@.qubits.map_values(|q: usize| qubit_ref(q)));
            assert(out@ =~= before + qasm2_line(op@, ft));
        }
        k = k + 1;
    }
    assert(ops.subrange(0, ops.len() as int) =~= ops);
    out
}

/// Renders each operation of a circuit as a JSON object, the objects
/// separated by commas, using `fmt` for the parameter values; see [`gates_json_text`].
pub fn gates_json<F: Fn(u64) -> String>(circuit: &Circuit, fmt: &F) -> (out: String)
    requires
        forall|x: u64| fmt.requires((x,)),
        formats_consistently(*fmt),
    ensures
        out@ == gates_json_text(circuit@.operations, formatter_of(*fmt)),
{
    let ghost ft = formatter_of(*fmt);
    let ghost ops = circuit@.operations;
    let mut out = String::new();
    let mut k: usize = 0;
    while k < circuit.operations.len()
        invariant
            k <= circuit.operations.len(),
            forall|x: u64| fmt.requires((x,)),
            formats_consistently(*fmt),
            ft == formatter_of(*fmt),
            ops == circuit@.operations,
            out@ == comma_joined(ops.subrange(0, k as int).map_values(|o: OpView| gate_json(o, ft))),
        decreases circuit.operations.len() - k,
    {
        let op = &circuit.operations[k];
        assert(op@ == ops[k as int]);
        let ghost done = ops.subrange(0, k as int).map_values(|o: OpView| gate_json(o, ft));
        let ghost next = ops.subrange(0, k as int + 1).map_values(|o: OpView| gate_json(o, ft));
        assert(next.drop_last() =~= done);
        let ghost before = out@;
        if k > 0 {
            out.append(",");
        }
        let ghost mid = out@;
        out.append("{\"gate\":\"");
        out.append(op.kind.qasm_name());
        out.append("\",\"qubits\":[");
        push_joined_decimal(&mut out, &op.qubits, "", "");
        out.append("],\"params\":[");
        push_joined_params(&mut out, &op.params, fmt);
        out.append("]}");
        proof {
            assert(op.qubits@.map_values(|q: usize| ""@ + decimal(q as nat) + ""@) =~= op.qubits@.map_values(
                |q: usize| decimal(q as nat),
            )) by {
                assert forall|t: int| 0 <= t < op.qubits@.len() implies ""@ + decimal(op.qubits@[t] as nat) + ""@
                    =~= decimal(op.qubits@[t] as nat) by {
                    reveal_strlit("");
                }
            }
            assert(op.params@.map_values(|p: u64| (formatter_of(*fmt))(p)) =~= op@.params.map_values(
                |p: u64| ft(p),
            ));
            assert(out@ =~= mid + gate_json(op@, ft));
            if k == 0 {
                assert(done.len() == 0);
            }
            assert(out@ =~= comma_joined(next));
        }
        k = k + 1;
    }
    assert(ops.subrange(0, ops.len() as int) =~= ops);
    out
}

/// `t` can stand between the quotes of a JSON string literal: it holds
/// no raw `"` or newline, and each backslash starts one of the escapes
/// `\\`, `\"`, `\n`.
pub open spec fn json_string_body(t: Seq<char>) -> bool
    decreases t.len(),
{
    if t.len() == 0 {
        true
    } else if t[0] == '\\' {
        t.len() >= 2 && (t[1] == '\\' || t[1] == '"' || t[1] == 'n') && json_string_body(
            t.skip(2),
        )
    } else if t[0] == '"' || t[0] == '\n' {
        false
    } else {
        json_string_body(t.skip(1))
    }
}

/// What a JSON reader makes of a string body: `\n` is a newline, any
/// other backslash escape the character after the backslash.
pub open spec fn json_decoded(t: Seq<char>) -> Seq<char>
    decreases t.len(),
{
    if t.len() == 0 {
        seq![]
    } else if t[0] == '\\' && t.len() >= 2 {
        seq![if t[1] == 'n' { '\n' } else { t[1] }] + json_decoded(t.skip(2))
    } else {
        seq![t[0]] + json_decoded(t.skip(1))
    }
}

proof fn lemma_body_concat(a: Seq<char>, b: Seq<char>)
    requires
        json_string_body(a),
    ensures
        json_string_body(a + b) == json_string_body(b),
        json_decoded(a + b) == json_decoded(a) + json_decoded(b),
    decreases a.len(),
{
    if a.len() == 0 {
        assert(a + b =~= b);
        assert(json_decoded(a) =~= seq![]);
        assert(json_decoded(a) + json_decoded(b) =~= json_decoded(b));
    } else if a[0] == '\\' {
        assert((a + b)[0] == a[0] && (a + b)[1] == a[1]);
        assert((a + b).skip(2) =~= a.skip(2) + b);
        lemma_body_concat(a.skip(2), b);
        let h = seq![if a[1] == 'n' { '\n' } else { a[1] }];
        assert(h + (json_decoded(a.skip(2)) + json_decoded(b)) =~= (h + json_decoded(a.skip(2)))
            + json_decoded(b));
    } else {
        assert((a + b)[0] == a[0]);
        assert((a + b).skip(1) =~= a.skip(1) + b);
        lemma_body_concat(a.skip(1), b);
        let h = seq![a[0]];
        assert(h + (json_decoded(a.skip(1)) + json_decoded(b)) =~= (h + json_decoded(a.skip(1)))
            + json_decoded(b));
    }
}

proof fn lemma_escaped_char_reads_back(c: char)
    ensures
        json_string_body(escaped_char(c)),
        json_decoded(escaped_char(c)) == seq![c],
{
    let e = escaped_char(c);
    assert(json_string_body(Seq::<char>::empty()));
    if c == '\\' || c == '"' || c == '\n' {
        assert(e.len() == 2 && e[0] == '\\');
        assert(e.skip(2) =~= Seq::<char>::empty());
    } else {
        assert(e.len() == 1 && e[0] == c);
        assert(e.skip(1) =~= Seq::<char>::empty());
    }
    assert(json_decoded(Seq::<char>::empty()) =~= Seq::<char>::empty());
    assert(json_decoded(e) =~= seq![c]);
}

/// Escaping is what a JSON string literal needs: the escaped text holds
/// no raw quote or newline and only valid escapes, and a JSON reader
/// gives back exactly the original text.
pub proof fn lemma_escaping_reads_back(s: Seq<char>)
    ensures
        json_string_body(escaped(s)),
        json_decoded(escaped(s)) == s,
    decreases s.len(),
{
    if s.len() == 0 {
        assert(json_decoded(Seq::<char>::empty()) =~= Seq::<char>::empty());
    } else {
        lemma_escaping_reads_back(s.drop_last());
        lemma_escaped_char_reads_back(s.last());
        lemma_body_concat(escaped(s.drop_last()), escaped_char(s.last()));
        lemma_body_concat(escaped_char(s.last()), Seq::<char>::empty());
        assert(escaped_char(s.last()) + Seq::<char>::empty() =~= escaped_char(s.last()));
        assert(json_string_body(Seq::<char>::empty()));
        assert(s.drop_last() + seq![s.last()] =~= s);
    }
}

} // verus!

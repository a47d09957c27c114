//! Preparing QASM source text handed over as a string: the `include`
//! lines, which would need the file system, are dropped, since every
//! standard gate is known to the parsers already.

use crate::memory::{lemma_next_newline, next_newline, next_ws, white_space};
use crate::translate::chars_match;
use vstd::prelude::*;

verus! {

/// The text of the line `s[i..k]`, where `k` is the position of its
/// `'\n'` or the end of `s`: as `str::lines` yields it, without a `'\r'`
/// just before the `'\n'`.
pub open spec fn line_text(s: Seq<char>, i: int, k: int) -> Seq<char> {
    if k < s.len() && k > i && s[k - 1] == '\r' {
        s.subrange(i, k - 1)
    } else {
        s.subrange(i, k)
    }
}

/// The lines of `s` from position `i` on, as `str::lines` yields them:
/// a final `'\n'` ends the last line and starts no new one.
pub open spec fn lines_from(s: Seq<char>, i: int) -> Seq<Seq<char>>
    decreases s.len() - i,
{
    if i < 0 || i >= s.len() {
        seq![]
    } else {
        let k = next_newline(s, i, s.len() as int);
        if k >= s.len() {
            seq![s.subrange(i, s.len() as int)]
        } else {
            proof {
                lemma_next_newline(s, i, s.len() as int);
            }
            seq![line_text(s, i, k)] + lines_from(s, k + 1)
        }
    }
}

/// A line that includes a file: after its leading white space, it starts
/// with `include`.
pub open spec fn is_include(line: Seq<char>) -> bool {
    let k = next_ws(line, 0, line.len() as int, false);
    line.len() - k >= 7 && line.subrange(k, k + 7) == "include"@
}

/// The lines that are not `include` lines, in their order.
pub open spec fn kept_lines(lines: Seq<Seq<char>>) -> Seq<Seq<char>>
    decreases lines.len(),
{
    if lines.len() == 0 {
        seq![]
    } else {
        let rest = kept_lines(lines.drop_first());
        if is_include(lines[0]) {
            rest
        } else {
            seq![lines[0]] + rest
        }
    }
}

/// Lines joined with a `'\n'` between each two.
pub open spec fn joined(lines: Seq<Seq<char>>) -> Seq<char>
    decreases lines.len(),
{
    if lines.len() == 0 {
        seq![]
    } else if lines.len() == 1 {
        lines[0]
    } else {
        lines[0] + seq!['\n'] + joined(lines.drop_first())
    }
}

/// The source without its `include` lines: its other lines joined with
/// `'\n'`.
pub open spec fn without_includes(s: Seq<char>) -> Seq<char> {
    joined(kept_lines(lines_from(s, 0)))
}

/// Joining one line more appends it after a `'\n'`, or alone when there
/// was none before.
proof fn lemma_joined_push(acc: Seq<Seq<char>>, t: Seq<char>)
    ensures
        joined(acc.push(t)) == if acc.len() == 0 {
            t
        } else {
            joined(acc) + seq!['\n'] + t
        },
    decreases acc.len(),
{
    if acc.len() == 0 {
        assert(acc.push(t) =~= seq![t]);
    } else {
        assert(acc.push(t).drop_first() =~= acc.drop_first().push(t));
        lemma_joined_push(acc.drop_first(), t);
        if acc.len() == 1 {
            assert(acc.drop_first() =~= seq![]);
        } else {
            assert(acc[0] + seq!['\n'] + (joined(acc.drop_first()) + seq!['\n'] + t) =~= (acc[0]
                + seq!['\n'] + joined(acc.drop_first())) + seq!['\n'] + t);
        }
    }
}

/// Whether a line includes a file; see [`is_include`].
fn line_is_include(line: &str) -> (b: bool)
    ensures
        b == is_include(line@),
{
    let n = line.unicode_len();
    let mut k: usize = 0;
    while k < n && white_space(line.get_char(k))
        invariant
            k <= n,
            n == line@.len(),
            next_ws(line@, 0, n as int, false) == next_ws(line@, k as int, n as int, false),
        decreases n - k,
    {
        k = k + 1;
    }
    proof {
        reveal_strlit("include");
    }
    if n - k < 7 {
        return false;
    }
    let head = line.substring_char(k, k + 7);
    chars_match(head, "include")
}

/// The source without its `include` lines; see [`without_includes`].
pub fn strip_includes(source: &str) -> (out: String)
    ensures
        out@ == without_includes(source@),
{
    let n = source.unicode_len();
    let mut out = String::new();
    let mut i: usize = 0;
    let mut any = false;
    let ghost mut acc: Seq<Seq<char>> = seq![];
    proof {
        assert(out@ =~= joined(acc));
        assert(kept_lines(lines_from(source@, 0)) =~= acc + kept_lines(lines_from(source@, 0)));
    }
    while i < n
        invariant
            i <= n,
            n == source@.len(),
            out@ == joined(acc),
            any == (acc.len() > 0),
            kept_lines(lines_from(source@, 0)) == acc + kept_lines(lines_from(source@, i as int)),
        decreases n - i,
    {
        let mut k: usize = i;
        while k < n && source.get_char(k) != '\n'
            invariant
                i <= k <= n,
                n == source@.len(),
                next_newline(source@, i as int, n as int) == next_newline(
                    source@,
                    k as int,
                    n as int,
                ),
            decreases n - k,
        {
            k = k + 1;
        }
        let e: usize = if k < n && k > i && source.get_char(k - 1) == '\r' {
            k - 1
        } else {
            k
        };
        let line = source.substring_char(i, e);
        let next: usize = if k < n {
            k + 1
        } else {
            n
        };
        let ghost lines = lines_from(source@, i as int);
        assert(lines == seq![line@] + lines_from(source@, next as int)) by {
            if k >= n {
                assert(lines_from(source@, n as int) =~= seq![]);
                assert(seq![line@] + seq![] =~= seq![line@]);
            }
        }
        let ghost rest = kept_lines(lines_from(source@, next as int));
        assert(lines.drop_first() =~= lines_from(source@, next as int));
        if !line_is_include(line) {
            let ghost before = out@;
            if any {
                out.append("\n");
            }
            out.append(line);
            proof {
                reveal_strlit("\n");
                lemma_joined_push(acc, line@);
                if acc.len() > 0 {
                    assert(before == joined(acc));
                    assert(out@ =~= joined(acc) + seq!['\n'] + line@);
                }
                assert(acc + (seq![line@] + rest) =~= acc.push(line@) + rest);
                acc = acc.push(line@);
            }
            any = true;
        }
        i = next;
    }
    assert(lines_from(source@, i as int) =~= seq![]);
    assert(acc + seq![] =~= acc);
    out
}

} // verus!

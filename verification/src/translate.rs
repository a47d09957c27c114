//! Mapping from gate name strings to [`GateKind`], including parameter
//! rewriting for aliased gates.

use crate::gate::GateKind;
use vstd::prelude::*;

verus! {

/// The string that `str::to_lowercase` returns for a string with the given
/// characters (Unicode lowercase mapping).
pub uninterp spec fn str_lowercase(s: Seq<char>) -> Seq<char>;

/// An ASCII character: below 128.
pub open spec fn is_ascii_char(c: char) -> bool {
    (c as u32) < 128
}

/// Every character of `s` is ASCII.
pub open spec fn is_ascii_text(s: Seq<char>) -> bool {
    forall|i: int| 0 <= i < s.len() ==> is_ascii_char(#[trigger] s[i])
}

/// The lowercase of a character in the ASCII range: `A`–`Z` become
/// `a`–`z`, every other character is kept.
pub open spec fn ascii_lower(c: char) -> char {
    if 65 <= (c as u32) <= 90 {
        ((c as u32) + 32) as char
    } else {
        c
    }
}

/// `s` with every character passed through [`ascii_lower`].
pub open spec fn ascii_lowered(s: Seq<char>) -> Seq<char> {
    s.map_values(|c: char| ascii_lower(c))
}

/// Calls `str::to_lowercase`. Its result is named by [`str_lowercase`]
/// of the argument's characters; the Unicode lowercase mapping is not
/// written out here. For an all-ASCII argument the result is stated: as
/// std documents for the ASCII range, `A`–`Z` map to `a`–`z` and every
/// other character is kept.
#[verifier::external_body]
fn lowercase(s: &str) -> (res: String)
    ensures
        res@ == str_lowercase(s@),
        is_ascii_text(s@) ==> res@ == ascii_lowered(s@),
{
    s.to_lowercase()
}

/// Compares the characters of `s` with those of `word`.
pub fn chars_match(s: &str, word: &str) -> (b: bool)
    ensures
        b == (s@ == word@),
{
    let n = s.unicode_len();
    if n != word.unicode_len() {
        return false;
    }
    let mut i: usize = 0;
    while i < n
        invariant
            n == s@.len(),
            n == word@.len(),
            i <= n,
            forall|k: int| 0 <= k < i ==> s@[k] == word@[k],
        decreases n - i,
    {
        if s.get_char(i) != word.get_char(i) {
            return false;
        }
        i = i + 1;
    }
    assert(s@ =~= word@);
    true
}

/// Kind that an already lowercased name denotes, QASM 2 and
/// QASM 3 aliases included.
pub open spec fn kind_named(s: Seq<char>) -> Option<GateKind> {
    if s == "id"@ || s == "i"@ {
        Some(GateKind::Id)
    } else if s == "x"@ {
        Some(GateKind::X)
    } else if s == "y"@ {
        Some(GateKind::Y)
    } else if s == "z"@ {
        Some(GateKind::Z)
    } else if s == "h"@ {
        Some(GateKind::H)
    } else if s == "s"@ {
        Some(GateKind::S)
    } else if s == "sdg"@ {
        Some(GateKind::Sdg)
    } else if s == "t"@ {
        Some(GateKind::T)
    } else if s == "tdg"@ {
        Some(GateKind::Tdg)
    } else if s == "sx"@ {
        Some(GateKind::Sx)
    } else if s == "sxdg"@ {
        Some(GateKind::Sxdg)
    } else if s == "rx"@ {
        Some(GateKind::Rx)
    } else if s == "ry"@ {
        Some(GateKind::Ry)
    } else if s == "rz"@ {
        Some(GateKind::Rz)
    } else if s == "p"@ || s == "phase"@ || s == "u1"@ {
        Some(GateKind::Phase)
    } else if s == "u"@ || s == "u3"@ {
        Some(GateKind::U)
    } else if s == "cx"@ || s == "cnot"@ {
        Some(GateKind::Cx)
    } else if s == "cy"@ {
        Some(GateKind::Cy)
    } else if s == "cz"@ {
        Some(GateKind::Cz)
    } else if s == "ch"@ {
        Some(GateKind::Ch)
    } else if s == "csx"@ {
        Some(GateKind::Csx)
    } else if s == "crx"@ {
        Some(GateKind::Crx)
    } else if s == "cry"@ {
        Some(GateKind::Cry)
    } else if s == "crz"@ {
        Some(GateKind::Crz)
    } else if s == "cp"@ || s == "cphase"@ {
        Some(GateKind::Cp)
    } else if s == "cu"@ || s == "cu3"@ {
        Some(GateKind::Cu)
    } else if s == "swap"@ {
        Some(GateKind::Swap)
    } else if s == "ccx"@ || s == "toffoli"@ || s == "ccnot"@ {
        Some(GateKind::Ccx)
    } else if s == "cswap"@ || s == "fredkin"@ {
        Some(GateKind::Cswap)
    } else {
        None
    }
}

/// Looks up a name that is already in lowercase and returns the matching
/// `GateKind`.
pub fn gate_kind_from_lowercase(s: &str) -> (k: Option<GateKind>)
    ensures
        k == kind_named(s@),
{
    if chars_match(s, "id") || chars_match(s, "i") {
        Some(GateKind::Id)
    } else if chars_match(s, "x") {
        Some(GateKind::X)
    } else if chars_match(s, "y") {
        Some(GateKind::Y)
    } else if chars_match(s, "z") {
        Some(GateKind::Z)
    } else if chars_match(s, "h") {
        Some(GateKind::H)
    } else if chars_match(s, "s") {
        Some(GateKind::S)
    } else if chars_match(s, "sdg") {
        Some(GateKind::Sdg)
    } else if chars_match(s, "t") {
        Some(GateKind::T)
    } else if chars_match(s, "tdg") {
        Some(GateKind::Tdg)
    } else if chars_match(s, "sx") {
        Some(GateKind::Sx)
    } else if chars_match(s, "sxdg") {
        Some(GateKind::Sxdg)
    } else if chars_match(s, "rx") {
        Some(GateKind::Rx)
    } else if chars_match(s, "ry") {
        Some(GateKind::Ry)
    } else if chars_match(s, "rz") {
        Some(GateKind::Rz)
    } else if chars_match(s, "p") || chars_match(s, "phase") || chars_match(s, "u1") {
        Some(GateKind::Phase)
    } else if chars_match(s, "u") || chars_match(s, "u3") {
        Some(GateKind::U)
    } else if chars_match(s, "cx") || chars_match(s, "cnot") {
        Some(GateKind::Cx)
    } else if chars_match(s, "cy") {
        Some(GateKind::Cy)
    } else if chars_match(s, "cz") {
        Some(GateKind::Cz)
    } else if chars_match(s, "ch") {
        Some(GateKind::Ch)
    } else if chars_match(s, "csx") {
        Some(GateKind::Csx)
    } else if chars_match(s, "crx") {
        Some(GateKind::Crx)
    } else if chars_match(s, "cry") {
        Some(GateKind::Cry)
    } else if chars_match(s, "crz") {
        Some(GateKind::Crz)
    } else if chars_match(s, "cp") || chars_match(s, "cphase") {
        Some(GateKind::Cp)
    } else if chars_match(s, "cu") || chars_match(s, "cu3") {
        Some(GateKind::Cu)
    } else if chars_match(s, "swap") {
        Some(GateKind::Swap)
    } else if chars_match(s, "ccx") || chars_match(s, "toffoli") || chars_match(s, "ccnot") {
        Some(GateKind::Ccx)
    } else if chars_match(s, "cswap") || chars_match(s, "fredkin") {
        Some(GateKind::Cswap)
    } else {
        None
    }
}

/// Looks up a gate name (case-insensitive) and returns the matching
/// `GateKind`.
///
/// Does not handle parameter rewriting; use [`translate_gate`] when you
/// also have evaluated parameters available.
pub fn gate_kind_from_name(name: &str) -> (k: Option<GateKind>)
    ensures
        k == kind_named(str_lowercase(name@)),
        is_ascii_text(name@) ==> k == kind_named(ascii_lowered(name@)),
{
    let lower = lowercase(name);
    gate_kind_from_lowercase(lower.as_str())
}

/// Bit pattern of the binary64 value nearest to π/2
/// (`std::f64::consts::FRAC_PI_2`).
pub const FRAC_PI_2_BITS: u64 = 0x3FF9_21FB_5444_2D18u64;

/// The canonical `(kind, params)` pair for a gate name that has already
/// been lowercased once.
pub open spec fn translation_of_lowercase(lower: Seq<char>, params: Seq<u64>) -> Option<
    (GateKind, Seq<u64>),
> {
    if lower == "u2"@ {
        Some((GateKind::U, seq![FRAC_PI_2_BITS] + params))
    } else {
        match kind_named(str_lowercase(lower)) {
            Some(k) => Some((k, params)),
            None => None,
        }
    }
}

/// [`translation_of_lowercase`] for an all-ASCII name, where lowercasing
/// is [`ascii_lowered`].
pub open spec fn ascii_translation(lower: Seq<char>, params: Seq<u64>) -> Option<
    (GateKind, Seq<u64>),
> {
    if lower == "u2"@ {
        Some((GateKind::U, seq![FRAC_PI_2_BITS] + params))
    } else {
        match kind_named(ascii_lowered(lower)) {
            Some(k) => Some((k, params)),
            None => None,
        }
    }
}

/// ASCII lowercasing keeps a text in the ASCII range.
pub proof fn lemma_ascii_lowered_is_ascii(s: Seq<char>)
    requires
        is_ascii_text(s),
    ensures
        is_ascii_text(ascii_lowered(s)),
        ascii_lowered(s).len() == s.len(),
{
    assert forall|i: int| 0 <= i < ascii_lowered(s).len() implies is_ascii_char(
        #[trigger] ascii_lowered(s)[i],
    ) by {
        let c = s[i];
        assert(is_ascii_char(c));
        if 65 <= (c as u32) <= 90 {
            let d = ((c as u32) + 32) as char;
            assert((d as u32) == (c as u32) + 32);
        }
    }
}

/// Translates a gate name that has already been lowercased; see
/// [`translate_gate`].
pub fn translate_lowercase(lower: &str, params: Vec<u64>) -> (res: Option<(GateKind, Vec<u64>)>)
    ensures
        match res {
            Some((k, p)) => translation_of_lowercase(lower@, params@) == Some((k, p@)),
            None => translation_of_lowercase(lower@, params@) is None,
        },
        is_ascii_text(lower@) ==> match res {
            Some((k, p)) => ascii_translation(lower@, params@) == Some((k, p@)),
            None => ascii_translation(lower@, params@) is None,
        },
{
    if chars_match(lower, "u2") {
        // u2(phi, lam) is shorthand for u(pi/2, phi, lam).
        let mut full: Vec<u64> = Vec::new();
        full.push(FRAC_PI_2_BITS);
        let mut i: usize = 0;
        while i < params.len()
            invariant
                i <= params.len(),
                full@ == seq![FRAC_PI_2_BITS] + params@.subrange(0, i as int),
            decreases params.len() - i,
        {
            full.push(params[i]);
            i = i + 1;
            assert(full@ =~= seq![FRAC_PI_2_BITS] + params@.subrange(0, i as int));
        }
        assert(params@.subrange(0, params.len() as int) =~= params@);
        Some((GateKind::U, full))
    } else {
        match gate_kind_from_name(lower) {
            Some(kind) => Some((kind, params)),
            None => None,
        }
    }
}

/// Translates a gate name and its already-evaluated parameters into the
/// canonical `(GateKind, params)` pair used in the circuit IR.
///
/// Names are matched case-insensitively, with QASM 2 and QASM 3 aliases;
/// `u2(φ, λ)` is rewritten to `U(π/2, φ, λ)`. Returns `None` for gate names
/// that are not part of the supported gate set.
pub fn translate_gate(name: &str, params: Vec<u64>) -> (res: Option<(GateKind, Vec<u64>)>)
    ensures
        match res {
            Some((k, p)) => translation_of_lowercase(str_lowercase(name@), params@) == Some(
                (k, p@),
            ),
            None => translation_of_lowercase(str_lowercase(name@), params@) is None,
        },
        is_ascii_text(name@) ==> match res {
            Some((k, p)) => ascii_translation(ascii_lowered(name@), params@) == Some((k, p@)),
            None => ascii_translation(ascii_lowered(name@), params@) is None,
        },
{
    let lower = lowercase(name);
    proof {
        if is_ascii_text(name@) {
            lemma_ascii_lowered_is_ascii(name@);
        }
    }
    translate_lowercase(lower.as_str(), params)
}

/// The characters of every name the lookup knows, spelled out.
proof fn lemma_known_names_spelled()
    ensures
        "ccnot"@ == seq!['c', 'c', 'n', 'o', 't'],
        "ccx"@ == seq!['c', 'c', 'x'],
        "ch"@ == seq!['c', 'h'],
        "cnot"@ == seq!['c', 'n', 'o', 't'],
        "cp"@ == seq!['c', 'p'],
        "cphase"@ == seq!['c', 'p', 'h', 'a', 's', 'e'],
        "crx"@ == seq!['c', 'r', 'x'],
        "cry"@ == seq!['c', 'r', 'y'],
        "crz"@ == seq!['c', 'r', 'z'],
        "cswap"@ == seq!['c', 's', 'w', 'a', 'p'],
        "csx"@ == seq!['c', 's', 'x'],
        "cu"@ == seq!['c', 'u'],
        "cu3"@ == seq!['c', 'u', '3'],
        "cx"@ == seq!['c', 'x'],
        "cy"@ == seq!['c', 'y'],
        "cz"@ == seq!['c', 'z'],
        "fredkin"@ == seq!['f', 'r', 'e', 'd', 'k', 'i', 'n'],
        "h"@ == seq!['h'],
        "i"@ == seq!['i'],
        "id"@ == seq!['i', 'd'],
        "p"@ == seq!['p'],
        "phase"@ == seq!['p', 'h', 'a', 's', 'e'],
        "rx"@ == seq!['r', 'x'],
        "ry"@ == seq!['r', 'y'],
        "rz"@ == seq!['r', 'z'],
        "s"@ == seq!['s'],
        "sdg"@ == seq!['s', 'd', 'g'],
        "swap"@ == seq!['s', 'w', 'a', 'p'],
        "sx"@ == seq!['s', 'x'],
        "sxdg"@ == seq!['s', 'x', 'd', 'g'],
        "t"@ == seq!['t'],
        "tdg"@ == seq!['t', 'd', 'g'],
        "toffoli"@ == seq!['t', 'o', 'f', 'f', 'o', 'l', 'i'],
        "u"@ == seq!['u'],
        "u1"@ == seq!['u', '1'],
        "u2"@ == seq!['u', '2'],
        "u3"@ == seq!['u', '3'],
        "x"@ == seq!['x'],
        "y"@ == seq!['y'],
        "z"@ == seq!['z']
{
    reveal_strlit("ccnot");
    assert("ccnot"@ =~= seq!['c', 'c', 'n', 'o', 't']);
    reveal_strlit("ccx");
    assert("ccx"@ =~= seq!['c', 'c', 'x']);
    reveal_strlit("ch");
    assert("ch"@ =~= seq!['c', 'h']);
    reveal_strlit("cnot");
    assert("cnot"@ =~= seq!['c', 'n', 'o', 't']);
    reveal_strlit("cp");
    assert("cp"@ =~= seq!['c', 'p']);
    reveal_strlit("cphase");
    assert("cphase"@ =~= seq!['c', 'p', 'h', 'a', 's', 'e']);
    reveal_strlit("crx");
    assert("crx"@ =~= seq!['c', 'r', 'x']);
    reveal_strlit("cry");
    assert("cry"@ =~= seq!['c', 'r', 'y']);
    reveal_strlit("crz");
    assert("crz"@ =~= seq!['c', 'r', 'z']);
    reveal_strlit("cswap");
    assert("cswap"@ =~= seq!['c', 's', 'w', 'a', 'p']);
    reveal_strlit("csx");
    assert("csx"@ =~= seq!['c', 's', 'x']);
    reveal_strlit("cu");
    assert("cu"@ =~= seq!['c', 'u']);
    reveal_strlit("cu3");
    assert("cu3"@ =~= seq!['c', 'u', '3']);
    reveal_strlit("cx");
    assert("cx"@ =~= seq!['c', 'x']);
    reveal_strlit("cy");
    assert("cy"@ =~= seq!['c', 'y']);
    reveal_strlit("cz");
    assert("cz"@ =~= seq!['c', 'z']);
    reveal_strlit("fredkin");
    assert("fredkin"@ =~= seq!['f', 'r', 'e', 'd', 'k', 'i', 'n']);
    reveal_strlit("h");
    assert("h"@ =~= seq!['h']);
    reveal_strlit("i");
    assert("i"@ =~= seq!['i']);
    reveal_strlit("id");
    assert("id"@ =~= seq!['i', 'd']);
    reveal_strlit("p");
    assert("p"@ =~= seq!['p']);
    reveal_strlit("phase");
    assert("phase"@ =~= seq!['p', 'h', 'a', 's', 'e']);
    reveal_strlit("rx");
    assert("rx"@ =~= seq!['r', 'x']);
    reveal_strlit("ry");
    assert("ry"@ =~= seq!['r', 'y']);
    reveal_strlit("rz");
    assert("rz"@ =~= seq!['r', 'z']);
    reveal_strlit("s");
    assert("s"@ =~= seq!['s']);
    reveal_strlit("sdg");
    assert("sdg"@ =~= seq!['s', 'd', 'g']);
    reveal_strlit("swap");
    assert("swap"@ =~= seq!['s', 'w', 'a', 'p']);
    reveal_strlit("sx");
    assert("sx"@ =~= seq!['s', 'x']);
    reveal_strlit("sxdg");
    assert("sxdg"@ =~= seq!['s', 'x', 'd', 'g']);
    reveal_strlit("t");
    assert("t"@ =~= seq!['t']);
    reveal_strlit("tdg");
    assert("tdg"@ =~= seq!['t', 'd', 'g']);
    reveal_strlit("toffoli");
    assert("toffoli"@ =~= seq!['t', 'o', 'f', 'f', 'o', 'l', 'i']);
    reveal_strlit("u");
    assert("u"@ =~= seq!['u']);
    reveal_strlit("u1");
    assert("u1"@ =~= seq!['u', '1']);
    reveal_strlit("u2");
    assert("u2"@ =~= seq!['u', '2']);
    reveal_strlit("u3");
    assert("u3"@ =~= seq!['u', '3']);
    reveal_strlit("x");
    assert("x"@ =~= seq!['x']);
    reveal_strlit("y");
    assert("y"@ =~= seq!['y']);
    reveal_strlit("z");
    assert("z"@ =~= seq!['z']);
}

/// Looking up a kind's canonical name gives the kind back: the
/// case-insensitive lookup inverts [`GateKind::qasm_name`]. For an ASCII
/// name `s` this holds whenever lowercasing `s` gives the canonical name,
/// as for `"CX"` and `"cx"`.
pub proof fn lemma_lookup_inverts_qasm_name(k: GateKind, s: Seq<char>)
    requires
        ascii_lowered(s) == k.canonical_name(),
    ensures
        kind_named(ascii_lowered(s)) == Some(k),
        kind_named(k.canonical_name()) == Some(k),
        is_ascii_text(k.canonical_name()),
        ascii_lowered(k.canonical_name()) == k.canonical_name(),
{
    lemma_known_names_spelled();
    let c = k.canonical_name();
    match k {
        GateKind::Id => {
            assert(c.len() == 2 && c[0] == 'i' && c[1] == 'd');
            assert(kind_named(c) == Some(GateKind::Id));
        },
        GateKind::X => {
            assert(c.len() == 1 && c[0] == 'x');
            assert(kind_named(c) == Some(GateKind::X));
        },
        GateKind::Y => {
            assert(c.len() == 1 && c[0] == 'y');
            assert(kind_named(c) == Some(GateKind::Y));
        },
        GateKind::Z => {
            assert(c.len() == 1 && c[0] == 'z');
            assert(kind_named(c) == Some(GateKind::Z));
        },
        GateKind::H => {
            assert(c.len() == 1 && c[0] == 'h');
            assert(kind_named(c) == Some(GateKind::H));
        },
        GateKind::S => {
            assert(c.len() == 1 && c[0] == 's');
            assert(kind_named(c) == Some(GateKind::S));
        },
        GateKind::Sdg => {
            assert(c.len() == 3 && c[0] == 's' && c[1] == 'd' && c[2] == 'g');
            assert(kind_named(c) == Some(GateKind::Sdg));
        },
        GateKind::T => {
            assert(c.len() == 1 && c[0] == 't');
            assert(kind_named(c) == Some(GateKind::T));
        },
        GateKind::Tdg => {
            assert(c.len() == 3 && c[0] == 't' && c[1] == 'd' && c[2] == 'g');
            assert(kind_named(c) == Some(GateKind::Tdg));
        },
        GateKind::Sx => {
            assert(c.len() == 2 && c[0] == 's' && c[1] == 'x');
            assert(kind_named(c) == Some(GateKind::Sx));
        },
        GateKind::Sxdg => {
            assert(c.len() == 4 && c[0] == 's' && c[1] == 'x' && c[2] == 'd' && c[3] == 'g');
            assert(kind_named(c) == Some(GateKind::Sxdg));
        },
        GateKind::Rx => {
            assert(c.len() == 2 && c[0] == 'r' && c[1] == 'x');
            assert(kind_named(c) == Some(GateKind::Rx));
        },
        GateKind::Ry => {
            assert(c.len() == 2 && c[0] == 'r' && c[1] == 'y');
            assert(kind_named(c) == Some(GateKind::Ry));
        },
        GateKind::Rz => {
            assert(c.len() == 2 && c[0] == 'r' && c[1] == 'z');
            assert(kind_named(c) == Some(GateKind::Rz));
        },
        GateKind::Phase => {
            assert(c.len() == 1 && c[0] == 'p');
            assert(kind_named(c) == Some(GateKind::Phase));
        },
        GateKind::U => {
            assert(c.len() == 1 && c[0] == 'u');
            assert(kind_named(c) == Some(GateKind::U));
        },
        GateKind::Cx => {
            assert(c.len() == 2 && c[0] == 'c' && c[1] == 'x');
            assert(kind_named(c) == Some(GateKind::Cx));
        },
        GateKind::Cy => {
            assert(c.len() == 2 && c[0] == 'c' && c[1] == 'y');
            assert(kind_named(c) == Some(GateKind::Cy));
        },
        GateKind::Cz => {
            assert(c.len() == 2 && c[0] == 'c' && c[1] == 'z');
            assert(kind_named(c) == Some(GateKind::Cz));
        },
        GateKind::Ch => {
            assert(c.len() == 2 && c[0] == 'c' && c[1] == 'h');
            assert(kind_named(c) == Some(GateKind::Ch));
        },
        GateKind::Csx => {
            assert(c.len() == 3 && c[0] == 'c' && c[1] == 's' && c[2] == 'x');
            assert(kind_named(c) == Some(GateKind::Csx));
        },
        GateKind::Crx => {
            assert(c.len() == 3 && c[0] == 'c' && c[1] == 'r' && c[2] == 'x');
            assert(kind_named(c) == Some(GateKind::Crx));
        },
        GateKind::Cry => {
            assert(c.len() == 3 && c[0] == 'c' && c[1] == 'r' && c[2] == 'y');
            assert(kind_named(c) == Some(GateKind::Cry));
        },
        GateKind::Crz => {
            assert(c.len() == 3 && c[0] == 'c' && c[1] == 'r' && c[2] == 'z');
            assert(kind_named(c) == Some(GateKind::Crz));
        },
        GateKind::Cp => {
            assert(c.len() == 2 && c[0] == 'c' && c[1] == 'p');
            assert(kind_named(c) == Some(GateKind::Cp));
        },
        GateKind::Cu => {
            assert(c.len() == 2 && c[0] == 'c' && c[1] == 'u');
            assert(kind_named(c) == Some(GateKind::Cu));
        },
        GateKind::Swap => {
            assert(c.len() == 4 && c[0] == 's' && c[1] == 'w' && c[2] == 'a' && c[3] == 'p');
            assert(kind_named(c) == Some(GateKind::Swap));
        },
        GateKind::Ccx => {
            assert(c.len() == 3 && c[0] == 'c' && c[1] == 'c' && c[2] == 'x');
            assert(kind_named(c) == Some(GateKind::Ccx));
        },
        GateKind::Cswap => {
            assert(c.len() == 5 && c[0] == 'c' && c[1] == 's' && c[2] == 'w' && c[3] == 'a' && c[4] == 'p');
            assert(kind_named(c) == Some(GateKind::Cswap));
        },
    }
    assert forall|i: int| 0 <= i < c.len() implies is_ascii_char(#[trigger] c[i]) && ascii_lower(
        c[i],
    ) == c[i] by {}
    assert(ascii_lowered(c) =~= c);
}

/// The documented aliases name their gates: `i` is `id`, `cnot` is `cx`,
/// `u1` and `phase` are `p`, `u3` is `u`, `cphase` is `cp`, `cu3` is
/// `cu`, `toffoli` and `ccnot` are `ccx`, `fredkin` is `cswap`.
pub proof fn lemma_aliases_name_their_gates()
    ensures
        kind_named("i"@) == Some(GateKind::Id),
        kind_named("cnot"@) == Some(GateKind::Cx),
        kind_named("u1"@) == Some(GateKind::Phase),
        kind_named("phase"@) == Some(GateKind::Phase),
        kind_named("u3"@) == Some(GateKind::U),
        kind_named("cphase"@) == Some(GateKind::Cp),
        kind_named("cu3"@) == Some(GateKind::Cu),
        kind_named("toffoli"@) == Some(GateKind::Ccx),
        kind_named("ccnot"@) == Some(GateKind::Ccx),
        kind_named("fredkin"@) == Some(GateKind::Cswap),
{
    lemma_known_names_spelled();
    assert("i"@.len() == 1 && "i"@[0] == 'i');
    assert(kind_named("i"@) == Some(GateKind::Id));
    assert("cnot"@.len() == 4 && "cnot"@[0] == 'c' && "cnot"@[1] == 'n' && "cnot"@[2] == 'o' && "cnot"@[3] == 't');
    assert(kind_named("cnot"@) == Some(GateKind::Cx));
    assert("u1"@.len() == 2 && "u1"@[0] == 'u' && "u1"@[1] == '1');
    assert(kind_named("u1"@) == Some(GateKind::Phase));
    assert("phase"@.len() == 5 && "phase"@[0] == 'p' && "phase"@[1] == 'h' && "phase"@[2] == 'a' && "phase"@[3] == 's' && "phase"@[4] == 'e');
    assert(kind_named("phase"@) == Some(GateKind::Phase));
    assert("u3"@.len() == 2 && "u3"@[0] == 'u' && "u3"@[1] == '3');
    assert(kind_named("u3"@) == Some(GateKind::U));
    assert("cphase"@.len() == 6 && "cphase"@[0] == 'c' && "cphase"@[1] == 'p' && "cphase"@[2] == 'h' && "cphase"@[3] == 'a' && "cphase"@[4] == 's' && "cphase"@[5] == 'e');
    assert(kind_named("cphase"@) == Some(GateKind::Cp));
    assert("cu3"@.len() == 3 && "cu3"@[0] == 'c' && "cu3"@[1] == 'u' && "cu3"@[2] == '3');
    assert(kind_named("cu3"@) == Some(GateKind::Cu));
    assert("toffoli"@.len() == 7 && "toffoli"@[0] == 't' && "toffoli"@[1] == 'o' && "toffoli"@[2] == 'f' && "toffoli"@[3] == 'f' && "toffoli"@[4] == 'o' && "toffoli"@[5] == 'l' && "toffoli"@[6] == 'i');
    assert(kind_named("toffoli"@) == Some(GateKind::Ccx));
    assert("ccnot"@.len() == 5 && "ccnot"@[0] == 'c' && "ccnot"@[1] == 'c' && "ccnot"@[2] == 'n' && "ccnot"@[3] == 'o' && "ccnot"@[4] == 't');
    assert(kind_named("ccnot"@) == Some(GateKind::Ccx));
    assert("fredkin"@.len() == 7 && "fredkin"@[0] == 'f' && "fredkin"@[1] == 'r' && "fredkin"@[2] == 'e' && "fredkin"@[3] == 'd' && "fredkin"@[4] == 'k' && "fredkin"@[5] == 'i' && "fredkin"@[6] == 'n');
    assert(kind_named("fredkin"@) == Some(GateKind::Cswap));
}

/// Translating a gate name in any ASCII case: a canonical name gives its
/// kind with the parameters unchanged, and `u2(φ, λ)` gives `U(π/2, φ, λ)`.
pub proof fn lemma_translation_by_name(k: GateKind, s: Seq<char>, params: Seq<u64>)
    ensures
        ascii_lowered(s) == k.canonical_name() ==> ascii_translation(ascii_lowered(s), params)
            == Some((k, params)),
        ascii_lowered(s) == "u2"@ ==> ascii_translation(ascii_lowered(s), params) == Some(
            (GateKind::U, seq![FRAC_PI_2_BITS] + params),
        ),
{
    lemma_known_names_spelled();
    reveal_strlit("u2");
    if ascii_lowered(s) == k.canonical_name() {
        lemma_lookup_inverts_qasm_name(k, s);
        let c = k.canonical_name();
        assert(c != "u2"@) by {
            if c == "u2"@ {
                assert(c.len() == 2 && c[1] == '2');
            }
        }
    }
}

} // verus!

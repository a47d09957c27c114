//! Identity and configuration of the simulation backends.
//!
//! The backends apply floating-point unitaries to statevectors, which is
//! done outside this crate; here stand their names, their errors, and the
//! decisions that do not depend on floating point, such as which gates a
//! conjugated reference backend conjugates.

use crate::gate::GateKind;
use crate::memory::{is_white_space, next_ws, white_space};
use crate::translate::chars_match;
use vstd::prelude::*;

verus! {

/// Default seed of the shot-sampling generator.
pub const DEFAULT_SEED: u64 = 0xdead_beef_cafe_babeu64;

/// An error from a simulation backend.
#[derive(Debug, Clone)]
pub struct BackendError(pub String);

impl BackendError {
    /// Renders the error as text: `backend error: <message>`.
    pub fn describe(&self) -> (s: String)
        ensures
            s@ == "backend error: "@ + self.0@,
    {
        let mut s = String::from_str("backend error: ");
        s.append(self.0.as_str());
        s
    }
}

/// State-vector backend built entirely within CleitonForge.
pub struct NativeStateVectorBackend;

impl NativeStateVectorBackend {
    /// Stable name of the backend.
    pub fn name(&self) -> (s: &'static str)
        ensures
            s@ == "statevector-native"@,
    {
        "statevector-native"
    }
}

/// Backend that sources gate matrices from `quantrs2-core`.
pub struct QuantRS2Backend;

impl QuantRS2Backend {
    /// Stable name of the backend.
    pub fn name(&self) -> (s: &'static str)
        ensures
            s@ == "statevector-quantrs2"@,
    {
        "statevector-quantrs2"
    }
}

/// Backend that sources gate matrices from `roqoqo` (HQS).
pub struct RoqoqoBackend;

impl RoqoqoBackend {
    /// Stable name of the backend.
    pub fn name(&self) -> (s: &'static str)
        ensures
            s@ == "statevector-roqoqo"@,
    {
        "statevector-roqoqo"
    }
}

/// Backend that sources gate matrices from `q1tsim`.
pub struct Q1tSimBackend;

impl Q1tSimBackend {
    /// Stable name of the backend.
    pub fn name(&self) -> (s: &'static str)
        ensures
            s@ == "statevector-q1tsim"@,
    {
        "statevector-q1tsim"
    }
}

/// Which gates the conjugation bug affects.
#[derive(Debug, Clone, Copy, PartialEq, Eq, Structural)]
pub enum ConjugationScope {
    /// Every gate is implemented as its complex conjugate: a consistent
    /// library-wide convention error (e.g. a global i → −i sign flip).
    /// No benchmark that samples a circuit from |0…0⟩ can detect it.
    AllGates,
    /// Only the diagonal rotation family (Rz, Crz, Phase, Cp) has its
    /// rotation sign inverted: the class of bug found in quantrs2 v0.2.0.
    /// It becomes detectable only when combined with a correctly
    /// implemented complex gate such as S.
    RotationSignOnly,
}

/// A statevector simulator with a deliberate, physically-consistent
/// conjugation bug, used as the "wrong but plausible" device in
/// blindness experiments.
pub struct ConjugatedStateVectorBackend {
    pub scope: ConjugationScope,
}

impl ConjugatedStateVectorBackend {
    /// A conjugated backend with the given scope.
    pub fn new(scope: ConjugationScope) -> (b: Self)
        ensures
            b.scope == scope,
    {
        Self { scope }
    }

    /// Whether this backend conjugates gates of kind `kind`: every kind
    /// for [`ConjugationScope::AllGates`], only the rotation family for
    /// [`ConjugationScope::RotationSignOnly`].
    pub fn conjugates(&self, kind: GateKind) -> (b: bool)
        ensures
            b == (match self.scope {
                ConjugationScope::AllGates => true,
                ConjugationScope::RotationSignOnly => kind.is_rotation_family(),
            }),
    {
        match self.scope {
            ConjugationScope::AllGates => true,
            ConjugationScope::RotationSignOnly => match kind {
                GateKind::Rz | GateKind::Crz | GateKind::Phase | GateKind::Cp => true,
                _ => false,
            },
        }
    }

    /// Stable name of the backend.
    pub fn name(&self) -> (s: &'static str)
        ensures
            s@ == (match self.scope {
                ConjugationScope::AllGates => "statevector-conjugated"@,
                ConjugationScope::RotationSignOnly => "statevector-rz-sign-bug"@,
            }),
    {
        match self.scope {
            ConjugationScope::AllGates => "statevector-conjugated",
            ConjugationScope::RotationSignOnly => "statevector-rz-sign-bug",
        }
    }
}

/// A backend that the command line selects by name.
#[derive(Debug, Clone, Copy, PartialEq, Eq, Structural)]
pub enum BackendChoice {
    /// The native statevector backend (`statevector` or `native`).
    Native,
    /// The backend built on quantrs2's gate matrices (`quantrs2`).
    QuantRS2,
}

/// The position just after the last character before `j` that is not
/// white space, or 0.
pub open spec fn content_end(s: Seq<char>, j: int) -> int
    decreases j,
{
    if j <= 0 {
        0
    } else if !is_white_space(s[j - 1]) {
        j
    } else {
        content_end(s, j - 1)
    }
}

/// `s` without leading and trailing white space, as `str::trim` gives it.
pub open spec fn trimmed(s: Seq<char>) -> Seq<char> {
    let a = next_ws(s, 0, s.len() as int, false);
    let b = content_end(s, s.len() as int);
    if a < b {
        s.subrange(a, b)
    } else {
        seq![]
    }
}

/// The backend that a name selects, white space around it ignored.
pub open spec fn choice_named(name: Seq<char>) -> Option<BackendChoice> {
    let t = trimmed(name);
    if t == "statevector"@ || t == "native"@ {
        Some(BackendChoice::Native)
    } else if t == "quantrs2"@ {
        Some(BackendChoice::QuantRS2)
    } else {
        None
    }
}

/// The first comma at or after position `i`, or the length of `s`.
pub open spec fn comma_at_or_after(s: Seq<char>, i: int) -> int
    decreases s.len() - i,
{
    if i < 0 || i >= s.len() {
        s.len() as int
    } else if s[i] == ',' {
        i
    } else {
        comma_at_or_after(s, i + 1)
    }
}

/// The first comma at or after `i` lies between `i` and the end.
pub proof fn lemma_comma_at_or_after(s: Seq<char>, i: int)
    requires
        0 <= i <= s.len(),
    ensures
        i <= comma_at_or_after(s, i) <= s.len(),
    decreases s.len() - i,
{
    if i < s.len() && s[i] != ',' {
        lemma_comma_at_or_after(s, i + 1);
    }
}

/// The comma-separated fields of `s` from position `i` on, as
/// `str::split(',')` yields them.
pub open spec fn comma_fields_from(s: Seq<char>, i: int) -> Seq<Seq<char>>
    decreases s.len() - i,
{
    let k = comma_at_or_after(s, i);
    if i < 0 || i > s.len() || k >= s.len() {
        seq![s.subrange(i, s.len() as int)]
    } else {
        proof {
            lemma_comma_at_or_after(s, i);
        }
        seq![s.subrange(i, k)] + comma_fields_from(s, k + 1)
    }
}

/// The backends that the fields name, or the first field, trimmed, that
/// names none.
pub open spec fn choices(fields: Seq<Seq<char>>) -> Result<Seq<BackendChoice>, Seq<char>>
    decreases fields.len(),
{
    if fields.len() == 0 {
        Ok(seq![])
    } else {
        match choice_named(fields[0]) {
            None => Err(trimmed(fields[0])),
            Some(c) => match choices(fields.drop_first()) {
                Err(e) => Err(e),
                Ok(cs) => Ok(seq![c] + cs),
            },
        }
    }
}

proof fn lemma_content_end(s: Seq<char>, j: int)
    requires
        0 <= j <= s.len(),
    ensures
        0 <= content_end(s, j) <= j,
    decreases j,
{
    if j > 0 {
        lemma_content_end(s, j - 1);
    }
}

/// `s` without leading and trailing white space; see [`trimmed`].
fn trim_text<'a>(s: &'a str) -> (t: &'a str)
    ensures
        t@ == trimmed(s@),
{
    let n = s.unicode_len();
    let mut a: usize = 0;
    while a < n && white_space(s.get_char(a))
        invariant
            a <= n,
            n == s@.len(),
            next_ws(s@, 0, n as int, false) == next_ws(s@, a as int, n as int, false),
        decreases n - a,
    {
        a = a + 1;
    }
    let mut b: usize = n;
    while b > 0 && white_space(s.get_char(b - 1))
        invariant
            b <= n,
            n == s@.len(),
            content_end(s@, n as int) == content_end(s@, b as int),
        decreases b,
    {
        b = b - 1;
    }
    proof {
        lemma_content_end(s@, b as int);
    }
    if a < b {
        s.substring_char(a, b)
    } else {
        let e = s.substring_char(0, 0);
        assert(e@ =~= seq![]);
        e
    }
}

/// The backend that one name selects; see [`choice_named`].
pub fn backend_choice(name: &str) -> (c: Option<BackendChoice>)
    ensures
        c == choice_named(name@),
{
    let t = trim_text(name);
    if chars_match(t, "statevector") || chars_match(t, "native") {
        Some(BackendChoice::Native)
    } else if chars_match(t, "quantrs2") {
        Some(BackendChoice::QuantRS2)
    } else {
        None
    }
}

/// Reads a comma-separated list of backend names, such as
/// `statevector,quantrs2`; see [`choices`]. The error is the first name,
/// trimmed, that selects no backend.
pub fn parse_backend_list(list: &str) -> (r: Result<Vec<BackendChoice>, String>)
    ensures
        match r {
            Ok(v) => choices(comma_fields_from(list@, 0)) == Ok::<Seq<BackendChoice>, Seq<char>>(v@),
            Err(e) => choices(comma_fields_from(list@, 0)) == Err::<Seq<BackendChoice>, Seq<char>>(e@),
        },
{
    let n = list.unicode_len();
    let mut out: Vec<BackendChoice> = Vec::new();
    let mut start: usize = 0;
    let ghost all = comma_fields_from(list@, 0);
    loop
        invariant
            start <= n,
            n == list@.len(),
            all == comma_fields_from(list@, 0),
            choices(all) == match choices(comma_fields_from(list@, start as int)) {
                Ok(cs) => Ok(out@ + cs),
                Err(e) => Err::<Seq<BackendChoice>, Seq<char>>(e),
            },
        decreases n - start,
    {
        let mut k: usize = start;
        while k < n && list.get_char(k) != ','
            invariant
                start <= k <= n,
                n == list@.len(),
                comma_at_or_after(list@, start as int) == comma_at_or_after(list@, k as int),
            decreases n - k,
        {
            k = k + 1;
        }
        let field = list.substring_char(start, k);
        let ghost rest = comma_fields_from(list@, start as int);
        assert(rest[0] == field@);
        assert(rest.drop_first() == if k >= n {
            seq![]
        } else {
            comma_fields_from(list@, k + 1)
        }) by {
            if k < n {
                assert(rest.drop_first() =~= comma_fields_from(list@, k + 1));
            } else {
                assert(rest.drop_first() =~= seq![]);
            }
        }
        match backend_choice(field) {
            None => {
                let t = trim_text(field);
                return Err(String::from_str(t));
            },
            Some(c) => {
                let ghost before = out@;
                out.push(c);
                if k >= n {
                    assert(choices(rest.drop_first()) == Ok::<Seq<BackendChoice>, Seq<char>>(
                        seq![],
                    ));
                    assert(out@ =~= before + seq![c]);
                    return Ok(out);
                }
                proof {
                    match choices(comma_fields_from(list@, k + 1)) {
                        Ok(cs) => {
                            assert(before + (seq![c] + cs) =~= out@ + cs);
                        },
                        Err(_) => {},
                    }
                }
                start = k + 1;
            },
        }
    }
}

} // verus!

//! Memory measurement for quantum simulation runs.
//!
//! Two sources are used in priority order:
//!   1. RSS delta, read from the `VmRSS` field of the process status
//!      (Linux `/proc/self/status`): actual pages allocated by the OS
//!      during the backend call.
//!   2. Theoretical minimum: `2^n_qubits × 16 bytes` (two binary64 values
//!      per complex amplitude), always available and reproducible.
//!
//! The RSS approach is accurate for circuits with ≥ 1 MB statevectors.
//! For smaller circuits the OS page granularity (4 KiB) dominates; in that
//! case the theoretical value is used instead. Reading the status file is
//! left to the caller; this module interprets its text.

use vstd::arithmetic::power2::pow2;
use vstd::prelude::*;

verus! {

/// `2^n × 16`, saturated at `u64::MAX`.
pub open spec fn memory_bound(n: nat) -> int {
    if pow2(n) * 16 <= u64::MAX {
        (pow2(n) * 16) as int
    } else {
        u64::MAX as int
    }
}

/// Theoretical peak memory for a pure statevector simulation of `n`
/// qubits: `2^n × 16` bytes (saturating at `u64::MAX`).
///
/// This is the minimum possible memory any correct state-vector backend
/// must allocate.
pub fn statevector_memory_bytes(n_qubits: usize) -> (bytes: u64)
    requires
        n_qubits < 64,
    ensures
        bytes == memory_bound(n_qubits as nat),
{
    let shift = n_qubits as u64;
    proof {
        vstd::bits::lemma_u64_pow2_no_overflow(shift as nat);
        vstd::bits::lemma_u64_shl_is_mul(1u64, shift);
    }
    let amplitudes: u64 = 1u64 << shift;
    // 16 = size of one complex amplitude (two binary64 values).
    match amplitudes.checked_mul(16) {
        Some(b) => b,
        None => u64::MAX,
    }
}

/// The RSS delta between two readings, or `fallback_bytes` when either
/// reading is unavailable or the delta is below one OS page (4 KiB), which
/// indicates an allocation too small to show up in page-granular RSS.
pub open spec fn delta_or_fallback(before: Option<u64>, after: Option<u64>, fallback: u64) -> u64 {
    match (before, after) {
        (Some(b), Some(a)) => {
            let delta = if a >= b {
                (a - b) as u64
            } else {
                0u64
            };
            if delta >= 4096 {
                delta
            } else {
                fallback
            }
        },
        _ => fallback,
    }
}

/// Chooses between a measured RSS delta and the fallback value; see
/// [`delta_or_fallback`].
pub fn rss_delta_or_fallback(before: Option<u64>, after: Option<u64>, fallback_bytes: u64) -> (r:
    u64)
    ensures
        r == delta_or_fallback(before, after, fallback_bytes),
{
    match (before, after) {
        (Some(b), Some(a)) => {
            let delta = a.saturating_sub(b);
            if delta >= 4096 {
                delta
            } else {
                fallback_bytes
            }
        },
        _ => fallback_bytes,
    }
}

// ── Interpreting the status text ────────────────────────────────────────────
/// Unicode `White_Space` characters, as `char::is_whitespace` reports them.
pub open spec fn is_white_space(c: char) -> bool {
    let u = c as u32;
    (0x09 <= u <= 0x0D) || u == 0x20 || u == 0x85 || u == 0xA0 || u == 0x1680 || (0x2000 <= u
        <= 0x200A) || u == 0x2028 || u == 0x2029 || u == 0x202F || u == 0x205F || u == 0x3000
}

pub(crate) fn white_space(c: char) -> (b: bool)
    ensures
        b == is_white_space(c),
{
    let u = c as u32;
    (0x09 <= u && u <= 0x0D) || u == 0x20 || u == 0x85 || u == 0xA0 || u == 0x1680 || (0x2000
        <= u && u <= 0x200A) || u == 0x2028 || u == 0x2029 || u == 0x202F || u == 0x205F || u
        == 0x3000
}

/// The first position at or after `i` (and before `end`) holding `'\n'`,
/// or `end` when there is none.
pub open spec fn next_newline(s: Seq<char>, i: int, end: int) -> int
    decreases end - i,
{
    if i >= end {
        end
    } else if s[i] == '\n' {
        i
    } else {
        next_newline(s, i + 1, end)
    }
}

/// The first position at or after `i` (and before `end`) whose character
/// is (`ws == true`) or is not (`ws == false`) white space; `end` if none.
pub open spec fn next_ws(s: Seq<char>, i: int, end: int, ws: bool) -> int
    decreases end - i,
{
    if i >= end {
        end
    } else if is_white_space(s[i]) == ws {
        i
    } else {
        next_ws(s, i + 1, end, ws)
    }
}

/// The second white-space separated token of `line`, as
/// `split_whitespace().nth(1)` yields it.
pub open spec fn second_token(line: Seq<char>) -> Option<Seq<char>> {
    let n = line.len() as int;
    let t0 = next_ws(line, 0, n, false);
    let e0 = next_ws(line, t0, n, true);
    let t1 = next_ws(line, e0, n, false);
    let e1 = next_ws(line, t1, n, true);
    if t1 < n {
        Some(line.subrange(t1, e1))
    } else {
        None
    }
}

/// Value of an ASCII decimal digit.
pub open spec fn digit_value(c: char) -> int {
    (c as u32) - ('0' as u32)
}

/// `c` is an ASCII decimal digit.
pub open spec fn is_digit(c: char) -> bool {
    '0' <= c && c <= '9'
}

/// The number that a string of ASCII digits denotes.
pub open spec fn digits_value(t: Seq<char>) -> nat
    decreases t.len(),
{
    if t.len() == 0 {
        0
    } else {
        (digits_value(t.drop_last()) * 10 + digit_value(t.last())) as nat
    }
}

/// What `str::parse::<u64>` returns for a token: an optional `'+'` and
/// then at least one ASCII digit, all digits, with a value that fits.
pub open spec fn parse_u64(t: Seq<char>) -> Option<u64> {
    let digits = unsigned_part(t);
    if digits.len() > 0 && all_digits(digits) && digits_value(digits) <= u64::MAX {
        Some(digits_value(digits) as u64)
    } else {
        None
    }
}

/// A token without its optional leading `'+'`.
pub open spec fn unsigned_part(t: Seq<char>) -> Seq<char> {
    if t.len() > 0 && t[0] == '+' {
        t.drop_first()
    } else {
        t
    }
}

/// Every character is an ASCII digit.
pub open spec fn all_digits(d: Seq<char>) -> bool {
    forall|i: int| 0 <= i < d.len() ==> is_digit(d[i])
}

/// The first line of `s` at or after position `i` that starts with
/// `"VmRSS:"`, if any.
pub open spec fn vmrss_line_from(s: Seq<char>, i: int) -> Option<Seq<char>>
    decreases s.len() - i,
{
    if i < 0 || i >= s.len() {
        None
    } else {
        let j = next_newline(s, i, s.len() as int);
        let line = s.subrange(i, j);
        if line.len() >= 6 && line.subrange(0, 6) == seq!['V', 'm', 'R', 'S', 'S', ':'] {
            Some(line)
        } else if j >= s.len() {
            None
        } else {
            proof {
                lemma_next_newline(s, i, s.len() as int);
            }
            vmrss_line_from(s, j + 1)
        }
    }
}

/// The `VmRSS` value, in kiB, that a process status text reports: the
/// second token of its first line starting with `"VmRSS:"`, parsed as a
/// `u64`. `None` when there is no such line or its value does not parse.
pub open spec fn vmrss_kib_of(s: Seq<char>) -> Option<u64> {
    match vmrss_line_from(s, 0) {
        Some(line) => match second_token(line) {
            Some(t) => parse_u64(t),
            None => None,
        },
        None => None,
    }
}

pub proof fn lemma_next_newline(s: Seq<char>, i: int, end: int)
    requires
        0 <= i <= end <= s.len(),
    ensures
        i <= next_newline(s, i, end) <= end,
        next_newline(s, i, end) < end ==> s[next_newline(s, i, end)] == '\n',
        forall|k: int| i <= k < next_newline(s, i, end) ==> s[k] != '\n',
    decreases end - i,
{
    if i < end && s[i] != '\n' {
        lemma_next_newline(s, i + 1, end);
    }
}

proof fn lemma_next_ws(s: Seq<char>, i: int, end: int, ws: bool)
    requires
        0 <= i <= end <= s.len(),
    ensures
        i <= next_ws(s, i, end, ws) <= end,
        next_ws(s, i, end, ws) < end ==> is_white_space(s[next_ws(s, i, end, ws)]) == ws,
        forall|k: int| i <= k < next_ws(s, i, end, ws) ==> is_white_space(s[k]) != ws,
    decreases end - i,
{
    if i < end && is_white_space(s[i]) != ws {
        lemma_next_ws(s, i + 1, end, ws);
    }
}

proof fn lemma_next_ws_shift(s: Seq<char>, base: int, i: int, end: int, ws: bool)
    requires
        0 <= base <= i <= end <= s.len(),
    ensures
        next_ws(s.subrange(base, end), i - base, end - base, ws) == next_ws(s, i, end, ws)
            - base,
    decreases end - i,
{
    if i < end && is_white_space(s[i]) != ws {
        lemma_next_ws_shift(s, base, i + 1, end, ws);
    }
}

fn chars_of(s: &str) -> (v: Vec<char>)
    ensures
        v@ == s@,
{
    let n = s.unicode_len();
    let mut v: Vec<char> = Vec::new();
    let mut i: usize = 0;
    while i < n
        invariant
            n == s@.len(),
            i <= n,
            v@ == s@.subrange(0, i as int),
        decreases n - i,
    {
        v.push(s.get_char(i));
        i = i + 1;
        assert(v@ =~= s@.subrange(0, i as int));
    }
    assert(s@.subrange(0, n as int) =~= s@);
    v
}

fn scan_newline(v: &Vec<char>, i: usize) -> (j: usize)
    requires
        i <= v.len(),
    ensures
        j == next_newline(v@, i as int, v.len() as int),
{
    let mut j = i;
    while j < v.len() && v[j] != '\n'
        invariant
            i <= j <= v.len(),
            next_newline(v@, i as int, v.len() as int) == next_newline(
                v@,
                j as int,
                v.len() as int,
            ),
        decreases v.len() - j,
    {
        j = j + 1;
    }
    j
}

fn scan_ws(v: &Vec<char>, i: usize, end: usize, ws: bool) -> (j: usize)
    requires
        i <= end <= v.len(),
    ensures
        j == next_ws(v@, i as int, end as int, ws),
{
    let mut j = i;
    while j < end && white_space(v[j]) != ws
        invariant
            i <= j <= end,
            end <= v.len(),
            next_ws(v@, i as int, end as int, ws) == next_ws(v@, j as int, end as int, ws),
        decreases end - j,
    {
        j = j + 1;
    }
    j
}

/// Parses the characters `v[start..end]` as `str::parse::<u64>` does.
fn parse_u64_range(v: &Vec<char>, start: usize, end: usize) -> (r: Option<u64>)
    requires
        start <= end <= v.len(),
    ensures
        r == parse_u64(v@.subrange(start as int, end as int)),
{
    let ghost t = v@.subrange(start as int, end as int);
    let mut i = start;
    if i < end && v[i] == '+' {
        i = i + 1;
    }
    let ghost digits = v@.subrange(i as int, end as int);
    assert(digits =~= unsigned_part(t));
    if i == end {
        return None;
    }
    let mut value: u64 = 0;
    let mut k = i;
    while k < end
        invariant
            i <= k <= end <= v.len(),
            digits == v@.subrange(i as int, end as int),
            t == v@.subrange(start as int, end as int),
            digits == unsigned_part(t),
            forall|m: int| i <= m < k ==> is_digit(v@[m]),
            value == digits_value(v@.subrange(i as int, k as int)),
        decreases end - k,
    {
        let c = v[k];
        if !('0' <= c && c <= '9') {
            assert(!is_digit(digits[k - i]));
            assert(!all_digits(digits));
            assert(parse_u64(t) is None);
            return None;
        }
        let d = (c as u32 - '0' as u32) as u64;
        assert(v@.subrange(i as int, k + 1).drop_last() =~= v@.subrange(i as int, k as int));
        if value > (u64::MAX - d) / 10 {
            proof {
                let pre = v@.subrange(i as int, k + 1);
                assert(pre.last() == c);
                assert(digits_value(pre) == value * 10 + d);
                assert(value * 10 + d > u64::MAX) by (nonlinear_arith)
                    requires
                        value > (u64::MAX - d) / 10,
                        d <= 9,
                ;
                if all_digits(digits) {
                    lemma_digits_value_monotone(digits, k + 1 - i);
                    assert(digits.subrange(0, k + 1 - i) =~= pre);
                    assert(digits_value(digits) > u64::MAX);
                }
                assert(parse_u64(t) is None);
            }
            return None;
        }
        assert(value * 10 + d <= u64::MAX) by (nonlinear_arith)
            requires
                value <= (u64::MAX - d) / 10,
                d <= 9,
        ;
        proof {
            let pre = v@.subrange(i as int, k + 1);
            assert(pre.last() == c);
        }
        value = value * 10 + d;
        k = k + 1;
    }
    Some(value)
}

proof fn lemma_digits_value_monotone(t: Seq<char>, j: int)
    requires
        0 <= j <= t.len(),
        forall|m: int| 0 <= m < t.len() ==> is_digit(t[m]),
    ensures
        digits_value(t.subrange(0, j)) <= digits_value(t),
    decreases t.len(),
{
    if j < t.len() {
        assert(t.drop_last().subrange(0, j) =~= t.subrange(0, j));
        lemma_digits_value_monotone(t.drop_last(), j);
    } else {
        assert(t.subrange(0, j) =~= t);
    }
}

/// The `VmRSS` value in kiB reported by a process status text; see
/// [`vmrss_kib_of`].
pub fn vmrss_kib(status: &str) -> (r: Option<u64>)
    ensures
        r == vmrss_kib_of(status@),
{
    let v = chars_of(status);
    let n = v.len();
    let mut i: usize = 0;
    while i < n
        invariant
            n == v@.len(),
            v@ == status@,
            vmrss_line_from(v@, 0) == vmrss_line_from(v@, i as int),
        decreases n - i,
    {
        let j = scan_newline(&v, i);
        proof {
            lemma_next_newline(v@, i as int, n as int);
        }
        let ghost line = v@.subrange(i as int, j as int);
        if j - i >= 6 && v[i] == 'V' && v[i + 1] == 'm' && v[i + 2] == 'R' && v[i + 3] == 'S'
            && v[i + 4] == 'S' && v[i + 5] == ':' {
            assert(line.subrange(0, 6) =~= seq!['V', 'm', 'R', 'S', 'S', ':']);
            // Second white-space separated token of the line.
            let t0 = scan_ws(&v, i, j, false);
            proof {
                lemma_next_ws(v@, i as int, j as int, false);
            }
            let e0 = scan_ws(&v, t0, j, true);
            proof {
                lemma_next_ws(v@, t0 as int, j as int, true);
            }
            let t1 = scan_ws(&v, e0, j, false);
            proof {
                lemma_next_ws(v@, e0 as int, j as int, false);
            }
            let e1 = scan_ws(&v, t1, j, true);
            proof {
                lemma_next_ws(v@, t1 as int, j as int, true);
                lemma_next_ws_shift(v@, i as int, i as int, j as int, false);
                lemma_next_ws_shift(v@, i as int, t0 as int, j as int, true);
                lemma_next_ws_shift(v@, i as int, e0 as int, j as int, false);
                lemma_next_ws_shift(v@, i as int, t1 as int, j as int, true);
                assert(v@.subrange(i as int, j as int) =~= line);
            }
            if t1 < j {
                assert(second_token(line) == Some(line.subrange(t1 - i, e1 - i)));
                assert(line.subrange(t1 - i, e1 - i) =~= v@.subrange(t1 as int, e1 as int));
                return parse_u64_range(&v, t1, e1);
            } else {
                assert(second_token(line) is None);
                return None;
            }
        } else {
            assert(!(line.len() >= 6 && line.subrange(0, 6) == seq![
                'V',
                'm',
                'R',
                'S',
                'S',
                ':',
            ])) by {
                if line.len() >= 6 && line.subrange(0, 6) == seq!['V', 'm', 'R', 'S', 'S', ':'] {
                    assert(line.subrange(0, 6)[0] == v@[i as int]);
                    assert(line.subrange(0, 6)[1] == v@[i + 1]);
                    assert(line.subrange(0, 6)[2] == v@[i + 2]);
                    assert(line.subrange(0, 6)[3] == v@[i + 3]);
                    assert(line.subrange(0, 6)[4] == v@[i + 4]);
                    assert(line.subrange(0, 6)[5] == v@[i + 5]);
                }
            }
        }
        if j >= n {
            return None;
        }
        i = j + 1;
    }
    None
}

/// The resident set size in bytes that a process status text reports:
/// the `VmRSS` value (in kiB) times 1024.
pub fn rss_bytes_from_status(status: &str) -> (r: Option<u64>)
    requires
        vmrss_kib_of(status@) matches Some(kb) ==> kb * 1024 <= u64::MAX,
    ensures
        r == (match vmrss_kib_of(status@) {
            Some(kb) => Some((kb * 1024) as u64),
            None => None,
        }),
{
    match vmrss_kib(status) {
        Some(kb) => Some(kb * 1024),
        None => None,
    }
}

/// Sixteen bytes per amplitude: one qubit needs 32 bytes, each further
/// qubit doubles the bound while it fits a `u64`, and from 60 qubits on
/// the bound is saturated at `u64::MAX`.
pub proof fn lemma_memory_doubles_per_qubit(n: nat)
    ensures
        memory_bound(0) == 16,
        memory_bound(1) == 32,
        n < 59 ==> memory_bound(n + 1) == 2 * memory_bound(n),
        60 <= n ==> memory_bound(n) == u64::MAX,
        n < 60 ==> memory_bound(n) < u64::MAX,
{
    vstd::arithmetic::power2::lemma2_to64();
    vstd::arithmetic::power2::lemma2_to64_rest();
    vstd::arithmetic::power2::lemma_pow2_unfold(n + 1);
    if n < 60 {
        vstd::arithmetic::power2::lemma_pow2_strictly_increases(n, 60);
    } else if n > 60 {
        vstd::arithmetic::power2::lemma_pow2_strictly_increases(60, n);
    }
    if n < 59 {
        vstd::arithmetic::power2::lemma_pow2_strictly_increases(n + 1, 60);
    }
}

} // verus!

//! Integer side of measurement sampling: the deterministic generator that
//! drives shot sampling and the bitstring labels of basis states.

use vstd::arithmetic::power2::pow2;
use vstd::prelude::*;

verus! {

/// Multiplier of the linear congruential generator.
pub const LCG_MULTIPLIER: u64 = 6_364_136_223_846_793_005u64;

/// Increment of the linear congruential generator.
pub const LCG_INCREMENT: u64 = 1_442_695_040_888_963_407u64;

/// The state that follows `s`: `s · LCG_MULTIPLIER + LCG_INCREMENT`
/// modulo 2^64.
pub open spec fn lcg_next(s: u64) -> u64 {
    vstd::wrapping::u64_specs::wrapping_add(
        vstd::wrapping::u64_specs::wrapping_mul(s, LCG_MULTIPLIER),
        LCG_INCREMENT,
    )
}

/// Tiny deterministic linear congruential generator: identical seed
/// always gives the identical stream, which makes benchmark counts
/// reproducible.
pub struct Lcg64 {
    pub state: u64,
}

impl Lcg64 {
    /// A generator whose state is the seed.
    pub fn new(seed: u64) -> (g: Self)
        ensures
            g.state == seed,
    {
        Self { state: seed }
    }

    /// Advances the generator and returns the new state.
    pub fn next_u64(&mut self) -> (r: u64)
        ensures
            final(self).state == lcg_next(old(self).state),
            r == final(self).state,
    {
        self.state = self.state.wrapping_mul(LCG_MULTIPLIER).wrapping_add(LCG_INCREMENT);
        self.state
    }
}

/// The binary digit for 0 or 1.
pub open spec fn bit_char(b: nat) -> char {
    if b == 0 {
        '0'
    } else {
        '1'
    }
}

/// Binary digits of `v`, least significant first (`"0"` for zero).
pub open spec fn lsb_digits(v: nat) -> Seq<char>
    decreases v,
{
    if v < 2 {
        seq![bit_char(v % 2)]
    } else {
        seq![bit_char(v % 2)] + lsb_digits(v / 2)
    }
}

/// Binary representation of `v`, most significant digit first,
/// left-padded with `'0'` to at least `width` characters (the
/// `{:0>width$b}` format).
pub open spec fn padded_binary(v: nat, width: nat) -> Seq<char> {
    let digits = lsb_digits(v).reverse();
    if digits.len() >= width {
        digits
    } else {
        Seq::new((width - digits.len()) as nat, |i: int| '0') + digits
    }
}

/// The measurement label of basis state `index` over `width` qubits:
/// its binary representation, most significant bit first, padded with
/// `'0'` to `width` characters.
pub fn bitstring(index: usize, width: usize) -> (s: String)
    ensures
        s@ == padded_binary(index as nat, width as nat),
{
    // Digits, least significant first.
    let mut digits: Vec<char> = Vec::new();
    let mut cur = index;
    let mut done = false;
    while !done
        invariant
            !done ==> digits@ + lsb_digits(cur as nat) == lsb_digits(index as nat),
            done ==> digits@ == lsb_digits(index as nat),
        decreases if done {
            0int
        } else {
            cur as int + 1
        },
    {
        let d = if cur % 2 == 0 {
            '0'
        } else {
            '1'
        };
        let ghost before = digits@;
        digits.push(d);
        assert(d == bit_char((cur % 2) as nat));
        if cur < 2 {
            assert(lsb_digits(cur as nat) =~= seq![d]);
            assert(digits@ =~= before + lsb_digits(cur as nat));
            done = true;
        } else {
            assert(lsb_digits(cur as nat) =~= seq![d] + lsb_digits((cur / 2) as nat));
            assert(digits@ + lsb_digits((cur / 2) as nat) =~= before + lsb_digits(cur as nat));
            cur = cur / 2;
        }
    }
    let ghost msb = lsb_digits(index as nat).reverse();
    let mut s = String::from_str("");
    proof {
        reveal_strlit("");
        reveal_strlit("0");
        reveal_strlit("1");
    }
    let n = digits.len();
    let ghost pad: nat = if n >= width {
        0
    } else {
        (width - n) as nat
    };
    let mut p: usize = 0;
    while n < width && p < width - n
        invariant
            n == digits.len(),
            n < width ==> p <= width - n,
            n >= width ==> p == 0,
            pad == (if n >= width {
                0
            } else {
                width - n
            }),
            s@ == Seq::new(p as nat, |i: int| '0'),
        decreases width - p,
    {
        proof {
            reveal_strlit("0");
        }
        s.append("0");
        p = p + 1;
        assert(s@ =~= Seq::new(p as nat, |i: int| '0'));
    }
    let mut k: usize = n;
    while k > 0
        invariant
            k <= n,
            n == digits.len(),
            digits@ == lsb_digits(index as nat),
            msb == digits@.reverse(),
            s@ == Seq::new(pad, |i: int| '0') + msb.subrange(0, (n - k) as int),
        decreases k,
    {
        k = k - 1;
        proof {
            reveal_strlit("0");
            reveal_strlit("1");
        }
        let ghost before = s@;
        if digits[k] == '0' {
            s.append("0");
        } else {
            s.append("1");
        }
        assert(lsb_digits(index as nat)[k as int] == '0' || lsb_digits(index as nat)[k as int]
            == '1') by {
            lemma_lsb_digits_are_bits(index as nat, k as int);
        }
        assert(msb[(n - k - 1) as int] == digits@[k as int]);
        assert(s@ == before.push(digits@[k as int]));
        assert(msb.subrange(0, (n - k) as int) =~= msb.subrange(0, (n - k - 1) as int).push(
            digits@[k as int],
        ));
        assert(s@ =~= Seq::new(pad, |i: int| '0') + msb.subrange(0, (n - k) as int));
    }
    assert(msb.subrange(0, n as int) =~= msb);
    assert(s@ =~= padded_binary(index as nat, width as nat));
    s
}

proof fn lemma_lsb_digits_are_bits(v: nat, k: int)
    requires
        0 <= k < lsb_digits(v).len(),
    ensures
        lsb_digits(v)[k] == '0' || lsb_digits(v)[k] == '1',
    decreases v,
{
    if v >= 2 && k > 0 {
        lemma_lsb_digits_are_bits(v / 2, k - 1);
    }
}

/// The value of binary digits, most significant first.
pub open spec fn binary_value(d: Seq<char>) -> nat
    decreases d.len(),
{
    if d.len() == 0 {
        0
    } else {
        2 * binary_value(d.drop_last()) + if d.last() == '1' {
            1nat
        } else {
            0nat
        }
    }
}

/// Every character is a binary digit.
pub open spec fn all_bits(d: Seq<char>) -> bool {
    forall|i: int| 0 <= i < d.len() ==> #[trigger] d[i] == '0' || d[i] == '1'
}

/// The digits of `s` after an optional leading `+`.
pub open spec fn unsigned_digits(s: Seq<char>) -> Seq<char> {
    if s.len() > 0 && s[0] == '+' {
        s.drop_first()
    } else {
        s
    }
}

/// Why a measurement label could not be read as an index, as
/// `std::num::IntErrorKind` names it.
#[derive(Debug, Clone, Copy, PartialEq, Eq, Structural)]
pub enum BitstringError {
    /// The label is empty.
    Empty,
    /// A character is not a binary digit (a lone `+` included).
    InvalidDigit,
    /// The value does not fit a `usize`.
    PosOverflow,
}

/// Reading binary digits `d[i..]` on top of the value `acc` of those
/// before, left to right: the first character that is not a digit, or
/// the first digit at which the value outgrows a `usize`, is reported.
pub open spec fn binary_read(d: Seq<char>, i: int, acc: nat) -> Result<usize, BitstringError>
    decreases d.len() - i,
{
    if i < 0 || i >= d.len() {
        Ok(acc as usize)
    } else if d[i] != '0' && d[i] != '1' {
        Err(BitstringError::InvalidDigit)
    } else {
        let v = 2 * acc + if d[i] == '1' {
            1nat
        } else {
            0nat
        };
        if v > usize::MAX {
            Err(BitstringError::PosOverflow)
        } else {
            binary_read(d, i + 1, v)
        }
    }
}

/// The basis-state index that a measurement label denotes, as
/// `usize::from_str_radix(s, 2)` reads it: an optional `+`, then one or
/// more binary digits whose value fits a `usize`.
pub open spec fn binary_index(s: Seq<char>) -> Result<usize, BitstringError> {
    if s.len() == 0 {
        Err(BitstringError::Empty)
    } else if unsigned_digits(s).len() == 0 {
        Err(BitstringError::InvalidDigit)
    } else {
        binary_read(unsigned_digits(s), 0, 0)
    }
}

/// Reads a measurement label back into the index of its basis state; see
/// [`binary_index`].
pub fn parse_bitstring(s: &str) -> (r: Result<usize, BitstringError>)
    ensures
        r == binary_index(s@),
{
    let n = s.unicode_len();
    if n == 0 {
        return Err(BitstringError::Empty);
    }
    let off: usize = if s.get_char(0) == '+' {
        1
    } else {
        0
    };
    let ghost d = unsigned_digits(s@);
    assert(d =~= s@.subrange(off as int, n as int));
    if off >= n {
        return Err(BitstringError::InvalidDigit);
    }
    let mut value: usize = 0;
    let mut i: usize = off;
    while i < n
        invariant
            off <= i <= n,
            off < n,
            n == s@.len(),
            d == unsigned_digits(s@),
            d =~= s@.subrange(off as int, n as int),
            binary_index(s@) == binary_read(d, i - off, value as nat),
        decreases n - i,
    {
        let c = s.get_char(i);
        assert(d[i - off] == c);
        if c != '0' && c != '1' {
            return Err(BitstringError::InvalidDigit);
        }
        let bit: usize = if c == '1' {
            1
        } else {
            0
        };
        if value > (usize::MAX - bit) / 2 {
            return Err(BitstringError::PosOverflow);
        }
        value = value * 2 + bit;
        i = i + 1;
    }
    Ok(value)
}

proof fn lemma_binary_read(d: Seq<char>, i: int)
    requires
        0 <= i <= d.len(),
        all_bits(d),
        binary_value(d) <= usize::MAX,
    ensures
        binary_read(d, i, binary_value(d.subrange(0, i))) == Ok::<usize, BitstringError>(
            binary_value(d) as usize,
        ),
    decreases d.len() - i,
{
    if i == d.len() {
        assert(d.subrange(0, i) =~= d);
    } else {
        let p = d.subrange(0, i + 1);
        assert(p.drop_last() =~= d.subrange(0, i));
        assert(p.last() == d[i]);
        assert(d[i] == '0' || d[i] == '1');
        lemma_binary_value_prefix(d, i + 1, d.len() as int);
        assert(d.subrange(0, d.len() as int) =~= d);
        lemma_binary_read(d, i + 1);
    }
}

proof fn lemma_binary_value_prefix(d: Seq<char>, j: int, k: int)
    requires
        0 <= j <= k <= d.len(),
    ensures
        binary_value(d.subrange(0, j)) <= binary_value(d.subrange(0, k)),
    decreases k - j,
{
    if j < k {
        lemma_binary_value_prefix(d, j, k - 1);
        assert(d.subrange(0, k).drop_last() =~= d.subrange(0, k - 1));
    }
}

proof fn lemma_lsb_value(v: nat)
    ensures
        binary_value(lsb_digits(v).reverse()) == v,
        all_bits(lsb_digits(v).reverse()),
        lsb_digits(v).len() > 0,
    decreases v,
{
    let r = lsb_digits(v).reverse();
    if v < 2 {
        assert(r =~= seq![bit_char(v % 2)]);
        assert(r.drop_last() =~= seq![]);
        assert(binary_value(r.drop_last()) == 0);
        assert(binary_value(r) == if r.last() == '1' {
            1nat
        } else {
            0nat
        });
    } else {
        lemma_lsb_value(v / 2);
        let h = lsb_digits(v / 2).reverse();
        assert(r =~= h.push(bit_char(v % 2)));
        assert(r.drop_last() =~= h);
        assert(r.last() == bit_char(v % 2));
        assert(2 * (v / 2) + v % 2 == v) by (nonlinear_arith);
        assert(binary_value(r) == 2 * binary_value(h) + if r.last() == '1' {
            1nat
        } else {
            0nat
        });
        assert((if r.last() == '1' {
            1nat
        } else {
            0nat
        }) == v % 2);
    }
    assert forall|i: int| 0 <= i < r.len() implies #[trigger] r[i] == '0' || r[i] == '1' by {
        lemma_lsb_digits_are_bits(v, r.len() - 1 - i);
    }
}

proof fn lemma_zero_padding(k: nat, d: Seq<char>)
    ensures
        binary_value(Seq::new(k, |i: int| '0') + d) == binary_value(d),
    decreases k + d.len(),
{
    let z = Seq::new(k, |i: int| '0');
    if d.len() == 0 {
        if k > 0 {
            assert((z + d).drop_last() =~= Seq::new((k - 1) as nat, |i: int| '0') + d);
            lemma_zero_padding((k - 1) as nat, d);
        }
        assert(z + d =~= z);
    } else {
        assert((z + d).drop_last() =~= z + d.drop_last());
        lemma_zero_padding(k, d.drop_last());
    }
}

/// Reading a measurement label back gives the index it was made from:
/// `parse_bitstring(bitstring(v, w)) == Ok(v)` for every index and
/// width.
pub proof fn lemma_bitstring_round_trip(v: usize, width: nat)
    ensures
        binary_index(padded_binary(v as nat, width)) == Ok::<usize, BitstringError>(v),
{
    let digits = lsb_digits(v as nat).reverse();
    lemma_lsb_value(v as nat);
    let p = padded_binary(v as nat, width);
    if digits.len() < width {
        let k = (width - digits.len()) as nat;
        lemma_zero_padding(k, digits);
        assert forall|i: int| 0 <= i < p.len() implies #[trigger] p[i] == '0' || p[i] == '1' by {
            if i >= k {
                assert(p[i] == digits[i - k]);
            }
        }
    }
    assert(p[0] == '0' || p[0] == '1');
    assert(unsigned_digits(p) == p);
    assert(all_bits(p));
    lemma_binary_read(p, 0);
    assert(p.subrange(0, 0) =~= seq![]);
    assert(binary_value(p.subrange(0, 0)) == 0);
}

proof fn lemma_lsb_digit_is_bit(v: nat, i: int)
    requires
        0 <= i < lsb_digits(v).len(),
    ensures
        lsb_digits(v)[i] == bit_char((v / pow2(i as nat)) % 2),
    decreases v,
{
    vstd::arithmetic::power2::lemma_pow2_pos(i as nat);
    if i == 0 {
        assert(pow2(0) == 1) by {
            vstd::arithmetic::power2::lemma2_to64();
        }
        assert(v / 1 == v);
    } else {
        lemma_lsb_digit_is_bit(v / 2, i - 1);
        vstd::arithmetic::power2::lemma_pow2_unfold(i as nat);
        vstd::arithmetic::power2::lemma_pow2_pos((i - 1) as nat);
        vstd::arithmetic::div_mod::lemma_div_denominator(v as int, 2, pow2((i - 1) as nat) as int);
        assert(lsb_digits(v)[i] == lsb_digits(v / 2)[i - 1]);
    }
}

proof fn lemma_lsb_digits_bound(v: nat)
    ensures
        v < pow2(lsb_digits(v).len()),
        lsb_digits(v).len() >= 1,
    decreases v,
{
    vstd::arithmetic::power2::lemma2_to64();
    if v >= 2 {
        lemma_lsb_digits_bound(v / 2);
        let l = lsb_digits(v / 2).len();
        vstd::arithmetic::power2::lemma_pow2_unfold(l + 1);
        assert(lsb_digits(v).len() == l + 1);
    }
}

/// The measurement label spells out the index in binary, most
/// significant bit first: the character `i` places from the right is bit
/// `i` of the index (`'1'` when `⌊v / 2^i⌋` is odd), the label is at least
/// `width` characters long, and it is longer only when the index needs
/// more binary digits, whose leading digit is then `'1'`.
pub proof fn lemma_label_spells_the_bits(v: nat, width: nat, i: int)
    ensures
        padded_binary(v, width).len() >= width,
        padded_binary(v, width).len() >= 1,
        padded_binary(v, width).len() > width && padded_binary(v, width).len() > 1
            ==> padded_binary(v, width)[0] == '1',
        0 <= i < padded_binary(v, width).len() ==> padded_binary(v, width)[padded_binary(
            v,
            width,
        ).len() - 1 - i] == (if (v / pow2(i as nat)) % 2 == 1 {
            '1'
        } else {
            '0'
        }),
{
    let d = lsb_digits(v);
    let s = padded_binary(v, width);
    lemma_lsb_digits_bound(v);
    if s.len() > width && s.len() > 1 {
        assert(s == d.reverse());
        let top = d.len() - 1;
        lemma_lsb_digit_is_bit(v, top);
        vstd::arithmetic::power2::lemma_pow2_pos(top as nat);
        vstd::arithmetic::power2::lemma_pow2_unfold(d.len());
        // v lies in [2^top, 2^(top+1)), so ⌊v / 2^top⌋ is 1
        if v < pow2(top as nat) {
            lemma_lsb_below(v, top);
        }
        vstd::arithmetic::div_mod::lemma_fundamental_div_mod(v as int, pow2(top as nat) as int);
        let q = v / pow2(top as nat);
        assert(q == 1) by (nonlinear_arith)
            requires
                pow2(top as nat) <= v < 2 * pow2(top as nat),
                v == pow2(top as nat) * q + v % pow2(top as nat),
                0 <= v % pow2(top as nat) < pow2(top as nat),
                q >= 0,
        ;
    }
    if 0 <= i < s.len() {
        vstd::arithmetic::power2::lemma_pow2_pos(i as nat);
        if i < d.len() {
            lemma_lsb_digit_is_bit(v, i);
            if s.len() == d.len() {
                assert(s[s.len() - 1 - i] == d[i]);
            } else {
                assert(s[s.len() - 1 - i] == d.reverse()[d.len() - 1 - i]);
            }
            vstd::arithmetic::div_mod::lemma_mod_pos_bound((v / pow2(i as nat)) as int, 2);
        } else {
            if i > d.len() {
                vstd::arithmetic::power2::lemma_pow2_strictly_increases(d.len(), i as nat);
            }
            vstd::arithmetic::div_mod::lemma_basic_div(v as int, pow2(i as nat) as int);
        }
    }
}

/// An index below `2^k` has fewer than `k + 1` binary digits.
proof fn lemma_lsb_below(v: nat, k: int)
    requires
        0 <= k,
        v < pow2(k as nat),
    ensures
        lsb_digits(v).len() <= k || (v == 0 && k == 0),
    decreases v,
{
    vstd::arithmetic::power2::lemma2_to64();
    if v >= 2 {
        vstd::arithmetic::power2::lemma_pow2_unfold(k as nat);
        lemma_lsb_below(v / 2, k - 1);
    } else if v == 1 {
        assert(k >= 1);
    }
}

} // verus!

//! Writing values as decimal digit strings.

use super::bit::Bit;
use super::math::{lemma_val_concat, val};
use super::parse::lemma_trim;
use super::slice::ValueSlice;
use super::value::{Value};
use crate::text::chars::{push_char, string_from_chars};
use vstd::arithmetic::div_mod::lemma_fundamental_div_mod_converse;
use vstd::prelude::*;

verus! {

/// The character of a decimal digit.
pub open spec fn digit_char(d: nat) -> char {
    ('0' as nat + d) as char
}

/// The decimal digits of `n`, most significant first, without leading zeros
/// (`"0"` for zero).
pub open spec fn dec_string(n: nat) -> Seq<char>
    decreases n,
{
    if n < 10 {
        seq![digit_char(n)]
    } else {
        dec_string(n / 10).push(digit_char(n % 10))
    }
}

/// The character of a decimal digit.
fn digit_char_of(d: u32) -> (res: char)
    requires
        d < 10,
    ensures
        res == digit_char(d as nat),
{
    let b: u8 = 48u8 + (d as u8);
    b as char
}

/// The value of a suffix is its lowest bit plus twice the value above it.
proof fn lemma_val_skip_step(s: Seq<Bit>, i: int)
    requires
        0 <= i < s.len(),
    ensures
        val(s.skip(i)) == s[i].as_nat() + 2 * val(s.skip(i + 1)),
{
    assert(s.skip(i) =~= seq![s[i]] + s.skip(i + 1));
    lemma_val_concat(seq![s[i]], s.skip(i + 1));
    let one = seq![s[i]];
    assert(one.drop_last() =~= Seq::<Bit>::empty());
    vstd::arithmetic::power2::lemma2_to64();
    assert(val(one) == val(one.drop_last()) + one.last().as_nat() * vstd::arithmetic::power2::pow2(
        0,
    ));
}

/// Divides by ten: the quotient, as wide as the value, and the remainder.
fn div_rem_10(value: &Value) -> (res: (Value, u32))
    ensures
        res.0@.len() == value@.len(),
        val(res.0@) == val(value@) / 10,
        res.1 as nat == val(value@) % 10,
{
    let n = value.bits.len();
    let mut q: Vec<Bit> = Vec::new();
    let mut j: usize = 0;
    while j < n
        invariant
            j <= n,
            n == value@.len(),
            q@.len() == j,
        decreases n - j,
    {
        q.push(Bit::Zero);
        j = j + 1;
    }
    let mut r: u32 = 0;
    let mut i: usize = n;
    assert(q@.skip(n as int) =~= Seq::<Bit>::empty());
    assert(value@.skip(n as int) =~= Seq::<Bit>::empty());
    while i > 0
        invariant
            i <= n,
            n == value@.len(),
            q@.len() == n,
            r < 10,
            val(q@.skip(i as int)) * 10 + r == val(value@.skip(i as int)),
        decreases i,
    {
        i = i - 1;
        let t = 2 * r + value.bits[i].to_u32();
        let ghost before = q@;
        if t >= 10 {
            q.set(i, Bit::One);
            r = t - 10;
        } else {
            q.set(i, Bit::Zero);
            r = t;
        }
        proof {
            assert(q@.skip(i + 1) =~= before.skip(i + 1));
            lemma_val_skip_step(q@, i as int);
            lemma_val_skip_step(value@, i as int);
        }
    }
    proof {
        assert(q@.skip(0) =~= q@);
        assert(value@.skip(0) =~= value@);
        lemma_fundamental_div_mod_converse(val(value@) as int, 10, val(q@) as int, r as int);
    }
    (Value { bits: q }, r)
}

/// The decimal digits of `n`, most significant first.
pub fn dec_chars(n: usize) -> (res: Vec<char>)
    ensures
        res@ == dec_string(n as nat),
{
    let mut rev: Vec<char> = Vec::new();
    if n == 0 {
        rev.push('0');
        assert(rev@ =~= dec_string(0));
        return rev;
    }
    let mut m = n;
    while m > 0
        invariant
            m > 0 ==> dec_string(n as nat) =~= dec_string(m as nat) + rev@.reverse(),
            m == 0 ==> dec_string(n as nat) =~= rev@.reverse(),
        decreases m,
    {
        let ghost old_rev = rev@;
        let d = (m % 10) as u32;
        let c = digit_char_of(d);
        rev.push(c);
        proof {
            assert(rev@.reverse() =~= seq![c] + old_rev.reverse());
            if m >= 10 {
                assert(dec_string(m as nat) == dec_string((m / 10) as nat).push(digit_char(
                    (m % 10) as nat,
                )));
            }
        }
        m = m / 10;
    }
    let mut out: Vec<char> = Vec::new();
    let mut k: usize = rev.len();
    while k > 0
        invariant
            k <= rev@.len(),
            out@ =~= rev@.reverse().take(rev@.len() - k),
        decreases k,
    {
        k = k - 1;
        out.push(rev[k]);
    }
    assert(out@ =~= rev@.reverse());
    out
}

impl<'a> ValueSlice<'a> {
    /// The decimal digits of the value, without leading zeros.
    pub fn as_dec(&self) -> (res: String)
        ensures
            res@ == dec_string(val(self@)),
    {
        let ghost n = val(self@);
        let mut digits: Vec<char> = Vec::new();
        if self.is_zero() {
            digits.push('0');
            assert(digits@ =~= dec_string(0));
            return string_from_chars(&digits);
        }
        let mut value = self.to_owned();
        while !value.is_zero()
            invariant
                val(value@) > 0 ==> dec_string(n) =~= dec_string(val(value@)) + digits@.reverse(),
                val(value@) == 0 ==> dec_string(n) =~= digits@.reverse(),
            decreases val(value@),
        {
            let ghost v = val(value@);
            let (q, r) = div_rem_10(&value);
            let ghost old_digits = digits@;
            let c = digit_char_of(r);
            digits.push(c);
            proof {
                assert(digits@.reverse() =~= seq![c] + old_digits.reverse());
                if v >= 10 {
                    assert(dec_string(v) == dec_string(v / 10).push(digit_char(v % 10)));
                }
            }
            value = q;
            if value.bits.len() > 0 {
                proof {
                    lemma_trim(value@);
                }
                value.remove_leading_zeros();
            }
        }
        let mut out: Vec<char> = Vec::new();
        let mut k: usize = digits.len();
        while k > 0
            invariant
                k <= digits@.len(),
                out@ =~= digits@.reverse().take(digits@.len() - k),
            decreases k,
        {
            k = k - 1;
            out.push(digits[k]);
        }
        assert(out@ =~= digits@.reverse());
        string_from_chars(&out)
    }
}

impl Value {
    /// The decimal digits of the value, without leading zeros.
    pub fn as_dec(&self) -> (res: String)
        ensures
            res@ == dec_string(val(self@)),
    {
        self.as_slice().as_dec()
    }
}

} // verus!

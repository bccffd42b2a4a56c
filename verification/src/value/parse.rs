//! Reading values from binary, decimal and hexadecimal digit strings.

use super::bit::Bit;
use super::math::{
    from_nat, is_trimmed, lemma_pow2_pos, lemma_pow2_step, lemma_val_concat, lemma_val_from_nat_small,
    lemma_val_push, val,
};
use super::value::{trim, Value};
use crate::text::chars::chars_of;
use vstd::arithmetic::power2::{lemma2_to64, pow2};
use vstd::prelude::*;

verus! {

/// The bit that a binary digit stands for.
pub open spec fn bin_digit(c: char) -> Option<Bit> {
    if c == '0' {
        Some(Bit::Zero)
    } else if c == '1' {
        Some(Bit::One)
    } else {
        None
    }
}

/// The value of a decimal digit.
pub open spec fn dec_digit(c: char) -> Option<nat> {
    if '0' <= c && c <= '9' {
        Some((c as nat - '0' as nat) as nat)
    } else {
        None
    }
}

/// The value of a hexadecimal digit, either case.
pub open spec fn hex_digit(c: char) -> Option<nat> {
    if '0' <= c && c <= '9' {
        Some((c as nat - '0' as nat) as nat)
    } else if 'a' <= c && c <= 'f' {
        Some((c as nat - 'a' as nat + 10) as nat)
    } else if 'A' <= c && c <= 'F' {
        Some((c as nat - 'A' as nat + 10) as nat)
    } else {
        None
    }
}

/// A non-empty string of binary digits.
pub open spec fn is_bin_string(cs: Seq<char>) -> bool {
    cs.len() > 0 && forall|i: int| 0 <= i < cs.len() ==> bin_digit(#[trigger] cs[i]) is Some
}

/// A non-empty string of decimal digits.
pub open spec fn is_dec_string(cs: Seq<char>) -> bool {
    cs.len() > 0 && forall|i: int| 0 <= i < cs.len() ==> dec_digit(#[trigger] cs[i]) is Some
}

/// A non-empty string of hexadecimal digits.
pub open spec fn is_hex_string(cs: Seq<char>) -> bool {
    cs.len() > 0 && forall|i: int| 0 <= i < cs.len() ==> hex_digit(#[trigger] cs[i]) is Some
}

/// The bits written by a binary digit string, the last digit lowest.
pub open spec fn bin_bits(cs: Seq<char>) -> Seq<Bit> {
    Seq::new(cs.len(), |i: int| bin_digit(cs[cs.len() - 1 - i])->0)
}

/// The number written by a decimal digit string.
pub open spec fn dec_number(cs: Seq<char>) -> nat
    decreases cs.len(),
{
    if cs.len() == 0 {
        0
    } else {
        dec_number(cs.drop_last()) * 10 + dec_digit(cs.last())->0
    }
}

/// The number written by a hexadecimal digit string.
pub open spec fn hex_number(cs: Seq<char>) -> nat
    decreases cs.len(),
{
    if cs.len() == 0 {
        0
    } else {
        hex_number(cs.drop_last()) * 16 + hex_digit(cs.last())->0
    }
}

/// Four bits for each hexadecimal digit, the last digit lowest.
pub open spec fn hex_bits(cs: Seq<char>) -> Seq<Bit>
    decreases cs.len(),
{
    if cs.len() == 0 {
        Seq::empty()
    } else {
        from_nat(hex_digit(cs.last())->0, 4) + hex_bits(cs.drop_last())
    }
}

/// The number written by a sequence of decimal digit values.
pub open spec fn digits_number(ds: Seq<u32>) -> nat
    decreases ds.len(),
{
    if ds.len() == 0 {
        0
    } else {
        digits_number(ds.drop_last()) * 10 + ds.last() as nat
    }
}

/// Digit values read off a decimal string denote its number.
pub proof fn lemma_digits_number(cs: Seq<char>, ds: Seq<u32>)
    requires
        cs.len() == ds.len(),
        forall|j: int| 0 <= j < cs.len() ==> dec_digit(#[trigger] cs[j]) == Some(ds[j] as nat),
    ensures
        digits_number(ds) == dec_number(cs),
    decreases cs.len(),
{
    if cs.len() > 0 {
        let cp = cs.drop_last();
        let dp = ds.drop_last();
        assert forall|j: int| 0 <= j < cp.len() implies dec_digit(#[trigger] cp[j]) == Some(
            dp[j] as nat,
        ) by {
            assert(cp[j] == cs[j]);
        }
        lemma_digits_number(cp, dp);
        assert(dec_digit(cs[cs.len() - 1]) == Some(ds[ds.len() - 1] as nat));
    }
}

/// A zero digit at the front does not change the number.
pub proof fn lemma_digits_leading_zero(ds: Seq<u32>)
    requires
        ds.len() > 0,
        ds[0] == 0,
    ensures
        digits_number(ds) == digits_number(ds.drop_first()),
    decreases ds.len(),
{
    if ds.len() == 1 {
        assert(ds.drop_last() =~= Seq::<u32>::empty());
        assert(ds.drop_first() =~= Seq::<u32>::empty());
    } else {
        let p = ds.drop_last();
        lemma_digits_leading_zero(p);
        assert(p.drop_first() =~= ds.drop_first().drop_last());
        assert(ds.drop_first().last() == ds.last());
    }
}

/// Digits that denote zero are all zero.
pub proof fn lemma_digits_zero(ds: Seq<u32>)
    requires
        digits_number(ds) == 0,
    ensures
        forall|j: int| 0 <= j < ds.len() ==> ds[j] == 0,
    decreases ds.len(),
{
    if ds.len() > 0 {
        let p = ds.drop_last();
        lemma_digits_zero(p);
        assert forall|j: int| 0 <= j < ds.len() implies ds[j] == 0 by {
            if j < p.len() {
                assert(p[j] == ds[j]);
            }
        }
    }
}

/// Extending a range of digits by one digit.
pub proof fn lemma_digits_step(ds: Seq<u32>, a: int, i: int)
    requires
        0 <= a <= i < ds.len(),
    ensures
        digits_number(ds.subrange(a, i + 1)) == digits_number(ds.subrange(a, i)) * 10 + ds[i],
{
    assert(ds.subrange(a, i + 1).drop_last() =~= ds.subrange(a, i));
}

/// Trimming keeps the value and leaves no superfluous top zero.
pub proof fn lemma_trim(s: Seq<Bit>)
    requires
        s.len() > 0,
    ensures
        val(trim(s)) == val(s),
        is_trimmed(trim(s)),
    decreases s.len(),
{
    if s.len() > 1 && s.last() == Bit::Zero {
        lemma_trim(s.drop_last());
        assert(trim(s) == trim(s.drop_last()));
        assert(s.last().as_nat() == 0);
        assert(val(s) == val(s.drop_last()) + s.last().as_nat() * pow2((s.len() - 1) as nat));
    }
}

/// The hexadecimal bits denote the hexadecimal number.
pub proof fn lemma_hex_bits(cs: Seq<char>)
    requires
        forall|i: int| 0 <= i < cs.len() ==> hex_digit(#[trigger] cs[i]) is Some,
    ensures
        val(hex_bits(cs)) == hex_number(cs),
        hex_bits(cs).len() == 4 * cs.len(),
    decreases cs.len(),
{
    if cs.len() > 0 {
        let p = cs.drop_last();
        assert forall|i: int| 0 <= i < p.len() implies hex_digit(#[trigger] p[i]) is Some by {
            assert(p[i] == cs[i]);
        }
        lemma_hex_bits(p);
        let d = hex_digit(cs.last())->0;
        assert(hex_digit(cs[cs.len() - 1]) is Some);
        assert(d < 16);
        lemma2_to64();
        lemma_val_from_nat_small(d, 4);
        lemma_val_concat(from_nat(d, 4), hex_bits(p));
    }
}

/// The four bits of a hexadecimal digit, lowest first.
fn push_hex_bits(bits: &mut Vec<Bit>, d: u32)
    requires
        d < 16,
    ensures
        final(bits)@ == old(bits)@ + from_nat(d as nat, 4),
{
    let b0 = Bit::from_bool(d % 2 == 1);
    let b1 = Bit::from_bool((d / 2) % 2 == 1);
    let b2 = Bit::from_bool((d / 4) % 2 == 1);
    let b3 = Bit::from_bool((d / 8) % 2 == 1);
    bits.push(b0);
    bits.push(b1);
    bits.push(b2);
    bits.push(b3);
    proof {
        lemma2_to64();
        assert(pow2(0) == 1 && pow2(1) == 2 && pow2(2) == 4 && pow2(3) == 8);
        let f = from_nat(d as nat, 4);
        assert(f[0] == b0);
        assert(f[1] == b1);
        assert(f[2] == b2);
        assert(f[3] == b3);
        assert(f =~= seq![b0, b1, b2, b3]);
    }
}

/// The value of a decimal digit.
pub fn dec_digit_of(c: char) -> (res: Option<u32>)
    ensures
        res matches Some(d) ==> dec_digit(c) == Some(d as nat),
        res is None ==> dec_digit(c) is None,
{
    if '0' <= c && c <= '9' {
        Some((c as u32) - ('0' as u32))
    } else {
        None
    }
}

/// The value of a hexadecimal digit.
pub fn hex_digit_of(c: char) -> (res: Option<u32>)
    ensures
        res matches Some(d) ==> hex_digit(c) == Some(d as nat) && d < 16,
        res is None ==> hex_digit(c) is None,
{
    if '0' <= c && c <= '9' {
        Some((c as u32) - ('0' as u32))
    } else if 'a' <= c && c <= 'f' {
        Some((c as u32) - ('a' as u32) + 10)
    } else if 'A' <= c && c <= 'F' {
        Some((c as u32) - ('A' as u32) + 10)
    } else {
        None
    }
}

impl Value {
    /// Parses a binary string; leading zeros are kept, so the width is the
    /// number of digits.
    ///
    /// Fails on an empty string or on any character other than `0` and `1`.
    pub fn parse_bin(bin: &str) -> (res: Result<Value, ()>)
        ensures
            res is Ok <==> is_bin_string(bin@),
            res matches Ok(v) ==> v@ == bin_bits(bin@),
    {
        let cs = chars_of(bin);
        if cs.len() == 0 {
            return Err(());
        }
        let mut bits: Vec<Bit> = Vec::new();
        let mut k: usize = cs.len();
        while k > 0
            invariant
                k <= cs@.len(),
                cs@ == bin@,
                bits@.len() == cs@.len() - k,
                forall|i: int| 0 <= i < bits@.len() ==> bits@[i] == bin_bits(cs@)[i],
                forall|j: int| k <= j < cs@.len() ==> bin_digit(#[trigger] cs@[j]) is Some,
            decreases k,
        {
            k = k - 1;
            let c = cs[k];
            if c == '0' {
                bits.push(Bit::Zero);
            } else if c == '1' {
                bits.push(Bit::One);
            } else {
                assert(bin_digit(cs@[k as int]) is None);
                return Err(());
            }
        }
        assert(bits@ =~= bin_bits(cs@));
        Ok(Value { bits })
    }

    /// Parses a decimal string; the result has no leading zeros.
    ///
    /// Fails on an empty string or on any character other than `[0-9]`.
    pub fn parse_dec(dec: &str) -> (res: Result<Value, ()>)
        ensures
            res is Ok <==> is_dec_string(dec@),
            res matches Ok(v) ==> val(v@) == dec_number(dec@) && is_trimmed(v@),
    {
        let cs = chars_of(dec);
        if cs.len() == 0 {
            return Err(());
        }
        let mut ds: Vec<u32> = Vec::new();
        let mut i: usize = 0;
        while i < cs.len()
            invariant
                i <= cs@.len(),
                cs@ == dec@,
                ds@.len() == i,
                forall|j: int| 0 <= j < i ==> dec_digit(#[trigger] cs@[j]) == Some(ds@[j] as nat),
                forall|j: int| 0 <= j < i ==> ds@[j] < 10,
            decreases cs@.len() - i,
        {
            match dec_digit_of(cs[i]) {
                Some(d) => {
                    ds.push(d);
                },
                None => {
                    return Err(());
                },
            }
            i = i + 1;
        }
        proof {
            lemma_digits_number(cs@, ds@);
            assert(ds@.subrange(0, ds@.len() as int) =~= ds@);
            lemma2_to64();
        }
        let len = ds.len();
        let ghost number = dec_number(dec@);
        let mut bits: Vec<Bit> = Vec::new();
        let mut start: usize = 0;
        assert(val(bits@) == 0);
        assert(pow2(bits@.len()) == 1);
        assert(digits_number(ds@.subrange(start as int, len as int)) == number);
        while start < len
            invariant
                start <= len,
                ds@.len() == len,
                len > 0,
                forall|j: int| start <= j < len ==> ds@[j] < 10,
                val(bits@) + pow2(bits@.len()) * digits_number(ds@.subrange(start as int, len as int))
                    == number,
                bits@.len() > 0 || start < len,
            decreases digits_number(ds@.subrange(start as int, len as int)), len - start,
        {
            let ghost old_ds = ds@;
            let ghost m = digits_number(old_ds.subrange(start as int, len as int));
            let ghost k = bits@.len();
            let b = Bit::from_bool(ds[len - 1] % 2 == 1);
            let mut additive: u32 = 0;
            let mut i: usize = start;
            proof {
                assert(old_ds.subrange(start as int, start as int) =~= Seq::<u32>::empty());
            }
            while i < len
                invariant
                    start <= i <= len,
                    ds@.len() == len,
                    old_ds.len() == len,
                    additive == 0 || additive == 5,
                    forall|j: int| start <= j < i ==> ds@[j] < 10,
                    forall|j: int| i <= j < len ==> ds@[j] == old_ds[j],
                    forall|j: int| start <= j < len ==> old_ds[j] < 10,
                    2 * digits_number(ds@.subrange(start as int, i as int)) + additive / 5
                        == digits_number(old_ds.subrange(start as int, i as int)),
                    i > start ==> (additive == 5) == (old_ds[i - 1] % 2 == 1),
                decreases len - i,
            {
                let d = ds[i];
                let next = if d % 2 == 1 {
                    5
                } else {
                    0
                };
                let ghost before = ds@;
                ds.set(i, d / 2 + additive);
                proof {
                    assert(ds@.subrange(start as int, i as int) =~= before.subrange(
                        start as int,
                        i as int,
                    ));
                    lemma_digits_step(ds@, start as int, i as int);
                    lemma_digits_step(old_ds, start as int, i as int);
                    let q = digits_number(ds@.subrange(start as int, i as int));
                    let p = digits_number(old_ds.subrange(start as int, i as int));
                    assert(2 * (q * 10 + (d / 2 + additive) as nat) + next / 5 == 10 * (2 * q
                        + additive / 5) + d);
                }
                additive = next;
                i = i + 1;
            }
            proof {
                let m2 = digits_number(ds@.subrange(start as int, len as int));
                assert(2 * m2 + additive / 5 == m);
                assert((additive == 5) == (b == Bit::One));
                lemma_val_push(bits@, b);
                lemma_pow2_step(k);
                assert(pow2(k + 1) * m2 == pow2(k) * (2 * m2)) by (nonlinear_arith)
                    requires
                        pow2(k + 1) == 2 * pow2(k),
                ;
                assert(pow2(k) * (2 * m2) + b.as_nat() * pow2(k) == pow2(k) * m) by (
                nonlinear_arith)
                    requires
                        2 * m2 + b.as_nat() == m,
                ;
            }
            bits.push(b);
            let ghost halved = digits_number(ds@.subrange(start as int, len as int));
            while start < len && ds[start] == 0
                invariant
                    start <= len,
                    ds@.len() == len,
                    forall|j: int| start <= j < len ==> ds@[j] < 10,
                    digits_number(ds@.subrange(start as int, len as int)) == halved,
                decreases len - start,
            {
                proof {
                    lemma_digits_leading_zero(ds@.subrange(start as int, len as int));
                    assert(ds@.subrange(start as int, len as int).drop_first() =~= ds@.subrange(
                        start + 1,
                        len as int,
                    ));
                }
                start = start + 1;
            }
            proof {
                if halved == 0 && start < len {
                    lemma_digits_zero(ds@.subrange(start as int, len as int));
                    assert(ds@.subrange(start as int, len as int)[0] == ds@[start as int]);
                }
                if m > 0 {
                    assert(halved < m);
                }
            }
        }
        proof {
            assert(ds@.subrange(start as int, len as int) =~= Seq::<u32>::empty());
            assert(start == len);
            assert(digits_number(ds@.subrange(start as int, len as int)) == 0);
            assert(pow2(bits@.len()) * 0 == 0);
            assert(val(bits@) + pow2(bits@.len()) * digits_number(ds@.subrange(start as int, len as int)) == number);
            assert(val(bits@) == number);
            lemma_trim(bits@);
        }
        let mut value = Value { bits };
        value.remove_leading_zeros();
        Ok(value)
    }

    /// Parses a hexadecimal string, either case; the result has no leading
    /// zeros.
    ///
    /// Fails on an empty string or on any character other than `[0-9a-fA-F]`.
    pub fn parse_hex(hex: &str) -> (res: Result<Value, ()>)
        ensures
            res is Ok <==> is_hex_string(hex@),
            res matches Ok(v) ==> val(v@) == hex_number(hex@) && is_trimmed(v@),
    {
        let cs = chars_of(hex);
        if cs.len() == 0 {
            return Err(());
        }
        let mut bits: Vec<Bit> = Vec::new();
        let mut k: usize = cs.len();
        assert(cs@.take(cs@.len() as int) =~= cs@);
        while k > 0
            invariant
                k <= cs@.len(),
                cs@ == hex@,
                forall|j: int| k <= j < cs@.len() ==> hex_digit(#[trigger] cs@[j]) is Some,
                bits@ + hex_bits(cs@.take(k as int)) =~= hex_bits(cs@),
            decreases k,
        {
            k = k - 1;
            match hex_digit_of(cs[k]) {
                Some(d) => {
                    let ghost before = bits@;
                    push_hex_bits(&mut bits, d);
                    assert(cs@.take(k + 1).drop_last() =~= cs@.take(k as int));
                    assert(cs@.take(k + 1).last() == cs@[k as int]);
                    assert(hex_bits(cs@.take(k + 1)) == from_nat(d as nat, 4) + hex_bits(
                        cs@.take(k as int),
                    ));
                    assert(before + (from_nat(d as nat, 4) + hex_bits(cs@.take(k as int))) =~= (
                    before + from_nat(d as nat, 4)) + hex_bits(cs@.take(k as int)));
                },
                None => {
                    return Err(());
                },
            }
        }
        assert(cs@.take(0) =~= Seq::<char>::empty());
        assert(bits@ =~= hex_bits(cs@));
        proof {
            lemma_hex_bits(cs@);
            lemma_trim(bits@);
        }
        let mut value = Value { bits };
        value.remove_leading_zeros();
        Ok(value)
    }
}

} // verus!

//! Laws of bit vector arithmetic, formatting and parsing.

use super::bit::Bit;
use super::format::{dec_string, digit_char};
use super::math::{
    bit_at, nat_bit, from_nat, lemma_from_nat_mod, lemma_from_nat_val, lemma_pow2_pos, lemma_val_bound,
    lemma_val_from_nat, lemma_val_from_nat_small, lemma_val_resize_grow, max_len, resize, val,
    zeros,
};
use super::ops::{spec_add, spec_neg, spec_not, spec_shl, spec_shr, spec_sub};
use super::order::compare_nat;
use super::parse::{dec_digit, dec_number, is_dec_string};
use super::value::trim;
use std::cmp::Ordering;
use vstd::arithmetic::div_mod::{lemma_mod_multiples_vanish, lemma_small_mod, lemma_mod_self_0};
use vstd::arithmetic::div_mod::{lemma_basic_div, lemma_div_denominator, lemma_div_multiples_vanish, lemma_mod_multiples_basic};
use vstd::arithmetic::power2::{lemma_pow2_adds, lemma_pow2_strictly_increases, pow2};
use vstd::prelude::*;

verus! {

/// Addition does not depend on the order of the operands.
pub proof fn law_add_commutative(a: Seq<Bit>, b: Seq<Bit>)
    ensures
        spec_add(a, b) == spec_add(b, a),
{
    assert(max_len(a.len(), b.len()) == max_len(b.len(), a.len()));
}

/// Subtracting what was added gives the first operand back, for operands of
/// one width.
pub proof fn law_sub_undoes_add(a: Seq<Bit>, b: Seq<Bit>)
    requires
        a.len() == b.len(),
    ensures
        spec_sub(spec_add(a, b), b) == a,
{
    let n = a.len();
    let p = pow2(n);
    lemma_pow2_pos(n);
    lemma_val_bound(a);
    lemma_val_bound(b);
    let s = spec_add(a, b);
    lemma_val_from_nat(val(a) + val(b), n);
    assert(val(s) == (val(a) + val(b)) % p);
    assert(max_len(s.len(), b.len()) == n);
    let d = val(s) - val(b);
    assert(d % (p as int) == val(a) as int) by {
        let q = (val(a) + val(b)) / p;
        vstd::arithmetic::div_mod::lemma_fundamental_div_mod((val(a) + val(b)) as int, p as int);
        assert(d == val(a) - q * p);
        lemma_mod_multiples_vanish(-q, val(a) as int, p as int);
        assert(-q * p + val(a) == d) by (nonlinear_arith)
            requires
                d == val(a) - q * p,
        ;
        lemma_small_mod(val(a), p);
    }
    lemma_from_nat_val(a);
}

/// Negating twice gives the value back, for at least one bit.
pub proof fn law_neg_involutive(a: Seq<Bit>)
    requires
        a.len() >= 1,
    ensures
        spec_neg(spec_neg(a)) == a,
{
    let n = a.len();
    let p = pow2(n);
    lemma_pow2_pos(n);
    lemma_val_bound(a);
    let m = spec_neg(a);
    assert(max_len(n, 1) == n);
    lemma_val_from_nat((p - val(a)) as nat, n);
    if val(a) == 0 {
        lemma_mod_self_0(p as int);
        assert(val(m) == 0);
        assert(spec_neg(m) == from_nat(p, n));
        lemma_from_nat_mod(p, n);
        assert(from_nat(0, n) == from_nat(p, n));
        lemma_from_nat_val(a);
    } else {
        lemma_small_mod((p - val(a)) as nat, p);
        assert(val(m) == p - val(a));
        assert(spec_neg(m) == from_nat(val(a), n));
        lemma_from_nat_val(a);
    }
}

/// Inverting every bit twice gives the value back.
pub proof fn law_not_involutive(a: Seq<Bit>)
    ensures
        spec_not(spec_not(a)) == a,
{
    assert forall|i: int| 0 <= i < a.len() implies spec_not(spec_not(a))[i] == a[i] by {
        match a[i] {
            Bit::Zero => {},
            Bit::One => {},
        }
    }
    assert(spec_not(spec_not(a)) =~= a);
}

/// A value plus its negation is zero, for at least one bit.
pub proof fn law_add_neg_is_zero(a: Seq<Bit>)
    requires
        a.len() >= 1,
    ensures
        spec_add(a, spec_neg(a)) == zeros(a.len()),
{
    let n = a.len();
    let p = pow2(n);
    lemma_pow2_pos(n);
    lemma_val_bound(a);
    let m = spec_neg(a);
    assert(max_len(n, 1) == n);
    lemma_val_from_nat((p - val(a)) as nat, n);
    assert(max_len(a.len(), m.len()) == n);
    if val(a) == 0 {
        lemma_mod_self_0(p as int);
        assert(val(a) + val(m) == 0);
        lemma_small_mod(0, p);
    } else {
        lemma_small_mod((p - val(a)) as nat, p);
        assert(val(a) + val(m) == p);
        lemma_mod_self_0(p as int);
    }
    assert((val(a) + val(m)) % p == 0);
    lemma_from_nat_mod(val(a) + val(m), n);
    assert(from_nat(0, n) =~= zeros(n)) by {
        assert forall|i: int| 0 <= i < n implies from_nat(0, n)[i] == Bit::Zero by {
            lemma_pow2_pos(i as nat);
        }
    }
}

/// Two values are equal exactly when their order is `Equal`.
pub proof fn law_eq_iff_cmp_equal(a: Seq<Bit>, b: Seq<Bit>)
    ensures
        (val(a) == val(b)) <==> compare_nat(val(a), val(b)) == Ordering::Equal,
{
}

/// Zeros above the top bit do not change a value.
pub proof fn law_zero_extension_keeps_value(a: Seq<Bit>, n: nat)
    requires
        n >= a.len(),
    ensures
        val(resize(a, n)) == val(a),
{
    lemma_val_resize_grow(a, n);
}

/// Removing leading zeros keeps the value and leaves no leading zero.
pub proof fn law_trim_keeps_value(a: Seq<Bit>)
    requires
        a.len() >= 1,
    ensures
        val(trim(a)) == val(a),
        trim(a).len() == 1 || trim(a).last() == Bit::One,
{
    super::parse::lemma_trim(a);
}

/// The decimal text of a number is a decimal string that denotes it: what
/// `as_dec` writes, `parse_dec` reads back.
pub proof fn law_dec_roundtrip(n: nat)
    ensures
        is_dec_string(dec_string(n)),
        dec_number(dec_string(n)) == n,
    decreases n,
{
    if n < 10 {
        assert(dec_string(n) == seq![digit_char(n)]);
        assert(dec_digit(digit_char(n)) == Some(n));
        assert(dec_string(n).drop_last() =~= Seq::<char>::empty());
        assert(dec_number(dec_string(n)) == dec_number(Seq::<char>::empty()) * 10 + n);
    } else {
        law_dec_roundtrip(n / 10);
        let s = dec_string(n);
        assert(s.drop_last() == dec_string(n / 10));
        assert(dec_digit(digit_char(n % 10)) == Some(n % 10));
        assert(s.last() == digit_char(n % 10));
        assert(dec_number(s) == dec_number(dec_string(n / 10)) * 10 + n % 10);
        assert(n == (n / 10) * 10 + n % 10);
        assert forall|i: int| 0 <= i < s.len() implies dec_digit(#[trigger] s[i]) is Some by {
            if i < s.len() - 1 {
                assert(s[i] == dec_string(n / 10)[i]);
            }
        }
    }
}

/// A decimal string in its canonical form: `"0"`, or digits that do not
/// start with zero.
pub open spec fn is_canonical_dec(cs: Seq<char>) -> bool {
    is_dec_string(cs) && (cs == seq!['0'] || cs[0] != '0')
}

/// The decimal text of a number is canonical: `"0"` for zero, else its
/// first digit is not zero.
pub proof fn law_dec_canonical(n: nat)
    ensures
        is_canonical_dec(dec_string(n)),
        (dec_string(n) == seq!['0']) <==> n == 0,
    decreases n,
{
    law_dec_roundtrip(n);
    if n < 10 {
        assert(dec_string(n) == seq![digit_char(n)]);
        if n > 0 {
            assert(digit_char(n) != '0');
        }
    } else {
        law_dec_canonical(n / 10);
        let s = dec_string(n);
        assert(s == dec_string(n / 10).push(digit_char(n % 10)));
        assert(s[0] == dec_string(n / 10)[0]);
        assert(s.len() > 1);
    }
}

/// A canonical decimal string with a first digit other than zero denotes a
/// positive number.
proof fn lemma_dec_positive(cs: Seq<char>)
    requires
        is_dec_string(cs),
        cs[0] != '0',
    ensures
        dec_number(cs) > 0,
    decreases cs.len(),
{
    if cs.len() == 1 {
        assert(cs.drop_last() =~= Seq::<char>::empty());
        assert(dec_digit(cs.last()) is Some);
    } else {
        let p = cs.drop_last();
        assert forall|i: int| 0 <= i < p.len() implies dec_digit(#[trigger] p[i]) is Some by {
            assert(p[i] == cs[i]);
        }
        assert(p[0] == cs[0]);
        lemma_dec_positive(p);
    }
}

/// Formatting the number that a canonical decimal string denotes gives the
/// string back: `Value::parse_dec(s)` then `as_dec` returns `s`.
pub proof fn law_dec_format_parsed(cs: Seq<char>)
    requires
        is_canonical_dec(cs),
    ensures
        dec_string(dec_number(cs)) == cs,
    decreases cs.len(),
{
    let c = cs.last();
    let d = dec_digit(c)->0;
    assert(dec_digit(cs[cs.len() - 1]) is Some);
    assert(d < 10);
    assert(digit_char(d) == c) by {
        assert('0' <= c <= '9');
        assert(('0' as nat + (c as nat - '0' as nat)) as nat == c as nat);
    }
    if cs.len() == 1 {
        assert(cs.drop_last() =~= Seq::<char>::empty());
        assert(dec_number(cs.drop_last()) == 0);
        assert(dec_number(cs) == d);
        assert(dec_string(d) == seq![digit_char(d)]);
        assert(cs =~= seq![c]);
    } else {
        let p = cs.drop_last();
        assert forall|i: int| 0 <= i < p.len() implies dec_digit(#[trigger] p[i]) is Some by {
            assert(p[i] == cs[i]);
        }
        assert(cs[0] != '0') by {
            if cs == seq!['0'] {
                assert(cs.len() == 1);
            }
        }
        assert(p[0] == cs[0]);
        lemma_dec_positive(p);
        law_dec_format_parsed(p);
        let m = dec_number(p);
        let n = dec_number(cs);
        assert(n == m * 10 + d);
        assert(n / 10 == m && n % 10 == d) by {
            vstd::arithmetic::div_mod::lemma_fundamental_div_mod_converse(
                n as int,
                10,
                m as int,
                d as int,
            );
        }
        assert(n >= 10);
        assert(dec_string(n) == dec_string(m).push(digit_char(d)));
        assert(cs =~= p.push(c));
    }
}

/// Bit `j` of `x` is zero once two to the `j` exceeds `x`.
proof fn lemma_nat_bit_high(x: nat, j: nat)
    requires
        x < pow2(j),
    ensures
        nat_bit(x, j) == Bit::Zero,
{
    lemma_pow2_pos(j);
    lemma_basic_div(x as int, pow2(j) as int);
}

/// The bits of a sequence are those of the number it denotes, at any index.
proof fn lemma_bit_at_nat_bit(a: Seq<Bit>, j: int)
    requires
        0 <= j,
    ensures
        bit_at(a, j) == nat_bit(val(a), j as nat),
{
    lemma_from_nat_val(a);
    if j >= a.len() {
        lemma_val_bound(a);
        if j > a.len() {
            lemma_pow2_strictly_increases(a.len(), j as nat);
        }
        lemma_nat_bit_high(val(a), j as nat);
    } else {
        assert(from_nat(val(a), a.len())[j] == a[j]);
    }
}

/// Shifting towards the bottom by `k` divides by two to the `k`.
pub proof fn law_shr_divides(a: Seq<Bit>, k: nat)
    ensures
        val(spec_shr(a, k)) == val(a) / pow2(k),
{
    let x = val(a);
    let n = a.len();
    lemma_pow2_pos(k);
    let y = x / pow2(k);
    assert forall|i: int| 0 <= i < n implies #[trigger] spec_shr(a, k)[i] == from_nat(y, n)[i] by {
        lemma_bit_at_nat_bit(a, i + k);
        lemma_pow2_pos(i as nat);
        lemma_pow2_adds(k, i as nat);
        lemma_div_denominator(x as int, pow2(k) as int, pow2(i as nat) as int);
        assert((i + k) as nat == k + i as nat);
    }
    assert(spec_shr(a, k) =~= from_nat(y, n));
    lemma_val_bound(a);
    assert(y <= x) by {
        vstd::arithmetic::div_mod::lemma_div_is_ordered_by_denominator(x as int, 1, pow2(k) as int);
        vstd::arithmetic::div_mod::lemma_div_basics(x as int);
    }
    lemma_val_from_nat_small(y, n);
}

/// Shifting towards the top by `k` multiplies by two to the `k`, modulo two
/// to the width.
pub proof fn law_shl_multiplies(a: Seq<Bit>, k: nat)
    ensures
        val(spec_shl(a, k)) == (val(a) * pow2(k)) % pow2(a.len()),
{
    let x = val(a);
    let n = a.len();
    lemma_pow2_pos(k);
    let y = x * pow2(k);
    assert forall|i: int| 0 <= i < n implies #[trigger] spec_shl(a, k)[i] == from_nat(y, n)[i] by {
        lemma_pow2_pos(i as nat);
        if i >= k {
            let j = (i - k) as nat;
            lemma_bit_at_nat_bit(a, i - k);
            lemma_pow2_adds(k, j);
            lemma_pow2_pos(j);
            assert(i as nat == k + j);
            lemma_div_denominator(y as int, pow2(k) as int, pow2(j) as int);
            lemma_div_multiples_vanish(x as int, pow2(k) as int);
            assert(y == pow2(k) * x) by (nonlinear_arith)
                requires
                    y == x * pow2(k),
            ;
        } else {
            let d = (k - i) as nat;
            lemma_pow2_adds(d, i as nat);
            assert(k == d + i as nat);
            lemma_pow2_pos(d);
            let q = x * pow2(d);
            assert(y == pow2(i as nat) * q) by (nonlinear_arith)
                requires
                    y == x * pow2(k),
                    pow2(k) == pow2(d) * pow2(i as nat),
                    q == x * pow2(d),
            ;
            lemma_div_multiples_vanish(q as int, pow2(i as nat) as int);
            vstd::arithmetic::power2::lemma_pow2_unfold(d);
            assert(q == (x * pow2((d - 1) as nat)) * 2) by (nonlinear_arith)
                requires
                    q == x * pow2(d),
                    pow2(d) == 2 * pow2((d - 1) as nat),
            ;
            lemma_mod_multiples_basic((x * pow2((d - 1) as nat)) as int, 2);
        }
    }
    assert(spec_shl(a, k) =~= from_nat(y, n));
    lemma_val_from_nat(y, n);
}

} // verus!

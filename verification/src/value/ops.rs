//! Arithmetic and bitwise operations. Operands of different widths are read
//! with zeros above their top bit; results are as wide as the wider operand.

use super::bit::Bit;
use super::math::{
    bit_at, from_nat, lemma_from_nat_mod, lemma_from_nat_val, lemma_pow2_pos, lemma_pow2_step,
    lemma_val_bound, lemma_val_push, lemma_val_resize_grow, max_len, resize, val,
};
use super::slice::{bit_or_zero, max_usize, ValueSlice};
use super::value::Value;
use vstd::arithmetic::div_mod::lemma_fundamental_div_mod_converse;
use vstd::arithmetic::power2::pow2;
use vstd::prelude::*;

verus! {

/// The bits of the sum, as wide as the wider operand (the carry out of the
/// top is dropped).
pub open spec fn spec_add(a: Seq<Bit>, b: Seq<Bit>) -> Seq<Bit> {
    from_nat(val(a) + val(b), max_len(a.len(), b.len()))
}

/// The bits of the difference modulo two to the width of the wider operand.
pub open spec fn spec_sub(a: Seq<Bit>, b: Seq<Bit>) -> Seq<Bit> {
    let n = max_len(a.len(), b.len());
    from_nat(((val(a) - val(b)) % (pow2(n) as int)) as nat, n)
}

/// Adds the value of a prefix extended by one bit.
proof fn lemma_val_take_step(s: Seq<Bit>, i: int)
    requires
        0 <= i < s.len(),
    ensures
        val(s.take(i + 1)) == val(s.take(i)) + s[i].as_nat() * pow2(i as nat),
{
    assert(s.take(i + 1) =~= s.take(i).push(s[i]));
    lemma_val_push(s.take(i), s[i]);
}

/// Sum of the two operands, truncated to the width of the wider one.
pub fn add(lhs: &ValueSlice, rhs: &ValueSlice) -> (res: Value)
    ensures
        res@ == spec_add(lhs@, rhs@),
{
    let len = max_usize(lhs.bits.len(), rhs.bits.len());
    let ghost n = len as nat;
    let ghost ea = resize(lhs@, n);
    let ghost eb = resize(rhs@, n);
    let mut result: Vec<Bit> = Vec::new();
    let mut carry = Bit::Zero;
    let mut i: usize = 0;
    proof {
        lemma_pow2_pos(0);
        vstd::arithmetic::power2::lemma2_to64();
        assert(ea.take(0) =~= Seq::<Bit>::empty());
        assert(eb.take(0) =~= Seq::<Bit>::empty());
    }
    while i < len
        invariant
            i <= len,
            len == n,
            ea == resize(lhs@, n),
            eb == resize(rhs@, n),
            result@.len() == i,
            val(result@) + carry.as_nat() * pow2(i as nat) == val(ea.take(i as int)) + val(
                eb.take(i as int),
            ),
        decreases len - i,
    {
        let x = bit_or_zero(lhs.bits, i);
        let y = bit_or_zero(rhs.bits, i);
        let (r, carry_next) = match (x, y, carry) {
            (Bit::Zero, Bit::Zero, Bit::Zero) => (Bit::Zero, Bit::Zero),
            (Bit::Zero, Bit::Zero, Bit::One) => (Bit::One, Bit::Zero),
            (Bit::Zero, Bit::One, Bit::Zero) => (Bit::One, Bit::Zero),
            (Bit::Zero, Bit::One, Bit::One) => (Bit::Zero, Bit::One),
            (Bit::One, Bit::Zero, Bit::Zero) => (Bit::One, Bit::Zero),
            (Bit::One, Bit::Zero, Bit::One) => (Bit::Zero, Bit::One),
            (Bit::One, Bit::One, Bit::Zero) => (Bit::Zero, Bit::One),
            (Bit::One, Bit::One, Bit::One) => (Bit::One, Bit::One),
        };
        proof {
            let p = pow2(i as nat);
            assert(r.as_nat() + 2 * carry_next.as_nat() == x.as_nat() + y.as_nat()
                + carry.as_nat());
            lemma_val_take_step(ea, i as int);
            lemma_val_take_step(eb, i as int);
            lemma_val_push(result@, r);
            lemma_pow2_step(i as nat);
            assert(carry_next.as_nat() * (2 * p) == 2 * carry_next.as_nat() * p) by (
            nonlinear_arith);
            assert((r.as_nat() + 2 * carry_next.as_nat()) * p == (x.as_nat() + y.as_nat()
                + carry.as_nat()) * p);
            assert((r.as_nat() + 2 * carry_next.as_nat()) * p == r.as_nat() * p + 2
                * carry_next.as_nat() * p) by (nonlinear_arith);
            assert((x.as_nat() + y.as_nat() + carry.as_nat()) * p == x.as_nat() * p + y.as_nat()
                * p + carry.as_nat() * p) by (nonlinear_arith);
        }
        result.push(r);
        carry = carry_next;
        i = i + 1;
    }
    proof {
        assert(ea.take(n as int) =~= ea);
        assert(eb.take(n as int) =~= eb);
        lemma_val_resize_grow(lhs@, n);
        lemma_val_resize_grow(rhs@, n);
        lemma_val_bound(result@);
        lemma_pow2_pos(n);
        lemma_fundamental_div_mod_converse(
            (val(lhs@) + val(rhs@)) as int,
            pow2(n) as int,
            carry.as_nat() as int,
            val(result@) as int,
        );
        lemma_from_nat_val(result@);
        lemma_from_nat_mod(val(lhs@) + val(rhs@), n);
    }
    Value { bits: result }
}

/// Difference of the two operands modulo two to the width of the wider one.
pub fn sub(lhs: &ValueSlice, rhs: &ValueSlice) -> (res: Value)
    ensures
        res@ == spec_sub(lhs@, rhs@),
{
    let len = max_usize(lhs.bits.len(), rhs.bits.len());
    let ghost n = len as nat;
    let ghost ea = resize(lhs@, n);
    let ghost eb = resize(rhs@, n);
    let mut result: Vec<Bit> = Vec::new();
    let mut borrow = Bit::Zero;
    let mut i: usize = 0;
    proof {
        lemma_pow2_pos(0);
        vstd::arithmetic::power2::lemma2_to64();
        assert(ea.take(0) =~= Seq::<Bit>::empty());
        assert(eb.take(0) =~= Seq::<Bit>::empty());
    }
    while i < len
        invariant
            i <= len,
            len == n,
            ea == resize(lhs@, n),
            eb == resize(rhs@, n),
            result@.len() == i,
            val(result@) == val(ea.take(i as int)) - val(eb.take(i as int)) + borrow.as_nat()
                * pow2(i as nat),
        decreases len - i,
    {
        let x = bit_or_zero(lhs.bits, i);
        let y = bit_or_zero(rhs.bits, i);
        let (r, borrow_next) = match (x, y, borrow) {
            (Bit::Zero, Bit::Zero, Bit::Zero) => (Bit::Zero, Bit::Zero),
            (Bit::Zero, Bit::Zero, Bit::One) => (Bit::One, Bit::One),
            (Bit::Zero, Bit::One, Bit::Zero) => (Bit::One, Bit::One),
            (Bit::Zero, Bit::One, Bit::One) => (Bit::Zero, Bit::One),
            (Bit::One, Bit::Zero, Bit::Zero) => (Bit::One, Bit::Zero),
            (Bit::One, Bit::Zero, Bit::One) => (Bit::Zero, Bit::Zero),
            (Bit::One, Bit::One, Bit::Zero) => (Bit::Zero, Bit::Zero),
            (Bit::One, Bit::One, Bit::One) => (Bit::One, Bit::One),
        };
        proof {
            let p = pow2(i as nat);
            let ri = r.as_nat() as int;
            let bn = borrow_next.as_nat() as int;
            let xi = x.as_nat() as int;
            let yi = y.as_nat() as int;
            let bi = borrow.as_nat() as int;
            assert(ri - 2 * bn == xi - yi - bi);
            lemma_val_take_step(ea, i as int);
            lemma_val_take_step(eb, i as int);
            lemma_val_push(result@, r);
            lemma_pow2_step(i as nat);
            assert(bn * (2 * p) == 2 * bn * p) by (nonlinear_arith);
            assert((ri - 2 * bn) * p == (xi - yi - bi) * p);
            assert((ri - 2 * bn) * p == ri * p - 2 * bn * p) by (nonlinear_arith);
            assert((xi - yi - bi) * p == xi * p - yi * p - bi * p) by (nonlinear_arith);
        }
        result.push(r);
        borrow = borrow_next;
        i = i + 1;
    }
    proof {
        assert(ea.take(n as int) =~= ea);
        assert(eb.take(n as int) =~= eb);
        lemma_val_resize_grow(lhs@, n);
        lemma_val_resize_grow(rhs@, n);
        lemma_val_bound(result@);
        lemma_pow2_pos(n);
        let bb = borrow.as_nat() as int;
        let pn = pow2(n) as int;
        assert((-bb) * pn == -(bb * pn)) by (nonlinear_arith);
        lemma_fundamental_div_mod_converse(
            val(lhs@) - val(rhs@),
            pow2(n) as int,
            -(borrow.as_nat() as int),
            val(result@) as int,
        );
        lemma_from_nat_val(result@);
    }
    Value { bits: result }
}

/// The bits of a bitwise operation over the operands widened to a common width.
pub open spec fn spec_and(a: Seq<Bit>, b: Seq<Bit>) -> Seq<Bit> {
    Seq::new(max_len(a.len(), b.len()), |i: int| bit_at(a, i).and_spec(bit_at(b, i)))
}

pub open spec fn spec_or(a: Seq<Bit>, b: Seq<Bit>) -> Seq<Bit> {
    Seq::new(max_len(a.len(), b.len()), |i: int| bit_at(a, i).or_spec(bit_at(b, i)))
}

pub open spec fn spec_xor(a: Seq<Bit>, b: Seq<Bit>) -> Seq<Bit> {
    Seq::new(max_len(a.len(), b.len()), |i: int| bit_at(a, i).xor_spec(bit_at(b, i)))
}

/// Every bit inverted.
pub open spec fn spec_not(a: Seq<Bit>) -> Seq<Bit> {
    Seq::new(a.len(), |i: int| a[i].not_spec())
}

/// Two's complement negation: the complement plus one, at least one bit wide.
pub open spec fn spec_neg(a: Seq<Bit>) -> Seq<Bit> {
    from_nat((pow2(a.len()) - val(a)) as nat, max_len(a.len(), 1))
}

/// Shift towards the top by `k`, filling with zeros, keeping the width.
pub open spec fn spec_shl(a: Seq<Bit>, k: nat) -> Seq<Bit> {
    Seq::new(a.len(), |i: int| bit_at(a, i - k))
}

/// Shift towards the bottom by `k`, filling with zeros, keeping the width.
pub open spec fn spec_shr(a: Seq<Bit>, k: nat) -> Seq<Bit> {
    Seq::new(a.len(), |i: int| bit_at(a, i + k))
}

/// Bitwise conjunction.
pub fn bit_and(lhs: &ValueSlice, rhs: &ValueSlice) -> (res: Value)
    ensures
        res@ == spec_and(lhs@, rhs@),
{
    let len = max_usize(lhs.bits.len(), rhs.bits.len());
    let mut result: Vec<Bit> = Vec::with_capacity(len);
    let mut i: usize = 0;
    while i < len
        invariant
            i <= len,
            len == max_len(lhs@.len(), rhs@.len()),
            result@ =~= spec_and(lhs@, rhs@).take(i as int),
        decreases len - i,
    {
        let x = bit_or_zero(lhs.bits, i);
        let y = bit_or_zero(rhs.bits, i);
        result.push(x.and(y));
        i = i + 1;
    }
    Value { bits: result }
}

/// Bitwise disjunction.
pub fn bit_or(lhs: &ValueSlice, rhs: &ValueSlice) -> (res: Value)
    ensures
        res@ == spec_or(lhs@, rhs@),
{
    let len = max_usize(lhs.bits.len(), rhs.bits.len());
    let mut result: Vec<Bit> = Vec::with_capacity(len);
    let mut i: usize = 0;
    while i < len
        invariant
            i <= len,
            len == max_len(lhs@.len(), rhs@.len()),
            result@ =~= spec_or(lhs@, rhs@).take(i as int),
        decreases len - i,
    {
        let x = bit_or_zero(lhs.bits, i);
        let y = bit_or_zero(rhs.bits, i);
        result.push(x.or(y));
        i = i + 1;
    }
    Value { bits: result }
}

/// Bitwise exclusive disjunction.
pub fn bit_xor(lhs: &ValueSlice, rhs: &ValueSlice) -> (res: Value)
    ensures
        res@ == spec_xor(lhs@, rhs@),
{
    let len = max_usize(lhs.bits.len(), rhs.bits.len());
    let mut result: Vec<Bit> = Vec::with_capacity(len);
    let mut i: usize = 0;
    while i < len
        invariant
            i <= len,
            len == max_len(lhs@.len(), rhs@.len()),
            result@ =~= spec_xor(lhs@, rhs@).take(i as int),
        decreases len - i,
    {
        let x = bit_or_zero(lhs.bits, i);
        let y = bit_or_zero(rhs.bits, i);
        result.push(x.xor(y));
        i = i + 1;
    }
    Value { bits: result }
}

/// Every bit inverted.
pub fn not(value: &ValueSlice) -> (res: Value)
    ensures
        res@ == spec_not(value@),
{
    let mut result: Vec<Bit> = Vec::with_capacity(value.bits.len());
    let mut i: usize = 0;
    while i < value.bits.len()
        invariant
            i <= value@.len(),
            result@ =~= spec_not(value@).take(i as int),
        decreases value@.len() - i,
    {
        result.push(value.bits[i].not());
        i = i + 1;
    }
    Value { bits: result }
}

/// A value and its complement add up to all ones.
pub proof fn lemma_val_not(a: Seq<Bit>)
    ensures
        val(a) + val(spec_not(a)) + 1 == pow2(a.len()),
    decreases a.len(),
{
    if a.len() == 0 {
        vstd::arithmetic::power2::lemma2_to64();
    } else {
        let p = a.drop_last();
        lemma_val_not(p);
        assert(spec_not(a).drop_last() =~= spec_not(p));
        lemma_pow2_step(p.len());
        assert(a.last().as_nat() + spec_not(a).last().as_nat() == 1);
        let w = pow2(p.len());
        assert(a.last().as_nat() * w + spec_not(a).last().as_nat() * w == w) by (nonlinear_arith)
            requires
                a.last().as_nat() + spec_not(a).last().as_nat() == 1,
        ;
    }
}

/// Two's complement negation: the complement plus one.
pub fn neg(value: &ValueSlice) -> (res: Value)
    ensures
        res@ == spec_neg(value@),
{
    let complement = not(value);
    let one = Value::one(1);
    let res = self::add(&complement.as_slice(), &one.as_slice());
    proof {
        lemma_val_not(value@);
    }
    res
}

/// Shift towards the top, filling with zeros; all zeros once the shift
/// reaches the width.
pub fn shl(lhs: &ValueSlice, rhs: usize) -> (res: Value)
    requires
        lhs@.len() > 0,
    ensures
        res@ == spec_shl(lhs@, rhs as nat),
{
    let size = lhs.bits.len();
    if rhs >= size {
        let res = Value::zero(size);
        assert(res@ =~= spec_shl(lhs@, rhs as nat));
        return res;
    }
    let mut bits: Vec<Bit> = Vec::with_capacity(size);
    let mut i: usize = 0;
    while i < rhs
        invariant
            i <= rhs < size,
            size == lhs@.len(),
            bits@ =~= spec_shl(lhs@, rhs as nat).take(i as int),
        decreases rhs - i,
    {
        bits.push(Bit::Zero);
        i = i + 1;
    }
    let mut j: usize = 0;
    while j < size - rhs
        invariant
            rhs < size,
            j <= size - rhs,
            size == lhs@.len(),
            bits@ =~= spec_shl(lhs@, rhs as nat).take(rhs + j),
        decreases size - rhs - j,
    {
        bits.push(lhs.bits[j]);
        j = j + 1;
    }
    Value { bits }
}

/// Shift towards the bottom, filling with zeros; all zeros once the shift
/// reaches the width.
pub fn shr(lhs: &ValueSlice, rhs: usize) -> (res: Value)
    requires
        lhs@.len() > 0,
    ensures
        res@ == spec_shr(lhs@, rhs as nat),
{
    let size = lhs.bits.len();
    if rhs >= size {
        let res = Value::zero(size);
        assert(res@ =~= spec_shr(lhs@, rhs as nat));
        return res;
    }
    let mut bits: Vec<Bit> = Vec::with_capacity(size);
    let mut j: usize = rhs;
    while j < size
        invariant
            rhs <= j <= size,
            size == lhs@.len(),
            bits@ =~= spec_shr(lhs@, rhs as nat).take(j - rhs),
        decreases size - j,
    {
        bits.push(lhs.bits[j]);
        j = j + 1;
    }
    let mut i: usize = 0;
    while i < rhs
        invariant
            i <= rhs <= size,
            size == lhs@.len(),
            bits@ =~= spec_shr(lhs@, rhs as nat).take(size - rhs + i),
        decreases rhs - i,
    {
        bits.push(Bit::Zero);
        i = i + 1;
    }
    Value { bits }
}

} // verus!

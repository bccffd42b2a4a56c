//! The numeric meaning of a bit sequence and the facts about it that the
//! operations rest on.

use super::bit::Bit;
use vstd::arithmetic::div_mod::*;
use vstd::arithmetic::mul::*;
use vstd::arithmetic::power2::*;
use vstd::prelude::*;

verus! {

/// The unsigned number that `s` denotes, `s[0]` being the least significant bit.
pub open spec fn val(s: Seq<Bit>) -> nat
    decreases s.len(),
{
    if s.len() == 0 {
        0
    } else {
        val(s.drop_last()) + s.last().as_nat() * pow2((s.len() - 1) as nat)
    }
}

/// Bit `i` of `s`, reading absent high bits as zero.
pub open spec fn bit_at(s: Seq<Bit>, i: int) -> Bit {
    if 0 <= i < s.len() {
        s[i]
    } else {
        Bit::Zero
    }
}

/// Bit `i` of the binary expansion of `x`.
pub open spec fn nat_bit(x: nat, i: nat) -> Bit {
    if (x / pow2(i)) % 2 == 1 {
        Bit::One
    } else {
        Bit::Zero
    }
}

/// The `n` low bits of `x`, least significant first.
pub open spec fn from_nat(x: nat, n: nat) -> Seq<Bit> {
    Seq::new(n, |i: int| nat_bit(x, i as nat))
}

/// `n` zero bits.
pub open spec fn zeros(n: nat) -> Seq<Bit> {
    Seq::new(n, |i: int| Bit::Zero)
}

/// `s` read as `n` bits: cut to its low `n` bits or padded with zeros.
pub open spec fn resize(s: Seq<Bit>, n: nat) -> Seq<Bit> {
    Seq::new(n, |i: int| bit_at(s, i))
}

/// The larger of two lengths.
pub open spec fn max_len(a: nat, b: nat) -> nat {
    if a >= b {
        a
    } else {
        b
    }
}

/// No superfluous zero at the top: a single bit, or a most significant one.
pub open spec fn is_trimmed(s: Seq<Bit>) -> bool {
    s.len() == 1 || (s.len() > 1 && s.last() == Bit::One)
}

pub proof fn lemma_pow2_pos(n: nat)
    ensures
        pow2(n) > 0,
{
    vstd::arithmetic::power2::lemma_pow2_pos(n);
}

pub proof fn lemma_pow2_step(n: nat)
    ensures
        pow2(n + 1) == 2 * pow2(n),
{
    lemma_pow2_unfold(n + 1);
}

/// A bit sequence denotes a number below two to the power of its length.
pub proof fn lemma_val_bound(s: Seq<Bit>)
    ensures
        val(s) < pow2(s.len()),
    decreases s.len(),
{
    if s.len() == 0 {
        lemma2_to64();
    } else {
        lemma_val_bound(s.drop_last());
        lemma_pow2_step((s.len() - 1) as nat);
    }
}

/// Appending a bit at the top adds its weight.
pub proof fn lemma_val_push(s: Seq<Bit>, b: Bit)
    ensures
        val(s.push(b)) == val(s) + b.as_nat() * pow2(s.len()),
{
    assert(s.push(b).drop_last() =~= s);
}

/// The value of a sequence is the value of its low part plus the value of
/// its high part shifted by the length of the low part.
pub proof fn lemma_val_concat(a: Seq<Bit>, b: Seq<Bit>)
    ensures
        val(a + b) == val(a) + val(b) * pow2(a.len()),
    decreases b.len(),
{
    if b.len() == 0 {
        assert(a + b =~= a);
    } else {
        let b0 = b.drop_last();
        lemma_val_concat(a, b0);
        assert((a + b).drop_last() =~= a + b0);
        assert((a + b).last() == b.last());
        lemma_pow2_adds(a.len(), b0.len());
        assert(pow2((a.len() + b0.len()) as nat) == pow2(a.len()) * pow2(b0.len()));
        assert(val(b) == val(b0) + b.last().as_nat() * pow2(b0.len()));
        assert(val(b) * pow2(a.len()) == val(b0) * pow2(a.len()) + b.last().as_nat() * (
        pow2(b0.len()) * pow2(a.len()))) by (nonlinear_arith)
            requires
                val(b) == val(b0) + b.last().as_nat() * pow2(b0.len()),
        ;
        assert(((a + b).len() - 1) as nat == a.len() + b0.len());
        let pa = pow2(a.len());
        let pb = pow2(b0.len());
        let l = b.last().as_nat();
        assert(val(a + b) == val(a + b0) + l * (pa * pb));
        assert(val(a + b0) == val(a) + val(b0) * pa);
        assert(l * (pa * pb) == (l * pb) * pa) by (nonlinear_arith);
        assert(val(b0) * pa + (l * pb) * pa == (val(b0) + l * pb) * pa) by (nonlinear_arith);
    }
}

/// Zero bits denote zero.
pub proof fn lemma_val_zeros(n: nat)
    ensures
        val(zeros(n)) == 0,
    decreases n,
{
    if n > 0 {
        lemma_val_zeros((n - 1) as nat);
        assert(zeros(n).drop_last() =~= zeros((n - 1) as nat));
    }
}

/// Padding with zeros at the top keeps the value.
pub proof fn lemma_val_zero_extend(s: Seq<Bit>, n: nat)
    ensures
        val(s + zeros(n)) == val(s),
{
    lemma_val_concat(s, zeros(n));
    lemma_val_zeros(n);
}

/// Resizing to at least the length pads with zeros, keeping the value.
pub proof fn lemma_val_resize_grow(s: Seq<Bit>, n: nat)
    requires
        n >= s.len(),
    ensures
        val(resize(s, n)) == val(s),
        resize(s, n) =~= s + zeros((n - s.len()) as nat),
{
    assert(resize(s, n) =~= s + zeros((n - s.len()) as nat));
    lemma_val_zero_extend(s, (n - s.len()) as nat);
}

/// The value of the low `k` bits is the value modulo two to the `k`.
pub proof fn lemma_val_take(s: Seq<Bit>, k: nat)
    requires
        k <= s.len(),
    ensures
        val(s.take(k as int)) == val(s) % pow2(k),
        val(s.skip(k as int)) == val(s) / pow2(k),
{
    let lo = s.take(k as int);
    let hi = s.skip(k as int);
    assert(s =~= lo + hi);
    lemma_val_concat(lo, hi);
    lemma_val_bound(lo);
    lemma_pow2_pos(k);
    assert(val(s) == val(hi) * pow2(k) + val(lo));
    lemma_fundamental_div_mod_converse(val(s) as int, pow2(k) as int, val(hi) as int, val(lo) as int);
}

/// Bit `i` of `x` only depends on `x` modulo any larger power of two.
pub proof fn lemma_nat_bit_mod(x: nat, i: nat, m: nat)
    requires
        i < m,
    ensures
        nat_bit(x % pow2(m), i) == nat_bit(x, i),
{
    let d = (m - i) as nat;
    lemma_pow2_adds(i, d);
    assert((i + d) as nat == m);
    lemma_pow2_pos(i);
    lemma_pow2_pos(d);
    let p = pow2(i) as int;
    let q = pow2(d) as int;
    lemma_mod_breakdown(x as int, p, q);
    // x % (p * q) == p * ((x / p) % q) + x % p
    let r = x as int % p;
    let t = (x as int / p) % q;
    lemma_mod_pos_bound(x as int, p);
    lemma_mod_pos_bound(x as int / p, q);
    lemma_fundamental_div_mod_converse((x % pow2(m)) as int, p, t, r);
    // (x % 2^m) / p == t
    lemma_pow2_unfold(d);
    let q2 = pow2((d - 1) as nat) as int;
    lemma_pow2_pos((d - 1) as nat);
    assert(q == 2 * q2);
    lemma_mod_mod(x as int / p, 2, q2);
    assert(2 * q2 == q2 * 2) by (nonlinear_arith);
}

/// Bit `i` of a value below two to the `i` is zero, and adding a multiple of
/// two to the `i` shifts the bits at and above `i`.
pub proof fn lemma_nat_bit_top(lo: nat, b: nat, i: nat)
    requires
        lo < pow2(i),
        b < 2,
    ensures
        nat_bit(lo + b * pow2(i), i) == (if b == 1 {
            Bit::One
        } else {
            Bit::Zero
        }),
{
    lemma_pow2_pos(i);
    lemma_fundamental_div_mod_converse((lo + b * pow2(i)) as int, pow2(i) as int, b as int, lo as int);
}

/// Reading a bit sequence as a number and back gives the sequence.
pub proof fn lemma_from_nat_val(s: Seq<Bit>)
    ensures
        from_nat(val(s), s.len()) =~= s,
    decreases s.len(),
{
    if s.len() > 0 {
        let p = s.drop_last();
        let k = p.len();
        lemma_from_nat_val(p);
        lemma_val_bound(p);
        lemma_pow2_pos(k);
        assert(val(s) == val(p) + s.last().as_nat() * pow2(k));
        assert forall|j: int| 0 <= j < s.len() implies from_nat(val(s), s.len())[j] == s[j] by {
            if j < k {
                lemma_val_take(s, k);
                assert(s.take(k as int) =~= p);
                lemma_nat_bit_mod(val(s), j as nat, k);
                assert(from_nat(val(p), k)[j] == p[j]);
            } else {
                lemma_nat_bit_top(val(p), s.last().as_nat(), k);
            }
        }
    }
}

/// The number denoted by the `n` low bits of `x` is `x` modulo two to the `n`.
pub proof fn lemma_val_from_nat(x: nat, n: nat)
    ensures
        val(from_nat(x, n)) == x % pow2(n),
    decreases n,
{
    lemma_pow2_pos(n);
    if n == 0 {
        lemma2_to64();
        lemma_mod_multiples_basic(x as int, 1);
    } else {
        let m = (n - 1) as nat;
        lemma_val_from_nat(x, m);
        assert(from_nat(x, n).drop_last() =~= from_nat(x, m));
        lemma_pow2_pos(m);
        lemma_pow2_unfold(n);
        lemma_mod_breakdown(x as int, pow2(m) as int, 2);
        assert(pow2(m) * 2 == pow2(n));
        let t = (x / pow2(m)) % 2;
        lemma_mod_pos_bound((x / pow2(m)) as int, 2);
        assert(nat_bit(x, m).as_nat() == t);
        assert(x % pow2(n) == pow2(m) * t + x % pow2(m));
        assert(from_nat(x, n).last() == nat_bit(x, m));
        assert(val(from_nat(x, n)) == val(from_nat(x, m)) + nat_bit(x, m).as_nat() * pow2(m));
    }
}

/// The `n` low bits of `x` only depend on `x` modulo two to the `n`.
pub proof fn lemma_from_nat_mod(x: nat, n: nat)
    ensures
        from_nat(x % pow2(n), n) =~= from_nat(x, n),
{
    lemma_val_from_nat(x, n);
    lemma_from_nat_val(from_nat(x, n));
}

/// Two bit sequences of one length that denote one number are equal.
pub proof fn lemma_val_injective(a: Seq<Bit>, b: Seq<Bit>)
    requires
        a.len() == b.len(),
        val(a) == val(b),
    ensures
        a == b,
{
    lemma_from_nat_val(a);
    lemma_from_nat_val(b);
}

/// A number below two to the `n` is denoted by its `n` low bits.
pub proof fn lemma_val_from_nat_small(x: nat, n: nat)
    requires
        x < pow2(n),
    ensures
        val(from_nat(x, n)) == x,
{
    lemma_val_from_nat(x, n);
    lemma_small_mod(x, pow2(n));
}

/// The two sequences agree on every bit strictly above `i`, up to width `n`.
pub open spec fn agree_above(a: Seq<Bit>, b: Seq<Bit>, i: usize, n: usize) -> bool {
    forall|j: int| i < j < n ==> bit_at(a, j) == bit_at(b, j)
}

/// The two sequences agree on every bit below `n`.
pub open spec fn agree_below(a: Seq<Bit>, b: Seq<Bit>, n: usize) -> bool {
    forall|j: int| 0 <= j < n ==> bit_at(a, j) == bit_at(b, j)
}

/// The bit of `s` at a machine index.
pub open spec fn bit_at_usize(s: Seq<Bit>, i: usize) -> Bit {
    bit_at(s, i as int)
}

/// Two sequences no wider than `n` denote the same number exactly when they
/// agree on every bit below `n`.
pub proof fn lemma_val_eq_iff_agree(a: Seq<Bit>, b: Seq<Bit>, n: usize)
    requires
        a.len() <= n,
        b.len() <= n,
    ensures
        (val(a) == val(b)) == agree_below(a, b, n),
{
    let ea = resize(a, n as nat);
    let eb = resize(b, n as nat);
    lemma_val_resize_grow(a, n as nat);
    lemma_val_resize_grow(b, n as nat);
    if val(a) == val(b) {
        lemma_val_injective(ea, eb);
        assert forall|j: int| 0 <= j < n implies bit_at(a, j) == bit_at(b, j) by {
            assert(ea[j] == eb[j]);
        }
    }
    if agree_below(a, b, n) {
        assert(ea =~= eb);
    }
}

/// The highest bit in which two sequences no wider than `n` differ decides
/// their order.
pub proof fn lemma_first_difference(a: Seq<Bit>, b: Seq<Bit>, i: usize, n: usize)
    requires
        a.len() <= n,
        b.len() <= n,
        i < n,
        agree_above(a, b, i, n),
        bit_at(a, i as int) != bit_at(b, i as int),
    ensures
        bit_at(a, i as int) == Bit::Zero ==> val(a) < val(b),
        bit_at(a, i as int) == Bit::One ==> val(a) > val(b),
{
    let ea = resize(a, n as nat);
    let eb = resize(b, n as nat);
    lemma_val_resize_grow(a, n as nat);
    lemma_val_resize_grow(b, n as nat);
    let k = (i + 1) as nat;
    let la = ea.take(k as int);
    let lb = eb.take(k as int);
    let ha = ea.skip(k as int);
    let hb = eb.skip(k as int);
    assert(ha =~= hb);
    assert(ea =~= la + ha);
    assert(eb =~= lb + hb);
    lemma_val_concat(la, ha);
    lemma_val_concat(lb, hb);
    assert(la =~= ea.take(i as int).push(ea[i as int]));
    assert(lb =~= eb.take(i as int).push(eb[i as int]));
    lemma_val_push(ea.take(i as int), ea[i as int]);
    lemma_val_push(eb.take(i as int), eb[i as int]);
    lemma_val_bound(ea.take(i as int));
    lemma_val_bound(eb.take(i as int));
}

/// One at the bottom and zeros above denote one.
pub proof fn lemma_val_one(n: nat)
    requires
        n >= 1,
    ensures
        val(zeros(n).update(0, Bit::One)) == 1,
{
    let one = seq![Bit::One];
    assert(one.drop_last() =~= Seq::<Bit>::empty());
    lemma2_to64();
    assert(val(one) == val(one.drop_last()) + one.last().as_nat() * pow2(0));
    assert(zeros(n).update(0, Bit::One) =~= one + zeros((n - 1) as nat));
    lemma_val_zero_extend(one, (n - 1) as nat);
}

} // verus!

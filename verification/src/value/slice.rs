use super::bit::Bit;
use super::math::{bit_at, lemma_pow2_pos, max_len, resize, val};
use super::value::Value;
use vstd::prelude::*;
use vstd::slice::SliceAdditionalExecFns;

verus! {

/// A borrowed view of the bits of a value.
pub struct ValueSlice<'a> {
    pub bits: &'a [Bit],
}

impl<'a> View for ValueSlice<'a> {
    type V = Seq<Bit>;

    open spec fn view(&self) -> Seq<Bit> {
        self.bits@
    }
}

/// Bit `i` of `bits`, or zero above the top.
pub fn bit_or_zero(bits: &[Bit], i: usize) -> (res: Bit)
    ensures
        res == bit_at(bits@, i as int),
{
    if i < bits.len() {
        bits[i]
    } else {
        Bit::Zero
    }
}

/// The larger of two lengths.
pub fn max_usize(a: usize, b: usize) -> (res: usize)
    ensures
        res == max_len(a as nat, b as nat),
{
    if a >= b {
        a
    } else {
        b
    }
}

impl<'a> ValueSlice<'a> {
    /// The number of bits.
    pub fn size(&self) -> (res: usize)
        ensures
            res == self@.len(),
    {
        self.bits.len()
    }

    /// Whether the value is zero, that is whether every bit is zero.
    pub fn is_zero(&self) -> (res: bool)
        ensures
            res == (val(self@) == 0),
            res == (forall|i: int| 0 <= i < self@.len() ==> self@[i] == Bit::Zero),
    {
        let mut i: usize = 0;
        while i < self.bits.len()
            invariant
                i <= self.bits@.len(),
                forall|j: int| 0 <= j < i ==> self.bits@[j] == Bit::Zero,
            decreases self.bits@.len() - i,
        {
            if self.bits[i] != Bit::Zero {
                proof {
                    lemma_val_zero_iff(self@);
                }
                return false;
            }
            i = i + 1;
        }
        proof {
            lemma_val_zero_iff(self@);
        }
        true
    }

    /// An owned copy of the bits.
    pub fn to_owned(&self) -> (res: Value)
        ensures
            res@ == self@,
    {
        let mut bits: Vec<Bit> = Vec::new();
        let mut i: usize = 0;
        while i < self.bits.len()
            invariant
                i <= self.bits@.len(),
                bits@ =~= self.bits@.take(i as int),
            decreases self.bits@.len() - i,
        {
            bits.push(self.bits[i]);
            i = i + 1;
        }
        Value { bits }
    }
}

/// A mutably borrowed view of the bits of a value: its width is fixed,
/// its bits can be written.
pub struct ValueSliceMut<'a> {
    pub bits: &'a mut [Bit],
}

impl<'a> ValueSliceMut<'a> {
    /// The number of bits.
    pub fn size(&self) -> (res: usize)
        ensures
            res == old(self.bits)@.len(),
    {
        self.bits.len()
    }

    /// Overwrites every bit with the bit of `value` at the same place, zero
    /// above the top of `value`; the width stays.
    pub fn write(&mut self, value: &ValueSlice)
        ensures
            final(self).bits@ == resize(value@, old(self).bits@.len()),
            final(final(self).bits)@ == final(old(self).bits)@,
    {
        let mut idx: usize = 0;
        while idx < self.bits.len()
            invariant
                idx <= self.bits@.len(),
                self.bits@.len() == old(self).bits@.len(),
                final(self.bits)@ == final(old(self).bits)@,
                forall|j: int| 0 <= j < idx ==> self.bits@[j] == bit_at(value@, j),
            decreases self.bits@.len() - idx,
        {
            let b = bit_or_zero(value.bits, idx);
            self.bits.set(idx, b);
            idx = idx + 1;
        }
        assert(self.bits@ =~= resize(value@, old(self).bits@.len()));
    }
}

/// A value is zero exactly when all its bits are.
pub proof fn lemma_val_zero_iff(s: Seq<Bit>)
    ensures
        (val(s) == 0) == (forall|i: int| 0 <= i < s.len() ==> s[i] == Bit::Zero),
    decreases s.len(),
{
    if s.len() > 0 {
        let p = s.drop_last();
        lemma_val_zero_iff(p);
        lemma_pow2_pos((s.len() - 1) as nat);
        if val(s) == 0 {
            assert forall|i: int| 0 <= i < s.len() implies s[i] == Bit::Zero by {
                if i < p.len() {
                    assert(p[i] == s[i]);
                }
            }
        }
        if forall|i: int| 0 <= i < s.len() ==> s[i] == Bit::Zero {
            assert forall|i: int| 0 <= i < p.len() implies p[i] == Bit::Zero by {
                assert(p[i] == s[i]);
            }
        }
    }
}

} // verus!

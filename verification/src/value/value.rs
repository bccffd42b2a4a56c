use super::bit::Bit;
use super::math::{bit_at, lemma_val_one, max_len, resize, val, zeros};
use super::slice::bit_or_zero;
use super::slice::{ValueSlice, ValueSliceMut};
use vstd::prelude::*;

verus! {

/// An unsigned number of a fixed width, stored as its bits, least
/// significant first.
#[derive(Debug, Clone)]
pub struct Value {
    pub bits: Vec<Bit>,
}

impl View for Value {
    type V = Seq<Bit>;

    open spec fn view(&self) -> Seq<Bit> {
        self.bits@
    }
}

impl Value {
    /// The value zero, `size` bits wide.
    pub fn zero(size: usize) -> (res: Value)
        requires
            size != 0,
        ensures
            res@ == zeros(size as nat),
    {
        let mut bits: Vec<Bit> = Vec::new();
        let mut i: usize = 0;
        while i < size
            invariant
                i <= size,
                bits@ =~= zeros(i as nat),
            decreases size - i,
        {
            bits.push(Bit::Zero);
            i = i + 1;
        }
        Value { bits }
    }

    /// The value one, `size` bits wide.
    pub fn one(size: usize) -> (res: Value)
        requires
            size != 0,
        ensures
            res@ == zeros(size as nat).update(0, Bit::One),
            val(res@) == 1,
    {
        let mut bits: Vec<Bit> = Vec::new();
        bits.push(Bit::One);
        let mut i: usize = 1;
        while i < size
            invariant
                1 <= i <= size,
                bits@ =~= zeros(i as nat).update(0, Bit::One),
            decreases size - i,
        {
            bits.push(Bit::Zero);
            i = i + 1;
        }
        proof {
            lemma_val_one(size as nat);
        }
        Value { bits }
    }

    /// The value with all `size` bits set.
    pub fn filled(size: usize) -> (res: Value)
        requires
            size != 0,
        ensures
            res@ == ones(size as nat),
    {
        let mut bits: Vec<Bit> = Vec::new();
        let mut i: usize = 0;
        while i < size
            invariant
                i <= size,
                bits@ =~= ones(i as nat),
            decreases size - i,
        {
            bits.push(Bit::One);
            i = i + 1;
        }
        Value { bits }
    }

    /// Drops zero bits from the top, keeping at least one bit.
    pub fn remove_leading_zeros(&mut self)
        ensures
            final(self)@ == trim(old(self)@),
    {
        while self.bits.len() > 1
            invariant
                trim(self@) == trim(old(self)@),
            ensures
                self@ == trim(old(self)@),
            decreases self@.len(),
        {
            let last = self.bits.len() - 1;
            if self.bits[last] == Bit::Zero {
                self.bits.pop();
            } else {
                break;
            }
        }
    }

    /// Pads with zero bits at the top up to `size` bits; a wider value is
    /// left as it is.
    pub fn extend_zero(&mut self, size: usize)
        ensures
            final(self)@ == resize(old(self)@, max_len(old(self)@.len(), size as nat)),
    {
        while size > self.bits.len()
            invariant
                self@.len() <= max_len(old(self)@.len(), size as nat),
                old(self)@.len() <= self@.len(),
                self@ =~= resize(old(self)@, self@.len()),
            decreases size - self@.len(),
        {
            self.bits.push(Bit::Zero);
        }
    }

    /// Repeats the top bit up to `size` bits; a wider value is left as it is.
    pub fn extend_sign(&mut self, size: usize)
        requires
            old(self)@.len() > 0,
        ensures
            final(self)@ == sign_extend(old(self)@, max_len(old(self)@.len(), size as nat)),
    {
        let sign = self.bits[self.bits.len() - 1];
        while size > self.bits.len()
            invariant
                sign == old(self)@.last(),
                self@.len() <= max_len(old(self)@.len(), size as nat),
                old(self)@.len() <= self@.len(),
                self@ =~= sign_extend(old(self)@, self@.len()),
            decreases size - self@.len(),
        {
            self.bits.push(sign);
        }
    }

    /// The value cut or padded with zeros to exactly `size` bits.
    pub fn with_size(self, size: usize) -> (res: Value)
        requires
            size != 0,
        ensures
            res@ == resize(self@, size as nat),
    {
        let mut value = self;
        while value.bits.len() < size
            invariant
                value@ =~= resize(self@, value@.len()),
                value@.len() >= self@.len() || value@.len() == self@.len(),
            decreases size - value@.len(),
        {
            value.bits.push(Bit::Zero);
        }
        while value.bits.len() > size
            invariant
                value@ =~= resize(self@, value@.len()),
                value@.len() >= size,
            decreases value@.len(),
        {
            value.bits.pop();
        }
        value
    }

    /// Overwrites every bit with the bit of `value` at the same place, zero
    /// above the top of `value`; the width stays.
    pub fn write(&mut self, value: &ValueSlice)
        ensures
            final(self)@ == resize(value@, old(self)@.len()),
    {
        let mut idx: usize = 0;
        while idx < self.bits.len()
            invariant
                idx <= self@.len(),
                self@.len() == old(self)@.len(),
                forall|j: int| 0 <= j < idx ==> self@[j] == bit_at(value@, j),
            decreases self@.len() - idx,
        {
            let b = bit_or_zero(value.bits, idx);
            self.bits.set(idx, b);
            idx = idx + 1;
        }
        assert(self@ =~= resize(value@, old(self)@.len()));
    }

    /// Whether the value is zero.
    pub fn is_zero(&self) -> (res: bool)
        ensures
            res == (val(self@) == 0),
    {
        self.as_slice().is_zero()
    }

    /// The bits of all `slices` joined, the first slice at the top.
    pub fn concat(slices: &[ValueSlice]) -> (res: Value)
        ensures
            res@ == concat_bits(Seq::new(slices@.len(), |i: int| slices@[i]@)),
    {
        let ghost parts = Seq::new(slices@.len(), |i: int| slices@[i]@);
        let mut bits: Vec<Bit> = Vec::new();
        let mut k: usize = slices.len();
        assert(parts.skip(k as int) =~= Seq::<Seq<Bit>>::empty());
        while k > 0
            invariant
                k <= slices@.len(),
                parts == Seq::new(slices@.len(), |i: int| slices@[i]@),
                bits@ =~= concat_bits(parts.skip(k as int)),
            decreases k,
        {
            k = k - 1;
            let part = &slices[k];
            let mut j: usize = 0;
            let ghost before = bits@;
            while j < part.bits.len()
                invariant
                    j <= part@.len(),
                    bits@ =~= before + part@.take(j as int),
                decreases part@.len() - j,
            {
                bits.push(part.bits[j]);
                j = j + 1;
            }
            assert(parts.skip(k as int).drop_first() =~= parts.skip(k + 1));
            assert(parts.skip(k as int)[0] == part@);
            assert(part@.take(part@.len() as int) =~= part@);
        }
        assert(parts.skip(0) =~= parts);
        Value { bits }
    }

    /// A borrowed view of the bits.
    pub fn as_slice(&self) -> (res: ValueSlice<'_>)
        ensures
            res@ == self@,
    {
        ValueSlice { bits: self.bits.as_slice() }
    }

    /// A mutably borrowed view of the bits: what is written through it is
    /// what the value holds afterwards.
    pub fn as_mut_slice(&mut self) -> (res: ValueSliceMut<'_>)
        ensures
            res.bits@ == old(self)@,
            final(self)@ == final(res.bits)@,
    {
        ValueSliceMut { bits: self.bits.as_mut_slice() }
    }

    /// The number of bits.
    pub fn size(&self) -> (res: usize)
        ensures
            res == self@.len(),
    {
        self.bits.len()
    }
}

/// `s` with superfluous zero bits removed from the top, keeping at least
/// one bit.
pub open spec fn trim(s: Seq<Bit>) -> Seq<Bit>
    decreases s.len(),
{
    if s.len() > 1 && s.last() == Bit::Zero {
        trim(s.drop_last())
    } else {
        s
    }
}

/// `s` widened to `n` bits by repeating its top bit.
pub open spec fn sign_extend(s: Seq<Bit>, n: nat) -> Seq<Bit> {
    Seq::new(n, |i: int| if i < s.len() { s[i] } else { s.last() })
}

/// The bits of the parts joined, the first part at the top.
pub open spec fn concat_bits(parts: Seq<Seq<Bit>>) -> Seq<Bit>
    decreases parts.len(),
{
    if parts.len() == 0 {
        Seq::empty()
    } else {
        concat_bits(parts.drop_first()) + parts[0]
    }
}

/// `n` one bits.
pub open spec fn ones(n: nat) -> Seq<Bit> {
    Seq::new(n, |i: int| Bit::One)
}

} // verus!

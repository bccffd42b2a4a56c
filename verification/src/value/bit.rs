use vstd::prelude::*;

verus! {

/// A single binary digit.
#[derive(Debug, Clone, Copy, PartialEq, Eq, Structural, Hash, PartialOrd, Ord)]
pub enum Bit {
    Zero,
    One,
}

impl Bit {
    /// The numeric weight of the bit: 0 or 1.
    pub open spec fn as_nat(self) -> nat {
        match self {
            Bit::Zero => 0,
            Bit::One => 1,
        }
    }

    pub open spec fn not_spec(self) -> Bit {
        match self {
            Bit::Zero => Bit::One,
            Bit::One => Bit::Zero,
        }
    }

    pub open spec fn and_spec(self, rhs: Bit) -> Bit {
        Bit::spec_from_bool(self == Bit::One && rhs == Bit::One)
    }

    pub open spec fn or_spec(self, rhs: Bit) -> Bit {
        Bit::spec_from_bool(self == Bit::One || rhs == Bit::One)
    }

    pub open spec fn xor_spec(self, rhs: Bit) -> Bit {
        Bit::spec_from_bool(self != rhs)
    }

    pub open spec fn spec_from_bool(b: bool) -> Bit {
        if b {
            Bit::One
        } else {
            Bit::Zero
        }
    }

    /// Logical negation of the bit.
    pub fn not(self) -> (res: Bit)
        ensures
            res == self.not_spec(),
    {
        match self {
            Bit::Zero => Bit::One,
            Bit::One => Bit::Zero,
        }
    }

    /// Logical conjunction of two bits.
    pub fn and(self, rhs: Bit) -> (res: Bit)
        ensures
            res == self.and_spec(rhs),
    {
        match (self, rhs) {
            (Bit::One, Bit::One) => Bit::One,
            _ => Bit::Zero,
        }
    }

    /// Logical disjunction of two bits.
    pub fn or(self, rhs: Bit) -> (res: Bit)
        ensures
            res == self.or_spec(rhs),
    {
        match (self, rhs) {
            (Bit::One, _) | (_, Bit::One) => Bit::One,
            _ => Bit::Zero,
        }
    }

    /// Exclusive disjunction of two bits.
    pub fn xor(self, rhs: Bit) -> (res: Bit)
        ensures
            res == self.xor_spec(rhs),
    {
        match (self, rhs) {
            (Bit::One, Bit::Zero) | (Bit::Zero, Bit::One) => Bit::One,
            _ => Bit::Zero,
        }
    }

    /// The bit for a truth value: `true` is one.
    pub fn from_bool(b: bool) -> (res: Bit)
        ensures
            res == Bit::spec_from_bool(b),
    {
        if b {
            Bit::One
        } else {
            Bit::Zero
        }
    }

    /// The truth value of the bit: one is `true`.
    pub fn to_bool(self) -> (res: bool)
        ensures
            res == (self == Bit::One),
    {
        match self {
            Bit::Zero => false,
            Bit::One => true,
        }
    }

    /// The numeric weight of the bit.
    pub fn to_u32(self) -> (res: u32)
        ensures
            res == self.as_nat(),
    {
        match self {
            Bit::Zero => 0,
            Bit::One => 1,
        }
    }
}

impl Default for Bit {
    fn default() -> (res: Bit)
        ensures
            res == Bit::Zero,
    {
        Bit::Zero
    }
}

} // verus!

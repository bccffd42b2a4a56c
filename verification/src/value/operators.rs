//! The operator traits of std for values. Each forwards to the function of
//! the same name in `ops` and states the bits of its result. The generic
//! contract of the trait (`obeys_*_spec`) is left false: it would equate whole
//! `Value`s, and the equality of the vectors inside cannot be stated from
//! their contents.

use super::ops::{
    self, spec_add, spec_and, spec_neg, spec_not, spec_or, spec_shl, spec_shr, spec_sub, spec_xor,
};
use super::value::Value;
use vstd::prelude::*;

verus! {

impl core::ops::Add for Value {
    type Output = Value;

    fn add(self, rhs: Value) -> (res: Value)
        ensures
            res@ == spec_add(self@, rhs@),
    {
        ops::add(&self.as_slice(), &rhs.as_slice())
    }
}

impl vstd::std_specs::ops::AddSpecImpl for Value {
    open spec fn obeys_add_spec() -> bool {
        false
    }

    open spec fn add_req(self, rhs: Value) -> bool {
        true
    }

    open spec fn add_spec(self, rhs: Value) -> Value {
        arbitrary()
    }
}

impl core::ops::Sub for Value {
    type Output = Value;

    fn sub(self, rhs: Value) -> (res: Value)
        ensures
            res@ == spec_sub(self@, rhs@),
    {
        ops::sub(&self.as_slice(), &rhs.as_slice())
    }
}

impl vstd::std_specs::ops::SubSpecImpl for Value {
    open spec fn obeys_sub_spec() -> bool {
        false
    }

    open spec fn sub_req(self, rhs: Value) -> bool {
        true
    }

    open spec fn sub_spec(self, rhs: Value) -> Value {
        arbitrary()
    }
}

impl core::ops::BitAnd for Value {
    type Output = Value;

    fn bitand(self, rhs: Value) -> (res: Value)
        ensures
            res@ == spec_and(self@, rhs@),
    {
        ops::bit_and(&self.as_slice(), &rhs.as_slice())
    }
}

impl vstd::std_specs::ops::BitAndSpecImpl for Value {
    open spec fn obeys_bitand_spec() -> bool {
        false
    }

    open spec fn bitand_req(self, rhs: Value) -> bool {
        true
    }

    open spec fn bitand_spec(self, rhs: Value) -> Value {
        arbitrary()
    }
}

impl core::ops::BitOr for Value {
    type Output = Value;

    fn bitor(self, rhs: Value) -> (res: Value)
        ensures
            res@ == spec_or(self@, rhs@),
    {
        ops::bit_or(&self.as_slice(), &rhs.as_slice())
    }
}

impl vstd::std_specs::ops::BitOrSpecImpl for Value {
    open spec fn obeys_bitor_spec() -> bool {
        false
    }

    open spec fn bitor_req(self, rhs: Value) -> bool {
        true
    }

    open spec fn bitor_spec(self, rhs: Value) -> Value {
        arbitrary()
    }
}

impl core::ops::BitXor for Value {
    type Output = Value;

    fn bitxor(self, rhs: Value) -> (res: Value)
        ensures
            res@ == spec_xor(self@, rhs@),
    {
        ops::bit_xor(&self.as_slice(), &rhs.as_slice())
    }
}

impl vstd::std_specs::ops::BitXorSpecImpl for Value {
    open spec fn obeys_bitxor_spec() -> bool {
        false
    }

    open spec fn bitxor_req(self, rhs: Value) -> bool {
        true
    }

    open spec fn bitxor_spec(self, rhs: Value) -> Value {
        arbitrary()
    }
}

impl core::ops::Shl<usize> for Value {
    type Output = Value;

    fn shl(self, rhs: usize) -> (res: Value)
        ensures
            res@ == spec_shl(self@, rhs as nat),
    {
        ops::shl(&self.as_slice(), rhs)
    }
}

impl vstd::std_specs::ops::ShlSpecImpl<usize> for Value {
    open spec fn obeys_shl_spec() -> bool {
        false
    }

    open spec fn shl_req(self, rhs: usize) -> bool {
        self@.len() > 0
    }

    open spec fn shl_spec(self, rhs: usize) -> Value {
        arbitrary()
    }
}

impl core::ops::Shr<usize> for Value {
    type Output = Value;

    fn shr(self, rhs: usize) -> (res: Value)
        ensures
            res@ == spec_shr(self@, rhs as nat),
    {
        ops::shr(&self.as_slice(), rhs)
    }
}

impl vstd::std_specs::ops::ShrSpecImpl<usize> for Value {
    open spec fn obeys_shr_spec() -> bool {
        false
    }

    open spec fn shr_req(self, rhs: usize) -> bool {
        self@.len() > 0
    }

    open spec fn shr_spec(self, rhs: usize) -> Value {
        arbitrary()
    }
}

impl core::ops::Neg for Value {
    type Output = Value;

    fn neg(self) -> (res: Value)
        ensures
            res@ == spec_neg(self@),
    {
        ops::neg(&self.as_slice())
    }
}

impl vstd::std_specs::ops::NegSpecImpl for Value {
    open spec fn obeys_neg_spec() -> bool {
        false
    }

    open spec fn neg_req(self) -> bool {
        true
    }

    open spec fn neg_spec(self) -> Value {
        arbitrary()
    }
}

impl core::ops::Not for Value {
    type Output = Value;

    fn not(self) -> (res: Value)
        ensures
            res@ == spec_not(self@),
    {
        ops::not(&self.as_slice())
    }
}

impl vstd::std_specs::ops::NotSpecImpl for Value {
    open spec fn obeys_not_spec() -> bool {
        false
    }

    open spec fn not_req(self) -> bool {
        true
    }

    open spec fn not_spec(self) -> Value {
        arbitrary()
    }
}

} // verus!

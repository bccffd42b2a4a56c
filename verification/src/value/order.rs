//! Numeric equality and order of values of any widths.

use super::bit::Bit;
use super::math::{
    agree_above, agree_below, bit_at_usize, lemma_first_difference, lemma_val_eq_iff_agree,
    max_len, val,
};
use super::slice::{bit_or_zero, max_usize, ValueSlice};
use super::value::Value;
use std::cmp::Ordering;
use vstd::prelude::*;

verus! {

/// The order of two numbers.
pub open spec fn compare_nat(a: nat, b: nat) -> Ordering {
    if a < b {
        Ordering::Less
    } else if a == b {
        Ordering::Equal
    } else {
        Ordering::Greater
    }
}

/// Whether the operands denote the same number; a wider operand equals a
/// narrower one when its extra high bits are zero.
pub fn eq(lhs: &ValueSlice, rhs: &ValueSlice) -> (res: bool)
    ensures
        res == (val(lhs@) == val(rhs@)),
{
    let len = max_usize(lhs.bits.len(), rhs.bits.len());
    let mut i: usize = 0;
    while i < len
        invariant
            i <= len,
            len == max_len(lhs@.len(), rhs@.len()),
            agree_below(lhs@, rhs@, i),
        decreases len - i,
    {
        if bit_or_zero(lhs.bits, i) != bit_or_zero(rhs.bits, i) {
            proof {
                lemma_val_eq_iff_agree(lhs@, rhs@, len);
            }
            return false;
        }
        i = i + 1;
    }
    proof {
        lemma_val_eq_iff_agree(lhs@, rhs@, len);
    }
    true
}

/// The numeric order of the operands, found at their highest differing bit.
pub fn cmp(lhs: &ValueSlice, rhs: &ValueSlice) -> (res: Ordering)
    requires
        lhs@.len() > 0 || rhs@.len() > 0,
    ensures
        res == compare_nat(val(lhs@), val(rhs@)),
{
    let len = max_usize(lhs.bits.len(), rhs.bits.len());
    let mut idx: usize = len - 1;
    loop
        invariant
            idx < len,
            len == max_len(lhs@.len(), rhs@.len()),
            agree_above(lhs@, rhs@, idx, len),
        decreases idx,
    {
        let l = bit_or_zero(lhs.bits, idx);
        let r = bit_or_zero(rhs.bits, idx);
        if l != r {
            proof {
                lemma_first_difference(lhs@, rhs@, idx, len);
            }
            if l == Bit::Zero {
                return Ordering::Less;
            } else {
                return Ordering::Greater;
            }
        }
        if idx == 0 {
            proof {
                assert(agree_below(lhs@, rhs@, len));
                lemma_val_eq_iff_agree(lhs@, rhs@, len);
            }
            return Ordering::Equal;
        }
        idx = idx - 1;
    }
}

impl PartialEq for Value {
    fn eq(&self, other: &Value) -> (res: bool) {
        self::eq(&self.as_slice(), &other.as_slice())
    }
}

impl vstd::std_specs::cmp::PartialEqSpecImpl for Value {
    open spec fn obeys_eq_spec() -> bool {
        true
    }

    open spec fn eq_spec(&self, other: &Value) -> bool {
        val(self@) == val(other@)
    }
}

impl PartialOrd for Value {
    fn partial_cmp(&self, other: &Value) -> (res: Option<Ordering>) {
        if self.bits.len() == 0 && other.bits.len() == 0 {
            Some(Ordering::Equal)
        } else {
            Some(self::cmp(&self.as_slice(), &other.as_slice()))
        }
    }
}

impl vstd::std_specs::cmp::PartialOrdSpecImpl for Value {
    open spec fn obeys_partial_cmp_spec() -> bool {
        true
    }

    open spec fn partial_cmp_spec(&self, other: &Value) -> Option<Ordering> {
        Some(compare_nat(val(self@), val(other@)))
    }
}

} // verus!

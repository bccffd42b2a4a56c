//! The operations that the processes of the VHDL template list.

use super::ir::{spec_is_clocked, BitRange, Extend, Lvalue, Operation};
use vstd::prelude::*;

verus! {

/// The indices of the operations among the first `n` that are clocked, or
/// that are not, in order.
pub open spec fn op_indices(ops: Seq<Operation>, clocked: bool, n: int) -> Seq<usize>
    decreases n,
{
    if n <= 0 {
        Seq::empty()
    } else if spec_is_clocked(&ops[n - 1]) == clocked {
        op_indices(ops, clocked, n - 1).push((n - 1) as usize)
    } else {
        op_indices(ops, clocked, n - 1)
    }
}

/// The indices of the operations that are clocked (or not), in order.
pub fn operations(ops: &Vec<Operation>, clocked: bool) -> (res: Vec<usize>)
    ensures
        res@ == op_indices(ops@, clocked, ops@.len() as int),
{
    let mut res: Vec<usize> = Vec::new();
    let mut k: usize = 0;
    while k < ops.len()
        invariant
            k <= ops@.len(),
            res@ == op_indices(ops@, clocked, k as int),
        decreases ops@.len() - k,
    {
        if ops[k].is_clocked() == clocked {
            res.push(k);
        }
        k = k + 1;
    }
    res
}

/// The size that an expression is widened to.
pub open spec fn extend_size(e: Extend) -> usize {
    match e {
        Extend::Zero(s) => s,
        Extend::Sign(s) => s,
    }
}

/// The temporary variable that an operation needs: an assignment to
/// concatenated parts keeps its right side in a variable of that size.
pub open spec fn tmp_var(op: Operation) -> Option<BitRange> {
    match op {
        Operation::Assignment(a) => match a.lhs {
            Lvalue::ConcatClocked(_) => Some(
                BitRange::Downto((extend_size(a.rhs.extend_to) - 1) as usize, 0),
            ),
            Lvalue::ConcatUnclocked(_) => Some(
                BitRange::Downto((extend_size(a.rhs.extend_to) - 1) as usize, 0),
            ),
            _ => None,
        },
        _ => None,
    }
}

/// The temporary variables of the first `n` operations that are clocked
/// (or not), with their indices.
pub open spec fn tmp_vars(ops: Seq<Operation>, clocked: bool, n: int) -> Seq<(usize, BitRange)>
    decreases n,
{
    if n <= 0 {
        Seq::empty()
    } else if spec_is_clocked(&ops[n - 1]) == clocked && tmp_var(ops[n - 1]) is Some {
        tmp_vars(ops, clocked, n - 1).push(((n - 1) as usize, tmp_var(ops[n - 1])->0))
    } else {
        tmp_vars(ops, clocked, n - 1)
    }
}

/// Every assignment to concatenated parts widens its right side to at least
/// one bit.
pub open spec fn tmp_vars_sized(ops: Seq<Operation>) -> bool {
    forall|i: int|
        0 <= i < ops.len() ==> match #[trigger] ops[i] {
            Operation::Assignment(a) => match a.lhs {
                Lvalue::ConcatClocked(_) => extend_size(a.rhs.extend_to) >= 1,
                Lvalue::ConcatUnclocked(_) => extend_size(a.rhs.extend_to) >= 1,
                _ => true,
            },
            _ => true,
        }
}

/// The temporary variables of the operations that are clocked (or not).
pub fn operations_tmp_var(ops: &Vec<Operation>, clocked: bool) -> (res: Vec<(usize, BitRange)>)
    requires
        tmp_vars_sized(ops@),
    ensures
        res@ == tmp_vars(ops@, clocked, ops@.len() as int),
{
    let mut res: Vec<(usize, BitRange)> = Vec::new();
    let mut k: usize = 0;
    while k < ops.len()
        invariant
            k <= ops@.len(),
            tmp_vars_sized(ops@),
            res@ == tmp_vars(ops@, clocked, k as int),
        decreases ops@.len() - k,
    {
        let op = &ops[k];
        if op.is_clocked() == clocked {
            match op {
                Operation::Assignment(assignment) => match assignment.lhs {
                    Lvalue::ConcatClocked(_) | Lvalue::ConcatUnclocked(_) => {
                        assert(extend_size(assignment.rhs.extend_to) >= 1);
                        res.push((k, BitRange::Downto(assignment.rhs.extend_to.size() - 1, 0)));
                    },
                    _ => {},
                },
                _ => {},
            }
        }
        k = k + 1;
    }
    res
}

} // verus!

//! Laws of the VHDL text: every operator has a function of its own, memory
//! accesses wait for the clock, and each kind of signal has a name of its
//! own.

use super::ir::{
    Bus, BusKind, BinaryOperator, Operation, Register, RegisterKind, UnaryOperator, spec_is_clocked,
};
use super::render::{binary_operator_name, unary_operator_name};
use super::render_expr::{bus_text, register_text};
use super::sensitivity::{bus_key, item_key, key_text, register_key, Item};
use super::template::op_indices;
use vstd::prelude::*;

verus! {

/// The binary operator that a VHDL function name stands for, read off its
/// letters: `f_` and the operator's mnemonic.
pub open spec fn binary_operator_of(s: Seq<char>) -> Option<BinaryOperator> {
    if s.len() < 4 || s[0] != 'f' || s[1] != '_' {
        None
    } else if s.len() == 4 {
        if s[2] == 'e' && s[3] == 'q' {
            Some(BinaryOperator::Eq)
        } else if s[2] == 'n' && s[3] == 'e' {
            Some(BinaryOperator::Ne)
        } else if s[2] == 'l' && s[3] == 'e' {
            Some(BinaryOperator::Le)
        } else if s[2] == 'l' && s[3] == 't' {
            Some(BinaryOperator::Lt)
        } else if s[2] == 'g' && s[3] == 'e' {
            Some(BinaryOperator::Ge)
        } else if s[2] == 'g' && s[3] == 't' {
            Some(BinaryOperator::Gt)
        } else if s[2] == 'o' && s[3] == 'r' {
            Some(BinaryOperator::Or)
        } else {
            None
        }
    } else if s.len() == 5 {
        if s[2] == 'a' && s[3] == 'd' && s[4] == 'd' {
            Some(BinaryOperator::Add)
        } else if s[2] == 's' && s[3] == 'u' && s[4] == 'b' {
            Some(BinaryOperator::Sub)
        } else if s[2] == 'a' && s[3] == 'n' && s[4] == 'd' {
            Some(BinaryOperator::And)
        } else if s[2] == 'n' && s[3] == 'o' && s[4] == 'r' {
            Some(BinaryOperator::Nor)
        } else if s[2] == 'x' && s[3] == 'o' && s[4] == 'r' {
            Some(BinaryOperator::Xor)
        } else {
            None
        }
    } else if s.len() == 6 && s[2] == 'n' && s[3] == 'a' && s[4] == 'n' && s[5] == 'd' {
        Some(BinaryOperator::Nand)
    } else {
        None
    }
}

/// The name of each binary operator's function spells that operator: `f_`
/// and its mnemonic (`f_sub` for a subtraction, `f_add` for an addition,
/// ...), and it names no unary operator's function.
pub proof fn law_binary_operator_name_spells_operator(op: BinaryOperator, u: UnaryOperator)
    ensures
        binary_operator_of(binary_operator_name(op)) == Some(op),
        binary_operator_of(unary_operator_name(u)) is None,
{
}

/// The unary operator that a VHDL function name stands for.
pub open spec fn unary_operator_of(s: Seq<char>) -> Option<UnaryOperator> {
    if s.len() != 5 || s[0] != 'f' || s[1] != '_' {
        None
    } else if s[2] == 'n' && s[3] == 'e' && s[4] == 'g' {
        Some(UnaryOperator::Neg)
    } else if s[2] == 'n' && s[3] == 'o' && s[4] == 't' {
        Some(UnaryOperator::Not)
    } else if s[2] == 's' && s[3] == 'x' && s[4] == 't' {
        Some(UnaryOperator::Sxt)
    } else {
        None
    }
}

/// The name of each unary operator's function spells that operator (`f_neg`
/// for a negation, `f_not`, `f_sxt`); a sign is computed as a negation.
pub proof fn law_unary_operator_name_spells_operator(u: UnaryOperator)
    ensures
        unary_operator_of(unary_operator_name(u)) == Some(
            if u is Sign {
                UnaryOperator::Neg
            } else {
                u
            },
        ),
{
}

/// Different binary operators are computed by different VHDL functions.
pub proof fn law_binary_operator_names_distinct(a: BinaryOperator, b: BinaryOperator)
    ensures
        binary_operator_name(a) == binary_operator_name(b) ==> a == b,
{
    law_binary_operator_name_spells_operator(a, UnaryOperator::Not);
    law_binary_operator_name_spells_operator(b, UnaryOperator::Not);
}

/// No binary operator is computed by the function of a unary operator.
pub proof fn law_unary_names_not_binary(a: BinaryOperator, u: UnaryOperator)
    ensures
        binary_operator_name(a) != unary_operator_name(u),
{
    law_binary_operator_name_spells_operator(a, u);
}

/// Different unary operators are computed by different VHDL functions,
/// except the sign, which negates as the negation does.
pub proof fn law_unary_operator_names(a: UnaryOperator, b: UnaryOperator)
    ensures
        unary_operator_name(UnaryOperator::Sign) == unary_operator_name(UnaryOperator::Neg),
        unary_operator_name(a) == unary_operator_name(b) ==> a == b || ((a is Sign || a is Neg) && (
        b is Sign || b is Neg)),
{
    let na = unary_operator_name(a);
    let nb = unary_operator_name(b);
    if na == nb {
        assert(na[2] == nb[2] && na[3] == nb[3]);
    }
}

/// A memory access takes effect at the clock edge, as an assignment to a
/// register does; only what drives a bus does not.
pub proof fn law_memory_access_clocked(op: Operation, reg_assignment: Operation)
    requires
        reg_assignment matches Operation::Assignment(a) && a.lhs is Register,
    ensures
        (op is Write || op is Read) ==> spec_is_clocked(&op),
        (op is Write || op is Read) ==> spec_is_clocked(&op) == spec_is_clocked(&reg_assignment),
        !spec_is_clocked(&op) <==> (op matches Operation::Assignment(a) && (a.lhs is Bus
            || a.lhs is ConcatUnclocked)),
{
}

proof fn lemma_op_indices(ops: Seq<Operation>, clocked: bool, n: int, i: int)
    requires
        0 <= n <= ops.len(),
        ops.len() <= usize::MAX,
    ensures
        0 <= i < n ==> (op_indices(ops, clocked, n).contains(i as usize) <==> spec_is_clocked(
            &ops[i],
        ) == clocked),
        !(0 <= i < n) && 0 <= i <= usize::MAX ==> !op_indices(ops, clocked, n).contains(i as usize),
    decreases n,
{
    if n > 0 {
        lemma_op_indices(ops, clocked, n - 1, i);
        let prev = op_indices(ops, clocked, n - 1);
        if spec_is_clocked(&ops[n - 1]) == clocked {
            let cur = prev.push((n - 1) as usize);
            assert(op_indices(ops, clocked, n) == cur);
            if i != n - 1 && 0 <= i <= usize::MAX {
                if cur.contains(i as usize) {
                    let k = choose|k: int| 0 <= k < cur.len() && #[trigger] cur[k] == i as usize;
                    if k < prev.len() {
                        assert(prev[k] == i as usize);
                    }
                }
                if prev.contains(i as usize) {
                    let k = choose|k: int| 0 <= k < prev.len() && #[trigger] prev[k] == i as usize;
                    assert(cur[k] == i as usize);
                }
            } else if i == n - 1 {
                assert(cur[prev.len() as int] == (n - 1) as usize);
            }
        }
    }
}

/// The clocked and the unclocked process of the template share the
/// operations between them: each operation is listed by exactly one of the
/// two, and every memory access by the clocked one.
pub proof fn law_processes_partition(ops: Seq<Operation>, i: int)
    requires
        ops.len() <= usize::MAX,
        0 <= i < ops.len(),
    ensures
        op_indices(ops, true, ops.len() as int).contains(i as usize) != op_indices(
            ops,
            false,
            ops.len() as int,
        ).contains(i as usize),
        (ops[i] is Write || ops[i] is Read) ==> op_indices(ops, true, ops.len() as int).contains(
            i as usize,
        ),
{
    lemma_op_indices(ops, true, ops.len() as int, i);
    lemma_op_indices(ops, false, ops.len() as int, i);
}

/// The name of an item: the identifier of its signal.
pub open spec fn item_name(i: Item) -> Seq<char> {
    item_key(i).1
}

/// The signal of an item in a sensitivity list is named by its identifier,
/// after a prefix that tells its kind: two items with one identifier get
/// the same signal only if they are of the same kind (both registers, both
/// register arrays, or both buses of the same kind).
pub proof fn law_item_names(a: Item, b: Item)
    ensures
        key_text(item_key(a)).len() >= item_name(a).len(),
        key_text(item_key(a)).subrange(
            key_text(item_key(a)).len() - item_name(a).len(),
            key_text(item_key(a)).len() as int,
        ) == item_name(a),
        item_name(a) == item_name(b) && key_text(item_key(a)) == key_text(item_key(b)) ==> (
        item_key(a).0 == item_key(b).0 && (item_key(a).0 == 1 ==> item_key(a).2 == item_key(b).2)),
{
    let ta = key_text(item_key(a));
    let tb = key_text(item_key(b));
    let n = item_name(a);
    assert(ta.subrange(ta.len() - n.len(), ta.len() as int) =~= n);
    if item_name(a) == item_name(b) && ta == tb {
        assert(ta.len() - n.len() == tb.len() - n.len());
    }
}

/// The signal of each kind of item: `register_`, `bus_`, `input_` or
/// `register_array_` before its identifier.
pub proof fn law_item_prefixes(item: Item)
    ensures
        item matches Item::Register(n, _) ==> key_text(item_key(item)) == "register_"@ + n.0@,
        item matches Item::Bus(n, BusKind::Intern) ==> key_text(item_key(item)) == "bus_"@ + n.0@,
        item matches Item::Bus(n, BusKind::Input) ==> key_text(item_key(item)) == "input_"@ + n.0@,
        item matches Item::RegisterArray(n) ==> key_text(item_key(item)) == "register_array_"@
            + n.0@,
{
    reveal_strlit("register_");
    reveal_strlit("bus_");
    reveal_strlit("input_");
    reveal_strlit("register_array_");
}

/// A sensitivity list names a bus, and an internal register, by the signal
/// that an expression reading all of it uses.
pub proof fn law_item_names_match_expressions(r: Register, b: Bus)
    requires
        r.range is None,
        r.kind == RegisterKind::Intern,
        b.range is None,
    ensures
        key_text(register_key(r)) == register_text(r),
        key_text(bus_key(b)) == bus_text(b),
{
    reveal_strlit("register");
    reveal_strlit("bus");
    reveal_strlit("input");
    assert(key_text(register_key(r)) =~= register_text(r));
    match b.kind {
        BusKind::Intern => {
            assert(key_text(bus_key(b)) =~= bus_text(b));
        },
        BusKind::Input => {
            assert(key_text(bus_key(b)) =~= bus_text(b));
        },
    }
}

} // verus!

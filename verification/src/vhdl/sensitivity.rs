//! Sensitivity lists: the signals that a process reads, each once, in the
//! order in which they are first read.

use super::ir::{
    Atom, Bus, BusKind, ConcatPartExpr, Expression, ExpressionKind, Ident, Lvalue, Operation,
    Register, RegisterArray, RegisterKind,
};
use crate::pretty_error::lines::join;
use crate::text::chars::{lemma_assoc, push_str, str_eq, string_from_chars};
use vstd::prelude::*;

verus! {

/// A signal that an expression reads.
#[derive(Debug, Clone, Copy)]
pub enum Item<'s> {
    Register(Ident<'s>, RegisterKind),
    Bus(Ident<'s>, BusKind),
    RegisterArray(Ident<'s>),
}

/// What tells two items apart: the variant, the name and the kind.
pub type ItemKey = (int, Seq<char>, int);

pub open spec fn register_kind_num(k: RegisterKind) -> int {
    match k {
        RegisterKind::Intern => 0,
        RegisterKind::Output => 1,
    }
}

pub open spec fn bus_kind_num(k: BusKind) -> int {
    match k {
        BusKind::Intern => 0,
        BusKind::Input => 1,
    }
}

/// The key of an item.
pub open spec fn item_key(i: Item) -> ItemKey {
    match i {
        Item::Register(n, k) => (0, n.0@, register_kind_num(k)),
        Item::Bus(n, k) => (1, n.0@, bus_kind_num(k)),
        Item::RegisterArray(n) => (2, n.0@, 0),
    }
}

pub open spec fn register_key(r: Register) -> ItemKey {
    (0, r.ident.0@, register_kind_num(r.kind))
}

pub open spec fn bus_key(b: Bus) -> ItemKey {
    (1, b.ident.0@, bus_kind_num(b.kind))
}

pub open spec fn register_array_key(a: RegisterArray) -> ItemKey {
    (2, a.ident.0@, 0)
}

/// The signals that a part of a concatenation reads.
pub open spec fn part_keys(p: ConcatPartExpr) -> Seq<ItemKey> {
    match p {
        ConcatPartExpr::Register(r) => seq![register_key(r)],
        ConcatPartExpr::Bus(b) => seq![bus_key(b)],
        ConcatPartExpr::RegisterArray(a) => seq![register_array_key(a)],
        ConcatPartExpr::Number(_) => Seq::empty(),
    }
}

/// The signals that the parts read, in order.
pub open spec fn parts_keys(ps: Seq<ConcatPartExpr>) -> Seq<ItemKey>
    decreases ps.len(),
{
    if ps.len() == 0 {
        Seq::empty()
    } else {
        parts_keys(ps.drop_last()) + part_keys(ps.last())
    }
}

/// The signals that an expression reads, left to right, with repetitions.
/// The index of a register array is not looked into.
pub open spec fn expr_keys(e: Expression) -> Seq<ItemKey>
    decreases e,
{
    match e.kind {
        ExpressionKind::Atom(Atom::Concat(c)) => parts_keys(c.parts@),
        ExpressionKind::Atom(Atom::Register(r)) => seq![register_key(r)],
        ExpressionKind::Atom(Atom::Bus(b)) => seq![bus_key(b)],
        ExpressionKind::Atom(Atom::RegisterArray(a)) => seq![register_array_key(a)],
        ExpressionKind::Atom(Atom::Number(_)) => Seq::empty(),
        ExpressionKind::BinaryTerm(t) => expr_keys(t.lhs) + expr_keys(t.rhs),
        ExpressionKind::UnaryTerm(t) => expr_keys(t.expression),
    }
}

/// `s` without the elements that occurred before.
pub open spec fn dedup<A>(s: Seq<A>) -> Seq<A>
    decreases s.len(),
{
    if s.len() == 0 {
        Seq::empty()
    } else if s.drop_last().contains(s.last()) {
        dedup(s.drop_last())
    } else {
        dedup(s.drop_last()).push(s.last())
    }
}

/// Removing repetitions keeps exactly the elements that occur.
pub proof fn lemma_dedup_contains<A>(s: Seq<A>, x: A)
    ensures
        dedup(s).contains(x) == s.contains(x),
    decreases s.len(),
{
    if s.len() > 0 {
        lemma_dedup_contains(s.drop_last(), x);
        lemma_dedup_contains(s.drop_last(), s.last());
        if s.contains(x) && !s.drop_last().contains(x) {
            assert(x == s.last()) by {
                let j = choose|j: int| 0 <= j < s.len() && s[j] == x;
                if j < s.len() - 1 {
                    assert(s.drop_last()[j] == x);
                }
            }
        }
        if s.drop_last().contains(x) {
            let j = choose|j: int| 0 <= j < s.drop_last().len() && s.drop_last()[j] == x;
            assert(s[j] == x);
        }
        if !s.drop_last().contains(s.last()) {
            if dedup(s).contains(x) {
                let j = choose|j: int| 0 <= j < dedup(s).len() && dedup(s)[j] == x;
                if j < dedup(s).len() - 1 {
                    assert(dedup(s.drop_last())[j] == x);
                }
            }
            if dedup(s.drop_last()).contains(x) {
                let j = choose|j: int|
                    0 <= j < dedup(s.drop_last()).len() && dedup(s.drop_last())[j] == x;
                assert(dedup(s)[j] == x);
            }
            assert(dedup(s)[dedup(s).len() - 1] == s.last());
        }
    }
}

/// Removing repetitions leaves no element twice.
pub proof fn law_dedup_distinct<A>(s: Seq<A>)
    ensures
        forall|i: int, j: int| 0 <= i < j < dedup(s).len() ==> dedup(s)[i] != dedup(s)[j],
    decreases s.len(),
{
    if s.len() > 0 {
        law_dedup_distinct(s.drop_last());
        lemma_dedup_contains(s.drop_last(), s.last());
        let d = dedup(s.drop_last());
        if !s.drop_last().contains(s.last()) {
            assert forall|i: int, j: int| 0 <= i < j < dedup(s).len() implies dedup(s)[i] != dedup(
                s,
            )[j] by {
                if j == dedup(s).len() - 1 {
                    assert(dedup(s)[i] == d[i]);
                    if d[i] == s.last() {
                        assert(d.contains(s.last()));
                    }
                } else {
                    assert(dedup(s)[i] == d[i]);
                    assert(dedup(s)[j] == d[j]);
                }
            }
        }
    }
}

fn same_item(a: &Item, b: &Item) -> (res: bool)
    ensures
        res == (item_key(*a) == item_key(*b)),
{
    match (a, b) {
        (Item::Register(n1, k1), Item::Register(n2, k2)) => *k1 == *k2 && str_eq(n1.0, n2.0),
        (Item::Bus(n1, k1), Item::Bus(n2, k2)) => *k1 == *k2 && str_eq(n1.0, n2.0),
        (Item::RegisterArray(n1), Item::RegisterArray(n2)) => str_eq(n1.0, n2.0),
        _ => false,
    }
}

/// The keys of the items.
pub open spec fn keys_of(items: Seq<Item>) -> Seq<ItemKey> {
    Seq::new(items.len(), |i: int| item_key(items[i]))
}

/// Adds `item` unless an item with its key is there.
fn insert_item<'s>(items: &mut Vec<Item<'s>>, item: Item<'s>, Ghost(seen): Ghost<Seq<ItemKey>>)
    requires
        keys_of(old(items)@) == dedup(seen),
    ensures
        keys_of(final(items)@) == dedup(seen.push(item_key(item))),
{
    let mut i: usize = 0;
    while i < items.len()
        invariant
            i <= items@.len(),
            keys_of(items@) == dedup(seen),
            forall|k: int| 0 <= k < i ==> item_key(#[trigger] items@[k]) != item_key(item),
        decreases items@.len() - i,
    {
        if same_item(&items[i], &item) {
            proof {
                assert(keys_of(items@)[i as int] == item_key(item));
                assert(dedup(seen)[i as int] == item_key(item));
                assert(dedup(seen).contains(item_key(item)));
                lemma_dedup_contains(seen, item_key(item));
                let s2 = seen.push(item_key(item));
                assert(s2.drop_last() =~= seen);
                assert(s2.last() == item_key(item));
                assert(dedup(s2) == dedup(seen));
            }
            return;
        }
        i = i + 1;
    }
    proof {
        if dedup(seen).contains(item_key(item)) {
            let j = choose|j: int| 0 <= j < dedup(seen).len() && dedup(seen)[j] == item_key(item);
            assert(keys_of(items@)[j] == item_key(items@[j]));
        }
        lemma_dedup_contains(seen, item_key(item));
        assert(seen.push(item_key(item)).drop_last() =~= seen);
    }
    let ghost before = items@;
    items.push(item);
    assert(keys_of(items@) =~= keys_of(before).push(item_key(item)));
}

/// Adds the signals that `expr` reads.
fn insert_expression<'s>(
    expr: &Expression<'s>,
    items: &mut Vec<Item<'s>>,
    Ghost(seen): Ghost<Seq<ItemKey>>,
)
    requires
        keys_of(old(items)@) == dedup(seen),
    ensures
        keys_of(final(items)@) == dedup(seen + expr_keys(*expr)),
    decreases expr,
{
    match &expr.kind {
        ExpressionKind::Atom(Atom::Concat(concat)) => {
            let ghost mut now = seen;
            let mut j: usize = 0;
            assert(concat.parts@.take(0) =~= Seq::<ConcatPartExpr>::empty());
            assert(seen + parts_keys(concat.parts@.take(0)) =~= seen);
            while j < concat.parts.len()
                invariant
                    j <= concat.parts@.len(),
                    now == seen + parts_keys(concat.parts@.take(j as int)),
                    keys_of(items@) == dedup(now),
                decreases concat.parts@.len() - j,
            {
                let ghost pk = part_keys(concat.parts@[j as int]);
                match &concat.parts[j] {
                    ConcatPartExpr::Register(reg) => {
                        insert_item(items, Item::Register(reg.ident, reg.kind), Ghost(now));
                    },
                    ConcatPartExpr::Bus(bus) => {
                        insert_item(items, Item::Bus(bus.ident, bus.kind), Ghost(now));
                    },
                    ConcatPartExpr::RegisterArray(a) => {
                        insert_item(items, Item::RegisterArray(a.ident), Ghost(now));
                    },
                    ConcatPartExpr::Number(_) => {
                        assert(now + pk =~= now);
                    },
                }
                proof {
                    assert(concat.parts@.take(j + 1).drop_last() =~= concat.parts@.take(j as int));
                    assert(now + pk =~= seen + parts_keys(concat.parts@.take(j + 1)));
                    if pk.len() == 1 {
                        assert(now.push(pk[0]) =~= now + pk);
                    }
                    now = now + pk;
                }
                j = j + 1;
            }
            assert(concat.parts@.take(concat.parts@.len() as int) =~= concat.parts@);
        },
        ExpressionKind::Atom(Atom::Register(reg)) => {
            insert_item(items, Item::Register(reg.ident, reg.kind), Ghost(seen));
            assert(seen.push(register_key(*reg)) =~= seen + expr_keys(*expr));
        },
        ExpressionKind::Atom(Atom::Bus(bus)) => {
            insert_item(items, Item::Bus(bus.ident, bus.kind), Ghost(seen));
            assert(seen.push(bus_key(*bus)) =~= seen + expr_keys(*expr));
        },
        ExpressionKind::Atom(Atom::RegisterArray(a)) => {
            insert_item(items, Item::RegisterArray(a.ident), Ghost(seen));
            assert(seen.push(register_array_key(*a)) =~= seen + expr_keys(*expr));
        },
        ExpressionKind::Atom(Atom::Number(_)) => {
            assert(seen + expr_keys(*expr) =~= seen);
        },
        ExpressionKind::BinaryTerm(term) => {
            insert_expression(&term.lhs, items, Ghost(seen));
            insert_expression(&term.rhs, items, Ghost(seen + expr_keys(term.lhs)));
            assert(seen + expr_keys(term.lhs) + expr_keys(term.rhs) =~= seen + expr_keys(*expr));
        },
        ExpressionKind::UnaryTerm(term) => {
            insert_expression(&term.expression, items, Ghost(seen));
        },
    }
}

/// The signals that the expressions read, in order, with repetitions.
pub open spec fn exprs_keys(es: Seq<&Expression>) -> Seq<ItemKey>
    decreases es.len(),
{
    if es.len() == 0 {
        Seq::empty()
    } else {
        exprs_keys(es.drop_last()) + expr_keys(*es.last())
    }
}

/// The signals that the expressions read, each once, in the order in which
/// they are first read.
pub fn build<'s>(expressions: &Vec<&Expression<'s>>) -> (res: Vec<Item<'s>>)
    ensures
        keys_of(res@) == dedup(exprs_keys(expressions@)),
{
    let mut items: Vec<Item<'s>> = Vec::new();
    let mut k: usize = 0;
    assert(keys_of(items@) =~= dedup(Seq::<ItemKey>::empty()));
    assert(expressions@.take(0) =~= Seq::<&Expression>::empty());
    while k < expressions.len()
        invariant
            k <= expressions@.len(),
            keys_of(items@) == dedup(exprs_keys(expressions@.take(k as int))),
        decreases expressions@.len() - k,
    {
        insert_expression(expressions[k], &mut items, Ghost(exprs_keys(expressions@.take(k as int))));
        assert(expressions@.take(k + 1).drop_last() =~= expressions@.take(k as int));
        k = k + 1;
    }
    assert(expressions@.take(expressions@.len() as int) =~= expressions@);
    items
}

/// The VHDL name of the signal of an item.
pub open spec fn key_text(k: ItemKey) -> Seq<char> {
    if k.0 == 0 {
        seq!['r', 'e', 'g', 'i', 's', 't', 'e', 'r', '_'] + k.1
    } else if k.0 == 1 {
        if k.2 == 0 {
            seq!['b', 'u', 's', '_'] + k.1
        } else {
            seq!['i', 'n', 'p', 'u', 't', '_'] + k.1
        }
    } else {
        seq!['r', 'e', 'g', 'i', 's', 't', 'e', 'r', '_', 'a', 'r', 'r', 'a', 'y', '_'] + k.1
    }
}

/// Appends the VHDL name of the signal of an item.
fn push_item(out: &mut Vec<char>, item: &Item)
    ensures
        final(out)@ == old(out)@ + key_text(item_key(*item)),
{
    match item {
        Item::Register(name, _) => {
            proof {
                reveal_strlit("register_");
            }
            push_str(out, "register_");
            push_str(out, name.0);
        },
        Item::Bus(name, kind) => {
            match kind {
                BusKind::Intern => {
                    proof {
                        reveal_strlit("bus_");
                    }
                    push_str(out, "bus_");
                },
                BusKind::Input => {
                    proof {
                        reveal_strlit("input_");
                    }
                    push_str(out, "input_");
                },
            }
            push_str(out, name.0);
        },
        Item::RegisterArray(name) => {
            proof {
                reveal_strlit("register_array_");
            }
            push_str(out, "register_array_");
            push_str(out, name.0);
        },
    }
    proof {
        let ghost k = item_key(*item);
        match item {
            Item::Register(name, _) => lemma_assoc(old(out)@, seq!['r', 'e', 'g', 'i', 's', 't', 'e', 'r', '_'], name.0@),
            Item::Bus(name, BusKind::Intern) => lemma_assoc(old(out)@, seq!['b', 'u', 's', '_'], name.0@),
            Item::Bus(name, BusKind::Input) => lemma_assoc(old(out)@, seq!['i', 'n', 'p', 'u', 't', '_'], name.0@),
            Item::RegisterArray(name) => lemma_assoc(old(out)@, seq!['r', 'e', 'g', 'i', 's', 't', 'e', 'r', '_', 'a', 'r', 'r', 'a', 'y', '_'], name.0@),
        }
    }
}

/// The VHDL name of the signal of an item.
pub fn render_item(item: &Item) -> (res: String)
    ensures
        res@ == key_text(item_key(*item)),
{
    let mut out: Vec<char> = Vec::new();
    push_item(&mut out, item);
    assert(out@ =~= key_text(item_key(*item)));
    string_from_chars(&out)
}

/// The signals that an operation of a bus multiplexer reads: the right side
/// of an assignment that does not wait for the clock.
pub open spec fn op_mux_keys(op: Operation) -> Seq<ItemKey> {
    match op {
        Operation::Assignment(a) => if crate::vhdl::ir::spec_is_clocked(&op) {
            Seq::empty()
        } else {
            expr_keys(a.rhs)
        },
        _ => Seq::empty(),
    }
}

/// The signals that the bus multiplexers read, in order, with repetitions.
pub open spec fn ops_mux_keys(ops: Seq<Operation>) -> Seq<ItemKey>
    decreases ops.len(),
{
    if ops.len() == 0 {
        Seq::empty()
    } else {
        ops_mux_keys(ops.drop_last()) + op_mux_keys(ops.last())
    }
}

/// `", "` and the name of each signal, in order.
pub open spec fn listed(keys: Seq<ItemKey>) -> Seq<char>
    decreases keys.len(),
{
    if keys.len() == 0 {
        Seq::empty()
    } else {
        listed(keys.drop_last()) + seq![',', ' '] + key_text(keys.last())
    }
}

/// Appends `", "` and the name of each item.
fn push_listed(out: &mut Vec<char>, items: &Vec<Item>)
    ensures
        final(out)@ == old(out)@ + listed(keys_of(items@)),
{
    let ghost start = out@;
    let ghost ks = keys_of(items@);
    let mut k: usize = 0;
    assert(ks.take(0) =~= Seq::<ItemKey>::empty());
    while k < items.len()
        invariant
            k <= items@.len(),
            ks == keys_of(items@),
            out@ == start + listed(ks.take(k as int)),
        decreases items@.len() - k,
    {
        out.push(',');
        out.push(' ');
        push_item(out, &items[k]);
        proof {
            assert(ks.take(k + 1).drop_last() =~= ks.take(k as int));
            assert(ks[k as int] == item_key(items@[k as int]));
            assert(out@ =~= start + (listed(ks.take(k as int)) + seq![',', ' '] + key_text(
                ks[k as int],
            )));
        }
        k = k + 1;
    }
    assert(ks.take(items@.len() as int) =~= ks);
}

/// The sensitivity list of the bus multiplexer process: the clock, then
/// every signal that an unclocked assignment reads.
pub fn sensitivity_list_bus_mux(operations: &Vec<Operation>) -> (res: String)
    ensures
        res@ == seq!['(', 'c'] + listed(dedup(ops_mux_keys(operations@))) + seq![')'],
{
    let mut exprs: Vec<&Expression> = Vec::new();
    let mut k: usize = 0;
    assert(operations@.take(0) =~= Seq::<Operation>::empty());
    while k < operations.len()
        invariant
            k <= operations@.len(),
            exprs_keys(exprs@) == ops_mux_keys(operations@.take(k as int)),
        decreases operations@.len() - k,
    {
        let op = &operations[k];
        let ghost before = exprs@;
        match op {
            Operation::Assignment(assignment) => {
                if !op.is_clocked() {
                    exprs.push(&assignment.rhs);
                    assert(exprs@.drop_last() =~= before);
                }
            },
            _ => {},
        }
        proof {
            assert(operations@.take(k + 1).drop_last() =~= operations@.take(k as int));
            if exprs@.len() == before.len() {
                assert(exprs@ =~= before);
                assert(ops_mux_keys(operations@.take(k + 1)) =~= ops_mux_keys(operations@.take(k as int)));
            }
        }
        k = k + 1;
    }
    assert(operations@.take(operations@.len() as int) =~= operations@);
    let items = build(&exprs);
    let mut out: Vec<char> = Vec::new();
    out.push('(');
    out.push('c');
    push_listed(&mut out, &items);
    out.push(')');
    assert(out@ =~= seq!['(', 'c'] + listed(dedup(ops_mux_keys(operations@))) + seq![')']);
    string_from_chars(&out)
}

/// The signals that the criteria read, in order, with repetitions.
pub open spec fn criteria_keys(es: Seq<Expression>) -> Seq<ItemKey>
    decreases es.len(),
{
    if es.len() == 0 {
        Seq::empty()
    } else {
        criteria_keys(es.drop_last()) + expr_keys(es.last())
    }
}

/// The text used when the criteria read no signal.
pub open spec fn no_criteria_text() -> Seq<char> {
    "(c) -- c is used here because vhdl simulators would otherwise get stuck at an empty sensitivity list"@
}

/// The sensitivity list of the process that computes the criteria: the
/// signals that they read, or the clock when there are none.
pub fn sensitivity_list_criteria_gen(criteria: &Vec<Expression>) -> (res: String)
    ensures
        dedup(criteria_keys(criteria@)).len() == 0 ==> res@ == no_criteria_text(),
        dedup(criteria_keys(criteria@)).len() > 0 ==> res@ == seq!['('] + listed(
            dedup(criteria_keys(criteria@)),
        ).skip(2) + seq![')'],
{
    let mut exprs: Vec<&Expression> = Vec::new();
    let mut k: usize = 0;
    assert(criteria@.take(0) =~= Seq::<Expression>::empty());
    while k < criteria.len()
        invariant
            k <= criteria@.len(),
            exprs@.len() == k,
            exprs_keys(exprs@) == criteria_keys(criteria@.take(k as int)),
        decreases criteria@.len() - k,
    {
        let ghost before = exprs@;
        exprs.push(&criteria[k]);
        proof {
            assert(exprs@.drop_last() =~= before);
            assert(criteria@.take(k + 1).drop_last() =~= criteria@.take(k as int));
        }
        k = k + 1;
    }
    assert(criteria@.take(criteria@.len() as int) =~= criteria@);
    let items = build(&exprs);
    if items.len() == 0 {
        proof {
            reveal_strlit("(c) -- c is used here because vhdl simulators would otherwise get stuck at an empty sensitivity list");
        }
        return "(c) -- c is used here because vhdl simulators would otherwise get stuck at an empty sensitivity list".to_owned();
    }
    let mut body: Vec<char> = Vec::new();
    push_listed(&mut body, &items);
    let mut out: Vec<char> = Vec::new();
    out.push('(');
    let mut j: usize = 2;
    proof {
        lemma_listed_len(keys_of(items@));
    }
    while j < body.len()
        invariant
            2 <= j <= body@.len(),
            out@ == seq!['('] + body@.subrange(2, j as int),
        decreases body@.len() - j,
    {
        out.push(body[j]);
        j = j + 1;
        assert(body@.subrange(2, j as int) =~= body@.subrange(2, j - 1).push(body@[j - 1]));
    }
    out.push(')');
    assert(body@.subrange(2, body@.len() as int) =~= body@.skip(2));
    assert(out@ =~= seq!['('] + listed(dedup(criteria_keys(criteria@))).skip(2) + seq![')']);
    string_from_chars(&out)
}

/// A nonempty list starts with a separator.
proof fn lemma_listed_len(keys: Seq<ItemKey>)
    ensures
        keys.len() > 0 ==> listed(keys).len() >= 2,
    decreases keys.len(),
{
    if keys.len() > 1 {
        lemma_listed_len(keys.drop_last());
    }
}

} // verus!

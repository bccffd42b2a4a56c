//! VHDL text for expressions and operations: each expression is widened by
//! `zero_extend` or `sign_extend`, operators are calls of the package's
//! functions, registers and buses are named by their kind.

use super::ir::{
    Atom, Bus, BusKind, ConcatPartExpr, Expression, ExpressionKind, Extend, Lvalue, Number,
    Operation, Register, RegisterKind,
};
use super::render::{
    binary_operator, binary_operator_name, bit_range_text, unary_operator, unary_operator_name,
    RenderBitRange,
};
use crate::pretty_error::lines::join;
use crate::text::chars::{push_dec, push_str, string_from_chars};
use crate::value::format::dec_string;
use crate::value::Bit;
use vstd::prelude::*;

verus! {

/// The bits as a VHDL bit string: most significant first, every bit kept.
pub open spec fn bin_text(bits: Seq<Bit>) -> Seq<char> {
    Seq::new(bits.len(), |i: int| if bits[bits.len() - 1 - i] == Bit::One { '1' } else { '0' })
}

/// The prefix of a register's signal.
pub open spec fn register_prefix(k: RegisterKind) -> Seq<char> {
    match k {
        RegisterKind::Intern => "register"@,
        RegisterKind::Output => "output"@,
    }
}

/// The prefix of a bus's signal.
pub open spec fn bus_prefix(k: BusKind) -> Seq<char> {
    match k {
        BusKind::Intern => "bus"@,
        BusKind::Input => "input"@,
    }
}

/// A register: its signal, then the bits taken.
pub open spec fn register_text(r: Register) -> Seq<char> {
    register_prefix(r.kind) + seq!['_'] + r.ident.0@ + bit_range_text(r.range)
}

/// A bus: its signal, then the bits taken.
pub open spec fn bus_text(b: Bus) -> Seq<char> {
    bus_prefix(b.kind) + seq!['_'] + b.ident.0@ + bit_range_text(b.range)
}

/// A constant: its bits in double quotes.
pub open spec fn number_text(n: Number) -> Seq<char> {
    seq!['"'] + bin_text(n.value@) + seq!['"']
}

/// A part of a concatenation.
pub open spec fn part_text(p: ConcatPartExpr) -> Seq<char> {
    match p {
        ConcatPartExpr::Register(r) => register_text(r),
        ConcatPartExpr::Bus(b) => bus_text(b),
        ConcatPartExpr::RegisterArray(_) => Seq::empty(),
        ConcatPartExpr::Number(n) => number_text(n),
    }
}

/// `" & "`
pub open spec fn concat_sep() -> Seq<char> {
    seq![' ', '&', ' ']
}

/// The parts of a concatenation, joined by `&`, in parentheses.
pub open spec fn concat_text(parts: Seq<ConcatPartExpr>) -> Seq<char> {
    seq!['('] + join(parts.map_values(|p: ConcatPartExpr| part_text(p)), concat_sep()) + seq![')']
}

/// An expression, widened to its size.
pub open spec fn expr_text(e: Expression) -> Seq<char>
    decreases e,
{
    match e.extend_to {
        Extend::Zero(s) => "zero_extend("@ + kind_text(e.kind) + ", "@ + dec_string(s as nat)
            + seq![')'],
        Extend::Sign(s) => "sign_extend("@ + kind_text(e.kind) + ", "@ + dec_string(s as nat)
            + seq![')'],
    }
}

/// An expression before it is widened.
pub open spec fn kind_text(k: ExpressionKind) -> Seq<char>
    decreases k,
{
    match k {
        ExpressionKind::Atom(a) => atom_text(a),
        ExpressionKind::BinaryTerm(t) => binary_operator_name(t.operator) + seq!['('] + expr_text(
            t.lhs,
        ) + ", "@ + expr_text(t.rhs) + seq![')'],
        ExpressionKind::UnaryTerm(t) => unary_operator_name(t.operator) + seq!['('] + expr_text(
            t.expression,
        ) + seq![')'],
    }
}

/// An atom.
pub open spec fn atom_text(a: Atom) -> Seq<char> {
    match a {
        Atom::Concat(c) => concat_text(c.parts@),
        Atom::Register(r) => register_text(r),
        Atom::Bus(b) => bus_text(b),
        Atom::RegisterArray(_) => Seq::empty(),
        Atom::Number(n) => number_text(n),
    }
}

/// The expression can be written: it reads no register array, and every
/// concatenation in it has a part.
pub open spec fn expr_renderable(e: Expression) -> bool
    decreases e,
{
    kind_renderable(e.kind)
}

/// The expression can be written (before it is widened).
pub open spec fn kind_renderable(k: ExpressionKind) -> bool
    decreases k,
{
    match k {
        ExpressionKind::Atom(a) => atom_renderable(a),
        ExpressionKind::BinaryTerm(t) => expr_renderable(t.lhs) && expr_renderable(t.rhs),
        ExpressionKind::UnaryTerm(t) => expr_renderable(t.expression),
    }
}

/// The atom can be written.
pub open spec fn atom_renderable(a: Atom) -> bool {
    match a {
        Atom::Concat(c) => c.parts@.len() > 0 && forall|i: int|
            0 <= i < c.parts@.len() ==> !(#[trigger] c.parts@[i] is RegisterArray),
        Atom::RegisterArray(_) => false,
        _ => true,
    }
}

fn push_register(out: &mut Vec<char>, r: &Register)
    ensures
        final(out)@ == old(out)@ + register_text(*r),
{
    match r.kind {
        RegisterKind::Intern => push_str(out, "register"),
        RegisterKind::Output => push_str(out, "output"),
    }
    out.push('_');
    push_str(out, r.ident.0);
    let range = RenderBitRange(r.range).to_string();
    push_str(out, range.as_str());
    assert(final(out)@ =~= old(out)@ + register_text(*r));
}

fn push_bus(out: &mut Vec<char>, b: &Bus)
    ensures
        final(out)@ == old(out)@ + bus_text(*b),
{
    match b.kind {
        BusKind::Intern => push_str(out, "bus"),
        BusKind::Input => push_str(out, "input"),
    }
    out.push('_');
    push_str(out, b.ident.0);
    let range = RenderBitRange(b.range).to_string();
    push_str(out, range.as_str());
    assert(final(out)@ =~= old(out)@ + bus_text(*b));
}

fn push_number(out: &mut Vec<char>, n: &Number)
    ensures
        final(out)@ == old(out)@ + number_text(*n),
{
    let ghost start = out@;
    let bits = &n.value.bits;
    let len = bits.len();
    out.push('"');
    let mut i: usize = 0;
    while i < len
        invariant
            len == bits@.len(),
            bits@ == n.value@,
            i <= len,
            out@ == start + seq!['"'] + bin_text(bits@).take(i as int),
        decreases len - i,
    {
        let c = if bits[len - 1 - i] == Bit::One {
            '1'
        } else {
            '0'
        };
        out.push(c);
        proof {
            assert(bin_text(bits@).take(i + 1) =~= bin_text(bits@).take(i as int).push(c));
        }
        i = i + 1;
    }
    out.push('"');
    assert(bin_text(bits@).take(len as int) =~= bin_text(bits@));
    assert(out@ =~= start + number_text(*n));
}

fn push_part(out: &mut Vec<char>, p: &ConcatPartExpr)
    requires
        !(*p is RegisterArray),
    ensures
        final(out)@ == old(out)@ + part_text(*p),
{
    match p {
        ConcatPartExpr::Register(r) => push_register(out, r),
        ConcatPartExpr::Bus(b) => push_bus(out, b),
        ConcatPartExpr::Number(n) => push_number(out, n),
        ConcatPartExpr::RegisterArray(_) => {},
    }
}

fn push_concat(out: &mut Vec<char>, parts: &Vec<ConcatPartExpr>)
    requires
        parts@.len() > 0,
        forall|i: int| 0 <= i < parts@.len() ==> !(#[trigger] parts@[i] is RegisterArray),
    ensures
        final(out)@ == old(out)@ + concat_text(parts@),
{
    let ghost texts = parts@.map_values(|p: ConcatPartExpr| part_text(p));
    let ghost start = out@;
    out.push('(');
    let mut i: usize = 0;
    assert(texts.take(0) =~= Seq::<Seq<char>>::empty());
    while i < parts.len()
        invariant
            i <= parts@.len(),
            parts@.len() > 0,
            forall|j: int| 0 <= j < parts@.len() ==> !(#[trigger] parts@[j] is RegisterArray),
            texts == parts@.map_values(|p: ConcatPartExpr| part_text(p)),
            out@ == start + seq!['('] + join(texts.take(i as int), concat_sep()),
        decreases parts@.len() - i,
    {
        let ghost before = out@;
        if i > 0 {
            out.push(' ');
            out.push('&');
            out.push(' ');
        }
        let ghost mid = out@;
        push_part(out, &parts[i]);
        proof {
            assert(texts.take(i + 1).drop_last() =~= texts.take(i as int));
            if i == 0 {
                assert(out@ =~= start + seq!['('] + texts.take(1)[0]);
            } else {
                assert(out@ =~= start + seq!['('] + (join(texts.take(i as int), concat_sep())
                    + concat_sep() + texts[i as int]));
            }
        }
        i = i + 1;
    }
    out.push(')');
    assert(texts.take(texts.len() as int) =~= texts);
    assert(out@ =~= start + concat_text(parts@));
}

fn push_atom(out: &mut Vec<char>, a: &Atom)
    requires
        atom_renderable(*a),
    ensures
        final(out)@ == old(out)@ + atom_text(*a),
{
    match a {
        Atom::Concat(c) => push_concat(out, &c.parts),
        Atom::Register(r) => push_register(out, r),
        Atom::Bus(b) => push_bus(out, b),
        Atom::RegisterArray(_) => {},
        Atom::Number(n) => push_number(out, n),
    }
}

fn push_expr(out: &mut Vec<char>, e: &Expression)
    requires
        expr_renderable(*e),
    ensures
        final(out)@ == old(out)@ + expr_text(*e),
    decreases e,
{
    let ghost start = out@;
    match e.extend_to {
        Extend::Zero(s) => {
            push_str(out, "zero_extend(");
            push_kind(out, &e.kind);
            push_str(out, ", ");
            push_dec(out, s);
            out.push(')');
        },
        Extend::Sign(s) => {
            push_str(out, "sign_extend(");
            push_kind(out, &e.kind);
            push_str(out, ", ");
            push_dec(out, s);
            out.push(')');
        },
    }
    assert(out@ =~= start + expr_text(*e));
}

fn push_kind(out: &mut Vec<char>, k: &ExpressionKind)
    requires
        kind_renderable(*k),
    ensures
        final(out)@ == old(out)@ + kind_text(*k),
    decreases k,
{
    let ghost start = out@;
    match k {
        ExpressionKind::Atom(a) => push_atom(out, a),
        ExpressionKind::BinaryTerm(t) => {
            push_str(out, binary_operator(t.operator));
            out.push('(');
            push_expr(out, &t.lhs);
            push_str(out, ", ");
            push_expr(out, &t.rhs);
            out.push(')');
        },
        ExpressionKind::UnaryTerm(t) => {
            push_str(out, unary_operator(t.operator));
            out.push('(');
            push_expr(out, &t.expression);
            out.push(')');
        },
    }
    assert(out@ =~= start + kind_text(*k));
}

/// An item written as VHDL.
#[derive(Debug)]
pub struct Render<T>(pub T);

impl<'a, 's> Render<&'a Expression<'s>> {
    /// The VHDL text of the expression.
    pub fn to_string(&self) -> (res: String)
        requires
            expr_renderable(*self.0),
        ensures
            res@ == expr_text(*self.0),
    {
        let mut out: Vec<char> = Vec::new();
        push_expr(&mut out, self.0);
        assert(out@ =~= expr_text(*self.0));
        string_from_chars(&out)
    }
}

/// The left side of an assignment.
pub open spec fn lvalue_text(l: Lvalue) -> Seq<char> {
    match l {
        Lvalue::Register(r) => register_text(r),
        Lvalue::Bus(b) => bus_text(b),
        _ => Seq::empty(),
    }
}

/// The operation can be written: an assignment writes a register or a bus
/// and its value can be written.
pub open spec fn operation_renderable(op: Operation) -> bool {
    match op {
        Operation::Assignment(a) => (a.lhs is Register || a.lhs is Bus) && expr_renderable(a.rhs),
        _ => true,
    }
}

/// An operation as a VHDL statement.
pub open spec fn operation_text(op: Operation) -> Seq<char> {
    match op {
        Operation::Write(w) => "VHDL_write "@ + w.memory.0@ + seq![';'],
        Operation::Read(r) => "VHDL_read "@ + r.memory.0@ + seq![';'],
        Operation::Assignment(a) => lvalue_text(a.lhs) + " <= "@ + expr_text(a.rhs) + seq![';'],
    }
}

/// An operation written as a VHDL statement.
#[derive(Debug)]
pub struct RenderOperation<T> {
    pub operation: T,
}

impl<'a, 's> RenderOperation<&'a Operation<'s>> {
    /// The VHDL statement of the operation.
    pub fn to_string(&self) -> (res: String)
        requires
            operation_renderable(*self.operation),
        ensures
            res@ == operation_text(*self.operation),
    {
        let mut out: Vec<char> = Vec::new();
        match self.operation {
            Operation::Write(w) => {
                push_str(&mut out, "VHDL_write ");
                push_str(&mut out, w.memory.0);
                out.push(';');
            },
            Operation::Read(r) => {
                push_str(&mut out, "VHDL_read ");
                push_str(&mut out, r.memory.0);
                out.push(';');
            },
            Operation::Assignment(a) => {
                match &a.lhs {
                    Lvalue::Register(r) => push_register(&mut out, r),
                    Lvalue::Bus(b) => push_bus(&mut out, b),
                    _ => {},
                }
                push_str(&mut out, " <= ");
                push_expr(&mut out, &a.rhs);
                out.push(';');
            },
        }
        assert(out@ =~= operation_text(*self.operation));
        string_from_chars(&out)
    }
}

} // verus!

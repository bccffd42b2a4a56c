//! Expressions and operations as values, and when two of them are the
//! same: a number is viewed as its value and its width, and two
//! expressions or operations are the same when they agree but for the
//! widths of their numbers (the kind of a number, which the source wrote,
//! takes no part either).

use super::ir::{
    Atom, BinaryOperator, BitRange, Bus, BusKind, ConcatPartExpr, ConcatPartLvalueClocked,
    ConcatPartLvalueUnclocked, Expression, ExpressionKind, Extend, Lvalue, Operation, Register,
    RegisterKind, UnaryOperator,
};
use crate::text::chars::str_eq;
use crate::value::math::val;
use crate::value::order::eq;
use crate::value::Value;
use vstd::prelude::*;

verus! {

/// A register: its name, range and kind.
pub struct RegView {
    pub ident: Seq<char>,
    pub range: Option<BitRange>,
    pub kind: RegisterKind,
}

/// A bus: its name, range and kind.
pub struct BusView {
    pub ident: Seq<char>,
    pub range: Option<BitRange>,
    pub kind: BusKind,
}

/// An expression together with the way it is widened.
pub enum ExprView {
    Concat(Seq<PartView>, Extend),
    Register(RegView, Extend),
    Bus(BusView, Extend),
    RegisterArray(Seq<char>, Box<ExprView>, Extend),
    Number(nat, nat, Extend),
    Binary(Box<ExprView>, Box<ExprView>, BinaryOperator, Extend),
    Unary(Box<ExprView>, UnaryOperator, Extend),
}

/// A part of a concatenation that is read.
pub enum PartView {
    Register(RegView),
    Bus(BusView),
    RegisterArray(Seq<char>, Box<ExprView>),
    Number(nat, nat),
}

/// A clocked part of a concatenation that is assigned to.
pub enum ClockedView {
    Register(RegView, usize),
    RegisterArray(Seq<char>, Box<ExprView>, usize),
}

/// What an assignment writes to.
pub enum LvalueView {
    Register(RegView),
    Bus(BusView),
    RegisterArray(Seq<char>, Box<ExprView>),
    ConcatClocked(Seq<ClockedView>),
    ConcatUnclocked(Seq<(BusView, usize)>),
}

/// An operation.
pub enum OpView {
    Write(Seq<char>, RegView, RegView),
    Read(Seq<char>, RegView, RegView),
    Assignment(LvalueView, ExprView),
}

pub open spec fn reg_view(r: Register) -> RegView {
    RegView { ident: r.ident.0@, range: r.range, kind: r.kind }
}

pub open spec fn bus_view(b: Bus) -> BusView {
    BusView { ident: b.ident.0@, range: b.range, kind: b.kind }
}

/// The view of an atom widened by `ext`.
pub open spec fn atom_view(a: Atom, ext: Extend) -> ExprView
    decreases a,
{
    match a {
        Atom::Concat(c) => ExprView::Concat(parts_view(c.parts@), ext),
        Atom::Register(r) => ExprView::Register(reg_view(r), ext),
        Atom::Bus(b) => ExprView::Bus(bus_view(b), ext),
        Atom::RegisterArray(ra) => ExprView::RegisterArray(
            ra.ident.0@,
            Box::new(expr_view(*ra.index)),
            ext,
        ),
        Atom::Number(n) => ExprView::Number(val(n.value@), n.value@.len(), ext),
    }
}

/// The view of an expression.
pub open spec fn expr_view(e: Expression) -> ExprView
    decreases e,
{
    match e.kind {
        ExpressionKind::Atom(a) => atom_view(a, e.extend_to),
        ExpressionKind::BinaryTerm(t) => ExprView::Binary(
            Box::new(expr_view(t.lhs)),
            Box::new(expr_view(t.rhs)),
            t.operator,
            e.extend_to,
        ),
        ExpressionKind::UnaryTerm(t) => ExprView::Unary(
            Box::new(expr_view(t.expression)),
            t.operator,
            e.extend_to,
        ),
    }
}

/// The view of a part of a concatenation.
pub open spec fn part_view(p: ConcatPartExpr) -> PartView
    decreases p,
{
    match p {
        ConcatPartExpr::Register(r) => PartView::Register(reg_view(r)),
        ConcatPartExpr::Bus(b) => PartView::Bus(bus_view(b)),
        ConcatPartExpr::RegisterArray(a) => PartView::RegisterArray(
            a.ident.0@,
            Box::new(expr_view(*a.index)),
        ),
        ConcatPartExpr::Number(n) => PartView::Number(val(n.value@), n.value@.len()),
    }
}

/// The views of the parts, in order.
pub open spec fn parts_view(ps: Seq<ConcatPartExpr>) -> Seq<PartView>
    decreases ps,
{
    if ps.len() == 0 {
        Seq::empty()
    } else {
        parts_view(ps.subrange(0, ps.len() - 1)).push(part_view(ps[ps.len() - 1]))
    }
}

pub proof fn lemma_parts_view(ps: Seq<ConcatPartExpr>)
    ensures
        parts_view(ps).len() == ps.len(),
        forall|i: int| 0 <= i < ps.len() ==> #[trigger] parts_view(ps)[i] == part_view(ps[i]),
    decreases ps.len(),
{
    if ps.len() > 0 {
        let p = ps.subrange(0, ps.len() - 1);
        lemma_parts_view(p);
        assert forall|i: int| 0 <= i < ps.len() implies #[trigger] parts_view(ps)[i] == part_view(
            ps[i],
        ) by {
            if i < ps.len() - 1 {
                assert(p[i] == ps[i]);
            }
        }
    }
}

pub open spec fn clocked_view(p: ConcatPartLvalueClocked) -> ClockedView {
    match p {
        ConcatPartLvalueClocked::Register(r, s) => ClockedView::Register(reg_view(r), s),
        ConcatPartLvalueClocked::RegisterArray(a, s) => ClockedView::RegisterArray(
            a.ident.0@,
            Box::new(expr_view(*a.index)),
            s,
        ),
    }
}

pub open spec fn unclocked_view(p: ConcatPartLvalueUnclocked) -> (BusView, usize) {
    match p {
        ConcatPartLvalueUnclocked::Bus(b, s) => (bus_view(b), s),
    }
}

/// The view of what an assignment writes to.
pub open spec fn lvalue_view(l: Lvalue) -> LvalueView {
    match l {
        Lvalue::Register(r) => LvalueView::Register(reg_view(r)),
        Lvalue::Bus(b) => LvalueView::Bus(bus_view(b)),
        Lvalue::RegisterArray(a) => LvalueView::RegisterArray(
            a.ident.0@,
            Box::new(expr_view(*a.index)),
        ),
        Lvalue::ConcatClocked(c) => LvalueView::ConcatClocked(
            Seq::new(c.parts@.len(), |i: int| clocked_view(c.parts@[i])),
        ),
        Lvalue::ConcatUnclocked(c) => LvalueView::ConcatUnclocked(
            Seq::new(c.parts@.len(), |i: int| unclocked_view(c.parts@[i])),
        ),
    }
}

/// The view of an operation.
pub open spec fn op_view(op: Operation) -> OpView {
    match op {
        Operation::Write(w) => OpView::Write(w.memory.0@, reg_view(w.ar), reg_view(w.dr)),
        Operation::Read(r) => OpView::Read(r.memory.0@, reg_view(r.ar), reg_view(r.dr)),
        Operation::Assignment(a) => OpView::Assignment(lvalue_view(a.lhs), expr_view(a.rhs)),
    }
}

/// The view with the widths of its numbers forgotten: what decides
/// whether two expressions are the same.
pub open spec fn expr_key(v: ExprView) -> ExprView
    decreases v,
{
    match v {
        ExprView::Concat(ps, e) => ExprView::Concat(parts_key(ps), e),
        ExprView::RegisterArray(i, b, e) => ExprView::RegisterArray(i, Box::new(expr_key(*b)), e),
        ExprView::Number(x, _, e) => ExprView::Number(x, 0, e),
        ExprView::Binary(l, r, op, e) => ExprView::Binary(
            Box::new(expr_key(*l)),
            Box::new(expr_key(*r)),
            op,
            e,
        ),
        ExprView::Unary(x, op, e) => ExprView::Unary(Box::new(expr_key(*x)), op, e),
        _ => v,
    }
}

/// The part with the width of its number forgotten.
pub open spec fn part_key(p: PartView) -> PartView
    decreases p,
{
    match p {
        PartView::RegisterArray(i, b) => PartView::RegisterArray(i, Box::new(expr_key(*b))),
        PartView::Number(x, _) => PartView::Number(x, 0),
        _ => p,
    }
}

/// The parts with the widths of their numbers forgotten.
pub open spec fn parts_key(ps: Seq<PartView>) -> Seq<PartView>
    decreases ps,
{
    if ps.len() == 0 {
        Seq::empty()
    } else {
        parts_key(ps.subrange(0, ps.len() - 1)).push(part_key(ps[ps.len() - 1]))
    }
}

pub proof fn lemma_parts_key(ps: Seq<PartView>)
    ensures
        parts_key(ps).len() == ps.len(),
        forall|i: int| 0 <= i < ps.len() ==> #[trigger] parts_key(ps)[i] == part_key(ps[i]),
    decreases ps.len(),
{
    if ps.len() > 0 {
        let p = ps.subrange(0, ps.len() - 1);
        lemma_parts_key(p);
        assert forall|i: int| 0 <= i < ps.len() implies #[trigger] parts_key(ps)[i] == part_key(
            ps[i],
        ) by {
            if i < ps.len() - 1 {
                assert(p[i] == ps[i]);
            }
        }
    }
}

pub open spec fn clocked_key(p: ClockedView) -> ClockedView {
    match p {
        ClockedView::RegisterArray(i, b, s) => ClockedView::RegisterArray(i, Box::new(expr_key(*b)), s),
        _ => p,
    }
}

/// The target with the widths of its numbers forgotten.
pub open spec fn lvalue_key(l: LvalueView) -> LvalueView {
    match l {
        LvalueView::RegisterArray(i, b) => LvalueView::RegisterArray(i, Box::new(expr_key(*b))),
        LvalueView::ConcatClocked(ps) => LvalueView::ConcatClocked(
            Seq::new(ps.len(), |k: int| clocked_key(ps[k])),
        ),
        _ => l,
    }
}

/// The operation with the widths of its numbers forgotten: what decides
/// whether two operations are the same.
pub open spec fn op_key(o: OpView) -> OpView {
    match o {
        OpView::Assignment(l, e) => OpView::Assignment(lvalue_key(l), expr_key(e)),
        _ => o,
    }
}

fn same_range(a: Option<BitRange>, b: Option<BitRange>) -> (res: bool)
    ensures
        res == (a == b),
{
    match (a, b) {
        (None, None) => true,
        (Some(x), Some(y)) => x == y,
        _ => false,
    }
}

/// Whether two registers are the same.
pub fn same_register(a: &Register, b: &Register) -> (res: bool)
    ensures
        res == (reg_view(*a) == reg_view(*b)),
{
    str_eq(a.ident.0, b.ident.0) && same_range(a.range, b.range) && a.kind == b.kind
}

/// Whether two buses are the same.
pub fn same_bus(a: &Bus, b: &Bus) -> (res: bool)
    ensures
        res == (bus_view(*a) == bus_view(*b)),
{
    str_eq(a.ident.0, b.ident.0) && same_range(a.range, b.range) && a.kind == b.kind
}

/// Whether two values denote the same number.
fn same_number(a: &Value, b: &Value) -> (res: bool)
    ensures
        res == (val(a@) == val(b@)),
{
    eq(&a.as_slice(), &b.as_slice())
}

/// How the viewed expression is widened.
pub open spec fn view_extend(v: ExprView) -> Extend {
    match v {
        ExprView::Concat(_, e) => e,
        ExprView::Register(_, e) => e,
        ExprView::Bus(_, e) => e,
        ExprView::RegisterArray(_, _, e) => e,
        ExprView::Number(_, _, e) => e,
        ExprView::Binary(_, _, _, e) => e,
        ExprView::Unary(_, _, e) => e,
    }
}

proof fn lemma_view_extend(e: Expression)
    ensures
        view_extend(expr_view(e)) == e.extend_to,
{
    match e.kind {
        ExpressionKind::Atom(a) => match a {
            Atom::Concat(_) => {
                assert(expr_view(e) == atom_view(a, e.extend_to));
            },
            Atom::Register(_) => {
                assert(expr_view(e) == atom_view(a, e.extend_to));
            },
            Atom::Bus(_) => {
                assert(expr_view(e) == atom_view(a, e.extend_to));
            },
            Atom::RegisterArray(_) => {
                assert(expr_view(e) == atom_view(a, e.extend_to));
            },
            Atom::Number(_) => {
                assert(expr_view(e) == atom_view(a, e.extend_to));
            },
        },
        _ => {},
    }
}

/// Whether two atoms, widened alike, are the same.
pub fn same_atom(a: &Atom, b: &Atom, ext: Extend) -> (res: bool)
    ensures
        res == (expr_key(atom_view(*a, ext)) == expr_key(atom_view(*b, ext))),
    decreases a,
{
    match (a, b) {
        (Atom::Concat(x), Atom::Concat(y)) => same_parts(&x.parts, &y.parts),
        (Atom::Register(x), Atom::Register(y)) => same_register(x, y),
        (Atom::Bus(x), Atom::Bus(y)) => same_bus(x, y),
        (Atom::RegisterArray(x), Atom::RegisterArray(y)) => {
            str_eq(x.ident.0, y.ident.0) && same_expr(&x.index, &y.index)
        },
        (Atom::Number(x), Atom::Number(y)) => same_number(&x.value, &y.value),
        _ => false,
    }
}

/// Whether two expressions are the same.
pub fn same_expr(a: &Expression, b: &Expression) -> (res: bool)
    ensures
        res == (expr_key(expr_view(*a)) == expr_key(expr_view(*b))),
    decreases a,
{
    if a.extend_to != b.extend_to {
        proof {
            lemma_view_extend(*a);
            lemma_view_extend(*b);
        }
        return false;
    }
    match (&a.kind, &b.kind) {
        (ExpressionKind::Atom(x), ExpressionKind::Atom(y)) => same_atom(x, y, a.extend_to),
        (ExpressionKind::BinaryTerm(x), ExpressionKind::BinaryTerm(y)) => {
            x.operator == y.operator && same_expr(&x.lhs, &y.lhs) && same_expr(&x.rhs, &y.rhs)
        },
        (ExpressionKind::UnaryTerm(x), ExpressionKind::UnaryTerm(y)) => {
            x.operator == y.operator && same_expr(&x.expression, &y.expression)
        },
        _ => false,
    }
}

/// Whether two parts of concatenations are the same.
pub fn same_part(a: &ConcatPartExpr, b: &ConcatPartExpr) -> (res: bool)
    ensures
        res == (part_key(part_view(*a)) == part_key(part_view(*b))),
    decreases a,
{
    match (a, b) {
        (ConcatPartExpr::Register(x), ConcatPartExpr::Register(y)) => same_register(x, y),
        (ConcatPartExpr::Bus(x), ConcatPartExpr::Bus(y)) => same_bus(x, y),
        (ConcatPartExpr::RegisterArray(x), ConcatPartExpr::RegisterArray(y)) => {
            str_eq(x.ident.0, y.ident.0) && same_expr(&x.index, &y.index)
        },
        (ConcatPartExpr::Number(x), ConcatPartExpr::Number(y)) => same_number(&x.value, &y.value),
        _ => false,
    }
}

/// Whether two sequences of parts are the same.
pub fn same_parts(a: &Vec<ConcatPartExpr>, b: &Vec<ConcatPartExpr>) -> (res: bool)
    ensures
        res == (parts_key(parts_view(a@)) == parts_key(parts_view(b@))),
    decreases a,
{
    let ghost ka = parts_key(parts_view(a@));
    let ghost kb = parts_key(parts_view(b@));
    proof {
        lemma_parts_view(a@);
        lemma_parts_view(b@);
        lemma_parts_key(parts_view(a@));
        lemma_parts_key(parts_view(b@));
    }
    if a.len() != b.len() {
        assert(ka.len() != kb.len());
        return false;
    }
    let mut i: usize = 0;
    while i < a.len()
        invariant
            i <= a@.len(),
            a@.len() == b@.len(),
            ka == parts_key(parts_view(a@)),
            kb == parts_key(parts_view(b@)),
            ka.len() == a@.len(),
            kb.len() == b@.len(),
            forall|j: int| 0 <= j < a@.len() ==> #[trigger] ka[j] == part_key(part_view(a@[j])),
            forall|j: int| 0 <= j < b@.len() ==> #[trigger] kb[j] == part_key(part_view(b@[j])),
            forall|j: int| 0 <= j < i ==> ka[j] == kb[j],
        decreases a@.len() - i,
    {
        proof {
            assert(decreases_to!(*a => a@));
            assert(decreases_to!(a@ => a@[i as int]));
        }
        if !same_part(&a[i], &b[i]) {
            assert(ka[i as int] != kb[i as int]);
            return false;
        }
        i = i + 1;
    }
    assert(ka =~= kb);
    true
}

fn same_clocked(a: &ConcatPartLvalueClocked, b: &ConcatPartLvalueClocked) -> (res: bool)
    ensures
        res == (clocked_key(clocked_view(*a)) == clocked_key(clocked_view(*b))),
{
    match (a, b) {
        (ConcatPartLvalueClocked::Register(x, s), ConcatPartLvalueClocked::Register(y, t)) => {
            *s == *t && same_register(x, y)
        },
        (
            ConcatPartLvalueClocked::RegisterArray(x, s),
            ConcatPartLvalueClocked::RegisterArray(y, t),
        ) => {
            *s == *t && str_eq(x.ident.0, y.ident.0) && same_expr(&x.index, &y.index)
        },
        _ => false,
    }
}

fn same_lvalue(a: &Lvalue, b: &Lvalue) -> (res: bool)
    ensures
        res == (lvalue_key(lvalue_view(*a)) == lvalue_key(lvalue_view(*b))),
{
    match (a, b) {
        (Lvalue::Register(x), Lvalue::Register(y)) => same_register(x, y),
        (Lvalue::Bus(x), Lvalue::Bus(y)) => same_bus(x, y),
        (Lvalue::RegisterArray(x), Lvalue::RegisterArray(y)) => {
            str_eq(x.ident.0, y.ident.0) && same_expr(&x.index, &y.index)
        },
        (Lvalue::ConcatClocked(x), Lvalue::ConcatClocked(y)) => {
            let ghost vx = Seq::new(x.parts@.len(), |i: int| clocked_view(x.parts@[i]));
            let ghost vy = Seq::new(y.parts@.len(), |i: int| clocked_view(y.parts@[i]));
            let ghost kx = Seq::new(vx.len(), |k: int| clocked_key(vx[k]));
            let ghost ky = Seq::new(vy.len(), |k: int| clocked_key(vy[k]));
            assert(lvalue_key(lvalue_view(*a)) == LvalueView::ConcatClocked(kx));
            assert(lvalue_key(lvalue_view(*b)) == LvalueView::ConcatClocked(ky));
            if x.parts.len() != y.parts.len() {
                assert(kx.len() != ky.len());
                return false;
            }
            let mut i: usize = 0;
            while i < x.parts.len()
                invariant
                    i <= x.parts@.len(),
                    x.parts@.len() == y.parts@.len(),
                    vx == Seq::new(x.parts@.len(), |i: int| clocked_view(x.parts@[i])),
                    vy == Seq::new(y.parts@.len(), |i: int| clocked_view(y.parts@[i])),
                    kx == Seq::new(vx.len(), |k: int| clocked_key(vx[k])),
                    ky == Seq::new(vy.len(), |k: int| clocked_key(vy[k])),
                    lvalue_key(lvalue_view(*a)) == LvalueView::ConcatClocked(kx),
                    lvalue_key(lvalue_view(*b)) == LvalueView::ConcatClocked(ky),
                    forall|j: int| 0 <= j < i ==> kx[j] == ky[j],
                decreases x.parts@.len() - i,
            {
                if !same_clocked(&x.parts[i], &y.parts[i]) {
                    assert(kx[i as int] != ky[i as int]);
                    return false;
                }
                i = i + 1;
            }
            assert(kx =~= ky);
            true
        },
        (Lvalue::ConcatUnclocked(x), Lvalue::ConcatUnclocked(y)) => {
            let ghost vx = Seq::new(x.parts@.len(), |i: int| unclocked_view(x.parts@[i]));
            let ghost vy = Seq::new(y.parts@.len(), |i: int| unclocked_view(y.parts@[i]));
            assert(lvalue_key(lvalue_view(*a)) == LvalueView::ConcatUnclocked(vx));
            assert(lvalue_key(lvalue_view(*b)) == LvalueView::ConcatUnclocked(vy));
            if x.parts.len() != y.parts.len() {
                assert(vx.len() != vy.len());
                return false;
            }
            let mut i: usize = 0;
            while i < x.parts.len()
                invariant
                    i <= x.parts@.len(),
                    x.parts@.len() == y.parts@.len(),
                    vx == Seq::new(x.parts@.len(), |i: int| unclocked_view(x.parts@[i])),
                    vy == Seq::new(y.parts@.len(), |i: int| unclocked_view(y.parts@[i])),
                    lvalue_key(lvalue_view(*a)) == LvalueView::ConcatUnclocked(vx),
                    lvalue_key(lvalue_view(*b)) == LvalueView::ConcatUnclocked(vy),
                    forall|j: int| 0 <= j < i ==> vx[j] == vy[j],
                decreases x.parts@.len() - i,
            {
                let same = match (&x.parts[i], &y.parts[i]) {
                    (ConcatPartLvalueUnclocked::Bus(p, s), ConcatPartLvalueUnclocked::Bus(q, t)) => {
                        *s == *t && same_bus(p, q)
                    },
                };
                if !same {
                    assert(vx[i as int] != vy[i as int]);
                    return false;
                }
                i = i + 1;
            }
            assert(vx =~= vy);
            true
        },
        _ => false,
    }
}

/// Whether two operations are the same.
pub fn same_op(a: &Operation, b: &Operation) -> (res: bool)
    ensures
        res == (op_key(op_view(*a)) == op_key(op_view(*b))),
{
    match (a, b) {
        (Operation::Write(x), Operation::Write(y)) => {
            str_eq(x.memory.0, y.memory.0) && same_register(&x.ar, &y.ar) && same_register(
                &x.dr,
                &y.dr,
            )
        },
        (Operation::Read(x), Operation::Read(y)) => {
            str_eq(x.memory.0, y.memory.0) && same_register(&x.ar, &y.ar) && same_register(
                &x.dr,
                &y.dr,
            )
        },
        (Operation::Assignment(x), Operation::Assignment(y)) => {
            same_lvalue(&x.lhs, &y.lhs) && same_expr(&x.rhs, &y.rhs)
        },
        _ => false,
    }
}

} // verus!

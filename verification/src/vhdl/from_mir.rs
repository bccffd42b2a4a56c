//! Generating the VHDL representation of a program from the compiler's:
//! the declarations, and the expressions and operations of the steps.

use super::generate::{
    accessed_bit_range, declared_bit_range, spec_accessed_bit_range, spec_declared_bit_range,
    SourceBitRange,
};
use super::ir::{
    Assignment, Atom, BinaryTerm, BitRange, Bus, BusKind, Concat, ConcatPartExpr,
    ConcatPartLvalueClocked, ConcatPartLvalueUnclocked, DebugInfo, Declarations, Expression,
    ExpressionKind, Extend, Ident, Lvalue, Number, Operation, Read, Register, RegisterArray,
    RegisterKind, UnaryOperator, UnaryTerm, Write,
};
use super::mir;
use super::mir::spec_calc;
use super::view::{
    atom_view, bus_view, clocked_view, expr_view, lvalue_view, op_view, part_view, parts_view,
    reg_view, unclocked_view, BusView, ClockedView, ExprView, LvalueView, OpView, PartView, RegView,
};
use crate::value::math::val;
use crate::value::{Bit, Value};
use crate::text::chars::str_eq;
use vstd::prelude::*;

verus! {

/// The first entry named `name`.
pub open spec fn find_named<'s, X, Y>(s: Seq<(Ident<'s>, X, Y)>, name: Seq<char>) -> Option<
    (Ident<'s>, X, Y),
>
    decreases s.len(),
{
    if s.len() == 0 {
        None
    } else if s[0].0.0@ == name {
        Some(s[0])
    } else {
        find_named(s.drop_first(), name)
    }
}

/// The first entry named `name`.
pub fn lookup<'s, X: Copy, Y: Copy>(s: &Vec<(Ident<'s>, X, Y)>, name: &str) -> (res: Option<
    (Ident<'s>, X, Y),
>)
    ensures
        res == find_named(s@, name@),
{
    let mut i: usize = 0;
    assert(s@.subrange(0, s@.len() as int) =~= s@);
    while i < s.len()
        invariant
            i <= s@.len(),
            find_named(s@, name@) == find_named(s@.subrange(i as int, s@.len() as int), name@),
        decreases s@.len() - i,
    {
        let entry = s[i];
        assert(s@.subrange(i as int, s@.len() as int)[0] == entry);
        if str_eq(entry.0.0, name) {
            return Some(entry);
        }
        assert(s@.subrange(i as int, s@.len() as int).drop_first() =~= s@.subrange(
            i + 1,
            s@.len() as int,
        ));
        i = i + 1;
    }
    None
}

/// A declared register with its range.
pub open spec fn register_entry<'s>(it: (Ident<'s>, Option<SourceBitRange>, RegisterKind)) -> (
    Ident<'s>,
    BitRange,
    RegisterKind,
) {
    (it.0, spec_declared_bit_range(it.1), it.2)
}

/// A declared bus with its range.
pub open spec fn bus_entry<'s>(it: (Ident<'s>, Option<SourceBitRange>, BusKind)) -> (
    Ident<'s>,
    BitRange,
    BusKind,
) {
    (it.0, spec_declared_bit_range(it.1), it.2)
}

/// A declared register array with the range of its elements.
pub open spec fn array_entry<'s>(it: (Ident<'s>, Option<SourceBitRange>, usize)) -> (
    Ident<'s>,
    BitRange,
    usize,
) {
    (it.0, spec_declared_bit_range(it.1), it.2)
}

/// A declared memory with the entries of its address and data registers.
pub open spec fn memory_entry<'s>(
    regs: Seq<(Ident<'s>, BitRange, RegisterKind)>,
    it: (Ident<'s>, Ident<'s>, Ident<'s>),
) -> (Ident<'s>, (Ident<'s>, BitRange, RegisterKind), (Ident<'s>, BitRange, RegisterKind)) {
    (it.0, find_named(regs, it.1.0@)->0, find_named(regs, it.2.0@)->0)
}

/// The registers of the declarations, in order.
pub open spec fn register_entries<'s>(ds: Seq<mir::Declaration<'s>>) -> Seq<
    (Ident<'s>, BitRange, RegisterKind),
>
    decreases ds.len(),
{
    if ds.len() == 0 {
        Seq::empty()
    } else {
        register_entries(ds.drop_last()) + match ds.last() {
            mir::Declaration::Register(items) => items@.map_values(
                |it: (Ident<'s>, Option<SourceBitRange>, RegisterKind)| register_entry(it),
            ),
            _ => Seq::empty(),
        }
    }
}

/// The buses of the declarations, in order.
pub open spec fn bus_entries<'s>(ds: Seq<mir::Declaration<'s>>) -> Seq<
    (Ident<'s>, BitRange, BusKind),
>
    decreases ds.len(),
{
    if ds.len() == 0 {
        Seq::empty()
    } else {
        bus_entries(ds.drop_last()) + match ds.last() {
            mir::Declaration::Bus(items) => items@.map_values(
                |it: (Ident<'s>, Option<SourceBitRange>, BusKind)| bus_entry(it),
            ),
            _ => Seq::empty(),
        }
    }
}

/// The register arrays of the declarations, in order.
pub open spec fn array_entries<'s>(ds: Seq<mir::Declaration<'s>>) -> Seq<
    (Ident<'s>, BitRange, usize),
>
    decreases ds.len(),
{
    if ds.len() == 0 {
        Seq::empty()
    } else {
        array_entries(ds.drop_last()) + match ds.last() {
            mir::Declaration::RegisterArray(items) => items@.map_values(
                |it: (Ident<'s>, Option<SourceBitRange>, usize)| array_entry(it),
            ),
            _ => Seq::empty(),
        }
    }
}

/// The memories of the declarations, in order; each finds its registers
/// among those declared before it.
pub open spec fn memory_entries<'s>(ds: Seq<mir::Declaration<'s>>) -> Seq<
    (Ident<'s>, (Ident<'s>, BitRange, RegisterKind), (Ident<'s>, BitRange, RegisterKind)),
>
    decreases ds.len(),
{
    if ds.len() == 0 {
        Seq::empty()
    } else {
        memory_entries(ds.drop_last()) + match ds.last() {
            mir::Declaration::Memory(items) => items@.map_values(
                |it: (Ident<'s>, Ident<'s>, Ident<'s>)|
                    memory_entry(register_entries(ds.drop_last()), it),
            ),
            _ => Seq::empty(),
        }
    }
}

/// Each memory of the declaration names an address and a data register
/// among `regs`.
pub open spec fn memory_decl_resolves<'s>(
    regs: Seq<(Ident<'s>, BitRange, RegisterKind)>,
    d: mir::Declaration<'s>,
) -> bool {
    match d {
        mir::Declaration::Memory(items) => forall|j: int|
            #![trigger items@[j]]
            0 <= j < items@.len() ==> find_named(regs, items@[j].1.0@) is Some && find_named(
                regs,
                items@[j].2.0@,
            ) is Some,
        _ => true,
    }
}

/// Each memory names an address and a data register declared before it.
pub open spec fn memories_resolve<'s>(ds: Seq<mir::Declaration<'s>>) -> bool {
    forall|k: int|
        0 <= k < ds.len() ==> memory_decl_resolves(register_entries(ds.take(k)), #[trigger] ds[k])
}

fn push_registers<'s>(
    out: &mut Vec<(Ident<'s>, BitRange, RegisterKind)>,
    items: &Vec<(Ident<'s>, Option<SourceBitRange>, RegisterKind)>,
)
    ensures
        final(out)@ == old(out)@ + items@.map_values(
            |it: (Ident<'s>, Option<SourceBitRange>, RegisterKind)| register_entry(it),
        ),
{
    let ghost start = out@;
    let mut j: usize = 0;
    while j < items.len()
        invariant
            j <= items@.len(),
            out@ == start + items@.take(j as int).map_values(
                |it: (Ident<'s>, Option<SourceBitRange>, RegisterKind)| register_entry(it),
            ),
        decreases items@.len() - j,
    {
        let it = items[j];
        out.push((it.0, declared_bit_range(it.1), it.2));
        assert(items@.take(j + 1) =~= items@.take(j as int).push(it));
        j = j + 1;
    }
    assert(items@.take(j as int) =~= items@);
}

fn push_buses<'s>(
    out: &mut Vec<(Ident<'s>, BitRange, BusKind)>,
    items: &Vec<(Ident<'s>, Option<SourceBitRange>, BusKind)>,
)
    ensures
        final(out)@ == old(out)@ + items@.map_values(
            |it: (Ident<'s>, Option<SourceBitRange>, BusKind)| bus_entry(it),
        ),
{
    let ghost start = out@;
    let mut j: usize = 0;
    while j < items.len()
        invariant
            j <= items@.len(),
            out@ == start + items@.take(j as int).map_values(
                |it: (Ident<'s>, Option<SourceBitRange>, BusKind)| bus_entry(it),
            ),
        decreases items@.len() - j,
    {
        let it = items[j];
        out.push((it.0, declared_bit_range(it.1), it.2));
        assert(items@.take(j + 1) =~= items@.take(j as int).push(it));
        j = j + 1;
    }
    assert(items@.take(j as int) =~= items@);
}

fn push_arrays<'s>(
    out: &mut Vec<(Ident<'s>, BitRange, usize)>,
    items: &Vec<(Ident<'s>, Option<SourceBitRange>, usize)>,
)
    ensures
        final(out)@ == old(out)@ + items@.map_values(
            |it: (Ident<'s>, Option<SourceBitRange>, usize)| array_entry(it),
        ),
{
    let ghost start = out@;
    let mut j: usize = 0;
    while j < items.len()
        invariant
            j <= items@.len(),
            out@ == start + items@.take(j as int).map_values(
                |it: (Ident<'s>, Option<SourceBitRange>, usize)| array_entry(it),
            ),
        decreases items@.len() - j,
    {
        let it = items[j];
        out.push((it.0, declared_bit_range(it.1), it.2));
        assert(items@.take(j + 1) =~= items@.take(j as int).push(it));
        j = j + 1;
    }
    assert(items@.take(j as int) =~= items@);
}

fn push_memories<'s>(
    out: &mut Vec<(Ident<'s>, (Ident<'s>, BitRange, RegisterKind), (Ident<'s>, BitRange, RegisterKind))>,
    regs: &Vec<(Ident<'s>, BitRange, RegisterKind)>,
    items: &Vec<(Ident<'s>, Ident<'s>, Ident<'s>)>,
)
    requires
        forall|j: int|
            #![trigger items@[j]]
            0 <= j < items@.len() ==> find_named(regs@, items@[j].1.0@) is Some
                && find_named(regs@, items@[j].2.0@) is Some,
    ensures
        final(out)@ == old(out)@ + items@.map_values(
            |it: (Ident<'s>, Ident<'s>, Ident<'s>)| memory_entry(regs@, it),
        ),
{
    let ghost start = out@;
    let mut j: usize = 0;
    while j < items.len()
        invariant
            j <= items@.len(),
            forall|j: int|
                #![trigger items@[j]]
                0 <= j < items@.len() ==> find_named(regs@, items@[j].1.0@) is Some
                    && find_named(regs@, items@[j].2.0@) is Some,
            out@ == start + items@.take(j as int).map_values(
                |it: (Ident<'s>, Ident<'s>, Ident<'s>)| memory_entry(regs@, it),
            ),
        decreases items@.len() - j,
    {
        let it = items[j];
        assert(find_named(regs@, items@[j as int].1.0@) is Some);
        let ar = match lookup(regs, it.1.0) {
            Some(e) => e,
            None => {
                assert(false);
                return;
            },
        };
        let dr = match lookup(regs, it.2.0) {
            Some(e) => e,
            None => {
                assert(false);
                return;
            },
        };
        out.push((it.0, ar, dr));
        assert(items@.take(j + 1) =~= items@.take(j as int).push(it));
        j = j + 1;
    }
    assert(items@.take(j as int) =~= items@);
}

/// The declarations of the program with the ranges of their items; a
/// memory takes the entries of its registers.
pub fn generate_declarations<'s>(mir_declarations: &Vec<mir::Declaration<'s>>) -> (res: Declarations<
    's,
>)
    requires
        memories_resolve(mir_declarations@),
    ensures
        res.registers@ == register_entries(mir_declarations@),
        res.buses@ == bus_entries(mir_declarations@),
        res.register_arrays@ == array_entries(mir_declarations@),
        res.memories@ == memory_entries(mir_declarations@),
        decls_view(res) == spec_declarations(mir_declarations@),
{
    let ghost ds = mir_declarations@;
    let mut declarations = Declarations {
        registers: Vec::new(),
        buses: Vec::new(),
        register_arrays: Vec::new(),
        memories: Vec::new(),
    };
    let mut k: usize = 0;
    while k < mir_declarations.len()
        invariant
            k <= ds.len(),
            ds == mir_declarations@,
            memories_resolve(ds),
            declarations.registers@ == register_entries(ds.take(k as int)),
            declarations.buses@ == bus_entries(ds.take(k as int)),
            declarations.register_arrays@ == array_entries(ds.take(k as int)),
            declarations.memories@ == memory_entries(ds.take(k as int)),
        decreases ds.len() - k,
    {
        let ghost next = ds.take(k + 1);
        assert(next.drop_last() =~= ds.take(k as int));
        assert(next.last() == ds[k as int]);
        match &mir_declarations[k] {
            mir::Declaration::Register(items) => {
                push_registers(&mut declarations.registers, items);
            },
            mir::Declaration::Bus(items) => {
                push_buses(&mut declarations.buses, items);
            },
            mir::Declaration::Memory(items) => {
                assert(memory_decl_resolves(register_entries(ds.take(k as int)), ds[k as int]));
                push_memories(&mut declarations.memories, &declarations.registers, items);
            },
            mir::Declaration::RegisterArray(items) => {
                push_arrays(&mut declarations.register_arrays, items);
            },
        }
        k = k + 1;
    }
    assert(ds.take(k as int) =~= ds);
    declarations
}

/// The declared items as sequences.
pub struct DeclsView<'s> {
    pub registers: Seq<(Ident<'s>, BitRange, RegisterKind)>,
    pub buses: Seq<(Ident<'s>, BitRange, BusKind)>,
    pub register_arrays: Seq<(Ident<'s>, BitRange, usize)>,
    pub memories: Seq<(Ident<'s>, (Ident<'s>, BitRange, RegisterKind), (Ident<'s>, BitRange, RegisterKind))>,
}

pub open spec fn decls_view<'s>(d: Declarations<'s>) -> DeclsView<'s> {
    DeclsView {
        registers: d.registers@,
        buses: d.buses@,
        register_arrays: d.register_arrays@,
        memories: d.memories@,
    }
}

/// The declarations that the compiler's declarations yield.
pub open spec fn spec_declarations<'s>(ds: Seq<mir::Declaration<'s>>) -> DeclsView<'s> {
    DeclsView {
        registers: register_entries(ds),
        buses: bus_entries(ds),
        register_arrays: array_entries(ds),
        memories: memory_entries(ds),
    }
}

/// The register as accessed: its range relative to its declaration.
pub open spec fn gen_register<'s>(r: mir::Register<'s>, d: DeclsView<'s>) -> RegView {
    RegView {
        ident: r.ident.0@,
        range: spec_accessed_bit_range(r.range, (find_named(d.registers, r.ident.0@)->0).1),
        kind: r.kind,
    }
}

/// The bus as accessed: its range relative to its declaration.
pub open spec fn gen_bus<'s>(b: mir::Bus<'s>, d: DeclsView<'s>) -> BusView {
    BusView {
        ident: b.ident.0@,
        range: spec_accessed_bit_range(b.range, (find_named(d.buses, b.ident.0@)->0).1),
        kind: b.kind,
    }
}

/// The generated atom, widened by `ext`.
pub open spec fn gen_atom<'s>(a: mir::Atom<'s>, d: DeclsView<'s>, ext: Extend) -> ExprView
    decreases a,
{
    match a {
        mir::Atom::Concat(ps) => ExprView::Concat(gen_parts(ps@, d), ext),
        mir::Atom::Register(r) => ExprView::Register(gen_register(r, d), ext),
        mir::Atom::Bus(b) => ExprView::Bus(gen_bus(b, d), ext),
        mir::Atom::RegisterArray(ra) => ExprView::RegisterArray(
            ra.ident.0@,
            Box::new(gen_expr(*ra.index, d, ra.index_ctx_size)),
            ext,
        ),
        mir::Atom::Number(n) => ExprView::Number(val(n.value@), n.value@.len(), ext),
    }
}

/// The generated expression in a context of width `ctx`: the operands of a
/// term are evaluated in the width that the term gives them, and every
/// expression is widened to `ctx`, with its sign if it is a sign extension,
/// else with zeros.
pub open spec fn gen_expr<'s>(m: mir::Expression<'s>, d: DeclsView<'s>, ctx: usize) -> ExprView
    decreases m,
{
    match m {
        mir::Expression::Atom(a) => gen_atom(a, d, Extend::Zero(ctx)),
        mir::Expression::BinaryTerm(t) => ExprView::Binary(
            Box::new(gen_expr(t.lhs, d, spec_calc(t.ctx_size, ctx))),
            Box::new(gen_expr(t.rhs, d, spec_calc(t.ctx_size, ctx))),
            t.operator,
            Extend::Zero(ctx),
        ),
        mir::Expression::UnaryTerm(t) => ExprView::Unary(
            Box::new(gen_expr(t.expression, d, spec_calc(t.ctx_size, ctx))),
            t.operator,
            if t.operator == UnaryOperator::Sxt {
                Extend::Sign(ctx)
            } else {
                Extend::Zero(ctx)
            },
        ),
    }
}

/// The generated part of a concatenation.
pub open spec fn gen_part<'s>(p: mir::ConcatPartExpr<'s>, d: DeclsView<'s>) -> PartView
    decreases p,
{
    match p {
        mir::ConcatPartExpr::Register(r) => PartView::Register(gen_register(r, d)),
        mir::ConcatPartExpr::Bus(b) => PartView::Bus(gen_bus(b, d)),
        mir::ConcatPartExpr::RegisterArray(ra) => PartView::RegisterArray(
            ra.ident.0@,
            Box::new(gen_expr(*ra.index, d, ra.index_ctx_size)),
        ),
        mir::ConcatPartExpr::Number(n) => PartView::Number(val(n.value@), n.value@.len()),
    }
}

/// The generated parts, in order.
pub open spec fn gen_parts<'s>(ps: Seq<mir::ConcatPartExpr<'s>>, d: DeclsView<'s>) -> Seq<
    PartView,
>
    decreases ps,
{
    if ps.len() == 0 {
        Seq::empty()
    } else {
        gen_parts(ps.subrange(0, ps.len() - 1), d).push(gen_part(ps[ps.len() - 1], d))
    }
}

/// Every register and bus that the atom reads is declared.
pub open spec fn atom_declared<'s>(a: mir::Atom<'s>, d: DeclsView<'s>) -> bool
    decreases a,
{
    match a {
        mir::Atom::Concat(ps) => parts_declared(ps@, d),
        mir::Atom::Register(r) => find_named(d.registers, r.ident.0@) is Some,
        mir::Atom::Bus(b) => find_named(d.buses, b.ident.0@) is Some,
        mir::Atom::RegisterArray(ra) => expr_declared(*ra.index, d),
        mir::Atom::Number(_) => true,
    }
}

/// Every register and bus that the expression reads is declared.
pub open spec fn expr_declared<'s>(m: mir::Expression<'s>, d: DeclsView<'s>) -> bool
    decreases m,
{
    match m {
        mir::Expression::Atom(a) => atom_declared(a, d),
        mir::Expression::BinaryTerm(t) => expr_declared(t.lhs, d) && expr_declared(t.rhs, d),
        mir::Expression::UnaryTerm(t) => expr_declared(t.expression, d),
    }
}

/// Every register and bus that the part reads is declared.
pub open spec fn part_declared<'s>(p: mir::ConcatPartExpr<'s>, d: DeclsView<'s>) -> bool
    decreases p,
{
    match p {
        mir::ConcatPartExpr::Register(r) => find_named(d.registers, r.ident.0@) is Some,
        mir::ConcatPartExpr::Bus(b) => find_named(d.buses, b.ident.0@) is Some,
        mir::ConcatPartExpr::RegisterArray(ra) => expr_declared(*ra.index, d),
        mir::ConcatPartExpr::Number(_) => true,
    }
}

/// Every register and bus that the parts read is declared.
pub open spec fn parts_declared<'s>(ps: Seq<mir::ConcatPartExpr<'s>>, d: DeclsView<'s>) -> bool
    decreases ps,
{
    if ps.len() == 0 {
        true
    } else {
        parts_declared(ps.subrange(0, ps.len() - 1), d) && part_declared(ps[ps.len() - 1], d)
    }
}

proof fn lemma_gen_parts<'s>(ps: Seq<mir::ConcatPartExpr<'s>>, d: DeclsView<'s>)
    ensures
        gen_parts(ps, d).len() == ps.len(),
        forall|i: int| 0 <= i < ps.len() ==> #[trigger] gen_parts(ps, d)[i] == gen_part(ps[i], d),
        parts_declared(ps, d) ==> forall|i: int| 0 <= i < ps.len() ==> part_declared(#[trigger] ps[i], d),
    decreases ps.len(),
{
    if ps.len() > 0 {
        let p = ps.subrange(0, ps.len() - 1);
        lemma_gen_parts(p, d);
        assert forall|i: int| 0 <= i < ps.len() implies #[trigger] gen_parts(ps, d)[i] == gen_part(
            ps[i],
            d,
        ) by {
            if i < ps.len() - 1 {
                assert(p[i] == ps[i]);
            }
        }
        if parts_declared(ps, d) {
            assert forall|i: int| 0 <= i < ps.len() implies part_declared(#[trigger] ps[i], d) by {
                if i < ps.len() - 1 {
                    assert(p[i] == ps[i]);
                }
            }
        }
    }
}

/// A register as accessed.
pub fn generate_register<'s>(reg: &mir::Register<'s>, declarations: &Declarations<'s>) -> (res:
    Register<'s>)
    requires
        find_named(declarations.registers@, reg.ident.0@) is Some,
    ensures
        reg_view(res) == gen_register(*reg, decls_view(*declarations)),
{
    let range_declaration = match lookup(&declarations.registers, reg.ident.0) {
        Some(entry) => entry.1,
        None => {
            assert(false);
            BitRange::Downto(0, 0)
        },
    };
    Register {
        ident: reg.ident,
        range: accessed_bit_range(reg.range, range_declaration),
        kind: reg.kind,
    }
}

/// A bus as accessed.
pub fn generate_bus<'s>(bus: &mir::Bus<'s>, declarations: &Declarations<'s>) -> (res: Bus<'s>)
    requires
        find_named(declarations.buses@, bus.ident.0@) is Some,
    ensures
        bus_view(res) == gen_bus(*bus, decls_view(*declarations)),
{
    let range_declaration = match lookup(&declarations.buses, bus.ident.0) {
        Some(entry) => entry.1,
        None => {
            assert(false);
            BitRange::Downto(0, 0)
        },
    };
    Bus { ident: bus.ident, range: accessed_bit_range(bus.range, range_declaration), kind: bus.kind }
}

/// A copy of the value.
fn copy_value(v: &Value) -> (res: Value)
    ensures
        res@ == v@,
{
    let mut bits: Vec<Bit> = Vec::new();
    let mut i: usize = 0;
    while i < v.bits.len()
        invariant
            i <= v@.len(),
            bits@ == v@.take(i as int),
        decreases v@.len() - i,
    {
        bits.push(v.bits[i]);
        assert(v@.take(i + 1) =~= v@.take(i as int).push(v@[i as int]));
        i = i + 1;
    }
    assert(v@.take(i as int) =~= v@);
    Value { bits }
}

/// A constant with the same bits and kind.
pub fn generate_number(number: &mir::Number) -> (res: Number)
    ensures
        res.value@ == number.value@,
        res.kind == DebugInfo(number.kind),
{
    Number { value: copy_value(&number.value), kind: DebugInfo(number.kind) }
}

/// An element of a register array, its index evaluated in the width that
/// the access gives it.
pub fn generate_register_array<'s>(
    reg_array: &mir::RegisterArray<'s>,
    declarations: &Declarations<'s>,
) -> (res: RegisterArray<'s>)
    requires
        expr_declared(*reg_array.index, decls_view(*declarations)),
    ensures
        res.ident == reg_array.ident,
        expr_view(*res.index) == gen_expr(*reg_array.index, decls_view(*declarations), reg_array.index_ctx_size),
    decreases reg_array,
{
    RegisterArray {
        ident: reg_array.ident,
        index: Box::new(
            generate_expression(&reg_array.index, declarations, reg_array.index_ctx_size),
        ),
    }
}

fn generate_concat_part_expr<'s>(
    part: &mir::ConcatPartExpr<'s>,
    declarations: &Declarations<'s>,
) -> (res: ConcatPartExpr<'s>)
    requires
        part_declared(*part, decls_view(*declarations)),
    ensures
        part_view(res) == gen_part(*part, decls_view(*declarations)),
    decreases part,
{
    match part {
        mir::ConcatPartExpr::Register(reg) => ConcatPartExpr::Register(
            generate_register(reg, declarations),
        ),
        mir::ConcatPartExpr::Bus(bus) => ConcatPartExpr::Bus(generate_bus(bus, declarations)),
        mir::ConcatPartExpr::RegisterArray(reg_array) => ConcatPartExpr::RegisterArray(
            generate_register_array(reg_array, declarations),
        ),
        mir::ConcatPartExpr::Number(number) => ConcatPartExpr::Number(generate_number(number)),
    }
}

/// A concatenation that is read, its parts in order.
pub fn generate_concat_expr<'s>(
    parts: &Vec<mir::ConcatPartExpr<'s>>,
    declarations: &Declarations<'s>,
) -> (res: Concat<ConcatPartExpr<'s>>)
    requires
        parts_declared(parts@, decls_view(*declarations)),
    ensures
        parts_view(res.parts@) == gen_parts(parts@, decls_view(*declarations)),
    decreases parts,
{
    proof {
        lemma_gen_parts(parts@, decls_view(*declarations));
    }
    let mut out: Vec<ConcatPartExpr<'s>> = Vec::new();
    let mut k: usize = 0;
    assert(parts@.take(0) =~= Seq::<mir::ConcatPartExpr<'s>>::empty());
    while k < parts.len()
        invariant
            k <= parts@.len(),
            forall|i: int| 0 <= i < parts@.len() ==> part_declared(#[trigger] parts@[i], decls_view(*declarations)),
            parts_view(out@) == gen_parts(parts@.take(k as int), decls_view(*declarations)),
        decreases parts@.len() - k,
    {
        proof {
            assert(decreases_to!(*parts => parts@));
            assert(decreases_to!(parts@ => parts@[k as int]));
        }
        let part = generate_concat_part_expr(&parts[k], declarations);
        let ghost before = out@;
        out.push(part);
        proof {
            assert(out@.subrange(0, out@.len() - 1) =~= before);
            let t = parts@.take(k + 1);
            assert(t.subrange(0, t.len() - 1) =~= parts@.take(k as int));
            assert(t[t.len() - 1] == parts@[k as int]);
        }
        k = k + 1;
    }
    assert(parts@.take(k as int) =~= parts@);
    Concat { parts: out }
}

/// The atom in the VHDL representation.
pub fn generate_atom<'s>(atom: &mir::Atom<'s>, declarations: &Declarations<'s>) -> (res: Atom<'s>)
    requires
        atom_declared(*atom, decls_view(*declarations)),
    ensures
        forall|ext: Extend| #[trigger] atom_view(res, ext) == gen_atom(*atom, decls_view(*declarations), ext),
    decreases atom,
{
    match atom {
        mir::Atom::Concat(parts) => Atom::Concat(generate_concat_expr(parts, declarations)),
        mir::Atom::Register(reg) => Atom::Register(generate_register(reg, declarations)),
        mir::Atom::Bus(bus) => Atom::Bus(generate_bus(bus, declarations)),
        mir::Atom::RegisterArray(reg_array) => Atom::RegisterArray(
            generate_register_array(reg_array, declarations),
        ),
        mir::Atom::Number(number) => Atom::Number(generate_number(number)),
    }
}

/// The expression in the VHDL representation, in a context of width
/// `ctx_size`.
pub fn generate_expression<'s>(
    expression: &mir::Expression<'s>,
    declarations: &Declarations<'s>,
    ctx_size: usize,
) -> (res: Expression<'s>)
    requires
        expr_declared(*expression, decls_view(*declarations)),
    ensures
        expr_view(res) == gen_expr(*expression, decls_view(*declarations), ctx_size),
    decreases expression,
{
    match expression {
        mir::Expression::Atom(atom) => {
            let a = generate_atom(atom, declarations);
            let res = Expression { kind: ExpressionKind::Atom(a), extend_to: Extend::Zero(ctx_size) };
            assert(atom_view(a, Extend::Zero(ctx_size)) == gen_atom(*atom, decls_view(*declarations), Extend::Zero(ctx_size)));
            res
        },
        mir::Expression::BinaryTerm(binary_term) => {
            let ctx_size_inner = binary_term.ctx_size.calc(ctx_size);
            let kind = ExpressionKind::BinaryTerm(
                Box::new(
                    BinaryTerm {
                        lhs: generate_expression(&binary_term.lhs, declarations, ctx_size_inner),
                        rhs: generate_expression(&binary_term.rhs, declarations, ctx_size_inner),
                        operator: binary_term.operator,
                    },
                ),
            );
            Expression { kind, extend_to: Extend::Zero(ctx_size) }
        },
        mir::Expression::UnaryTerm(unary_term) => {
            let ctx_size_inner = unary_term.ctx_size.calc(ctx_size);
            let kind = ExpressionKind::UnaryTerm(
                Box::new(
                    UnaryTerm {
                        expression: generate_expression(
                            &unary_term.expression,
                            declarations,
                            ctx_size_inner,
                        ),
                        operator: unary_term.operator,
                    },
                ),
            );
            let extend_to = match unary_term.operator {
                UnaryOperator::Sxt => Extend::Sign(ctx_size),
                _ => Extend::Zero(ctx_size),
            };
            Expression { kind, extend_to }
        },
    }
}

/// The address or data register of a memory, in full.
pub open spec fn gen_memory_register<'s>(e: (Ident<'s>, BitRange, RegisterKind)) -> RegView {
    RegView { ident: e.0.0@, range: None, kind: e.2 }
}

/// Reading the memory `ident` from its data register at its address register.
pub open spec fn gen_read<'s>(ident: Ident<'s>, d: DeclsView<'s>) -> OpView {
    let m = find_named(d.memories, ident.0@)->0;
    OpView::Read(ident.0@, gen_memory_register(m.1), gen_memory_register(m.2))
}

/// Writing the memory `ident` from its data register at its address register.
pub open spec fn gen_write<'s>(ident: Ident<'s>, d: DeclsView<'s>) -> OpView {
    let m = find_named(d.memories, ident.0@)->0;
    OpView::Write(ident.0@, gen_memory_register(m.1), gen_memory_register(m.2))
}

pub open spec fn gen_clocked<'s>(p: mir::ConcatPartLvalueClocked<'s>, d: DeclsView<'s>) -> ClockedView {
    match p {
        mir::ConcatPartLvalueClocked::Register(r, s) => ClockedView::Register(gen_register(r, d), s),
        mir::ConcatPartLvalueClocked::RegisterArray(ra, s) => ClockedView::RegisterArray(
            ra.ident.0@,
            Box::new(gen_expr(*ra.index, d, ra.index_ctx_size)),
            s,
        ),
    }
}

pub open spec fn gen_unclocked<'s>(p: mir::ConcatPartLvalueUnclocked<'s>, d: DeclsView<'s>) -> (
    BusView,
    usize,
) {
    match p {
        mir::ConcatPartLvalueUnclocked::Bus(b, s) => (gen_bus(b, d), s),
    }
}

/// What the generated assignment writes to.
pub open spec fn gen_lvalue<'s>(l: mir::Lvalue<'s>, d: DeclsView<'s>) -> LvalueView {
    match l {
        mir::Lvalue::Register(r) => LvalueView::Register(gen_register(r, d)),
        mir::Lvalue::Bus(b) => LvalueView::Bus(gen_bus(b, d)),
        mir::Lvalue::RegisterArray(ra) => LvalueView::RegisterArray(
            ra.ident.0@,
            Box::new(gen_expr(*ra.index, d, ra.index_ctx_size)),
        ),
        mir::Lvalue::ConcatClocked(ps) => LvalueView::ConcatClocked(
            Seq::new(ps@.len(), |i: int| gen_clocked(ps@[i], d)),
        ),
        mir::Lvalue::ConcatUnclocked(ps) => LvalueView::ConcatUnclocked(
            Seq::new(ps@.len(), |i: int| gen_unclocked(ps@[i], d)),
        ),
    }
}

/// The generated assignment: its right side in the width of the assignment.
pub open spec fn gen_assignment<'s>(a: mir::Assignment<'s>, d: DeclsView<'s>) -> OpView {
    OpView::Assignment(gen_lvalue(a.lhs, d), gen_expr(a.rhs, d, a.size))
}

pub open spec fn clocked_declared<'s>(p: mir::ConcatPartLvalueClocked<'s>, d: DeclsView<'s>) -> bool {
    match p {
        mir::ConcatPartLvalueClocked::Register(r, _) => find_named(d.registers, r.ident.0@) is Some,
        mir::ConcatPartLvalueClocked::RegisterArray(ra, _) => expr_declared(*ra.index, d),
    }
}

pub open spec fn unclocked_declared<'s>(p: mir::ConcatPartLvalueUnclocked<'s>, d: DeclsView<'s>) -> bool {
    match p {
        mir::ConcatPartLvalueUnclocked::Bus(b, _) => find_named(d.buses, b.ident.0@) is Some,
    }
}

/// Every register and bus that the assignment target names is declared.
pub open spec fn lvalue_declared<'s>(l: mir::Lvalue<'s>, d: DeclsView<'s>) -> bool {
    match l {
        mir::Lvalue::Register(r) => find_named(d.registers, r.ident.0@) is Some,
        mir::Lvalue::Bus(b) => find_named(d.buses, b.ident.0@) is Some,
        mir::Lvalue::RegisterArray(ra) => expr_declared(*ra.index, d),
        mir::Lvalue::ConcatClocked(ps) => forall|i: int|
            0 <= i < ps@.len() ==> clocked_declared(#[trigger] ps@[i], d),
        mir::Lvalue::ConcatUnclocked(ps) => forall|i: int|
            0 <= i < ps@.len() ==> unclocked_declared(#[trigger] ps@[i], d),
    }
}

fn generate_memory_access<'s>(ident: &Ident<'s>, declarations: &Declarations<'s>) -> (res: (
    Register<'s>,
    Register<'s>,
))
    requires
        find_named(declarations.memories@, ident.0@) is Some,
    ensures
        reg_view(res.0) == gen_memory_register((find_named(declarations.memories@, ident.0@)->0).1),
        reg_view(res.1) == gen_memory_register((find_named(declarations.memories@, ident.0@)->0).2),
{
    match lookup(&declarations.memories, ident.0) {
        Some(entry) => {
            let (_, (ar_name, _, ar_kind), (dr_name, _, dr_kind)) = entry;
            (
                Register { ident: ar_name, range: None, kind: ar_kind },
                Register { ident: dr_name, range: None, kind: dr_kind },
            )
        },
        None => {
            assert(false);
            (
                Register { ident: *ident, range: None, kind: RegisterKind::Intern },
                Register { ident: *ident, range: None, kind: RegisterKind::Intern },
            )
        },
    }
}

/// Reading the memory named by the step.
pub fn generate_read<'s>(ident: &Ident<'s>, declarations: &Declarations<'s>) -> (res: Read<'s>)
    requires
        find_named(declarations.memories@, ident.0@) is Some,
    ensures
        op_view(Operation::Read(res)) == gen_read(*ident, decls_view(*declarations)),
{
    let (ar, dr) = generate_memory_access(ident, declarations);
    Read { memory: *ident, ar, dr }
}

/// Writing the memory named by the step.
pub fn generate_write<'s>(ident: &Ident<'s>, declarations: &Declarations<'s>) -> (res: Write<'s>)
    requires
        find_named(declarations.memories@, ident.0@) is Some,
    ensures
        op_view(Operation::Write(res)) == gen_write(*ident, decls_view(*declarations)),
{
    let (ar, dr) = generate_memory_access(ident, declarations);
    Write { memory: *ident, ar, dr }
}

fn generate_concat_part_lvalue_clocked<'s>(
    part: &mir::ConcatPartLvalueClocked<'s>,
    declarations: &Declarations<'s>,
) -> (res: ConcatPartLvalueClocked<'s>)
    requires
        clocked_declared(*part, decls_view(*declarations)),
    ensures
        clocked_view(res) == gen_clocked(*part, decls_view(*declarations)),
{
    match part {
        mir::ConcatPartLvalueClocked::Register(reg, size) => ConcatPartLvalueClocked::Register(
            generate_register(reg, declarations),
            *size,
        ),
        mir::ConcatPartLvalueClocked::RegisterArray(reg_array, size) => {
            ConcatPartLvalueClocked::RegisterArray(
                generate_register_array(reg_array, declarations),
                *size,
            )
        },
    }
}

/// Clocked parts that are assigned to, in order.
pub fn generate_concat_lvalue_clocked<'s>(
    parts: &Vec<mir::ConcatPartLvalueClocked<'s>>,
    declarations: &Declarations<'s>,
) -> (res: Concat<ConcatPartLvalueClocked<'s>>)
    requires
        forall|i: int| 0 <= i < parts@.len() ==> clocked_declared(#[trigger] parts@[i], decls_view(*declarations)),
    ensures
        res.parts@.len() == parts@.len(),
        forall|i: int|
            0 <= i < parts@.len() ==> clocked_view(#[trigger] res.parts@[i]) == gen_clocked(
                parts@[i],
                decls_view(*declarations),
            ),
{
    let mut out: Vec<ConcatPartLvalueClocked<'s>> = Vec::new();
    let mut k: usize = 0;
    while k < parts.len()
        invariant
            k <= parts@.len(),
            forall|i: int| 0 <= i < parts@.len() ==> clocked_declared(#[trigger] parts@[i], decls_view(*declarations)),
            out@.len() == k,
            forall|i: int|
                0 <= i < k ==> clocked_view(#[trigger] out@[i]) == gen_clocked(parts@[i], decls_view(*declarations)),
        decreases parts@.len() - k,
    {
        out.push(generate_concat_part_lvalue_clocked(&parts[k], declarations));
        k = k + 1;
    }
    Concat { parts: out }
}

/// Unclocked parts that are assigned to, in order.
pub fn generate_concat_lvalue_unclocked<'s>(
    parts: &Vec<mir::ConcatPartLvalueUnclocked<'s>>,
    declarations: &Declarations<'s>,
) -> (res: Concat<ConcatPartLvalueUnclocked<'s>>)
    requires
        forall|i: int| 0 <= i < parts@.len() ==> unclocked_declared(#[trigger] parts@[i], decls_view(*declarations)),
    ensures
        res.parts@.len() == parts@.len(),
        forall|i: int|
            0 <= i < parts@.len() ==> unclocked_view(#[trigger] res.parts@[i]) == gen_unclocked(
                parts@[i],
                decls_view(*declarations),
            ),
{
    let mut out: Vec<ConcatPartLvalueUnclocked<'s>> = Vec::new();
    let mut k: usize = 0;
    while k < parts.len()
        invariant
            k <= parts@.len(),
            forall|i: int| 0 <= i < parts@.len() ==> unclocked_declared(#[trigger] parts@[i], decls_view(*declarations)),
            out@.len() == k,
            forall|i: int|
                0 <= i < k ==> unclocked_view(#[trigger] out@[i]) == gen_unclocked(parts@[i], decls_view(*declarations)),
        decreases parts@.len() - k,
    {
        let part = match &parts[k] {
            mir::ConcatPartLvalueUnclocked::Bus(bus, size) => ConcatPartLvalueUnclocked::Bus(
                generate_bus(bus, declarations),
                *size,
            ),
        };
        out.push(part);
        k = k + 1;
    }
    Concat { parts: out }
}

fn generate_lvalue<'s>(lvalue: &mir::Lvalue<'s>, declarations: &Declarations<'s>) -> (res: Lvalue<'s>)
    requires
        lvalue_declared(*lvalue, decls_view(*declarations)),
    ensures
        lvalue_view(res) == gen_lvalue(*lvalue, decls_view(*declarations)),
{
    match lvalue {
        mir::Lvalue::Register(reg) => Lvalue::Register(generate_register(reg, declarations)),
        mir::Lvalue::Bus(bus) => Lvalue::Bus(generate_bus(bus, declarations)),
        mir::Lvalue::RegisterArray(reg_array) => Lvalue::RegisterArray(
            generate_register_array(reg_array, declarations),
        ),
        mir::Lvalue::ConcatClocked(parts) => {
            let c = generate_concat_lvalue_clocked(parts, declarations);
            let res = Lvalue::ConcatClocked(c);
            assert(Seq::new(c.parts@.len(), |i: int| clocked_view(c.parts@[i])) =~= Seq::new(
                parts@.len(),
                |i: int| gen_clocked(parts@[i], decls_view(*declarations)),
            ));
            res
        },
        mir::Lvalue::ConcatUnclocked(parts) => {
            let c = generate_concat_lvalue_unclocked(parts, declarations);
            let res = Lvalue::ConcatUnclocked(c);
            assert(Seq::new(c.parts@.len(), |i: int| unclocked_view(c.parts@[i])) =~= Seq::new(
                parts@.len(),
                |i: int| gen_unclocked(parts@[i], decls_view(*declarations)),
            ));
            res
        },
    }
}

/// The assignment in the VHDL representation.
pub fn generate_assignment<'s>(assignment: &mir::Assignment<'s>, declarations: &Declarations<'s>) -> (res:
    Assignment<'s>)
    requires
        lvalue_declared(assignment.lhs, decls_view(*declarations)),
        expr_declared(assignment.rhs, decls_view(*declarations)),
    ensures
        op_view(Operation::Assignment(res)) == gen_assignment(*assignment, decls_view(*declarations)),
{
    Assignment {
        lhs: generate_lvalue(&assignment.lhs, declarations),
        rhs: generate_expression(&assignment.rhs, declarations, assignment.size),
    }
}

} // verus!

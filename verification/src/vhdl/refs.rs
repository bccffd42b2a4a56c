//! Every state of a generated program refers only to criteria and
//! operations that the program has.

use super::builder::{
    apply_transforms, criteria_insert, criterion_index, initial_sb, insert_pos, map_criteria,
    operation_index, operations_insert, ops_has, ops_slot, program_ok, first_error,
    sort_ops, spec_add_op, spec_add_step, spec_add_steps, spec_eval, spec_eval_group,
    spec_finish, spec_gen_statements, spec_goto, spec_goto_prefix, spec_op, stmt_label,
    criteria_mapped, step_ok, steps_ok, terminated_statement, transform_all, transforms_insert,
    mir_labels, statement_error, GenState, SbState, StatementView,
};
use super::from_mir::{spec_declarations, DeclsView};
use super::ir::Criterion;
use super::logic::{spec_build_logic, transformed, transformed_conds, LogicView};
use super::mir;
use super::next_state::spec_next_state_logic_deps;
use super::view::{expr_key, op_key};
use vstd::prelude::*;

verus! {

/// The criterion is one of the first `n`.
pub open spec fn criterion_below(c: Criterion, n: nat) -> bool {
    match c {
        Criterion::True(id) => id.0 < n,
        Criterion::False(id) => id.0 < n,
    }
}

/// Every criterion of the disjunction is one of the first `n`.
pub open spec fn or_below(or: Seq<Seq<Criterion>>, n: nat) -> bool {
    forall|i: int, j: int|
        0 <= i < or.len() && 0 <= j < or[i].len() ==> criterion_below(#[trigger] or[i][j], n)
}

/// Every criterion that the logic tests is one of the first `n`.
pub open spec fn logic_below(v: LogicView, n: nat) -> bool
    decreases v, 1int,
{
    match v {
        LogicView::Label(_) => true,
        LogicView::Cond(cs, d) => conds_below(cs, n) && logic_below(*d, n),
    }
}

pub open spec fn conds_below(cs: Seq<(Seq<Seq<Criterion>>, LogicView)>, n: nat) -> bool
    decreases cs, 0int,
{
    if cs.len() == 0 {
        true
    } else {
        conds_below(cs.subrange(0, cs.len() - 1), n) && or_below(cs[cs.len() - 1].0, n)
            && logic_below(cs[cs.len() - 1].1, n)
    }
}

/// Every operation is one of the first `nops`, and every criterion under
/// which one runs is one of the first `ncrit`.
pub open spec fn ops_below(ops: Seq<(usize, Option<Seq<Seq<Criterion>>>)>, nops: nat, ncrit: nat) -> bool {
    forall|i: int|
        0 <= i < ops.len() ==> (#[trigger] ops[i]).0 < nops && (ops[i].1 is Some ==> or_below(
            ops[i].1->0,
            ncrit,
        ))
}

/// The state refers only to the first `nops` operations and the first
/// `ncrit` criteria.
pub open spec fn state_below(s: StatementView, nops: nat, ncrit: nat) -> bool {
    ops_below(s.ops, nops, ncrit) && logic_below(s.logic, ncrit)
}

/// The states and transformations gathered refer only to the criteria and
/// operations gathered.
pub open spec fn gen_refs_ok(g: GenState) -> bool {
    &&& forall|i: int|
        0 <= i < g.statements.len() ==> state_below(
            #[trigger] g.statements[i],
            g.operations.len(),
            g.criteria.len(),
        )
    &&& forall|i: int|
        0 <= i < g.transforms.len() ==> logic_below((#[trigger] g.transforms[i]).1, g.criteria.len())
}

/// What a statement builder holds refers only to what `g` gathered.
pub open spec fn sb_refs_ok(sb: SbState, g: GenState) -> bool {
    &&& forall|k: usize| #[trigger] sb.mapping.contains_key(k) ==> sb.mapping[k] < g.criteria.len()
    &&& ops_below(sb.ops, g.operations.len(), g.criteria.len())
    &&& forall|i: int| 0 <= i < sb.cond.len() ==> or_below((#[trigger] sb.cond[i]).0, g.criteria.len())
}

proof fn lemma_conds_below(cs: Seq<(Seq<Seq<Criterion>>, LogicView)>, n: nat)
    ensures
        conds_below(cs, n) == forall|i: int|
            0 <= i < cs.len() ==> or_below((#[trigger] cs[i]).0, n) && logic_below(cs[i].1, n),
    decreases cs.len(),
{
    if cs.len() > 0 {
        let p = cs.subrange(0, cs.len() - 1);
        lemma_conds_below(p, n);
        if conds_below(cs, n) {
            assert forall|i: int| 0 <= i < cs.len() implies or_below((#[trigger] cs[i]).0, n)
                && logic_below(cs[i].1, n) by {
                if i < cs.len() - 1 {
                    assert(p[i] == cs[i]);
                }
            }
        }
        if forall|i: int| 0 <= i < cs.len() ==> or_below((#[trigger] cs[i]).0, n) && logic_below(cs[i].1, n) {
            assert forall|i: int| 0 <= i < p.len() implies or_below((#[trigger] p[i]).0, n)
                && logic_below(p[i].1, n) by {
                assert(p[i] == cs[i]);
            }
        }
    }
}

proof fn lemma_logic_below_mono(v: LogicView, n: nat, m: nat)
    requires
        logic_below(v, n),
        n <= m,
    ensures
        logic_below(v, m),
    decreases v, 1int,
{
    match v {
        LogicView::Label(_) => {},
        LogicView::Cond(cs, d) => {
            lemma_conds_below_mono(cs, n, m);
            lemma_logic_below_mono(*d, n, m);
        },
    }
}

proof fn lemma_conds_below_mono(cs: Seq<(Seq<Seq<Criterion>>, LogicView)>, n: nat, m: nat)
    requires
        conds_below(cs, n),
        n <= m,
    ensures
        conds_below(cs, m),
    decreases cs, 0int,
{
    if cs.len() > 0 {
        lemma_conds_below_mono(cs.subrange(0, cs.len() - 1), n, m);
        lemma_logic_below_mono(cs[cs.len() - 1].1, n, m);
    }
}

proof fn lemma_transformed_below(v: LogicView, from: Seq<char>, to: LogicView, n: nat)
    requires
        logic_below(v, n),
        logic_below(to, n),
    ensures
        logic_below(transformed(v, from, to), n),
    decreases v, 1int,
{
    match v {
        LogicView::Label(_) => {},
        LogicView::Cond(cs, d) => {
            lemma_transformed_conds_below(cs, from, to, n);
            lemma_transformed_below(*d, from, to, n);
        },
    }
}

proof fn lemma_transformed_conds_below(
    cs: Seq<(Seq<Seq<Criterion>>, LogicView)>,
    from: Seq<char>,
    to: LogicView,
    n: nat,
)
    requires
        conds_below(cs, n),
        logic_below(to, n),
    ensures
        conds_below(transformed_conds(cs, from, to), n),
    decreases cs, 0int,
{
    if cs.len() > 0 {
        let p = cs.subrange(0, cs.len() - 1);
        lemma_transformed_conds_below(p, from, to, n);
        lemma_transformed_below(cs[cs.len() - 1].1, from, to, n);
        let t = transformed_conds(cs, from, to);
        assert(t.subrange(0, t.len() - 1) =~= transformed_conds(p, from, to));
    }
}

proof fn lemma_transform_all_below(l: LogicView, ts: Seq<(Seq<char>, LogicView)>, n: nat)
    requires
        logic_below(l, n),
        forall|i: int| 0 <= i < ts.len() ==> logic_below((#[trigger] ts[i]).1, n),
    ensures
        logic_below(transform_all(l, ts), n),
    decreases ts.len(),
{
    if ts.len() > 0 {
        let q = ts.drop_last();
        assert forall|i: int| 0 <= i < q.len() implies logic_below((#[trigger] q[i]).1, n) by {
            assert(q[i] == ts[i]);
        }
        lemma_transform_all_below(l, q, n);
        lemma_transformed_below(transform_all(l, q), ts.last().0, ts.last().1, n);
    }
}

proof fn lemma_build_logic_below(conds: Seq<(Seq<Seq<Criterion>>, Seq<char>)>, default: Seq<char>, n: nat)
    requires
        forall|i: int| 0 <= i < conds.len() ==> or_below((#[trigger] conds[i]).0, n),
    ensures
        logic_below(spec_build_logic(conds, default), n),
{
    if conds.len() > 0 {
        let cs = Seq::new(conds.len(), |i: int| (conds[i].0, LogicView::Label(conds[i].1)));
        lemma_conds_below(cs, n);
        assert forall|i: int| 0 <= i < cs.len() implies or_below((#[trigger] cs[i]).0, n)
            && logic_below(cs[i].1, n) by {
            assert(cs[i].0 == conds[i].0);
            assert(logic_below(LogicView::Label(conds[i].1), n));
        }
        assert(spec_build_logic(conds, default) == LogicView::Cond(
            cs,
            Box::new(LogicView::Label(default)),
        ));
        assert(logic_below(LogicView::Label(default), n));
    }
}

proof fn lemma_refs_grow(sb: SbState, g: GenState, g2: GenState)
    requires
        sb_refs_ok(sb, g),
        gen_refs_ok(g),
        g2.statements == g.statements,
        g2.transforms == g.transforms,
        g.criteria.len() <= g2.criteria.len(),
        g.operations.len() <= g2.operations.len(),
    ensures
        sb_refs_ok(sb, g2),
        gen_refs_ok(g2),
{
    assert forall|i: int| 0 <= i < g2.statements.len() implies state_below(
        #[trigger] g2.statements[i],
        g2.operations.len(),
        g2.criteria.len(),
    ) by {
        assert(state_below(g.statements[i], g.operations.len(), g.criteria.len()));
        lemma_logic_below_mono(g.statements[i].logic, g.criteria.len(), g2.criteria.len());
    }
    assert forall|i: int| 0 <= i < g2.transforms.len() implies logic_below(
        (#[trigger] g2.transforms[i]).1,
        g2.criteria.len(),
    ) by {
        assert(logic_below(g.transforms[i].1, g.criteria.len()));
        lemma_logic_below_mono(g.transforms[i].1, g.criteria.len(), g2.criteria.len());
    }
}

proof fn lemma_mapped_below(m: Map<usize, usize>, cs: Seq<mir::Criterion>, n: nat)
    requires
        criteria_mapped(m, cs),
        forall|k: usize| #[trigger] m.contains_key(k) ==> m[k] < n,
    ensures
        forall|j: int| 0 <= j < map_criteria(m, cs).len() ==> criterion_below(#[trigger] map_criteria(m, cs)[j], n),
{
    assert forall|j: int| 0 <= j < map_criteria(m, cs).len() implies criterion_below(
        #[trigger] map_criteria(m, cs)[j],
        n,
    ) by {
        assert(m.contains_key(mir::criterion_id(cs[j]).0));
    }
}

proof fn lemma_eval_refs<'s>(sb: SbState, g: GenState, ec: mir::EvalCriterion<'s>, d: DeclsView<'s>)
    requires
        sb_refs_ok(sb, g),
        gen_refs_ok(g),
    ensures
        sb_refs_ok(spec_eval(sb, g, ec, d).0, spec_eval(sb, g, ec, d).1),
        gen_refs_ok(spec_eval(sb, g, ec, d).1),
{
    let v = super::from_mir::gen_expr(ec.condition, d, 1);
    let c = criteria_insert(g.criteria, v);
    let g1 = GenState { criteria: c, ..g };
    if exists|i: int| 0 <= i < g.criteria.len() && expr_key(g.criteria[i]) == expr_key(v) {
        assert(c == g.criteria);
    } else {
        assert(c == g.criteria.push(v));
        assert(expr_key(c[c.len() - 1]) == expr_key(v));
    }
    let idx = criterion_index(c, v);
    assert(0 <= idx < c.len());
    lemma_refs_grow(sb, g, g1);
    let s1 = spec_eval(sb, g, ec, d).0;
    assert(s1.mapping == sb.mapping.insert(ec.criterion_id.0, idx as usize));
    assert forall|k: usize| #[trigger] s1.mapping.contains_key(k) implies s1.mapping[k] < c.len() by {
        if k != ec.criterion_id.0 {
            assert(sb.mapping.contains_key(k));
        }
    }
}

proof fn lemma_eval_group_refs<'s>(
    sb: SbState,
    g: GenState,
    items: Seq<mir::EvalCriterion<'s>>,
    d: DeclsView<'s>,
)
    requires
        sb_refs_ok(sb, g),
        gen_refs_ok(g),
    ensures
        sb_refs_ok(spec_eval_group(sb, g, items, d).0, spec_eval_group(sb, g, items, d).1),
        gen_refs_ok(spec_eval_group(sb, g, items, d).1),
    decreases items.len(),
{
    if items.len() > 0 {
        lemma_eval_group_refs(sb, g, items.drop_last(), d);
        let (s1, g1) = spec_eval_group(sb, g, items.drop_last(), d);
        lemma_eval_refs(s1, g1, items.last(), d);
    }
}

proof fn lemma_goto_refs(sb: SbState, g: GenState, label: Seq<char>, cs: Seq<mir::Criterion>)
    requires
        sb_refs_ok(sb, g),
        criteria_mapped(sb.mapping, cs),
    ensures
        sb_refs_ok(spec_goto(sb, label, cs), g),
{
    let n = g.criteria.len();
    if cs.len() > 0 {
        let and = map_criteria(sb.mapping, cs);
        lemma_mapped_below(sb.mapping, cs, n);
        let r = spec_goto(sb, label, cs);
        assert forall|i: int| 0 <= i < r.cond.len() implies or_below((#[trigger] r.cond[i]).0, n) by {
            if super::builder::cond_has(sb.cond, label) {
                let c = super::builder::cond_slot(sb.cond, label);
                if i == c {
                    let o = sb.cond[i].0.push(and);
                    assert(r.cond[i].0 == o);
                    assert(or_below(sb.cond[i].0, n));
                    assert forall|a: int, b: int| 0 <= a < o.len() && 0 <= b < o[a].len() implies criterion_below(
                        #[trigger] o[a][b],
                        n,
                    ) by {
                        if a < o.len() - 1 {
                            assert(o[a] == sb.cond[i].0[a]);
                        }
                    }
                } else {
                    assert(r.cond[i] == sb.cond[i]);
                }
            } else if i < sb.cond.len() {
                assert(r.cond[i] == sb.cond[i]);
            } else {
                assert(r.cond[i].0 == seq![and]);
            }
        }
    }
}

proof fn lemma_add_op_refs(sb: SbState, g: GenState, id: usize, cs: Seq<mir::Criterion>)
    requires
        sb_refs_ok(sb, g),
        super::builder::add_op_ok(sb, id, cs),
        id < g.operations.len(),
    ensures
        sb_refs_ok(spec_add_op(sb, id, cs), g),
{
    let n = g.criteria.len();
    let r = spec_add_op(sb, id, cs);
    if cs.len() > 0 {
        lemma_mapped_below(sb.mapping, cs, n);
    }
    let and = map_criteria(sb.mapping, cs);
    assert forall|i: int| 0 <= i < r.ops.len() implies (#[trigger] r.ops[i]).0 < g.operations.len()
        && (r.ops[i].1 is Some ==> or_below(r.ops[i].1->0, n)) by {
        if cs.len() == 0 {
            if i < sb.ops.len() {
                assert(r.ops[i] == sb.ops[i]);
            }
        } else if ops_has(sb.ops, id) {
            let c = ops_slot(sb.ops, id);
            if i == c {
                let o = sb.ops[i].1->0.push(and);
                assert(r.ops[i] == (id, Some(o)));
                assert(or_below(sb.ops[i].1->0, n));
                assert forall|a: int, b: int| 0 <= a < o.len() && 0 <= b < o[a].len() implies criterion_below(
                    #[trigger] o[a][b],
                    n,
                ) by {
                    if a < o.len() - 1 {
                        assert(o[a] == sb.ops[i].1->0[a]);
                    }
                }
            } else {
                assert(r.ops[i] == sb.ops[i]);
            }
        } else if i < sb.ops.len() {
            assert(r.ops[i] == sb.ops[i]);
        } else {
            assert(r.ops[i] == (id, Some(seq![and])));
        }
    }
}

proof fn lemma_op_refs(sb: SbState, g: GenState, v: super::view::OpView, cs: Seq<mir::Criterion>)
    requires
        sb_refs_ok(sb, g),
        gen_refs_ok(g),
        super::builder::op_ok(sb, g, v, cs),
    ensures
        sb_refs_ok(spec_op(sb, g, v, cs).0, spec_op(sb, g, v, cs).1),
        gen_refs_ok(spec_op(sb, g, v, cs).1),
{
    let o = operations_insert(g.operations, v);
    let g1 = GenState { operations: o, ..g };
    if exists|i: int| 0 <= i < g.operations.len() && op_key(g.operations[i]) == op_key(v) {
        assert(o == g.operations);
    } else {
        assert(o == g.operations.push(v));
        assert(op_key(o[o.len() - 1]) == op_key(v));
    }
    let idx = operation_index(o, v);
    assert(0 <= idx < o.len());
    lemma_refs_grow(sb, g, g1);
    lemma_add_op_refs(sb, g1, idx as usize, cs);
}

proof fn lemma_add_step_refs<'s>(sb: SbState, g: GenState, step: mir::Step<'s>, d: DeclsView<'s>)
    requires
        sb_refs_ok(sb, g),
        gen_refs_ok(g),
        step_ok(sb, g, step, d),
    ensures
        sb_refs_ok(spec_add_step(sb, g, step, d).0, spec_add_step(sb, g, step, d).1),
        gen_refs_ok(spec_add_step(sb, g, step, d).1),
{
    match step.operation {
        mir::Operation::EvalCriterion(ec) => lemma_eval_refs(sb, g, ec, d),
        mir::Operation::EvalCriterionSwitchGroup(items) => lemma_eval_group_refs(sb, g, items@, d),
        mir::Operation::Goto(l) => lemma_goto_refs(
            sb,
            g,
            super::ir::named_prefix() + l.0@,
            step.criteria@,
        ),
        mir::Operation::Write(m) => lemma_op_refs(
            sb,
            g,
            super::from_mir::gen_write(m, d),
            step.criteria@,
        ),
        mir::Operation::Read(m) => lemma_op_refs(sb, g, super::from_mir::gen_read(m, d), step.criteria@),
        mir::Operation::Assignment(a) => lemma_op_refs(
            sb,
            g,
            super::from_mir::gen_assignment(a, d),
            step.criteria@,
        ),
        mir::Operation::Nop => {},
        mir::Operation::Assert => {},
    }
}

proof fn lemma_add_steps_refs<'s>(sb: SbState, g: GenState, steps: Seq<mir::Step<'s>>, d: DeclsView<'s>)
    requires
        sb_refs_ok(sb, g),
        gen_refs_ok(g),
        steps_ok(sb, g, steps, d),
    ensures
        sb_refs_ok(spec_add_steps(sb, g, steps, d).0, spec_add_steps(sb, g, steps, d).1),
        gen_refs_ok(spec_add_steps(sb, g, steps, d).1),
    decreases steps.len(),
{
    if steps.len() > 0 {
        lemma_add_steps_refs(sb, g, steps.drop_last(), d);
        let (s1, g1) = spec_add_steps(sb, g, steps.drop_last(), d);
        lemma_add_step_refs(s1, g1, steps.last(), d);
    }
}

proof fn lemma_sort_ops_below(s: Seq<(usize, Option<Seq<Seq<Criterion>>>)>, a: nat, b: nat)
    requires
        ops_below(s, a, b),
    ensures
        ops_below(sort_ops(s), a, b),
    decreases s.len(),
{
    if s.len() > 0 {
        let q = s.drop_last();
        assert forall|i: int| 0 <= i < q.len() implies (#[trigger] q[i]).0 < a && (q[i].1 is Some
            ==> or_below(q[i].1->0, b)) by {
            assert(q[i] == s[i]);
        }
        lemma_sort_ops_below(q, a, b);
        let r = sort_ops(q);
        let x = s.last();
        let pos = insert_pos(r, x.0);
        super::builder::lemma_insert_pos_range(r, x.0);
        let t = r.insert(pos, x);
        assert forall|i: int| 0 <= i < t.len() implies (#[trigger] t[i]).0 < a && (t[i].1 is Some
            ==> or_below(t[i].1->0, b)) by {
            if i < pos {
                assert(t[i] == r[i]);
            } else if i > pos {
                assert(t[i] == r[i - 1]);
            }
        }
    }
}

proof fn lemma_finish_refs(sb: SbState, g: GenState, p: Seq<char>)
    requires
        sb_refs_ok(sb, g),
        gen_refs_ok(g),
    ensures
        gen_refs_ok(spec_finish(sb, g, p)),
{
    let n = g.criteria.len();
    let nops = g.operations.len();
    let r = spec_finish(sb, g, p);
    assert(r.criteria == g.criteria && r.operations == g.operations);
    if !sb.transform {
        lemma_build_logic_below(sb.cond, sb.default, n);
        assert forall|i: int| 0 <= i < r.statements.len() implies state_below(
            #[trigger] r.statements[i],
            nops,
            n,
        ) by {
            if i < g.statements.len() {
                assert(r.statements[i] == g.statements[i]);
            }
        }
    } else {
        let conds = Seq::new(sb.cond.len(), |i: int| (sb.cond[i].0, sb.label + p + sb.cond[i].1));
        assert forall|i: int| 0 <= i < conds.len() implies or_below((#[trigger] conds[i]).0, n) by {
            assert(conds[i].0 == sb.cond[i].0);
        }
        lemma_build_logic_below(conds, sb.label + p + sb.default, n);
        assert forall|i: int| 0 <= i < r.statements.len() implies state_below(
            #[trigger] r.statements[i],
            nops,
            n,
        ) by {
            if i < g.statements.len() {
                assert(r.statements[i] == g.statements[i]);
            } else {
                assert(r.statements[i].ops == sb.ops);
                assert(r.statements[i].logic is Label);
            }
        }
        let to = spec_build_logic(conds, sb.label + p + sb.default);
        assert(r.transforms == transforms_insert(g.transforms, sb.label, to));
        assert forall|i: int| 0 <= i < r.transforms.len() implies logic_below(
            (#[trigger] r.transforms[i]).1,
            n,
        ) by {
            assert(r.transforms[i] == g.transforms[i] || r.transforms[i] == (sb.label, to));
        }
    }
}

proof fn lemma_gen_refs<'s>(m: mir::Mir<'s>, n: int)
    requires
        program_ok(m),
        0 <= n <= m.statements@.len(),
        first_error(m.statements@, n) is None,
    ensures
        gen_refs_ok(
            spec_gen_statements(
                m.statements@,
                n,
                spec_declarations(m.declarations@),
                spec_goto_prefix(mir_labels(m.statements@)),
            ),
        ),
    decreases n,
{
    let stmts = m.statements@;
    let d = spec_declarations(m.declarations@);
    let p = spec_goto_prefix(mir_labels(stmts));
    if n > 0 {
        assert(first_error(stmts, n - 1) is None);
        lemma_gen_refs(m, n - 1);
        let g = spec_gen_statements(stmts, n - 1, d, p);
        let init = initial_sb(
            stmt_label(stmts, n - 1),
            stmt_label(stmts, n),
            spec_next_state_logic_deps(stmts[n - 1].steps@).clocked,
        );
        assert(statement_error(stmts, n - 1) is None);
        assert(steps_ok(init, g, stmts[n - 1].steps@, d));
        assert(sb_refs_ok(init, g));
        lemma_add_steps_refs(init, g, stmts[n - 1].steps@, d);
        let (sb, g1) = spec_add_steps(init, g, stmts[n - 1].steps@, d);
        lemma_sort_ops_below(sb.ops, g1.operations.len(), g1.criteria.len());
        let sb2 = SbState { ops: sort_ops(sb.ops), ..sb };
        lemma_finish_refs(sb2, g1, p);
    }
}

/// Every state of a generated program refers only to criteria and
/// operations that the program has: each operation number is below the
/// number of operations, and each criterion that an operation runs under or
/// a jump tests is below the number of criteria.
pub proof fn law_states_refer_to_program<'s>(m: mir::Mir<'s>)
    requires
        program_ok(m),
        first_error(m.statements@, m.statements@.len() as int) is None,
    ensures
        ({
            let g = spec_gen_statements(
                m.statements@,
                m.statements@.len() as int,
                spec_declarations(m.declarations@),
                spec_goto_prefix(mir_labels(m.statements@)),
            );
            let states = apply_transforms(g.statements, g.transforms).push(terminated_statement());
            forall|i: int|
                0 <= i < states.len() ==> state_below(
                    #[trigger] states[i],
                    g.operations.len(),
                    g.criteria.len(),
                )
        }),
{
    let g = spec_gen_statements(
        m.statements@,
        m.statements@.len() as int,
        spec_declarations(m.declarations@),
        spec_goto_prefix(mir_labels(m.statements@)),
    );
    lemma_gen_refs(m, m.statements@.len() as int);
    let states = apply_transforms(g.statements, g.transforms).push(terminated_statement());
    assert forall|i: int| 0 <= i < states.len() implies state_below(
        #[trigger] states[i],
        g.operations.len(),
        g.criteria.len(),
    ) by {
        if i < g.statements.len() {
            assert(state_below(g.statements[i], g.operations.len(), g.criteria.len()));
            lemma_transform_all_below(g.statements[i].logic, g.transforms, g.criteria.len());
            assert(states[i].ops == g.statements[i].ops);
        } else {
            assert(states[i] == terminated_statement());
        }
    }
}

} // verus!

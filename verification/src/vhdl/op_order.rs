//! Each state of a generated program lists each of its operations once,
//! by increasing number.

use super::builder::{
    add_op_ok, apply_transforms, first_error, initial_sb, insert_pos, law_sort_ops,
    lemma_insert_pos_range, mir_labels, ops_has, ops_slot, program_ok, sort_ops, spec_add_op,
    spec_add_step, spec_add_steps, spec_eval_group, spec_finish, spec_gen_statements,
    spec_goto_prefix, statement_error, step_ok, steps_ok, stmt_label,
    terminated_statement, GenState, SbState,
};
use super::from_mir::{spec_declarations, DeclsView};
use super::ir::Criterion;
use super::mir;
use super::next_state::spec_next_state_logic_deps;
use vstd::prelude::*;

verus! {

/// No two entries are for the same operation.
pub open spec fn keys_distinct(ops: Seq<(usize, Option<Seq<Seq<Criterion>>>)>) -> bool {
    forall|i: int, j: int| 0 <= i < j < ops.len() ==> ops[i].0 != ops[j].0
}

/// The entries are by strictly increasing number.
pub open spec fn keys_increasing(ops: Seq<(usize, Option<Seq<Seq<Criterion>>>)>) -> bool {
    forall|i: int, j: int| 0 <= i < j < ops.len() ==> ops[i].0 < ops[j].0
}

proof fn lemma_add_op_distinct(sb: SbState, id: usize, cs: Seq<mir::Criterion>)
    requires
        keys_distinct(sb.ops),
        add_op_ok(sb, id, cs),
    ensures
        keys_distinct(spec_add_op(sb, id, cs).ops),
{
    let r = spec_add_op(sb, id, cs).ops;
    if cs.len() > 0 && ops_has(sb.ops, id) {
        let c = ops_slot(sb.ops, id);
        assert forall|i: int, j: int| 0 <= i < j < r.len() implies r[i].0 != r[j].0 by {
            assert(r[i].0 == sb.ops[i].0);
            assert(r[j].0 == sb.ops[j].0);
        }
    } else {
        assert(!ops_has(sb.ops, id));
        assert forall|i: int, j: int| 0 <= i < j < r.len() implies r[i].0 != r[j].0 by {
            if j == sb.ops.len() {
                assert(r[i] == sb.ops[i]);
            } else {
                assert(r[i] == sb.ops[i] && r[j] == sb.ops[j]);
            }
        }
    }
}

proof fn lemma_eval_group_ops<'s>(
    sb: SbState,
    g: GenState,
    items: Seq<mir::EvalCriterion<'s>>,
    d: DeclsView<'s>,
)
    ensures
        spec_eval_group(sb, g, items, d).0.ops == sb.ops,
    decreases items.len(),
{
    if items.len() > 0 {
        lemma_eval_group_ops(sb, g, items.drop_last(), d);
    }
}

proof fn lemma_add_step_distinct<'s>(sb: SbState, g: GenState, step: mir::Step<'s>, d: DeclsView<'s>)
    requires
        keys_distinct(sb.ops),
        step_ok(sb, g, step, d),
    ensures
        keys_distinct(spec_add_step(sb, g, step, d).0.ops),
{
    match step.operation {
        mir::Operation::EvalCriterionSwitchGroup(items) => lemma_eval_group_ops(sb, g, items@, d),
        mir::Operation::Write(m) => {
            let v = super::from_mir::gen_write(m, d);
            let o = super::builder::operations_insert(g.operations, v);
            lemma_add_op_distinct(sb, super::builder::operation_index(o, v) as usize, step.criteria@);
        },
        mir::Operation::Read(m) => {
            let v = super::from_mir::gen_read(m, d);
            let o = super::builder::operations_insert(g.operations, v);
            lemma_add_op_distinct(sb, super::builder::operation_index(o, v) as usize, step.criteria@);
        },
        mir::Operation::Assignment(a) => {
            let v = super::from_mir::gen_assignment(a, d);
            let o = super::builder::operations_insert(g.operations, v);
            lemma_add_op_distinct(sb, super::builder::operation_index(o, v) as usize, step.criteria@);
        },
        _ => {},
    }
}

proof fn lemma_add_steps_distinct<'s>(sb: SbState, g: GenState, steps: Seq<mir::Step<'s>>, d: DeclsView<'s>)
    requires
        keys_distinct(sb.ops),
        steps_ok(sb, g, steps, d),
    ensures
        keys_distinct(spec_add_steps(sb, g, steps, d).0.ops),
    decreases steps.len(),
{
    if steps.len() > 0 {
        lemma_add_steps_distinct(sb, g, steps.drop_last(), d);
        let (s1, g1) = spec_add_steps(sb, g, steps.drop_last(), d);
        lemma_add_step_distinct(s1, g1, steps.last(), d);
    }
}

proof fn lemma_sort_distinct(s: Seq<(usize, Option<Seq<Seq<Criterion>>>)>)
    requires
        keys_distinct(s),
    ensures
        keys_distinct(sort_ops(s)),
        forall|i: int|
            0 <= i < sort_ops(s).len() ==> exists|j: int|
                0 <= j < s.len() && #[trigger] s[j].0 == (#[trigger] sort_ops(s)[i]).0,
    decreases s.len(),
{
    if s.len() > 0 {
        let q = s.drop_last();
        assert(keys_distinct(q));
        lemma_sort_distinct(q);
        let r = sort_ops(q);
        let x = s.last();
        let p = insert_pos(r, x.0);
        lemma_insert_pos_range(r, x.0);
        let t = r.insert(p, x);
        assert(sort_ops(s) == t);
        assert forall|i: int| 0 <= i < r.len() implies #[trigger] r[i].0 != x.0 by {
            if r[i].0 == x.0 {
                let j = choose|j: int| 0 <= j < q.len() && #[trigger] q[j].0 == r[i].0;
                assert(s[j] == q[j]);
                assert(s[s.len() - 1] == x);
            }
        }
        assert forall|i: int, j: int| 0 <= i < j < t.len() implies t[i].0 != t[j].0 by {
            if j < p {
                assert(t[i] == r[i] && t[j] == r[j]);
            } else if j == p {
                assert(t[i] == r[i]);
            } else if i < p {
                assert(t[i] == r[i] && t[j] == r[j - 1]);
            } else if i == p {
                assert(t[j] == r[j - 1]);
            } else {
                assert(t[i] == r[i - 1] && t[j] == r[j - 1]);
            }
        }
        assert forall|i: int| 0 <= i < t.len() implies exists|j: int|
            0 <= j < s.len() && #[trigger] s[j].0 == (#[trigger] t[i]).0 by {
            if i == p {
                assert(s[s.len() - 1].0 == t[i].0);
            } else {
                let ri = if i < p {
                    i
                } else {
    i - 1
};
                assert(t[i] == r[ri]);
                let j = choose|j: int| 0 <= j < q.len() && #[trigger] q[j].0 == (#[trigger] r[ri]).0;
                assert(s[j] == q[j]);
            }
        }
    }
}

/// Sorting operations that occur once each orders them strictly.
pub proof fn law_sort_ops_increasing(s: Seq<(usize, Option<Seq<Seq<Criterion>>>)>)
    requires
        keys_distinct(s),
    ensures
        keys_increasing(sort_ops(s)),
{
    law_sort_ops(s);
    lemma_sort_distinct(s);
    let t = sort_ops(s);
    assert forall|i: int, j: int| 0 <= i < j < t.len() implies t[i].0 < t[j].0 by {
        assert(t[i].0 <= t[j].0);
        assert(t[i].0 != t[j].0);
    }
}

proof fn lemma_finish_increasing(sb: SbState, g: GenState, p: Seq<char>)
    requires
        keys_increasing(sb.ops),
        forall|i: int| 0 <= i < g.statements.len() ==> keys_increasing((#[trigger] g.statements[i]).ops),
    ensures
        forall|i: int|
            0 <= i < spec_finish(sb, g, p).statements.len() ==> keys_increasing(
                (#[trigger] spec_finish(sb, g, p).statements[i]).ops,
            ),
{
    let r = spec_finish(sb, g, p);
    assert forall|i: int| 0 <= i < r.statements.len() implies keys_increasing(
        (#[trigger] r.statements[i]).ops,
    ) by {
        if i < g.statements.len() {
            assert(r.statements[i] == g.statements[i]);
        } else {
            assert(r.statements[i].ops == sb.ops);
        }
    }
}

proof fn lemma_gen_increasing<'s>(m: mir::Mir<'s>, n: int)
    requires
        program_ok(m),
        0 <= n <= m.statements@.len(),
        first_error(m.statements@, n) is None,
    ensures
        ({
            let g = spec_gen_statements(
                m.statements@,
                n,
                spec_declarations(m.declarations@),
                spec_goto_prefix(mir_labels(m.statements@)),
            );
            forall|i: int| 0 <= i < g.statements.len() ==> keys_increasing((#[trigger] g.statements[i]).ops)
        }),
    decreases n,
{
    let stmts = m.statements@;
    let d = spec_declarations(m.declarations@);
    let p = spec_goto_prefix(mir_labels(stmts));
    if n > 0 {
        assert(first_error(stmts, n - 1) is None);
        lemma_gen_increasing(m, n - 1);
        let g = spec_gen_statements(stmts, n - 1, d, p);
        let init = initial_sb(
            stmt_label(stmts, n - 1),
            stmt_label(stmts, n),
            spec_next_state_logic_deps(stmts[n - 1].steps@).clocked,
        );
        assert(statement_error(stmts, n - 1) is None);
        assert(steps_ok(init, g, stmts[n - 1].steps@, d));
        lemma_add_steps_distinct(init, g, stmts[n - 1].steps@, d);
        let (sb, g1) = spec_add_steps(init, g, stmts[n - 1].steps@, d);
        super::splice::lemma_add_steps_keeps(init, g, stmts[n - 1].steps@, d);
        law_sort_ops_increasing(sb.ops);
        let sb2 = SbState { ops: sort_ops(sb.ops), ..sb
};
        lemma_finish_increasing(sb2, g1, p);
    }
}

/// Each state of a generated program lists each of its operations once,
/// by increasing number.
pub proof fn law_state_operations_increasing<'s>(m: mir::Mir<'s>)
    requires
        program_ok(m),
        first_error(m.statements@, m.statements@.len() as int) is None,
    ensures
        ({
            let g = spec_gen_statements(
                m.statements@,
                m.statements@.len() as int,
                spec_declarations(m.declarations@),
                spec_goto_prefix(mir_labels(m.statements@)),
            );
            let states = apply_transforms(g.statements, g.transforms).push(terminated_statement());
            forall|i: int| 0 <= i < states.len() ==> keys_increasing((#[trigger] states[i]).ops)
        }),
{
    let g = spec_gen_statements(
        m.statements@,
        m.statements@.len() as int,
        spec_declarations(m.declarations@),
        spec_goto_prefix(mir_labels(m.statements@)),
    );
    lemma_gen_increasing(m, m.statements@.len() as int);
    let states = apply_transforms(g.statements, g.transforms).push(terminated_statement());
    assert forall|i: int| 0 <= i < states.len() implies keys_increasing((#[trigger] states[i]).ops) by {
        if i < g.statements.len() {
            assert(states[i].ops == g.statements[i].ops);
        } else {
            assert(states[i] == terminated_statement());
        }
    }
}

} // verus!

//! Building the states of one statement from its steps.

use super::builder::{
    add_op_ok, cond_has, cond_slot, criteria_mapped, entry_view, initial_sb, insert_pos,
    map_criteria, ops_has, ops_slot, ops_view, sb_wf, sort_ops, spec_add_op, spec_add_step,
    spec_add_steps, spec_build_statement, spec_eval, spec_eval_group, spec_finish, spec_goto,
    statement_view, step_ok, steps_ok, CriteriaMapping, GenState, SbState, Statement, StatementView,
    VhdlBuilder,
};
use super::from_mir::{
    expr_declared, generate_assignment, generate_expression, generate_read, generate_write,
};
use super::ir::{And, Criterion, Label, NextStateLogic, Operation, OperationId, Or};
use super::logic::{build_logic, clone_or, jumps_view, LogicView};
use super::mir;
use super::render::or_view;
use crate::text::chars::{chars_of, concat_str, str_eq, string_from_chars};
use vstd::prelude::*;

verus! {

/// Gathers the operations and jumps of one statement.
#[derive(Debug)]
pub struct StatementBuilder {
    label: Label,
    operations: Vec<(OperationId, Option<Or<And<Criterion>>>)>,
    next_state_conditional: Vec<(Or<And<Criterion>>, Label)>,
    next_state_default: Label,
    transform: bool,
    criteria_mapping: CriteriaMapping,
}

impl View for StatementBuilder {
    type V = SbState;

    closed spec fn view(&self) -> SbState {
        SbState {
            label: self.label.0@,
            ops: ops_view(self.operations@),
            cond: jumps_view(self.next_state_conditional@),
            default: self.next_state_default.0@,
            transform: self.transform,
            mapping: self.criteria_mapping@,
        }
    }
}

type OpEntry = (OperationId, Option<Or<And<Criterion>>>);

fn find_op(ops: &Vec<OpEntry>, id: OperationId) -> (res: Option<usize>)
    ensures
        match res {
            Some(i) => i < ops@.len() && ops@[i as int].0 == id,
            None => forall|j: int| 0 <= j < ops@.len() ==> (#[trigger] ops@[j]).0 != id,
        },
{
    let mut i: usize = 0;
    while i < ops.len()
        invariant
            i <= ops@.len(),
            forall|j: int| 0 <= j < i ==> (#[trigger] ops@[j]).0 != id,
        decreases ops@.len() - i,
    {
        if ops[i].0 == id {
            return Some(i);
        }
        i = i + 1;
    }
    None
}

fn find_jump(cond: &Vec<(Or<And<Criterion>>, Label)>, label: &Label) -> (res: Option<usize>)
    ensures
        match res {
            Some(i) => i < cond@.len() && cond@[i as int].1.0@ == label.0@,
            None => forall|j: int| 0 <= j < cond@.len() ==> (#[trigger] cond@[j]).1.0@ != label.0@,
        },
{
    let mut i: usize = 0;
    while i < cond.len()
        invariant
            i <= cond@.len(),
            forall|j: int| 0 <= j < i ==> (#[trigger] cond@[j]).1.0@ != label.0@,
        decreases cond@.len() - i,
    {
        if str_eq(cond[i].1.0.as_str(), label.0.as_str()) {
            return Some(i);
        }
        i = i + 1;
    }
    None
}

proof fn lemma_ops_view_insert(s: Seq<OpEntry>, p: int, x: OpEntry)
    requires
        0 <= p <= s.len(),
    ensures
        ops_view(s.insert(p, x)) == ops_view(s).insert(p, entry_view(x)),
{
    assert(ops_view(s.insert(p, x)) =~= ops_view(s).insert(p, entry_view(x)));
}

proof fn lemma_insert_pos_skip(s: Seq<(usize, Option<Seq<Seq<Criterion>>>)>, key: usize, j: int)
    requires
        0 <= j <= s.len(),
        forall|i: int| 0 <= i < j ==> (#[trigger] s[i]).0 <= key,
    ensures
        insert_pos(s, key) == j + insert_pos(s.skip(j), key),
    decreases j,
{
    if j == 0 {
        assert(s.skip(0) =~= s);
    } else {
        assert(s[0].0 <= key);
        assert forall|i: int| 0 <= i < j - 1 implies (#[trigger] s.drop_first()[i]).0 <= key by {
            assert(s.drop_first()[i] == s[i + 1]);
        }
        lemma_insert_pos_skip(s.drop_first(), key, j - 1);
        assert(s.drop_first().skip(j - 1) =~= s.skip(j));
    }
}

fn sort_operations(ops: Vec<OpEntry>) -> (res: Vec<OpEntry>)
    ensures
        ops_view(res@) == sort_ops(ops_view(ops@)),
{
    let ghost orig = ops@;
    let ghost v = ops_view(orig);
    let mut res: Vec<OpEntry> = Vec::new();
    assert(v.take(0) =~= Seq::<(usize, Option<Seq<Seq<Criterion>>>)>::empty());
    for e in it: ops.into_iter()
        invariant
            it.seq() == orig,
            v == ops_view(orig),
            ops_view(res@) == sort_ops(v.take(it.index() as int)),
    {
        let ghost k = it.index();
        assert(e == orig[k as int]);
        let key = e.0.0;
        let ghost rv = ops_view(res@);
        let mut j: usize = 0;
        while j < res.len() && res[j].0.0 <= key
            invariant
                j <= res@.len(),
                rv == ops_view(res@),
                forall|i: int| 0 <= i < j ==> (#[trigger] rv[i]).0 <= key,
            decreases res@.len() - j,
        {
            j = j + 1;
        }
        proof {
            lemma_insert_pos_skip(rv, key, j as int);
            if j < res@.len() {
                assert(rv.skip(j as int)[0] == rv[j as int]);
            }
            assert(insert_pos(rv, key) == j);
            lemma_ops_view_insert(res@, j as int, e);
            let t = v.take(k + 1);
            assert(t.drop_last() =~= v.take(k as int));
            assert(t.last() == entry_view(e));
        }
        res.insert(j, e);
    }
    assert(v.take(orig.len() as int) =~= v);
    res
}

fn clone_ops(ops: &Vec<OpEntry>) -> (res: Vec<OpEntry>)
    ensures
        ops_view(res@) == ops_view(ops@),
{
    let mut res: Vec<OpEntry> = Vec::new();
    let mut k: usize = 0;
    while k < ops.len()
        invariant
            k <= ops@.len(),
            res@.len() == k,
            forall|i: int| 0 <= i < k ==> entry_view(#[trigger] res@[i]) == entry_view(ops@[i]),
        decreases ops@.len() - k,
    {
        let entry = &ops[k];
        let crit = match &entry.1 {
            Some(or) => Some(clone_or(or)),
            None => None,
};
        res.push((entry.0, crit));
        k = k + 1;
    }
    assert(ops_view(res@) =~= ops_view(ops@));
    res
}

fn copy_label(l: &Label) -> (res: Label)
    ensures
        res.0@ == l.0@,
{
    Label(string_from_chars(&chars_of(l.0.as_str())))
}

/// `a`, then `b`, then `c`.
fn join_labels(a: &str, b: &str, c: &str) -> (res: Label)
    ensures
        res.0@ == a@ + b@ + c@,
{
    let ab = concat_str(a, b);
    Label(concat_str(ab.as_str(), c))
}

proof fn lemma_ops_distinct_update(
    ov: Seq<(usize, Option<Seq<Seq<Criterion>>>)>,
    i: int,
    e: (usize, Option<Seq<Seq<Criterion>>>),
)
    requires
        0 <= i < ov.len(),
        e.0 == ov[i].0,
        forall|a: int, b: int| 0 <= a < b < ov.len() ==> ov[a].0 != ov[b].0,
    ensures
        forall|a: int, b: int| 0 <= a < b < ov.len() ==> ov.update(i, e)[a].0 != ov.update(i, e)[b].0,
{
    assert forall|a: int, b: int| 0 <= a < b < ov.len() implies ov.update(i, e)[a].0 != ov.update(
        i,
        e,
    )[b].0 by {
        assert(ov.update(i, e)[a].0 == ov[a].0);
        assert(ov.update(i, e)[b].0 == ov[b].0);
    }
}

proof fn lemma_ops_distinct_push(
    ov: Seq<(usize, Option<Seq<Seq<Criterion>>>)>,
    e: (usize, Option<Seq<Seq<Criterion>>>),
)
    requires
        forall|j: int| 0 <= j < ov.len() ==> ov[j].0 != e.0,
        forall|a: int, b: int| 0 <= a < b < ov.len() ==> ov[a].0 != ov[b].0,
    ensures
        forall|a: int, b: int| 0 <= a < b < ov.push(e).len() ==> ov.push(e)[a].0 != ov.push(e)[b].0,
{
    assert forall|a: int, b: int| 0 <= a < b < ov.push(e).len() implies ov.push(e)[a].0 != ov.push(
        e,
    )[b].0 by {
        if b == ov.len() {
            assert(ov.push(e)[a] == ov[a]);
        } else {
            assert(ov.push(e)[a] == ov[a]);
            assert(ov.push(e)[b] == ov[b]);
        }
    }
}

proof fn lemma_cond_distinct_update(
    cv: Seq<(Seq<Seq<Criterion>>, Seq<char>)>,
    i: int,
    e: (Seq<Seq<Criterion>>, Seq<char>),
)
    requires
        0 <= i < cv.len(),
        e.1 == cv[i].1,
        forall|a: int, b: int| 0 <= a < b < cv.len() ==> cv[a].1 != cv[b].1,
    ensures
        forall|a: int, b: int| 0 <= a < b < cv.len() ==> cv.update(i, e)[a].1 != cv.update(i, e)[b].1,
{
    assert forall|a: int, b: int| 0 <= a < b < cv.len() implies cv.update(i, e)[a].1 != cv.update(
        i,
        e,
    )[b].1 by {
        assert(cv.update(i, e)[a].1 == cv[a].1);
        assert(cv.update(i, e)[b].1 == cv[b].1);
    }
}

proof fn lemma_cond_distinct_push(
    cv: Seq<(Seq<Seq<Criterion>>, Seq<char>)>,
    e: (Seq<Seq<Criterion>>, Seq<char>),
)
    requires
        forall|j: int| 0 <= j < cv.len() ==> cv[j].1 != e.1,
        forall|a: int, b: int| 0 <= a < b < cv.len() ==> cv[a].1 != cv[b].1,
    ensures
        forall|a: int, b: int| 0 <= a < b < cv.push(e).len() ==> cv.push(e)[a].1 != cv.push(e)[b].1,
{
    assert forall|a: int, b: int| 0 <= a < b < cv.push(e).len() implies cv.push(e)[a].1 != cv.push(
        e,
    )[b].1 by {
        if b == cv.len() {
            assert(cv.push(e)[a] == cv[a]);
        } else {
            assert(cv.push(e)[a] == cv[a]);
            assert(cv.push(e)[b] == cv[b]);
        }
    }
}

impl StatementBuilder {
    fn add_op(&mut self, operation_id: OperationId, mir_criteria: &Vec<mir::Criterion>)
        requires
            sb_wf(old(self)@),
            add_op_ok(old(self)@, operation_id.0, mir_criteria@),
        ensures
            sb_wf(final(self)@),
            final(self)@ == spec_add_op(old(self)@, operation_id.0, mir_criteria@),
    {
        let ghost sb = self@;
        let ghost ov = sb.ops;
        let slot = find_op(&self.operations, operation_id);
        proof {
            match slot {
                Some(i) => {
                    assert(ov[i as int].0 == operation_id.0);
                    assert(ops_has(ov, operation_id.0));
                    let c = ops_slot(ov, operation_id.0);
                    if c != i {
                        assert(ov[c].0 != ov[i as int].0);
                    }
                },
                None => {
                    assert forall|j: int| 0 <= j < ov.len() implies ov[j].0 != operation_id.0 by {
                        assert(self.operations@[j].0 != operation_id);
                    }
                },
            }
        }
        if mir_criteria.len() == 0 {
            self.operations.push((operation_id, None));
            proof {
                assert(ops_view(self.operations@) =~= ov.push((operation_id.0, None)));
                lemma_ops_distinct_push(ov, (operation_id.0, None));
                assert(self@.cond == sb.cond);
                assert(self@.ops == ov.push((operation_id.0, None)));
                assert(sb_wf(self@));
            }
        } else {
            let and = And(self.criteria_mapping.map(mir_criteria));
            let ghost av = map_criteria(sb.mapping, mir_criteria@);
            match slot {
                Some(i) => {
                    let ghost before = self.operations@;
                    let (oid, crit) = self.operations.remove(i);
                    let mut or = match crit {
                        Some(or) => or,
                        None => {
                            assert(false);
                            Or(Vec::new())
                        },
};
                    let ghost old_or = or_view(&or);
                    or.0.push(and);
                    assert(or_view(&or) =~= old_or.push(av));
                    self.operations.insert(i, (oid, Some(or)));
                    proof {
                        assert(self.operations@ =~= before.update(i as int, (oid, Some(or))));
                        assert(ops_view(self.operations@) =~= ov.update(
                            i as int,
                            (operation_id.0, Some(ov[i as int].1->0.push(av))),
                        ));
                        lemma_ops_distinct_update(
                            ov,
                            i as int,
                            (operation_id.0, Some(ov[i as int].1->0.push(av))),
                        );
                        assert(self@.cond == sb.cond);
                        assert(sb_wf(self@));
                    }
                },
                None => {
                    let mut ands: Vec<And<Criterion>> = Vec::new();
                    ands.push(and);
                    let or = Or(ands);
                    assert(or_view(&or) =~= seq![av]);
                    self.operations.push((operation_id, Some(or)));
                    proof {
                        assert(ops_view(self.operations@) =~= ov.push(
                            (operation_id.0, Some(seq![av])),
                        ));
                        lemma_ops_distinct_push(ov, (operation_id.0, Some(seq![av])));
                        assert(self@.cond == sb.cond);
                        assert(sb_wf(self@));
                    }
                },
            }
        }
    }

    fn goto(&mut self, label: Label, mir_criteria: &Vec<mir::Criterion>)
        requires
            sb_wf(old(self)@),
            criteria_mapped(old(self)@.mapping, mir_criteria@),
        ensures
            sb_wf(final(self)@),
            final(self)@ == spec_goto(old(self)@, label.0@, mir_criteria@),
    {
        let ghost sb = self@;
        let ghost cv = sb.cond;
        if mir_criteria.len() == 0 {
            self.next_state_default = label;
            assert(self@.ops == sb.ops && self@.cond == sb.cond);
            return;
        }
        let and = And(self.criteria_mapping.map(mir_criteria));
        let ghost av = map_criteria(sb.mapping, mir_criteria@);
        match find_jump(&self.next_state_conditional, &label) {
            Some(i) => {
                proof {
                    assert(cv[i as int].1 == label.0@);
                    assert(cond_has(cv, label.0@));
                    let c = cond_slot(cv, label.0@);
                    if c != i {
                        assert(cv[c].1 != cv[i as int].1);
                    }
                }
                let ghost before = self.next_state_conditional@;
                let (mut or, l) = self.next_state_conditional.remove(i);
                let ghost old_or = or_view(&or);
                or.0.push(and);
                assert(or_view(&or) =~= old_or.push(av));
                self.next_state_conditional.insert(i, (or, l));
                proof {
                    assert(self.next_state_conditional@ =~= before.update(i as int, (or, l)));
                    assert(jumps_view(self.next_state_conditional@) =~= cv.update(
                        i as int,
                        (cv[i as int].0.push(av), label.0@),
                    ));
                    lemma_cond_distinct_update(cv, i as int, (cv[i as int].0.push(av), label.0@));
                    assert(self@.ops == sb.ops);
                    assert(sb_wf(self@));
                }
            },
            None => {
                proof {
                    assert forall|j: int| 0 <= j < cv.len() implies cv[j].1 != label.0@ by {
                        assert(self.next_state_conditional@[j].1.0@ != label.0@);
                    }
                }
                let mut ands: Vec<And<Criterion>> = Vec::new();
                ands.push(and);
                let or = Or(ands);
                assert(or_view(&or) =~= seq![av]);
                let ghost lv = label.0@;
                self.next_state_conditional.push((or, label));
                proof {
                    assert(jumps_view(self.next_state_conditional@) =~= cv.push((seq![av], lv)));
                    lemma_cond_distinct_push(cv, (seq![av], lv));
                    assert(self@.ops == sb.ops);
                    assert(sb_wf(self@));
                }
            },
        }
    }

    fn eval_criterion<'s>(&mut self, ec: &mir::EvalCriterion<'s>, vhdl_builder: &mut VhdlBuilder<'s>)
        requires
            sb_wf(old(self)@),
            old(vhdl_builder).wf(),
            expr_declared(ec.condition, old(vhdl_builder).decls()),
        ensures
            sb_wf(final(self)@),
            final(vhdl_builder).wf(),
            (final(self)@, final(vhdl_builder).state()) == spec_eval(
                old(self)@,
                old(vhdl_builder).state(),
                *ec,
                old(vhdl_builder).decls(),
            ),
            final(vhdl_builder).decls() == old(vhdl_builder).decls(),
            final(vhdl_builder).prefix() == old(vhdl_builder).prefix(),
    {
        let condition = generate_expression(&ec.condition, vhdl_builder.declarations(), 1);
        let criterion_id = vhdl_builder.insert_criterion(condition);
        self.criteria_mapping.insert(ec.criterion_id, criterion_id);
        assert(self@.ops == old(self)@.ops && self@.cond == old(self)@.cond);
    }

    fn add_step<'s>(&mut self, step: &mir::Step<'s>, vhdl_builder: &mut VhdlBuilder<'s>)
        requires
            sb_wf(old(self)@),
            old(vhdl_builder).wf(),
            step_ok(old(self)@, old(vhdl_builder).state(), *step, old(vhdl_builder).decls()),
        ensures
            sb_wf(final(self)@),
            final(vhdl_builder).wf(),
            (final(self)@, final(vhdl_builder).state()) == spec_add_step(
                old(self)@,
                old(vhdl_builder).state(),
                *step,
                old(vhdl_builder).decls(),
            ),
            final(vhdl_builder).decls() == old(vhdl_builder).decls(),
            final(vhdl_builder).prefix() == old(vhdl_builder).prefix(),
    {
        let ghost d = vhdl_builder.decls();
        match &step.operation {
            mir::Operation::EvalCriterion(mir_eval_criterion) => {
                self.eval_criterion(mir_eval_criterion, vhdl_builder);
            },
            mir::Operation::EvalCriterionSwitchGroup(group) => {
                let ghost sb0 = self@;
                let ghost g0 = vhdl_builder.state();
                let mut k: usize = 0;
                assert(group@.take(0) =~= Seq::<mir::EvalCriterion<'s>>::empty());
                while k < group.len()
                    invariant
                        k <= group@.len(),
                        sb_wf(self@),
                        vhdl_builder.wf(),
                        vhdl_builder.decls() == d,
                        vhdl_builder.prefix() == old(vhdl_builder).prefix(),
                        forall|i: int|
                            0 <= i < group@.len() ==> expr_declared(#[trigger] group@[i].condition, d),
                        (self@, vhdl_builder.state()) == spec_eval_group(
                            sb0,
                            g0,
                            group@.take(k as int),
                            d,
                        ),
                    decreases group@.len() - k,
                {
                    self.eval_criterion(&group[k], vhdl_builder);
                    proof {
                        let t = group@.take(k + 1);
                        assert(t.drop_last() =~= group@.take(k as int));
                        assert(t.last() == group@[k as int]);
                    }
                    k = k + 1;
                }
                assert(group@.take(k as int) =~= group@);
            },
            mir::Operation::Goto(mir_goto) => {
                let label = Label::named(mir_goto.0);
                self.goto(label, &step.criteria);
            },
            mir::Operation::Write(mir_write) => {
                let operation = Operation::Write(generate_write(mir_write, vhdl_builder.declarations()));
                let operation_id = vhdl_builder.insert_operation(operation);
                self.add_op(operation_id, &step.criteria);
            },
            mir::Operation::Read(mir_read) => {
                let operation = Operation::Read(generate_read(mir_read, vhdl_builder.declarations()));
                let operation_id = vhdl_builder.insert_operation(operation);
                self.add_op(operation_id, &step.criteria);
            },
            mir::Operation::Assignment(mir_assignment) => {
                let operation = Operation::Assignment(
                    generate_assignment(mir_assignment, vhdl_builder.declarations()),
                );
                let operation_id = vhdl_builder.insert_operation(operation);
                self.add_op(operation_id, &step.criteria);
            },
            mir::Operation::Nop => {},
            mir::Operation::Assert => {},
        }
    }

    fn finish<'s>(self, vhdl_builder: &mut VhdlBuilder<'s>)
        requires
            old(vhdl_builder).wf(),
        ensures
            final(vhdl_builder).wf(),
            final(vhdl_builder).state() == spec_finish(
                self@,
                old(vhdl_builder).state(),
                old(vhdl_builder).prefix(),
            ),
            final(vhdl_builder).decls() == old(vhdl_builder).decls(),
            final(vhdl_builder).prefix() == old(vhdl_builder).prefix(),
    {
        let ghost sb = self@;
        let ghost g0 = vhdl_builder.state();
        let ghost d = vhdl_builder.decls();
        let StatementBuilder {
            label,
            operations,
            next_state_conditional,
            next_state_default,
            transform,
            criteria_mapping: _,
        } = self;
        if !transform {
            let logic = build_logic(next_state_conditional, next_state_default);
            vhdl_builder.push_statement(
                Statement { label, operations, next_state_logic: logic },
            );
            return;
        }
        let prefix = string_from_chars(&chars_of(vhdl_builder.transform_goto_prefix()));
        let ghost p = prefix@;
        let ghost orig = next_state_conditional@;
        let ghost cv = sb.cond;
        let ghost split = Seq::new(
            sb.cond.len(),
            |i: int|
                StatementView {
                    label: sb.label + p + sb.cond[i].1,
                    logic: LogicView::Label(sb.cond[i].1),
                    ops: sb.ops,
                },
        );
        let mut transform_to_conditional: Vec<(Or<And<Criterion>>, Label)> = Vec::new();
        assert(g0.statements + split.take(0) =~= g0.statements);
        for entry in it: next_state_conditional.into_iter()
            invariant
                it.seq() == orig,
                cv == jumps_view(orig),
                sb.label == label.0@,
                sb.ops == ops_view(operations@),
                p == old(vhdl_builder).prefix(),
                prefix@ == p,
                transform_to_conditional@.len() == it.index(),
                split == Seq::new(
                    sb.cond.len(),
                    |i: int|
                        StatementView {
                            label: sb.label + p + sb.cond[i].1,
                            logic: LogicView::Label(sb.cond[i].1),
                            ops: sb.ops,
                        },
                ),
                cv == sb.cond,
                vhdl_builder.wf(),
                vhdl_builder.decls() == d,
                vhdl_builder.prefix() == p,
                vhdl_builder.state() == (GenState {
                    statements: g0.statements + split.take(it.index() as int),
                    ..g0
                }),
                jumps_view(transform_to_conditional@) == Seq::new(
                    it.index() as nat,
                    |i: int| (cv[i].0, sb.label + p + cv[i].1),
                ),
        {
    let ghost k = it.index();
            assert(entry == orig[k as int]);
            assert(cv.len() == orig.len());
            assert(cv[k as int] == (or_view(&orig[k as int].0), orig[k as int].1.0@));
            let (cond, cond_label) = entry;
            let transform_to_label = join_labels(
                label.0.as_str(),
                prefix.as_str(),
                cond_label.0.as_str(),
            );
            let copy = copy_label(&transform_to_label);
            let ghost before = transform_to_conditional@;
            let ghost cond_view = or_view(&cond);
            let ghost copy_view = copy.0@;
            assert(cond_label == orig[k as int].1);
            assert(copy_view == label.0@ + prefix@ + cond_label.0@);
            assert(label.0@ == sb.label);
            assert(prefix@ == p);
            assert(cond_view == cv[k as int].0);
            assert(copy_view == sb.label + p + cv[k as int].1);
            transform_to_conditional.push((cond, copy));
            assert(jumps_view(transform_to_conditional@)[k as int] == (cond_view, copy_view));
            assert(forall|i: int| 0 <= i < k ==> #[trigger] jumps_view(transform_to_conditional@)[i] == jumps_view(before)[i]);
            assert(jumps_view(transform_to_conditional@) =~= Seq::new(
                (k + 1) as nat,
                |i: int| (cv[i].0, sb.label + p + cv[i].1),
            ));
            let ops = clone_ops(&operations);
            let statement = Statement {
                label: transform_to_label,
                operations: ops,
                next_state_logic: NextStateLogic::Label(cond_label),
};
            assert(statement_view(statement) == split[k as int]);
            vhdl_builder.push_statement(statement);
            assert(g0.statements + split.take(k + 1) =~= (g0.statements + split.take(
                k as int,
            )).push(split[k as int]));
        }
        assert(split.take(orig.len() as int) =~= split);
        let transform_to_default = join_labels(
            label.0.as_str(),
            prefix.as_str(),
            next_state_default.0.as_str(),
        );
        let ghost dv = next_state_default.0@;
        let copy = copy_label(&transform_to_default);
        let last = Statement {
    label: copy,
            operations,
            next_state_logic: NextStateLogic::Label(next_state_default),
};
        let ghost lv = statement_view(last);
        vhdl_builder.push_statement(last);
        assert(g0.statements + split.push(lv) =~= (g0.statements + split).push(lv));
        let logic = build_logic(transform_to_conditional, transform_to_default);
        vhdl_builder.insert_transform(label, logic);
    }

    /// Builds the states of the statement labelled `label` from its steps,
    /// with its default jump to `label_next`; if `transform`, its jumps move
    /// into the states before it.
    pub fn build<'s>(
        label: Label,
        label_next: Label,
        steps: &Vec<mir::Step<'s>>,
        transform: bool,
        vhdl_builder: &mut VhdlBuilder<'s>,
    )
        requires
            old(vhdl_builder).wf(),
            steps_ok(
                initial_sb(label.0@, label_next.0@, transform),
                old(vhdl_builder).state(),
                steps@,
                old(vhdl_builder).decls(),
            ),
        ensures
            final(vhdl_builder).wf(),
            final(vhdl_builder).state() == spec_build_statement(
                label.0@,
                label_next.0@,
                transform,
                steps@,
                old(vhdl_builder).state(),
                old(vhdl_builder).decls(),
                old(vhdl_builder).prefix(),
            ),
            final(vhdl_builder).decls() == old(vhdl_builder).decls(),
            final(vhdl_builder).prefix() == old(vhdl_builder).prefix(),
    {
    let ghost init = initial_sb(label.0@, label_next.0@, transform);
        let ghost g0 = vhdl_builder.state();
        let ghost d = vhdl_builder.decls();
        let mut builder = StatementBuilder {
            label,
            operations: Vec::new(),
            next_state_conditional: Vec::new(),
            next_state_default: label_next,
            transform,
            criteria_mapping: CriteriaMapping::new(),
};
        assert(builder@.ops =~= init.ops);
        assert(builder@.cond =~= init.cond);
        assert(builder@ == init);
        assert(steps@.take(0) =~= Seq::<mir::Step<'s>>::empty());
        let mut k: usize = 0;
        while k < steps.len()
            invariant
                k <= steps@.len(),
                sb_wf(builder@),
                vhdl_builder.wf(),
                vhdl_builder.decls() == d,
                vhdl_builder.prefix() == old(vhdl_builder).prefix(),
                steps_ok(init, g0, steps@, d),
                (builder@, vhdl_builder.state()) == spec_add_steps(
                    init,
                    g0,
                    steps@.take(k as int),
                    d,
                ),
            decreases steps@.len() - k,
        {
            proof {
                lemma_steps_ok_prefix(init, g0, steps@, d, k + 1);
                let t = steps@.take(k + 1);
                assert(t.drop_last() =~= steps@.take(k as int));
                assert(t.last() == steps@[k as int]);
            }
            builder.add_step(&steps[k], vhdl_builder);
            k = k + 1;
        }
        assert(steps@.take(k as int) =~= steps@);
        let StatementBuilder {
            label,
            operations,
            next_state_conditional,
            next_state_default,
            transform,
            criteria_mapping,
        } = builder;
        let sorted = StatementBuilder {
    label,
            operations: sort_operations(operations),
            next_state_conditional,
            next_state_default,
            transform,
            criteria_mapping,
};
        sorted.finish(vhdl_builder);
    }
}

proof fn lemma_steps_ok_prefix<'s>(
    sb: SbState,
    g: GenState,
    steps: Seq<mir::Step<'s>>,
    d: super::from_mir::DeclsView<'s>,
    m: int,
)
    requires
        steps_ok(sb, g, steps, d),
        0 <= m <= steps.len(),
    ensures
        steps_ok(sb, g, steps.take(m), d),
    decreases steps.len(),
{
    if m == steps.len() {
        assert(steps.take(m) =~= steps);
    } else {
        lemma_steps_ok_prefix(sb, g, steps.drop_last(), d, m);
        assert(steps.drop_last().take(m) =~= steps.take(m));
    }
}

} // verus!

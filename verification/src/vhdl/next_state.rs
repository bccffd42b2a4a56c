//! What the next state of a statement depends on: the items that the
//! conditions of its conditional jumps read.

use super::deps::{deps_union, NextStateLogicDeps};
use super::ir::BusKind;
use super::mir;
use vstd::prelude::*;

verus! {

pub open spec fn no_deps() -> NextStateLogicDeps {
    NextStateLogicDeps { clocked: false, unclocked: false }
}

pub open spec fn clocked_deps() -> NextStateLogicDeps {
    NextStateLogicDeps { clocked: true, unclocked: false }
}

pub open spec fn unclocked_deps() -> NextStateLogicDeps {
    NextStateLogicDeps { clocked: false, unclocked: true }
}

/// An internal bus is unclocked; an input bus counts as neither.
pub open spec fn bus_deps(kind: BusKind) -> NextStateLogicDeps {
    match kind {
        BusKind::Intern => unclocked_deps(),
        BusKind::Input => no_deps(),
    }
}

/// Registers and register arrays are clocked; numbers are neither.
pub open spec fn mir_part_deps<'s>(p: mir::ConcatPartExpr<'s>) -> NextStateLogicDeps {
    match p {
        mir::ConcatPartExpr::Register(_) => clocked_deps(),
        mir::ConcatPartExpr::Bus(b) => bus_deps(b.kind),
        mir::ConcatPartExpr::RegisterArray(_) => clocked_deps(),
        mir::ConcatPartExpr::Number(_) => no_deps(),
    }
}

pub open spec fn mir_parts_deps<'s>(ps: Seq<mir::ConcatPartExpr<'s>>) -> NextStateLogicDeps
    decreases ps.len(),
{
    if ps.len() == 0 {
        no_deps()
    } else {
        deps_union(mir_parts_deps(ps.drop_last()), mir_part_deps(ps.last()))
    }
}

/// The dependencies of an expression; the index of a register array is
/// not looked into.
pub open spec fn mir_expr_deps<'s>(m: mir::Expression<'s>) -> NextStateLogicDeps
    decreases m,
{
    match m {
        mir::Expression::Atom(a) => match a {
            mir::Atom::Concat(ps) => mir_parts_deps(ps@),
            mir::Atom::Register(_) => clocked_deps(),
            mir::Atom::Bus(b) => bus_deps(b.kind),
            mir::Atom::RegisterArray(_) => clocked_deps(),
            mir::Atom::Number(_) => no_deps(),
        },
        mir::Expression::BinaryTerm(t) => deps_union(mir_expr_deps(t.lhs), mir_expr_deps(t.rhs)),
        mir::Expression::UnaryTerm(t) => mir_expr_deps(t.expression),
    }
}

/// The condition that the group evaluates last as criterion `id`.
pub open spec fn group_condition<'s>(items: Seq<mir::EvalCriterion<'s>>, id: usize) -> Option<
    mir::Expression<'s>,
>
    decreases items.len(),
{
    if items.len() == 0 {
        None
    } else if items.last().criterion_id.0 == id {
        Some(items.last().condition)
    } else {
        group_condition(items.drop_last(), id)
    }
}

pub open spec fn step_condition<'s>(step: mir::Step<'s>, id: usize) -> Option<mir::Expression<'s>> {
    match step.operation {
        mir::Operation::EvalCriterion(ec) => if ec.criterion_id.0 == id {
            Some(ec.condition)
        } else {
            None
        },
        mir::Operation::EvalCriterionSwitchGroup(items) => group_condition(items@, id),
        _ => None,
    }
}

/// The condition that the steps evaluate last as criterion `id`.
pub open spec fn last_condition<'s>(steps: Seq<mir::Step<'s>>, id: usize) -> Option<
    mir::Expression<'s>,
>
    decreases steps.len(),
{
    if steps.len() == 0 {
        None
    } else {
        match step_condition(steps.last(), id) {
            Some(c) => Some(c),
            None => last_condition(steps.drop_last(), id),
        }
    }
}

/// The dependencies of the conditions of the criteria, as `all` evaluates
/// them.
pub open spec fn criteria_deps<'s>(cs: Seq<mir::Criterion>, all: Seq<mir::Step<'s>>) -> NextStateLogicDeps
    decreases cs.len(),
{
    if cs.len() == 0 {
        no_deps()
    } else {
        deps_union(
            criteria_deps(cs.drop_last(), all),
            mir_expr_deps(last_condition(all, mir::criterion_id(cs.last()).0)->0),
        )
    }
}

/// The dependencies of the criteria of the jumps among `steps`.
pub open spec fn gotos_deps<'s>(steps: Seq<mir::Step<'s>>, all: Seq<mir::Step<'s>>) -> NextStateLogicDeps
    decreases steps.len(),
{
    if steps.len() == 0 {
        no_deps()
    } else {
        deps_union(
            gotos_deps(steps.drop_last(), all),
            match steps.last().operation {
                mir::Operation::Goto(_) => criteria_deps(steps.last().criteria@, all),
                _ => no_deps(),
            },
        )
    }
}

/// Some step comes after the pipe.
pub open spec fn has_pipe<'s>(steps: Seq<mir::Step<'s>>) -> bool {
    exists|i: int| 0 <= i < steps.len() && (#[trigger] steps[i]).is_post_pipe
}

/// What the next state depends on: nothing if the statement has a pipe
/// (its jumps then come after it), else what the conditions of the
/// criteria of its jumps read.
pub open spec fn spec_next_state_logic_deps<'s>(steps: Seq<mir::Step<'s>>) -> NextStateLogicDeps {
    if has_pipe(steps) {
        no_deps()
    } else {
        gotos_deps(steps, steps)
    }
}

/// Each criterion of a jump is evaluated in the statement.
pub open spec fn gotos_resolve<'s>(steps: Seq<mir::Step<'s>>) -> bool {
    forall|k: int, j: int|
        0 <= k < steps.len() && (#[trigger] steps[k]).operation is Goto && 0 <= j
            < steps[k].criteria@.len() ==> last_condition(
            steps,
            mir::criterion_id(#[trigger] steps[k].criteria@[j]).0,
        ) is Some
}

fn union(a: NextStateLogicDeps, b: NextStateLogicDeps) -> (res: NextStateLogicDeps)
    ensures
        res == deps_union(a, b),
{
    NextStateLogicDeps { clocked: a.clocked || b.clocked, unclocked: a.unclocked || b.unclocked }
}

fn bus(kind: BusKind) -> (res: NextStateLogicDeps)
    ensures
        res == bus_deps(kind),
{
    match kind {
        BusKind::Intern => NextStateLogicDeps::unclocked(),
        BusKind::Input => NextStateLogicDeps::empty(),
    }
}

fn mir_deps_expr<'s>(expr: &mir::Expression<'s>) -> (res: NextStateLogicDeps)
    ensures
        res == mir_expr_deps(*expr),
    decreases expr,
{
    match expr {
        mir::Expression::Atom(atom) => match atom {
            mir::Atom::Concat(parts) => {
                let mut deps = NextStateLogicDeps::empty();
                let mut k: usize = 0;
                assert(parts@.take(0) =~= Seq::<mir::ConcatPartExpr<'s>>::empty());
                while k < parts.len()
                    invariant
                        k <= parts@.len(),
                        deps == mir_parts_deps(parts@.take(k as int)),
                    decreases parts@.len() - k,
                {
                    let part = match &parts[k] {
                        mir::ConcatPartExpr::Register(_) => NextStateLogicDeps::clocked(),
                        mir::ConcatPartExpr::Bus(b) => bus(b.kind),
                        mir::ConcatPartExpr::RegisterArray(_) => NextStateLogicDeps::clocked(),
                        mir::ConcatPartExpr::Number(_) => NextStateLogicDeps::empty(),
                    };
                    deps = union(deps, part);
                    assert(parts@.take(k + 1).drop_last() =~= parts@.take(k as int));
                    k = k + 1;
                }
                assert(parts@.take(k as int) =~= parts@);
                deps
            },
            mir::Atom::Register(_) => NextStateLogicDeps::clocked(),
            mir::Atom::Bus(b) => bus(b.kind),
            mir::Atom::RegisterArray(_) => NextStateLogicDeps::clocked(),
            mir::Atom::Number(_) => NextStateLogicDeps::empty(),
        },
        mir::Expression::BinaryTerm(t) => union(mir_deps_expr(&t.lhs), mir_deps_expr(&t.rhs)),
        mir::Expression::UnaryTerm(t) => mir_deps_expr(&t.expression),
    }
}

fn find_condition<'a, 's>(steps: &'a Vec<mir::Step<'s>>, id: mir::CriterionId) -> (res: Option<
    &'a mir::Expression<'s>,
>)
    ensures
        match res {
            Some(e) => last_condition(steps@, id.0) == Some(*e),
            None => last_condition(steps@, id.0) is None,
        },
{
    let mut i: usize = steps.len();
    assert(steps@.take(steps@.len() as int) =~= steps@);
    while i > 0
        invariant
            i <= steps@.len(),
            last_condition(steps@, id.0) == last_condition(steps@.take(i as int), id.0),
        decreases i,
    {
        let ghost t = steps@.take(i as int);
        assert(t.drop_last() =~= steps@.take(i - 1));
        assert(t.last() == steps@[i - 1]);
        match &steps[i - 1].operation {
            mir::Operation::EvalCriterion(ec) => {
                if ec.criterion_id.0 == id.0 {
                    return Some(&ec.condition);
                }
            },
            mir::Operation::EvalCriterionSwitchGroup(items) => {
                let mut j: usize = items.len();
                assert(items@.take(items@.len() as int) =~= items@);
                assert(step_condition(steps@[i - 1], id.0) == group_condition(items@, id.0));
                while j > 0
                    invariant
                        j <= items@.len(),
                        group_condition(items@, id.0) == group_condition(items@.take(j as int), id.0),
                        0 < i <= steps@.len(),
                        last_condition(steps@, id.0) == last_condition(steps@.take(i as int), id.0),
                        steps@.take(i as int).drop_last() == steps@.take(i - 1),
                        steps@.take(i as int).last() == steps@[i - 1],
                        step_condition(steps@[i - 1], id.0) == group_condition(items@, id.0),
                    decreases j,
                {
                    let ghost u = items@.take(j as int);
                    assert(u.drop_last() =~= items@.take(j - 1));
                    if items[j - 1].criterion_id.0 == id.0 {
                        return Some(&items[j - 1].condition);
                    }
                    j = j - 1;
                }
                assert(items@.take(0) =~= Seq::<mir::EvalCriterion<'s>>::empty());
            },
            _ => {},
        }
        i = i - 1;
    }
    assert(steps@.take(0) =~= Seq::<mir::Step<'s>>::empty());
    None
}

/// What the next state of the statement depends on.
pub fn next_state_logic_deps<'s>(statement: &mir::Statement<'s>) -> (res: NextStateLogicDeps)
    requires
        !has_pipe(statement.steps@) ==> gotos_resolve(statement.steps@),
    ensures
        res == spec_next_state_logic_deps(statement.steps@),
{
    let steps = &statement.steps;
    let mut i: usize = 0;
    while i < steps.len()
        invariant
            i <= steps@.len(),
            steps@ == statement.steps@,
            forall|j: int| 0 <= j < i ==> !(#[trigger] steps@[j]).is_post_pipe,
        decreases steps@.len() - i,
    {
        if steps[i].is_post_pipe {
            assert(statement.steps@[i as int].is_post_pipe);
            assert(has_pipe(statement.steps@));
            return NextStateLogicDeps::empty();
        }
        i = i + 1;
    }
    let mut deps = NextStateLogicDeps::empty();
    let mut k: usize = 0;
    assert(steps@.take(0) =~= Seq::<mir::Step<'s>>::empty());
    while k < steps.len()
        invariant
            k <= steps@.len(),
            steps@ == statement.steps@,
            gotos_resolve(steps@),
            deps == gotos_deps(steps@.take(k as int), steps@),
        decreases steps@.len() - k,
    {
        let ghost before = deps;
        let step = &steps[k];
        let ghost t = steps@.take(k + 1);
        assert(t.drop_last() =~= steps@.take(k as int));
        assert(t.last() == steps@[k as int]);
        match &step.operation {
            mir::Operation::Goto(_) => {
                let cs = &step.criteria;
                let mut j: usize = 0;
                assert(cs@.take(0) =~= Seq::<mir::Criterion>::empty());
                while j < cs.len()
                    invariant
                        j <= cs@.len(),
                        k < steps@.len(),
                        steps@[k as int].operation is Goto,
                        cs@ == steps@[k as int].criteria@,
                        gotos_resolve(steps@),
                        deps == deps_union(before, criteria_deps(cs@.take(j as int), steps@)),
                    decreases cs@.len() - j,
                {
                    assert(last_condition(steps@, mir::criterion_id(steps@[k as int].criteria@[j as int]).0) is Some);
                    let cond = match find_condition(steps, cs[j].id()) {
                        Some(e) => e,
                        None => {
                            assert(false);
                            return NextStateLogicDeps::empty();
                        },
                    };
                    deps = union(deps, mir_deps_expr(cond));
                    assert(cs@.take(j + 1).drop_last() =~= cs@.take(j as int));
                    j = j + 1;
                }
                assert(cs@.take(j as int) =~= cs@);
            },
            _ => {},
        }
        k = k + 1;
    }
    assert(steps@.take(k as int) =~= steps@);
    deps
}

} // verus!

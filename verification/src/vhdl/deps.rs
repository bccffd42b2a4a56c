//! What the next state depends on: clocked items (registers) or unclocked
//! ones (buses).

use super::error::SynthError;
use super::ir::{Atom, ConcatPartExpr, Expression, ExpressionKind, Operation};
use vstd::prelude::*;

verus! {

/// Whether something depends on clocked items, and whether on unclocked
/// ones.
#[derive(Debug, Clone, Copy, PartialEq, Eq, Structural)]
pub struct NextStateLogicDeps {
    pub clocked: bool,
    pub unclocked: bool,
}

impl NextStateLogicDeps {
    /// No dependency.
    pub fn empty() -> (res: Self)
        ensures
            res == (NextStateLogicDeps { clocked: false, unclocked: false }),
    {
        Self { clocked: false, unclocked: false }
    }

    /// A clocked dependency.
    pub fn clocked() -> (res: Self)
        ensures
            res == (NextStateLogicDeps { clocked: true, unclocked: false }),
    {
        Self { clocked: true, unclocked: false }
    }

    /// An unclocked dependency.
    pub fn unclocked() -> (res: Self)
        ensures
            res == (NextStateLogicDeps { clocked: false, unclocked: true }),
    {
        Self { clocked: false, unclocked: true }
    }
}

/// The dependencies of both.
pub open spec fn deps_union(a: NextStateLogicDeps, b: NextStateLogicDeps) -> NextStateLogicDeps {
    NextStateLogicDeps { clocked: a.clocked || b.clocked, unclocked: a.unclocked || b.unclocked }
}

impl core::ops::BitOr for NextStateLogicDeps {
    type Output = NextStateLogicDeps;

    fn bitor(self, rhs: NextStateLogicDeps) -> (res: NextStateLogicDeps)
        ensures
            res == deps_union(self, rhs),
    {
        Self { clocked: self.clocked || rhs.clocked, unclocked: self.unclocked || rhs.unclocked }
    }
}

impl vstd::std_specs::ops::BitOrSpecImpl for NextStateLogicDeps {
    open spec fn obeys_bitor_spec() -> bool {
        true
    }

    open spec fn bitor_req(self, rhs: NextStateLogicDeps) -> bool {
        true
    }

    open spec fn bitor_spec(self, rhs: NextStateLogicDeps) -> NextStateLogicDeps {
        deps_union(self, rhs)
    }
}

/// The dependencies of a part of a concatenation: registers and register
/// arrays are clocked, buses are not, numbers are neither.
pub open spec fn part_deps(p: ConcatPartExpr) -> NextStateLogicDeps {
    match p {
        ConcatPartExpr::Register(_) => NextStateLogicDeps { clocked: true, unclocked: false },
        ConcatPartExpr::Bus(_) => NextStateLogicDeps { clocked: false, unclocked: true },
        ConcatPartExpr::RegisterArray(_) => NextStateLogicDeps { clocked: true, unclocked: false },
        ConcatPartExpr::Number(_) => NextStateLogicDeps { clocked: false, unclocked: false },
    }
}

/// The dependencies of all parts.
pub open spec fn parts_deps(ps: Seq<ConcatPartExpr>) -> NextStateLogicDeps
    decreases ps.len(),
{
    if ps.len() == 0 {
        NextStateLogicDeps { clocked: false, unclocked: false }
    } else {
        deps_union(parts_deps(ps.drop_last()), part_deps(ps.last()))
    }
}

/// The dependencies of an expression: those of everything it reads.
pub open spec fn expr_deps(e: Expression) -> NextStateLogicDeps
    decreases e,
{
    match e.kind {
        ExpressionKind::Atom(Atom::Concat(c)) => parts_deps(c.parts@),
        ExpressionKind::Atom(Atom::Register(_)) => NextStateLogicDeps {
            clocked: true,
            unclocked: false,
        },
        ExpressionKind::Atom(Atom::Bus(_)) => NextStateLogicDeps { clocked: false, unclocked: true },
        ExpressionKind::Atom(Atom::RegisterArray(_)) => NextStateLogicDeps {
            clocked: true,
            unclocked: false,
        },
        ExpressionKind::Atom(Atom::Number(_)) => NextStateLogicDeps {
            clocked: false,
            unclocked: false,
        },
        ExpressionKind::BinaryTerm(t) => deps_union(expr_deps(t.lhs), expr_deps(t.rhs)),
        ExpressionKind::UnaryTerm(t) => expr_deps(t.expression),
    }
}

fn deps_concat(parts: &Vec<ConcatPartExpr>) -> (res: NextStateLogicDeps)
    ensures
        res == parts_deps(parts@),
{
    let mut deps = NextStateLogicDeps::empty();
    let mut k: usize = 0;
    assert(parts@.take(0) =~= Seq::<ConcatPartExpr>::empty());
    while k < parts.len()
        invariant
            k <= parts@.len(),
            deps == parts_deps(parts@.take(k as int)),
        decreases parts@.len() - k,
    {
        let part = match &parts[k] {
            ConcatPartExpr::Register(_) => NextStateLogicDeps::clocked(),
            ConcatPartExpr::Bus(_) => NextStateLogicDeps::unclocked(),
            ConcatPartExpr::RegisterArray(_) => NextStateLogicDeps::clocked(),
            ConcatPartExpr::Number(_) => NextStateLogicDeps::empty(),
        };
        deps = deps | part;
        assert(parts@.take(k + 1).drop_last() =~= parts@.take(k as int));
        k = k + 1;
    }
    assert(parts@.take(parts@.len() as int) =~= parts@);
    deps
}

/// The dependencies of an expression.
pub fn deps_expr(expr: &Expression) -> (res: NextStateLogicDeps)
    ensures
        res == expr_deps(*expr),
    decreases expr,
{
    match &expr.kind {
        ExpressionKind::Atom(Atom::Concat(concat)) => deps_concat(&concat.parts),
        ExpressionKind::Atom(Atom::Register(_)) => NextStateLogicDeps::clocked(),
        ExpressionKind::Atom(Atom::Bus(_)) => NextStateLogicDeps::unclocked(),
        ExpressionKind::Atom(Atom::RegisterArray(_)) => NextStateLogicDeps::clocked(),
        ExpressionKind::Atom(Atom::Number(_)) => NextStateLogicDeps::empty(),
        ExpressionKind::BinaryTerm(term) => deps_expr(&term.lhs) | deps_expr(&term.rhs),
        ExpressionKind::UnaryTerm(term) => deps_expr(&term.expression),
    }
}

/// The dependencies of all criteria.
pub open spec fn criteria_deps(cs: Seq<&Expression>) -> NextStateLogicDeps
    decreases cs.len(),
{
    if cs.len() == 0 {
        NextStateLogicDeps { clocked: false, unclocked: false }
    } else {
        deps_union(criteria_deps(cs.drop_last()), expr_deps(*cs.last()))
    }
}

/// Whether the next state logic of a state must move to the states before
/// it, given the criteria that it tests: an error if a criterion reads an
/// unclocked item, else whether one reads a clocked item.
pub fn should_transform_next_state_logic(
    operations: &Vec<&Operation>,
    criteria: &Vec<&Expression>,
) -> (res: Result<bool, SynthError>)
    ensures
        criteria_deps(criteria@).unclocked ==> res == Err::<bool, SynthError>(
            SynthError::UnclockedGotoDependency,
        ),
        !criteria_deps(criteria@).unclocked ==> res == Ok::<bool, SynthError>(
            criteria_deps(criteria@).clocked,
        ),
{
    let mut deps = NextStateLogicDeps::empty();
    let mut k: usize = 0;
    assert(criteria@.take(0) =~= Seq::<&Expression>::empty());
    while k < criteria.len()
        invariant
            k <= criteria@.len(),
            deps == criteria_deps(criteria@.take(k as int)),
        decreases criteria@.len() - k,
    {
        deps = deps | deps_expr(criteria[k]);
        assert(criteria@.take(k + 1).drop_last() =~= criteria@.take(k as int));
        k = k + 1;
    }
    assert(criteria@.take(criteria@.len() as int) =~= criteria@);
    if deps.unclocked {
        Err(SynthError::UnclockedGotoDependency)
    } else {
        Ok(deps.clocked)
    }
}

} // verus!

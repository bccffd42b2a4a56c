//! Assembling the VHDL representation of a program statement by statement:
//! the criteria and operations of the whole program, each kept once and
//! numbered in the order in which it first occurs, and the states with the
//! operations they run and the logic that picks the next state.

use super::error::SynthError;
use super::from_mir::{
    decls_view, expr_declared, find_named, gen_assignment, gen_expr, gen_read, gen_write,
    generate_declarations, lvalue_declared, memories_resolve, spec_declarations, DeclsView,
};
use super::generate::{
    any_label_contains, calc_label_goto_prefix, goto_prefix, make_label,
};
use super::ir::{
    named_prefix, terminated_text, unnamed_prefix, And, Criterion, CriterionId, Declarations,
    Expression, Label, NextStateLogic, Operation, OperationId, Or,
};
use super::logic::{clone_logic, logic_view, spec_build_logic, transform, transformed, LogicView};
use super::next_state::{gotos_resolve, has_pipe, next_state_logic_deps, spec_next_state_logic_deps};
use super::statement::StatementBuilder;
use crate::value::format::dec_string;
use super::mir;
use super::render::or_view;
use super::view::{expr_key, expr_view, op_key, op_view, same_expr, same_op, ExprView, OpView};
use crate::text::chars::str_eq;
use vstd::prelude::*;

verus! {

/// A state of the program: its label, the operations it runs, each with
/// the criteria under which it runs (none: always), and the logic that
/// picks the next state.
#[derive(Debug)]
pub struct Statement {
    pub label: Label,
    pub next_state_logic: NextStateLogic,
    pub operations: Vec<(OperationId, Option<Or<And<Criterion>>>)>,
}

/// An operation of a state with its criteria as sequences.
pub open spec fn entry_view(e: (OperationId, Option<Or<And<Criterion>>>)) -> (
    usize,
    Option<Seq<Seq<Criterion>>>,
) {
    (
        e.0.0,
        match e.1 {
            Some(or) => Some(or_view(&or)),
            None => None,
        },
    )
}

/// The operations of a state with their criteria as sequences.
pub open spec fn ops_view(ops: Seq<(OperationId, Option<Or<And<Criterion>>>)>) -> Seq<
    (usize, Option<Seq<Seq<Criterion>>>),
> {
    Seq::new(ops.len(), |i: int| entry_view(ops[i]))
}

/// A state as a value.
pub struct StatementView {
    pub label: Seq<char>,
    pub logic: LogicView,
    pub ops: Seq<(usize, Option<Seq<Seq<Criterion>>>)>,
}

pub open spec fn statement_view(s: Statement) -> StatementView {
    StatementView {
        label: s.label.0@,
        logic: logic_view(s.next_state_logic),
        ops: ops_view(s.operations@),
    }
}

pub open spec fn statements_view(s: Seq<Statement>) -> Seq<StatementView> {
    Seq::new(s.len(), |i: int| statement_view(s[i]))
}

/// A whole program: its states, its criteria and operations (each state
/// refers to them by their index), and its declarations.
#[derive(Debug)]
pub struct Vhdl<'s> {
    pub statements: Vec<Statement>,
    pub criteria: Vec<Expression<'s>>,
    pub operations: Vec<Operation<'s>>,
    pub declarations: Declarations<'s>,
}

/// The criteria of a statement, numbered by the compiler, and the criteria
/// of the program that they became.
#[derive(Debug)]
pub struct CriteriaMapping(Vec<(mir::CriterionId, CriterionId)>);

/// The mapping that the insertions build, the last one winning.
pub open spec fn mapping_view(s: Seq<(mir::CriterionId, CriterionId)>) -> Map<usize, usize>
    decreases s.len(),
{
    if s.len() == 0 {
        Map::empty()
    } else {
        mapping_view(s.drop_last()).insert(s.last().0.0, s.last().1.0)
    }
}

proof fn lemma_mapping_tail(s: Seq<(mir::CriterionId, CriterionId)>, i: int, key: usize)
    requires
        0 <= i <= s.len(),
        forall|j: int| i <= j < s.len() ==> (#[trigger] s[j]).0.0 != key,
    ensures
        mapping_view(s).contains_key(key) == mapping_view(s.take(i)).contains_key(key),
        mapping_view(s)[key] == mapping_view(s.take(i))[key],
    decreases s.len() - i,
{
    if i < s.len() {
        assert(s.drop_last().take(i) =~= s.take(i));
        lemma_mapping_tail(s.drop_last(), i, key);
    } else {
        assert(s.take(i) =~= s);
    }
}

/// The criterion of the program that a criterion of the statement became.
pub open spec fn map_criterion(m: Map<usize, usize>, c: mir::Criterion) -> Criterion {
    match c {
        mir::Criterion::True(id) => Criterion::True(CriterionId(m[id.0])),
        mir::Criterion::False(id) => Criterion::False(CriterionId(m[id.0])),
    }
}

pub open spec fn map_criteria(m: Map<usize, usize>, cs: Seq<mir::Criterion>) -> Seq<Criterion> {
    Seq::new(cs.len(), |i: int| map_criterion(m, cs[i]))
}

/// Every criterion is mapped.
pub open spec fn criteria_mapped(m: Map<usize, usize>, cs: Seq<mir::Criterion>) -> bool {
    forall|i: int| 0 <= i < cs.len() ==> m.contains_key(mir::criterion_id(#[trigger] cs[i]).0)
}

impl View for CriteriaMapping {
    type V = Map<usize, usize>;

    closed spec fn view(&self) -> Map<usize, usize> {
        mapping_view(self.0@)
    }
}

impl CriteriaMapping {
    /// The empty mapping.
    pub fn new() -> (res: Self)
        ensures
            res@ == Map::<usize, usize>::empty(),
    {
        CriteriaMapping(Vec::new())
    }

    /// Maps `from` to `to`.
    pub fn insert(&mut self, from: mir::CriterionId, to: CriterionId)
        ensures
            final(self)@ == old(self)@.insert(from.0, to.0),
    {
        let ghost s = self.0@;
        self.0.push((from, to));
        assert(self.0@.drop_last() =~= s);
    }

    fn get(&self, id: mir::CriterionId) -> (res: CriterionId)
        requires
            self@.contains_key(id.0),
        ensures
            res.0 == self@[id.0],
    {
        let ghost s = self.0@;
        let mut i: usize = self.0.len();
        while i > 0
            invariant
                i <= s.len(),
                s == self.0@,
                forall|j: int| i <= j < s.len() ==> (#[trigger] s[j]).0.0 != id.0,
                mapping_view(s).contains_key(id.0),
            decreases i,
        {
            let entry = self.0[i - 1];
            if entry.0.0 == id.0 {
                proof {
                    lemma_mapping_tail(s, i as int, id.0);
                    assert(s.take(i as int).drop_last() =~= s.take(i - 1));
                    assert(s.take(i as int).last() == entry);
                }
                return entry.1;
            }
            i = i - 1;
        }
        proof {
            lemma_mapping_tail(s, 0, id.0);
            assert(s.take(0) =~= Seq::<(mir::CriterionId, CriterionId)>::empty());
        }
        CriterionId(0)
    }

    /// The criteria of the program that the criteria of the statement became.
    pub fn map(&self, mir_criteria: &Vec<mir::Criterion>) -> (res: Vec<Criterion>)
        requires
            criteria_mapped(self@, mir_criteria@),
        ensures
            res@ == map_criteria(self@, mir_criteria@),
    {
    let mut res: Vec<Criterion> = Vec::new();
        let mut k: usize = 0;
        while k < mir_criteria.len()
            invariant
                k <= mir_criteria@.len(),
                criteria_mapped(self@, mir_criteria@),
                res@ =~= map_criteria(self@, mir_criteria@.take(k as int)),
            decreases mir_criteria@.len() - k,
        {
            let c = match mir_criteria[k] {
                mir::Criterion::True(id) => Criterion::True(self.get(id)),
                mir::Criterion::False(id) => Criterion::False(self.get(id)),
};
            res.push(c);
            k = k + 1;
            assert(res@ =~= map_criteria(self@, mir_criteria@.take(k as int)));
        }
        assert(mir_criteria@.take(k as int) =~= mir_criteria@);
        res
    }
}

/// No two criteria are the same.
pub open spec fn criteria_distinct(s: Seq<ExprView>) -> bool {
    forall|i: int, j: int| 0 <= i < j < s.len() ==> expr_key(s[i]) != expr_key(s[j])
}

/// The criteria with `x` added unless one of them is the same.
pub open spec fn criteria_insert(s: Seq<ExprView>, x: ExprView) -> Seq<ExprView> {
    if exists|i: int| 0 <= i < s.len() && expr_key(s[i]) == expr_key(x) {
        s
    } else {
        s.push(x)
    }
}

/// The index of the criterion that is the same as `x`.
pub open spec fn criterion_index(s: Seq<ExprView>, x: ExprView) -> int {
    choose|i: int| 0 <= i < s.len() && expr_key(s[i]) == expr_key(x)
}

/// No two operations are the same.
pub open spec fn operations_distinct(s: Seq<OpView>) -> bool {
    forall|i: int, j: int| 0 <= i < j < s.len() ==> op_key(s[i]) != op_key(s[j])
}

/// The operations with `x` added unless one of them is the same.
pub open spec fn operations_insert(s: Seq<OpView>, x: OpView) -> Seq<OpView> {
    if exists|i: int| 0 <= i < s.len() && op_key(s[i]) == op_key(x) {
        s
    } else {
        s.push(x)
    }
}

/// The index of the operation that is the same as `x`.
pub open spec fn operation_index(s: Seq<OpView>, x: OpView) -> int {
    choose|i: int| 0 <= i < s.len() && op_key(s[i]) == op_key(x)
}

/// The labels of the transformations are distinct.
pub open spec fn transforms_distinct(s: Seq<(Seq<char>, LogicView)>) -> bool {
    forall|i: int, j: int| 0 <= i < j < s.len() ==> s[i].0 != s[j].0
}

/// The transformations with the one of `from` set to `to`.
pub open spec fn transforms_insert(
    s: Seq<(Seq<char>, LogicView)>,
    from: Seq<char>,
    to: LogicView,
) -> Seq<(Seq<char>, LogicView)> {
    if exists|i: int| 0 <= i < s.len() && s[i].0 == from {
        s.update(choose|i: int| 0 <= i < s.len() && s[i].0 == from, (from, to))
    } else {
        s.push((from, to))
    }
}

/// What the builder has gathered: the states, the criteria and operations
/// of the program, and for each state whose jumps were moved into the
/// states before it, the logic that replaces the jumps to it.
pub struct GenState {
    pub statements: Seq<StatementView>,
    pub criteria: Seq<ExprView>,
    pub operations: Seq<OpView>,
    pub transforms: Seq<(Seq<char>, LogicView)>,
}

/// Gathers the states, criteria and operations of a program.
#[derive(Debug)]
pub struct VhdlBuilder<'s> {
    statements: Vec<Statement>,
    criteria: Vec<Expression<'s>>,
    operations: Vec<Operation<'s>>,
    declarations: Declarations<'s>,
    transform: Vec<(Label, NextStateLogic)>,
    transform_goto_prefix: String,
}

impl<'s> VhdlBuilder<'s> {
    /// What the builder has gathered.
    pub closed spec fn state(&self) -> GenState {
        GenState {
            statements: statements_view(self.statements@),
            criteria: Seq::new(self.criteria@.len(), |i: int| expr_view(self.criteria@[i])),
            operations: Seq::new(self.operations@.len(), |i: int| op_view(self.operations@[i])),
            transforms: Seq::new(
                self.transform@.len(),
                |i: int| (self.transform@[i].0.0@, logic_view(self.transform@[i].1)),
            ),
        }
    }

    /// The declarations of the program.
    pub closed spec fn decls(&self) -> DeclsView<'s> {
        decls_view(self.declarations)
    }

    /// The text between the label of a state and the label of its target
    /// in the states that a transformation creates.
    pub closed spec fn prefix(&self) -> Seq<char> {
        self.transform_goto_prefix@
    }

    /// Criteria, operations and transformations are each kept once.
    pub open spec fn wf(&self) -> bool {
        &&& criteria_distinct(self.state().criteria)
        &&& operations_distinct(self.state().operations)
        &&& transforms_distinct(self.state().transforms)
    }

    fn new(declarations: Declarations<'s>, transform_goto_prefix: String) -> (res: Self)
        ensures
            res.wf(),
            res.state().statements.len() == 0,
            res.state().criteria.len() == 0,
            res.state().operations.len() == 0,
            res.state().transforms.len() == 0,
            res.decls() == decls_view(declarations),
            res.prefix() == transform_goto_prefix@,
    {
        VhdlBuilder {
            statements: Vec::new(),
            criteria: Vec::new(),
            operations: Vec::new(),
            declarations,
            transform: Vec::new(),
            transform_goto_prefix,
        }
    }

    /// Adds a state.
    pub fn push_statement(&mut self, statement: Statement)
        requires
            old(self).wf(),
        ensures
            final(self).wf(),
            final(self).state() == (GenState {
                statements: old(self).state().statements.push(statement_view(statement)),
                ..old(self).state()
            }),
            final(self).decls() == old(self).decls(),
            final(self).prefix() == old(self).prefix(),
    {
        let ghost sv = statement_view(statement);
        self.statements.push(statement);
        assert(self.state().statements =~= old(self).state().statements.push(sv));
        assert(self.state().criteria =~= old(self).state().criteria);
        assert(self.state().operations =~= old(self).state().operations);
        assert(self.state().transforms =~= old(self).state().transforms);
    }

    /// The number of the criterion: that of the same criterion if the
    /// program has it, else of `expr`, added last.
    pub fn insert_criterion(&mut self, expr: Expression<'s>) -> (res: CriterionId)
        requires
            old(self).wf(),
        ensures
            final(self).wf(),
            final(self).state() == (GenState {
                criteria: criteria_insert(old(self).state().criteria, expr_view(expr)),
                ..old(self).state()
            }),
            res.0 == criterion_index(final(self).state().criteria, expr_view(expr)),
            final(self).decls() == old(self).decls(),
            final(self).prefix() == old(self).prefix(),
    {
        let ghost s = old(self).state().criteria;
        let ghost v = expr_view(expr);
        let mut i: usize = 0;
        while i < self.criteria.len()
            invariant
                i <= self.criteria@.len(),
                s == Seq::new(self.criteria@.len(), |i: int| expr_view(self.criteria@[i])),
                forall|j: int| 0 <= j < i ==> expr_key(#[trigger] s[j]) != expr_key(v),
                v == expr_view(expr),
                *self == *old(self),
                old(self).wf(),
                s == old(self).state().criteria,
            decreases self.criteria@.len() - i,
        {
            if same_expr(&self.criteria[i], &expr) {
                proof {
                    assert(expr_key(s[i as int]) == expr_key(v));
                    assert(criteria_insert(s, v) == s);
                    let c = criterion_index(s, v);
                    assert(0 <= c < s.len() && expr_key(s[c]) == expr_key(v));
                    if c != i {
                        if c < i {
                            assert(expr_key(s[c]) != expr_key(v));
                        } else {
                            assert(expr_key(s[i as int]) != expr_key(s[c]));
                        }
                    }
                }
                return CriterionId(i);
            }
            i = i + 1;
        }
        let n = self.criteria.len();
        self.criteria.push(expr);
        proof {
            assert(!(exists|j: int| 0 <= j < s.len() && expr_key(s[j]) == expr_key(v)));
            assert(self.state().criteria =~= s.push(v));
            assert(self.state().statements =~= old(self).state().statements);
            assert(self.state().operations =~= old(self).state().operations);
            assert(self.state().transforms =~= old(self).state().transforms);
            let t = s.push(v);
            assert(expr_key(t[n as int]) == expr_key(v));
            let c = criterion_index(t, v);
            assert(0 <= c < t.len() && expr_key(t[c]) == expr_key(v));
            if c != n {
                assert(expr_key(s[c]) != expr_key(v));
            }
        }
        CriterionId(n)
    }

    /// The criterion numbered `id`, if there is one.
    pub fn criterion_by_id(&self, id: CriterionId) -> (res: Option<&Expression<'s>>)
        ensures
            res is Some == (id.0 < self.state().criteria.len()),
            res is Some ==> expr_view(*res->0) == self.state().criteria[id.0 as int],
    {
        if id.0 < self.criteria.len() {
            Some(&self.criteria[id.0])
        } else {
            None
        }
    }

    /// The number of the operation: that of the same operation if the
    /// program has it, else of `op`, added last.
    pub fn insert_operation(&mut self, op: Operation<'s>) -> (res: OperationId)
        requires
            old(self).wf(),
        ensures
            final(self).wf(),
            final(self).state() == (GenState {
                operations: operations_insert(old(self).state().operations, op_view(op)),
                ..old(self).state()
            }),
            res.0 == operation_index(final(self).state().operations, op_view(op)),
            final(self).decls() == old(self).decls(),
            final(self).prefix() == old(self).prefix(),
    {
        let ghost s = old(self).state().operations;
        let ghost v = op_view(op);
        let mut i: usize = 0;
        while i < self.operations.len()
            invariant
                i <= self.operations@.len(),
                s == Seq::new(self.operations@.len(), |i: int| op_view(self.operations@[i])),
                forall|j: int| 0 <= j < i ==> op_key(#[trigger] s[j]) != op_key(v),
                v == op_view(op),
                *self == *old(self),
                old(self).wf(),
                s == old(self).state().operations,
            decreases self.operations@.len() - i,
        {
            if same_op(&self.operations[i], &op) {
                proof {
                    assert(op_key(s[i as int]) == op_key(v));
                    assert(operations_insert(s, v) == s);
                    let c = operation_index(s, v);
                    assert(0 <= c < s.len() && op_key(s[c]) == op_key(v));
                    if c != i {
                        if c < i {
                            assert(op_key(s[c]) != op_key(v));
                        } else {
                            assert(op_key(s[i as int]) != op_key(s[c]));
                        }
                    }
                }
                return OperationId(i);
            }
            i = i + 1;
        }
        let n = self.operations.len();
        self.operations.push(op);
        proof {
            assert(!(exists|j: int| 0 <= j < s.len() && op_key(s[j]) == op_key(v)));
            assert(self.state().operations =~= s.push(v));
            assert(self.state().statements =~= old(self).state().statements);
            assert(self.state().criteria =~= old(self).state().criteria);
            assert(self.state().transforms =~= old(self).state().transforms);
            let t = s.push(v);
            assert(op_key(t[n as int]) == op_key(v));
            let c = operation_index(t, v);
            assert(0 <= c < t.len() && op_key(t[c]) == op_key(v));
            if c != n {
                assert(op_key(s[c]) != op_key(v));
            }
        }
        OperationId(n)
    }

    /// The operation numbered `id`, if there is one.
    pub fn operation_by_id(&self, id: OperationId) -> (res: Option<&Operation<'s>>)
        ensures
            res is Some == (id.0 < self.state().operations.len()),
            res is Some ==> op_view(*res->0) == self.state().operations[id.0 as int],
    {
        if id.0 < self.operations.len() {
            Some(&self.operations[id.0])
        } else {
            None
        }
    }

    /// Records that the jumps to the state `from` are to be replaced by the
    /// logic `to`, in place of what was recorded for `from` before.
    pub fn insert_transform(&mut self, from: Label, to: NextStateLogic)
        requires
            old(self).wf(),
        ensures
            final(self).wf(),
            final(self).state() == (GenState {
                transforms: transforms_insert(
                    old(self).state().transforms,
                    from.0@,
                    logic_view(to),
                ),
                ..old(self).state()
            }),
            final(self).decls() == old(self).decls(),
            final(self).prefix() == old(self).prefix(),
    {
        let ghost s = old(self).state().transforms;
        let ghost entry = (from.0@, logic_view(to));
        let mut i: usize = 0;
        while i < self.transform.len()
            invariant
                i <= self.transform@.len(),
                s == Seq::new(
                    self.transform@.len(),
                    |i: int| (self.transform@[i].0.0@, logic_view(self.transform@[i].1)),
                ),
                forall|j: int| 0 <= j < i ==> (#[trigger] s[j]).0 != from.0@,
                *self == *old(self),
                old(self).wf(),
                s == old(self).state().transforms,
                entry == (from.0@, logic_view(to)),
            decreases self.transform@.len() - i,
        {
            if str_eq(self.transform[i].0.0.as_str(), from.0.as_str()) {
                let ghost before = self.transform@;
                self.transform.set(i, (from, to));
                proof {
                    assert(s[i as int].0 == entry.0);
                    let c = choose|c: int| 0 <= c < s.len() && s[c].0 == entry.0;
                    assert(0 <= c < s.len() && s[c].0 == entry.0);
                    if c != i {
                        if c < i {
                            assert(s[c].0 != entry.0);
                        } else {
                            assert(s[i as int].0 != s[c].0);
                        }
                    }
                    assert(self.state().transforms =~= s.update(i as int, entry));
                    assert(self.state().statements =~= old(self).state().statements);
                    assert(self.state().criteria =~= old(self).state().criteria);
                    assert(self.state().operations =~= old(self).state().operations);
                }
                return;
            }
            i = i + 1;
        }
        self.transform.push((from, to));
        proof {
            assert(!(exists|j: int| 0 <= j < s.len() && s[j].0 == entry.0));
            assert(self.state().transforms =~= s.push(entry));
            assert(self.state().statements =~= old(self).state().statements);
            assert(self.state().criteria =~= old(self).state().criteria);
            assert(self.state().operations =~= old(self).state().operations);
        }
    }

    /// The text between the label of a state and the label of its target
    /// in the states that a transformation creates.
    pub fn transform_goto_prefix(&self) -> (res: &str)
        ensures
            res@ == self.prefix(),
    {
        self.transform_goto_prefix.as_str()
    }

    /// The declarations of the program.
    pub fn declarations(&self) -> (res: &Declarations<'s>)
        ensures
            decls_view(*res) == self.decls(),
    {
        &self.declarations
    }
}

/// What a statement builder has gathered: the label of the state, its
/// operations with their criteria, its conditional jumps in order with
/// their criteria, its default jump, whether its jumps move into the states
/// before it, and the mapping of its criteria.
pub struct SbState {
    pub label: Seq<char>,
    pub ops: Seq<(usize, Option<Seq<Seq<Criterion>>>)>,
    pub cond: Seq<(Seq<Seq<Criterion>>, Seq<char>)>,
    pub default: Seq<char>,
    pub transform: bool,
    pub mapping: Map<usize, usize>,
}

/// Each operation and each jump target occurs once.
pub open spec fn sb_wf(sb: SbState) -> bool {
    &&& forall|i: int, j: int| 0 <= i < j < sb.ops.len() ==> sb.ops[i].0 != sb.ops[j].0
    &&& forall|i: int, j: int| 0 <= i < j < sb.cond.len() ==> sb.cond[i].1 != sb.cond[j].1
}

pub open spec fn ops_has(ops: Seq<(usize, Option<Seq<Seq<Criterion>>>)>, id: usize) -> bool {
    exists|i: int| 0 <= i < ops.len() && ops[i].0 == id
}

pub open spec fn ops_slot(ops: Seq<(usize, Option<Seq<Seq<Criterion>>>)>, id: usize) -> int {
    choose|i: int| 0 <= i < ops.len() && ops[i].0 == id
}

pub open spec fn cond_has(cond: Seq<(Seq<Seq<Criterion>>, Seq<char>)>, l: Seq<char>) -> bool {
    exists|i: int| 0 <= i < cond.len() && cond[i].1 == l
}

pub open spec fn cond_slot(cond: Seq<(Seq<Seq<Criterion>>, Seq<char>)>, l: Seq<char>) -> int {
    choose|i: int| 0 <= i < cond.len() && cond[i].1 == l
}

/// Adds the operation `id` under the criteria `cs`: without criteria it
/// always runs; else the conjunction of the criteria joins its
/// disjunction, which starts with it if the operation is new.
pub open spec fn spec_add_op(sb: SbState, id: usize, cs: Seq<mir::Criterion>) -> SbState {
    if cs.len() == 0 {
        SbState { ops: sb.ops.push((id, None)), ..sb }
    } else {
        let and = map_criteria(sb.mapping, cs);
        if ops_has(sb.ops, id) {
            let i = ops_slot(sb.ops, id);
            SbState { ops: sb.ops.update(i, (id, Some(sb.ops[i].1->0.push(and)))), ..sb }
        } else {
            SbState { ops: sb.ops.push((id, Some(seq![and]))), ..sb }
        }
    }
}

/// Adding the operation does not fail: its criteria are mapped, an
/// operation that always runs is new, and one with criteria does not join
/// one that always runs.
pub open spec fn add_op_ok(sb: SbState, id: usize, cs: Seq<mir::Criterion>) -> bool {
    &&& criteria_mapped(sb.mapping, cs)
    &&& if cs.len() == 0 {
        !ops_has(sb.ops, id)
    } else {
        ops_has(sb.ops, id) ==> sb.ops[ops_slot(sb.ops, id)].1 is Some
    }
}

/// A jump to `label` under the criteria `cs`: without criteria it becomes
/// the default jump; else the conjunction of the criteria joins the
/// disjunction of the jumps to `label`, which is added last if new.
pub open spec fn spec_goto(sb: SbState, label: Seq<char>, cs: Seq<mir::Criterion>) -> SbState {
    if cs.len() == 0 {
        SbState { default: label, ..sb }
    } else {
        let and = map_criteria(sb.mapping, cs);
        if cond_has(sb.cond, label) {
            let i = cond_slot(sb.cond, label);
            SbState { cond: sb.cond.update(i, (sb.cond[i].0.push(and), label)), ..sb }
        } else {
            SbState { cond: sb.cond.push((seq![and], label)), ..sb }
        }
    }
}

/// Evaluating a criterion: its condition, in a context of one bit, becomes
/// a criterion of the program, and the criterion of the statement maps to
/// it.
pub open spec fn spec_eval<'s>(
    sb: SbState,
    g: GenState,
    ec: mir::EvalCriterion<'s>,
    d: DeclsView<'s>,
) -> (SbState, GenState) {
    let v = gen_expr(ec.condition, d, 1);
    let c = criteria_insert(g.criteria, v);
    (
        SbState { mapping: sb.mapping.insert(ec.criterion_id.0, criterion_index(c, v) as usize), ..sb },
        GenState { criteria: c, ..g },
    )
}

/// Evaluating the criteria of a group in order.
pub open spec fn spec_eval_group<'s>(
    sb: SbState,
    g: GenState,
    items: Seq<mir::EvalCriterion<'s>>,
    d: DeclsView<'s>,
) -> (SbState, GenState)
    decreases items.len(),
{
    if items.len() == 0 {
        (sb, g)
    } else {
        let (sb1, g1) = spec_eval_group(sb, g, items.drop_last(), d);
        spec_eval(sb1, g1, items.last(), d)
    }
}

/// An operation of a step: it becomes an operation of the program, and
/// the state runs it under the criteria of the step.
pub open spec fn spec_op(sb: SbState, g: GenState, v: OpView, cs: Seq<mir::Criterion>) -> (
    SbState,
    GenState,
) {
    let o = operations_insert(g.operations, v);
    (spec_add_op(sb, operation_index(o, v) as usize, cs), GenState { operations: o, ..g })
}

pub open spec fn op_ok(sb: SbState, g: GenState, v: OpView, cs: Seq<mir::Criterion>) -> bool {
    let o = operations_insert(g.operations, v);
    add_op_ok(sb, operation_index(o, v) as usize, cs)
}

/// What a step adds. Doing nothing and assertions add nothing.
pub open spec fn spec_add_step<'s>(
    sb: SbState,
    g: GenState,
    step: mir::Step<'s>,
    d: DeclsView<'s>,
) -> (SbState, GenState) {
    match step.operation {
        mir::Operation::EvalCriterion(ec) => spec_eval(sb, g, ec, d),
        mir::Operation::EvalCriterionSwitchGroup(items) => spec_eval_group(sb, g, items@, d),
        mir::Operation::Goto(l) => (spec_goto(sb, named_prefix() + l.0@, step.criteria@), g),
        mir::Operation::Write(m) => spec_op(sb, g, gen_write(m, d), step.criteria@),
        mir::Operation::Read(m) => spec_op(sb, g, gen_read(m, d), step.criteria@),
        mir::Operation::Assignment(a) => spec_op(sb, g, gen_assignment(a, d), step.criteria@),
        mir::Operation::Nop => (sb, g),
        mir::Operation::Assert => (sb, g),
    }
}

/// The step can be added: what it reads and writes is declared, and its
/// criteria and operation fit.
pub open spec fn step_ok<'s>(sb: SbState, g: GenState, step: mir::Step<'s>, d: DeclsView<'s>) -> bool {
    match step.operation {
        mir::Operation::EvalCriterion(ec) => expr_declared(ec.condition, d),
        mir::Operation::EvalCriterionSwitchGroup(items) => forall|i: int|
            0 <= i < items@.len() ==> expr_declared(#[trigger] items@[i].condition, d),
        mir::Operation::Goto(_) => criteria_mapped(sb.mapping, step.criteria@),
        mir::Operation::Write(m) => find_named(d.memories, m.0@) is Some && op_ok(
            sb,
            g,
            gen_write(m, d),
            step.criteria@,
        ),
        mir::Operation::Read(m) => find_named(d.memories, m.0@) is Some && op_ok(
            sb,
            g,
            gen_read(m, d),
            step.criteria@,
        ),
        mir::Operation::Assignment(a) => lvalue_declared(a.lhs, d) && expr_declared(a.rhs, d)
            && op_ok(sb, g, gen_assignment(a, d), step.criteria@),
        mir::Operation::Nop => true,
        mir::Operation::Assert => true,
    }
}

/// What the steps add, in order.
pub open spec fn spec_add_steps<'s>(
    sb: SbState,
    g: GenState,
    steps: Seq<mir::Step<'s>>,
    d: DeclsView<'s>,
) -> (SbState, GenState)
    decreases steps.len(),
{
    if steps.len() == 0 {
        (sb, g)
    } else {
        let (sb1, g1) = spec_add_steps(sb, g, steps.drop_last(), d);
        spec_add_step(sb1, g1, steps.last(), d)
    }
}

/// Each step can be added after those before it.
pub open spec fn steps_ok<'s>(sb: SbState, g: GenState, steps: Seq<mir::Step<'s>>, d: DeclsView<'s>) -> bool
    decreases steps.len(),
{
    if steps.len() == 0 {
        true
    } else {
        let (sb1, g1) = spec_add_steps(sb, g, steps.drop_last(), d);
        steps_ok(sb, g, steps.drop_last(), d) && step_ok(sb1, g1, steps.last(), d)
    }
}

/// Where an operation numbered `key` goes among operations sorted by
/// number: before the first with a greater number.
pub open spec fn insert_pos(s: Seq<(usize, Option<Seq<Seq<Criterion>>>)>, key: usize) -> int
    decreases s.len(),
{
    if s.len() == 0 {
        0
    } else if s[0].0 > key {
        0
    } else {
        1 + insert_pos(s.drop_first(), key)
    }
}

/// The operations sorted by number, ties kept in order.
pub open spec fn sort_ops(s: Seq<(usize, Option<Seq<Seq<Criterion>>>)>) -> Seq<
    (usize, Option<Seq<Seq<Criterion>>>),
>
    decreases s.len(),
{
    if s.len() == 0 {
        s
    } else {
        let r = sort_ops(s.drop_last());
        r.insert(insert_pos(r, s.last().0), s.last())
    }
}

/// The operations before the insertion point have numbers up to `key`,
/// the one at it a greater number.
pub proof fn lemma_insert_pos_range(r: Seq<(usize, Option<Seq<Seq<Criterion>>>)>, key: usize)
    ensures
        0 <= insert_pos(r, key) <= r.len(),
        forall|k: int| 0 <= k < insert_pos(r, key) ==> (#[trigger] r[k]).0 <= key,
        insert_pos(r, key) < r.len() ==> r[insert_pos(r, key)].0 > key,
    decreases r.len(),
{
    if r.len() > 0 && r[0].0 <= key {
        lemma_insert_pos_range(r.drop_first(), key);
        assert forall|k: int| 0 <= k < insert_pos(r, key) implies (#[trigger] r[k]).0 <= key by {
            if k > 0 {
                assert(r[k] == r.drop_first()[k - 1]);
            }
        }
    }
}

/// Sorting the operations of a state keeps them all and orders them by
/// number.
pub proof fn law_sort_ops(s: Seq<(usize, Option<Seq<Seq<Criterion>>>)>)
    ensures
        sort_ops(s).to_multiset() == s.to_multiset(),
        forall|i: int, j: int|
            0 <= i < j < sort_ops(s).len() ==> (#[trigger] sort_ops(s)[i]).0 <= (
            #[trigger] sort_ops(s)[j]).0,
    decreases s.len(),
{
    if s.len() == 0 {
    } else {
        let r = sort_ops(s.drop_last());
        law_sort_ops(s.drop_last());
        let x = s.last();
        let p = insert_pos(r, x.0);
        lemma_insert_pos_range(r, x.0);
        vstd::seq_lib::to_multiset_insert(r, p, x);
        vstd::seq_lib::to_multiset_build(s.drop_last(), x);
        assert(s.drop_last().push(x) =~= s);
        let t = r.insert(p, x);
        assert(sort_ops(s) == t);
        assert forall|i: int, j: int| 0 <= i < j < t.len() implies (#[trigger] t[i]).0 <= (
        #[trigger] t[j]).0 by {
            if j < p {
                assert(t[i] == r[i] && t[j] == r[j]);
            } else if j == p {
                assert(t[i] == r[i]);
            } else if i < p {
                assert(t[i] == r[i] && t[j] == r[j - 1]);
                assert(r[i].0 <= x.0);
                assert(r[p].0 > x.0);
                if j - 1 > p {
                    assert(r[p].0 <= r[j - 1].0);
                }
            } else if i == p {
                assert(t[j] == r[j - 1]);
                assert(r[p].0 > x.0);
                if j - 1 > p {
                    assert(r[p].0 <= r[j - 1].0);
                }
            } else {
                assert(t[i] == r[i - 1] && t[j] == r[j - 1]);
            }
        }
    }
}

/// The states that a statement yields. A statement whose jumps stay in it
/// yields one state. One whose jumps move into the states before it yields
/// a state per target, its conditional targets in order and then its
/// default one, each labelled with its own label, the prefix and the
/// target, running the operations of the statement and going to the
/// target; the jumps to the statement become the logic that picks among
/// these states.
pub open spec fn spec_finish(sb: SbState, g: GenState, prefix: Seq<char>) -> GenState {
    if !sb.transform {
        GenState {
            statements: g.statements.push(
                StatementView {
                    label: sb.label,
                    logic: spec_build_logic(sb.cond, sb.default),
                    ops: sb.ops,
                },
            ),
            ..g
        }
    } else {
        let split = Seq::new(
            sb.cond.len(),
            |i: int|
                StatementView {
                    label: sb.label + prefix + sb.cond[i].1,
                    logic: LogicView::Label(sb.cond[i].1),
                    ops: sb.ops,
                },
        );
        let last = StatementView {
    label: sb.label + prefix + sb.default,
            logic: LogicView::Label(sb.default),
            ops: sb.ops,
};
        let to = spec_build_logic(
            Seq::new(sb.cond.len(), |i: int| (sb.cond[i].0, sb.label + prefix + sb.cond[i].1)),
            sb.label + prefix + sb.default,
        );
        GenState {
            statements: g.statements + split.push(last),
            transforms: transforms_insert(g.transforms, sb.label, to),
            ..g
        }
    }
}

/// The builder of the statement labelled `label`, whose default jump goes
/// to `next`.
pub open spec fn initial_sb(label: Seq<char>, next: Seq<char>, transform: bool) -> SbState {
    SbState {
        label,
        ops: Seq::empty(),
        cond: Seq::empty(),
        default: next,
        transform,
        mapping: Map::empty(),
    }
}

/// What building a statement from its steps adds: its steps in order, its
/// operations sorted by number, and its states.
pub open spec fn spec_build_statement<'s>(
    label: Seq<char>,
    next: Seq<char>,
    transform: bool,
    steps: Seq<mir::Step<'s>>,
    g: GenState,
    d: DeclsView<'s>,
    prefix: Seq<char>,
) -> GenState {
    let (sb, g1) = spec_add_steps(initial_sb(label, next, transform), g, steps, d);
    spec_finish(SbState { ops: sort_ops(sb.ops), ..sb }, g1, prefix)
}

/// The labels of the statements.
pub open spec fn mir_labels<'s>(stmts: Seq<mir::Statement<'s>>) -> Seq<Option<&'s str>> {
    Seq::new(
        stmts.len(),
        |i: int|
            match stmts[i].label {
                Some(l) => Some(l.0),
                None => None,
            },
    )
}

/// The shortest prefix `_GOTO_`, `_GOTO__`, ... that no label contains.
pub open spec fn spec_goto_prefix<'s>(labels: Seq<Option<&'s str>>) -> Seq<char> {
    goto_prefix(
        choose|n: nat|
            !any_label_contains(labels, goto_prefix(n)) && forall|j: nat|
                j < n ==> any_label_contains(labels, #[trigger] goto_prefix(j)),
    )
}

/// The label of the state of statement `idx`, or of the terminated state
/// after the last one.
pub open spec fn stmt_label<'s>(stmts: Seq<mir::Statement<'s>>, idx: int) -> Seq<char> {
    if 0 <= idx < stmts.len() {
        match stmts[idx].label {
            Some(l) => named_prefix() + l.0@,
            None => unnamed_prefix() + dec_string(idx as nat),
        }
    } else {
        terminated_text()
    }
}

/// Why statement `n` cannot be synthesized: its next state depends on an
/// unclocked item, or it is the first and its jumps would have to move
/// into the states before it.
pub open spec fn statement_error<'s>(stmts: Seq<mir::Statement<'s>>, n: int) -> Option<SynthError> {
    let deps = spec_next_state_logic_deps(stmts[n].steps@);
    if deps.unclocked {
        Some(SynthError::UnclockedGotoDependency)
    } else if deps.clocked && n == 0 {
        Some(SynthError::ConditionalGotoInFirstState)
    } else {
        None
    }
}

/// The error of the first of the first `n` statements that has one.
pub open spec fn first_error<'s>(stmts: Seq<mir::Statement<'s>>, n: int) -> Option<SynthError>
    decreases n,
{
    if n <= 0 {
        None
    } else {
        match first_error(stmts, n - 1) {
            Some(e) => Some(e),
            None => statement_error(stmts, n - 1),
        }
    }
}

pub open spec fn empty_state() -> GenState {
    GenState {
        statements: Seq::empty(),
        criteria: Seq::empty(),
        operations: Seq::empty(),
        transforms: Seq::empty(),
    }
}

/// What building the first `n` statements gathers: each in order, its
/// jumps moving into the states before it when its next state depends on
/// clocked items.
pub open spec fn spec_gen_statements<'s>(
    stmts: Seq<mir::Statement<'s>>,
    n: int,
    d: DeclsView<'s>,
    prefix: Seq<char>,
) -> GenState
    decreases n,
{
    if n <= 0 {
        empty_state()
    } else {
        spec_build_statement(
            stmt_label(stmts, n - 1),
            stmt_label(stmts, n),
            spec_next_state_logic_deps(stmts[n - 1].steps@).clocked,
            stmts[n - 1].steps@,
            spec_gen_statements(stmts, n - 1, d, prefix),
            d,
            prefix,
        )
    }
}

/// The program can be built without failing: its memories name declared
/// registers, and each statement that is reached evaluates the criteria of
/// its jumps and has steps that can be added.
pub open spec fn program_ok<'s>(m: mir::Mir<'s>) -> bool {
    let stmts = m.statements@;
    let d = spec_declarations(m.declarations@);
    let p = spec_goto_prefix(mir_labels(stmts));
    &&& memories_resolve(m.declarations@)
    &&& forall|n: int|
        0 <= n < stmts.len() && #[trigger] first_error(stmts, n) is None ==> (!has_pipe(
            stmts[n].steps@,
        ) ==> gotos_resolve(stmts[n].steps@)) && (statement_error(stmts, n) is None ==> steps_ok(
            initial_sb(
                stmt_label(stmts, n),
                stmt_label(stmts, n + 1),
                spec_next_state_logic_deps(stmts[n].steps@).clocked,
            ),
            spec_gen_statements(stmts, n, d, p),
            stmts[n].steps@,
            d,
        ))
}

/// The logic with the jumps to each recorded state replaced in turn.
pub open spec fn transform_all(l: LogicView, ts: Seq<(Seq<char>, LogicView)>) -> LogicView
    decreases ts.len(),
{
    if ts.len() == 0 {
        l
    } else {
        transformed(transform_all(l, ts.drop_last()), ts.last().0, ts.last().1)
    }
}

/// The states with their jumps spliced.
pub open spec fn apply_transforms(
    sts: Seq<StatementView>,
    ts: Seq<(Seq<char>, LogicView)>,
) -> Seq<StatementView> {
    Seq::new(
        sts.len(),
        |i: int| StatementView { logic: transform_all(sts[i].logic, ts), ..sts[i] },
    )
}

/// The state after the last statement, which stays where it is.
pub open spec fn terminated_statement() -> StatementView {
    StatementView {
        label: terminated_text(),
        logic: LogicView::Label(terminated_text()),
        ops: Seq::empty(),
    }
}

/// What generating the program gives: the error of the first statement
/// that cannot be synthesized, if one cannot; else its declarations, its
/// states with the moved jumps spliced and the terminated state last, and
/// its criteria and operations, each kept once.
pub open spec fn generated<'s>(mir: mir::Mir<'s>, res: Result<Vhdl<'s>, SynthError>) -> bool {
    let stmts = mir.statements@;
    let n = stmts.len() as int;
    match first_error(stmts, n) {
        Some(e) => res == Err::<Vhdl<'s>, SynthError>(e),
        None => res is Ok && ({
            let v = res->Ok_0;
            let d = spec_declarations(mir.declarations@);
            let g = spec_gen_statements(stmts, n, d, spec_goto_prefix(mir_labels(stmts)));
            &&& decls_view(v.declarations) == d
            &&& statements_view(v.statements@) == apply_transforms(
                g.statements,
                g.transforms,
            ).push(terminated_statement())
            &&& Seq::new(v.criteria@.len(), |i: int| expr_view(v.criteria@[i])) == g.criteria
            &&& Seq::new(v.operations@.len(), |i: int| op_view(v.operations@[i])) == g.operations
            &&& criteria_distinct(g.criteria)
            &&& operations_distinct(g.operations)
        }),
    }
}

proof fn lemma_goto_prefix_unique<'s>(labels: Seq<Option<&'s str>>, n: nat)
    requires
        !any_label_contains(labels, goto_prefix(n)),
        forall|j: nat| j < n ==> any_label_contains(labels, #[trigger] goto_prefix(j)),
    ensures
        spec_goto_prefix(labels) == goto_prefix(n),
{
    let m = choose|m: nat|
        !any_label_contains(labels, goto_prefix(m)) && forall|j: nat|
            j < m ==> any_label_contains(labels, #[trigger] goto_prefix(j));
    assert(!any_label_contains(labels, goto_prefix(m)) && forall|j: nat|
        j < m ==> any_label_contains(labels, #[trigger] goto_prefix(j)));
    if m < n {
        assert(any_label_contains(labels, goto_prefix(m)));
    } else if m > n {
        assert(any_label_contains(labels, goto_prefix(n)));
    }
}

fn statement_label<'s>(statement: &mir::Statement<'s>) -> (res: Option<&'s str>)
    ensures
        res == (match statement.label {
            Some(l) => Some(l.0),
            None => None::<&'s str>,
        }),
{
    match statement.label {
        Some(l) => Some(l.0),
        None => None,
    }
}

impl<'s> VhdlBuilder<'s> {
    /// The VHDL representation of the program: its statements in order, the
    /// jumps of those whose next state depends on clocked items spliced
    /// into the states before them, and the terminated state last; or the
    /// error of the first statement that cannot be synthesized.
    pub fn build(mir: mir::Mir<'s>) -> (res: Result<Vhdl<'s>, SynthError>)
        requires
            program_ok(mir),
        ensures
            generated(mir, res),
    {
        let ghost stmts = mir.statements@;
        let ghost d = spec_declarations(mir.declarations@);
        let declarations = generate_declarations(&mir.declarations);
        let mut labels: Vec<Option<&'s str>> = Vec::new();
        let mut k: usize = 0;
        while k < mir.statements.len()
            invariant
                k <= stmts.len(),
                stmts == mir.statements@,
                labels@ =~= mir_labels(stmts).take(k as int),
            decreases stmts.len() - k,
        {
            labels.push(statement_label(&mir.statements[k]));
            k = k + 1;
        }
        assert(mir_labels(stmts).take(k as int) =~= mir_labels(stmts));
        let transform_goto_prefix = calc_label_goto_prefix(&labels);
        let ghost p = transform_goto_prefix@;
        proof {
            lemma_goto_prefix_unique(labels@, (p.len() - 6) as nat);
        }
        let mut builder = VhdlBuilder::new(declarations, transform_goto_prefix);
        proof {
            assert(builder.state().statements =~= empty_state().statements);
            assert(builder.state().criteria =~= empty_state().criteria);
            assert(builder.state().operations =~= empty_state().operations);
            assert(builder.state().transforms =~= empty_state().transforms);
        }
        let mut idx: usize = 0;
        while idx < mir.statements.len()
            invariant
                idx <= stmts.len(),
                stmts == mir.statements@,
                program_ok(mir),
                d == spec_declarations(mir.declarations@),
                p == spec_goto_prefix(mir_labels(stmts)),
                builder.wf(),
                builder.decls() == d,
                builder.prefix() == p,
                first_error(stmts, idx as int) is None,
                builder.state() == spec_gen_statements(stmts, idx as int, d, p),
            decreases stmts.len() - idx,
        {
            let statement = &mir.statements[idx];
            assert(first_error(stmts, idx as int) is None);
            let deps = next_state_logic_deps(statement);
            if deps.unclocked {
                assert(first_error(stmts, idx + 1) == Some(SynthError::UnclockedGotoDependency));
                proof {
                    lemma_first_error_stays(stmts, idx + 1, stmts.len() as int);
                }
                return Err(SynthError::UnclockedGotoDependency);
            }
            if deps.clocked && idx == 0 {
                assert(first_error(stmts, idx + 1) == Some(SynthError::ConditionalGotoInFirstState));
                proof {
                    lemma_first_error_stays(stmts, idx + 1, stmts.len() as int);
                }
                return Err(SynthError::ConditionalGotoInFirstState);
            }
            let label = make_label(idx, Some(statement_label(statement)));
            let next = if idx + 1 < mir.statements.len() {
                Some(statement_label(&mir.statements[idx + 1]))
            } else {
    None
};
            let label_next = make_label(idx + 1, next);
            assert(label.0@ == stmt_label(stmts, idx as int));
            assert(label_next.0@ == stmt_label(stmts, idx + 1));
            StatementBuilder::build(label, label_next, &statement.steps, deps.clocked, &mut builder);
            idx = idx + 1;
        }
        let ghost g = builder.state();
        let VhdlBuilder {
            statements,
            criteria,
            operations,
            declarations,
            transform: transforms,
            transform_goto_prefix: _,
        } = builder;
        let ghost ts = g.transforms;
        let ghost orig = statements@;
        let mut spliced: Vec<Statement> = Vec::new();
        for statement in it: statements.into_iter()
            invariant
                it.seq() == orig,
                statements_view(orig) == g.statements,
                ts == Seq::new(
                    transforms@.len(),
                    |i: int| (transforms@[i].0.0@, logic_view(transforms@[i].1)),
                ),
                statements_view(spliced@) == apply_transforms(g.statements, ts).take(
                    it.index() as int,
                ),
        {
            let ghost i = it.index();
            assert(statement == orig[i as int]);
            assert(statement_view(statement) == g.statements[i as int]);
            let Statement { label, next_state_logic, operations } = statement;
            let mut logic = next_state_logic;
            let mut t: usize = 0;
            assert(ts.take(0) =~= Seq::<(Seq<char>, LogicView)>::empty());
            while t < transforms.len()
                invariant
                    t <= transforms@.len(),
                    ts == Seq::new(
                        transforms@.len(),
                        |i: int| (transforms@[i].0.0@, logic_view(transforms@[i].1)),
                    ),
                    logic_view(logic) == transform_all(
                        logic_view(next_state_logic),
                        ts.take(t as int),
                    ),
                decreases transforms@.len() - t,
            {
                let to = clone_logic(&transforms[t].1);
                transform(&mut logic, &transforms[t].0, to);
                assert(ts.take(t + 1).drop_last() =~= ts.take(t as int));
                t = t + 1;
            }
            assert(ts.take(t as int) =~= ts);
            let ghost before = spliced@;
            let st = Statement { label, next_state_logic: logic, operations };
            proof {
                let a = apply_transforms(g.statements, ts);
                assert(g.statements.len() == orig.len());
                assert(statement_view(st) == a[i as int]);
                assert(statements_view(before).len() == i);
            }
            spliced.push(st);
            proof {
                let a = apply_transforms(g.statements, ts);
                assert forall|j: int| 0 <= j < i implies #[trigger] statements_view(spliced@)[j]
                    == a.take(i + 1)[j] by {
                    assert(spliced@[j] == before[j]);
                    assert(statements_view(before)[j] == a.take(i as int)[j]);
                }
            }
            assert(statements_view(spliced@) =~= apply_transforms(g.statements, ts).take(i + 1));
        }
        let ghost n = orig.len();
        assert(apply_transforms(g.statements, ts).take(n as int) =~= apply_transforms(g.statements, ts));
        let ghost before = spliced@;
        spliced.push(
            Statement {
                label: Label::terminated(),
                next_state_logic: NextStateLogic::Label(Label::terminated()),
                operations: Vec::new(),
            },
        );
        proof {
            assert(ops_view(spliced@[n as int].operations@) =~= Seq::<(usize, Option<Seq<Seq<Criterion>>>)>::empty());
            assert(statements_view(spliced@) =~= statements_view(before).push(terminated_statement()));
        }
        Ok(Vhdl { statements: spliced, criteria, operations, declarations })
    }
}

proof fn lemma_first_error_stays<'s>(stmts: Seq<mir::Statement<'s>>, n: int, m: int)
    requires
        0 <= n <= m,
        first_error(stmts, n) is Some,
    ensures
        first_error(stmts, m) == first_error(stmts, n),
    decreases m - n,
{
    if m > n {
        lemma_first_error_stays(stmts, n, m - 1);
    }
}

/// The VHDL representation of the program, or why it cannot be synthesized.
pub fn generate<'s>(mir: mir::Mir<'s>) -> (res: Result<Vhdl<'s>, SynthError>)
    requires
        program_ok(mir),
    ensures
        generated(mir, res),
{
    VhdlBuilder::build(mir)
}

/// The VHDL backend of the compiler.
#[derive(Debug)]
pub struct BackendVhdl;

impl BackendVhdl {
    /// The VHDL representation of the program, or why it cannot be
    /// synthesized.
    pub fn generate<'s>(&self, mir: mir::Mir<'s>) -> (res: Result<Vhdl<'s>, SynthError>)
        requires
            program_ok(mir),
        ensures
            generated(mir, res),
    {
        generate(mir)
    }
}

} // verus!

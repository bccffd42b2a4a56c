//! The program as the compiler hands it to the VHDL backend: declarations,
//! and statements made of steps that run under criteria.

use super::generate::SourceBitRange;
use super::ir::{BinaryOperator, BusKind, Ident, NumberKind, RegisterKind, UnaryOperator};
use crate::value::Value;
use vstd::prelude::*;

verus! {

/// The number of a criterion within a statement.
#[derive(Debug, Clone, Copy, PartialEq, Eq, Structural)]
pub struct CriterionId(pub usize);

/// A criterion that must hold, or must not.
#[derive(Debug, Clone, Copy, PartialEq, Eq, Structural)]
pub enum Criterion {
    True(CriterionId),
    False(CriterionId),
}

/// The criterion that a step tests.
pub open spec fn criterion_id(c: Criterion) -> CriterionId {
    match c {
        Criterion::True(id) => id,
        Criterion::False(id) => id,
    }
}

impl Criterion {
    /// The criterion that is tested.
    pub fn id(&self) -> (res: CriterionId)
        ensures
            res == criterion_id(*self),
    {
        match *self {
            Criterion::True(id) => id,
            Criterion::False(id) => id,
        }
    }
}

/// The width in which the operands of a term are evaluated: that of the
/// surrounding context, or a width of its own.
#[derive(Debug, Clone, Copy, PartialEq, Eq, Structural)]
pub enum CtxSize {
    Inherit,
    Size(usize),
}

pub open spec fn spec_calc(c: CtxSize, ctx_size: usize) -> usize {
    match c {
        CtxSize::Inherit => ctx_size,
        CtxSize::Size(s) => s,
    }
}

impl CtxSize {
    /// The width of the operands, in a context of width `ctx_size`.
    pub fn calc(&self, ctx_size: usize) -> (res: usize)
        ensures
            res == spec_calc(*self, ctx_size),
    {
        match *self {
            CtxSize::Inherit => ctx_size,
            CtxSize::Size(size) => size,
        }
    }
}

/// A register, or some of its bits.
#[derive(Debug)]
pub struct Register<'s> {
    pub ident: Ident<'s>,
    pub range: Option<SourceBitRange>,
    pub kind: RegisterKind,
}

/// A bus, or some of its bits.
#[derive(Debug)]
pub struct Bus<'s> {
    pub ident: Ident<'s>,
    pub range: Option<SourceBitRange>,
    pub kind: BusKind,
}

/// An element of a register array, chosen by an index expression evaluated
/// in its own width.
#[derive(Debug)]
pub struct RegisterArray<'s> {
    pub ident: Ident<'s>,
    pub index: Box<Expression<'s>>,
    pub index_ctx_size: usize,
}

/// A constant.
#[derive(Debug)]
pub struct Number {
    pub value: Value,
    pub kind: NumberKind,
}

#[derive(Debug)]
pub enum Expression<'s> {
    Atom(Atom<'s>),
    BinaryTerm(Box<BinaryTerm<'s>>),
    UnaryTerm(Box<UnaryTerm<'s>>),
}

#[derive(Debug)]
pub enum Atom<'s> {
    Concat(Vec<ConcatPartExpr<'s>>),
    Register(Register<'s>),
    Bus(Bus<'s>),
    RegisterArray(RegisterArray<'s>),
    Number(Number),
}

#[derive(Debug)]
pub struct BinaryTerm<'s> {
    pub lhs: Expression<'s>,
    pub rhs: Expression<'s>,
    pub operator: BinaryOperator,
    pub ctx_size: CtxSize,
}

#[derive(Debug)]
pub struct UnaryTerm<'s> {
    pub expression: Expression<'s>,
    pub operator: UnaryOperator,
    pub ctx_size: CtxSize,
}

#[derive(Debug)]
pub enum ConcatPartExpr<'s> {
    Register(Register<'s>),
    Bus(Bus<'s>),
    RegisterArray(RegisterArray<'s>),
    Number(Number),
}

/// A clocked part of a concatenation that is assigned to, with its width.
#[derive(Debug)]
pub enum ConcatPartLvalueClocked<'s> {
    Register(Register<'s>, usize),
    RegisterArray(RegisterArray<'s>, usize),
}

/// An unclocked part of a concatenation that is assigned to, with its width.
#[derive(Debug)]
pub enum ConcatPartLvalueUnclocked<'s> {
    Bus(Bus<'s>, usize),
}

/// What an assignment writes to.
#[derive(Debug)]
pub enum Lvalue<'s> {
    Register(Register<'s>),
    Bus(Bus<'s>),
    RegisterArray(RegisterArray<'s>),
    ConcatClocked(Vec<ConcatPartLvalueClocked<'s>>),
    ConcatUnclocked(Vec<ConcatPartLvalueUnclocked<'s>>),
}

/// An assignment, its right side evaluated in the width `size`.
#[derive(Debug)]
pub struct Assignment<'s> {
    pub lhs: Lvalue<'s>,
    pub rhs: Expression<'s>,
    pub size: usize,
}

/// Evaluates a condition as the criterion `criterion_id`.
#[derive(Debug)]
pub struct EvalCriterion<'s> {
    pub criterion_id: CriterionId,
    pub condition: Expression<'s>,
}

/// What a step does. A jump names the label of its target; a memory access
/// names the memory.
#[derive(Debug)]
pub enum Operation<'s> {
    EvalCriterion(EvalCriterion<'s>),
    EvalCriterionSwitchGroup(Vec<EvalCriterion<'s>>),
    Nop,
    Goto(Ident<'s>),
    Write(Ident<'s>),
    Read(Ident<'s>),
    Assignment(Assignment<'s>),
    Assert,
}

/// An operation that runs when all its criteria hold; steps after the pipe
/// of their statement are marked.
#[derive(Debug)]
pub struct Step<'s> {
    pub criteria: Vec<Criterion>,
    pub operation: Operation<'s>,
    pub is_post_pipe: bool,
}

/// A statement: its label, if it has one, and its steps.
#[derive(Debug)]
pub struct Statement<'s> {
    pub label: Option<Ident<'s>>,
    pub steps: Vec<Step<'s>>,
}

/// A declaration of several items of one sort. A memory names its address
/// and data registers.
#[derive(Debug)]
pub enum Declaration<'s> {
    Register(Vec<(Ident<'s>, Option<SourceBitRange>, RegisterKind)>),
    Bus(Vec<(Ident<'s>, Option<SourceBitRange>, BusKind)>),
    Memory(Vec<(Ident<'s>, Ident<'s>, Ident<'s>)>),
    RegisterArray(Vec<(Ident<'s>, Option<SourceBitRange>, usize)>),
}

/// A whole program.
#[derive(Debug)]
pub struct Mir<'s> {
    pub declarations: Vec<Declaration<'s>>,
    pub statements: Vec<Statement<'s>>,
}

} // verus!

//! The VHDL intermediate representation.

use crate::text::chars::{concat_str, string_from_chars};
use crate::value::format::{dec_chars, dec_string};
use crate::value::Value;
use vstd::prelude::*;

verus! {

/// A name in the source program.
#[derive(Debug, Clone, Copy)]
pub struct Ident<'s>(pub &'s str);

/// Whether a register is internal or an output of the circuit.
#[derive(Debug, Clone, Copy, PartialEq, Eq, Structural)]
pub enum RegisterKind {
    Intern,
    Output,
}

/// Whether a bus is internal or an input of the circuit.
#[derive(Debug, Clone, Copy, PartialEq, Eq, Structural)]
pub enum BusKind {
    Intern,
    Input,
}

/// How a number was written in the source.
#[derive(Debug, Clone, Copy, PartialEq, Eq, Structural)]
pub enum NumberKind {
    BitString,
    Binary,
    Decimal,
    Hexadecimal,
}

/// The operators with two operands.
#[derive(Debug, Clone, Copy, PartialEq, Eq, Structural)]
pub enum BinaryOperator {
    Eq,
    Ne,
    Le,
    Lt,
    Ge,
    Gt,
    Add,
    Sub,
    And,
    Nand,
    Or,
    Nor,
    Xor,
}

/// The operators with one operand.
#[derive(Debug, Clone, Copy, PartialEq, Eq, Structural)]
pub enum UnaryOperator {
    Sign,
    Neg,
    Not,
    Sxt,
}

/// The index of an operation in the program's list of operations.
#[derive(Debug, Clone, Copy, PartialEq, Eq, Structural)]
pub struct OperationId(pub usize);

/// The index of a criterion in the program's list of criteria.
#[derive(Debug, Clone, Copy, PartialEq, Eq, Structural)]
pub struct CriterionId(pub usize);

/// A criterion that must hold, or must not.
#[derive(Debug, Clone, Copy, PartialEq, Eq, Structural)]
pub enum Criterion {
    True(CriterionId),
    False(CriterionId),
}

impl Criterion {
    /// The criterion that is tested.
    pub fn id(self) -> (res: CriterionId)
        ensures
            res == (match self {
                Criterion::True(id) => id,
                Criterion::False(id) => id,
            }),
    {
        match self {
            Criterion::True(id) => id,
            Criterion::False(id) => id,
        }
    }
}

/// At least one of the items holds. Never empty.
#[derive(Debug, Clone)]
pub struct Or<T>(pub Vec<T>);

/// All of the items hold. Never empty.
#[derive(Debug, Clone)]
pub struct And<T>(pub Vec<T>);

/// The name of a state.
#[derive(Debug, Clone)]
pub struct Label(pub String);

/// `"TERMINATED"`
pub open spec fn terminated_text() -> Seq<char> {
    seq!['T', 'E', 'R', 'M', 'I', 'N', 'A', 'T', 'E', 'D']
}

/// `"NAMED_"`
pub open spec fn named_prefix() -> Seq<char> {
    seq!['N', 'A', 'M', 'E', 'D', '_']
}

/// `"UNNAMED_"`
pub open spec fn unnamed_prefix() -> Seq<char> {
    seq!['U', 'N', 'N', 'A', 'M', 'E', 'D', '_']
}

impl Label {
    /// The state after the last one.
    pub fn terminated() -> (res: Self)
        ensures
            res.0@ == terminated_text(),
    {
        proof {
            reveal_strlit("TERMINATED");
        }
        Label("TERMINATED".to_owned())
    }

    /// The state of a statement with a label.
    pub fn named(name: &str) -> (res: Self)
        ensures
            res.0@ == named_prefix() + name@,
    {
        proof {
            reveal_strlit("NAMED_");
        }
        Label(concat_str("NAMED_", name))
    }

    /// The state of the statement at `idx` without a label.
    pub fn unnamed(idx: usize) -> (res: Self)
        ensures
            res.0@ == unnamed_prefix() + dec_string(idx as nat),
    {
        proof {
            reveal_strlit("UNNAMED_");
        }
        let digits = string_from_chars(&dec_chars(idx));
        Label(concat_str("UNNAMED_", digits.as_str()))
    }
}

/// How an expression is widened: with zeros or with its sign bit.
#[derive(Debug, Clone, Copy, PartialEq, Eq, Structural)]
pub enum Extend {
    Zero(usize),
    Sign(usize),
}

impl Extend {
    /// The size to widen to.
    pub fn size(&self) -> (res: usize)
        ensures
            res == (match *self {
                Extend::Zero(s) => s,
                Extend::Sign(s) => s,
            }),
    {
        match *self {
            Extend::Zero(size) => size,
            Extend::Sign(size) => size,
        }
    }
}

/// A range of bits: from the most significant down to the least, or up.
#[derive(Debug, Clone, Copy, PartialEq, Eq, Structural)]
pub enum BitRange {
    Downto(usize, usize),
    To(usize, usize),
}

/// The range is written in its own direction.
pub open spec fn bit_range_ordered(r: BitRange) -> bool {
    match r {
        BitRange::Downto(a, b) => a >= b,
        BitRange::To(b, a) => a >= b,
    }
}

/// The number of bits in the range.
pub open spec fn bit_range_size(r: BitRange) -> int {
    match r {
        BitRange::Downto(a, b) => a - b + 1,
        BitRange::To(b, a) => a - b + 1,
    }
}

impl BitRange {
    /// The number of bits in the range.
    pub fn size(&self) -> (res: usize)
        requires
            bit_range_ordered(*self),
            bit_range_size(*self) <= usize::MAX,
        ensures
            res == bit_range_size(*self),
    {
        match *self {
            BitRange::Downto(a, b) => a - b + 1,
            BitRange::To(b, a) => a - b + 1,
        }
    }

    /// The bounds as written: left, then right.
    pub fn msb_lsb(&self) -> (res: (usize, usize))
        ensures
            res == (match *self {
                BitRange::Downto(a, b) => (a, b),
                BitRange::To(a, b) => (a, b),
            }),
    {
        match *self {
            BitRange::Downto(a, b) => (a, b),
            BitRange::To(a, b) => (a, b),
        }
    }
}

/// Additional information that does not take part in equality.
#[derive(Debug, Clone, Copy)]
pub struct DebugInfo<T>(pub T);

impl<T> PartialEq for DebugInfo<T> {
    fn eq(&self, other: &Self) -> (res: bool) {
        true
    }
}

impl<T> vstd::std_specs::cmp::PartialEqSpecImpl for DebugInfo<T> {
    open spec fn obeys_eq_spec() -> bool {
        true
    }

    open spec fn eq_spec(&self, other: &Self) -> bool {
        true
    }
}

/// An expression, widened to a size.
#[derive(Debug)]
pub struct Expression<'s> {
    pub kind: ExpressionKind<'s>,
    pub extend_to: Extend,
}

#[derive(Debug)]
pub enum ExpressionKind<'s> {
    Atom(Atom<'s>),
    BinaryTerm(Box<BinaryTerm<'s>>),
    UnaryTerm(Box<UnaryTerm<'s>>),
}

#[derive(Debug)]
pub enum Atom<'s> {
    Concat(Concat<ConcatPartExpr<'s>>),
    Register(Register<'s>),
    Bus(Bus<'s>),
    RegisterArray(RegisterArray<'s>),
    Number(Number),
}

#[derive(Debug)]
pub struct BinaryTerm<'s> {
    pub lhs: Expression<'s>,
    pub rhs: Expression<'s>,
    pub operator: BinaryOperator,
}

#[derive(Debug)]
pub struct UnaryTerm<'s> {
    pub expression: Expression<'s>,
    pub operator: UnaryOperator,
}

/// A register, or some of its bits.
#[derive(Debug)]
pub struct Register<'s> {
    pub ident: Ident<'s>,
    pub range: Option<BitRange>,
    pub kind: RegisterKind,
}

/// A bus, or some of its bits.
#[derive(Debug)]
pub struct Bus<'s> {
    pub ident: Ident<'s>,
    pub range: Option<BitRange>,
    pub kind: BusKind,
}

/// An element of a register array.
#[derive(Debug)]
pub struct RegisterArray<'s> {
    pub ident: Ident<'s>,
    pub index: Box<Expression<'s>>,
}

/// A constant.
#[derive(Debug)]
pub struct Number {
    pub value: Value,
    pub kind: DebugInfo<NumberKind>,
}

/// What a state does: write or read a memory, or assign a value.
#[derive(Debug)]
pub enum Operation<'s> {
    Write(Write<'s>),
    Read(Read<'s>),
    Assignment(Assignment<'s>),
}

#[derive(Debug)]
pub struct Write<'s> {
    pub memory: Ident<'s>,
    pub ar: Register<'s>,
    pub dr: Register<'s>,
}

#[derive(Debug)]
pub struct Read<'s> {
    pub memory: Ident<'s>,
    pub ar: Register<'s>,
    pub dr: Register<'s>,
}

#[derive(Debug)]
pub struct Assignment<'s> {
    pub lhs: Lvalue<'s>,
    pub rhs: Expression<'s>,
}

/// What an assignment writes to.
#[derive(Debug)]
pub enum Lvalue<'s> {
    Register(Register<'s>),
    Bus(Bus<'s>),
    RegisterArray(RegisterArray<'s>),
    ConcatClocked(Concat<ConcatPartLvalueClocked<'s>>),
    ConcatUnclocked(Concat<ConcatPartLvalueUnclocked<'s>>),
}

/// Parts written or read together, most significant first.
#[derive(Debug)]
pub struct Concat<P> {
    pub parts: Vec<P>,
}

#[derive(Debug)]
pub enum ConcatPartLvalueClocked<'s> {
    Register(Register<'s>, usize),
    RegisterArray(RegisterArray<'s>, usize),
}

#[derive(Debug)]
pub enum ConcatPartLvalueUnclocked<'s> {
    Bus(Bus<'s>, usize),
}

#[derive(Debug)]
pub enum ConcatPartExpr<'s> {
    Register(Register<'s>),
    Bus(Bus<'s>),
    RegisterArray(RegisterArray<'s>),
    Number(Number),
}

/// The declared items: each register, bus and register array with its
/// range and its kind or length, and each memory with its address and data
/// registers.
#[derive(Debug)]
pub struct Declarations<'s> {
    pub registers: Vec<(Ident<'s>, BitRange, RegisterKind)>,
    pub buses: Vec<(Ident<'s>, BitRange, BusKind)>,
    pub register_arrays: Vec<(Ident<'s>, BitRange, usize)>,
    pub memories: Vec<(Ident<'s>, (Ident<'s>, BitRange, RegisterKind), (Ident<'s>, BitRange, RegisterKind))>,
}

/// The operation takes effect at the clock edge: a memory access, or an
/// assignment to a register, a register array or clocked parts.
pub open spec fn spec_is_clocked(op: &Operation) -> bool {
    match op {
        Operation::Write(_) => true,
        Operation::Read(_) => true,
        Operation::Assignment(a) => match a.lhs {
            Lvalue::Register(_) => true,
            Lvalue::RegisterArray(_) => true,
            Lvalue::ConcatClocked(_) => true,
            Lvalue::Bus(_) => false,
            Lvalue::ConcatUnclocked(_) => false,
        },
    }
}

impl<'s> Operation<'s> {
    /// Whether the operation takes effect at the clock edge.
    pub fn is_clocked(&self) -> (res: bool)
        ensures
            res == spec_is_clocked(self),
    {
        match self {
            Operation::Write(_) | Operation::Read(_) => true,
            Operation::Assignment(assignment) => match &assignment.lhs {
                Lvalue::Register(_) | Lvalue::RegisterArray(_) | Lvalue::ConcatClocked(_) => true,
                Lvalue::Bus(_) | Lvalue::ConcatUnclocked(_) => false,
            },
        }
    }
}

/// Where to go next: a state, or the first of several states whose
/// condition holds, else a default.
#[derive(Debug)]
pub enum NextStateLogic {
    Label(Label),
    Cond { conditional: Vec<(Or<And<Criterion>>, NextStateLogic)>, default: Box<NextStateLogic> },
}

impl NextStateLogic {
    /// The state, if the logic is a plain jump.
    pub fn as_label(&self) -> (res: Option<&Label>)
        ensures
            res == (match self {
                NextStateLogic::Label(l) => Some(l),
                _ => None::<&Label>,
            }),
    {
        if let NextStateLogic::Label(v) = self {
            Some(v)
        } else {
            None
        }
    }
}

} // verus!

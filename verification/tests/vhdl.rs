use rt_easy::value::Value;
use rt_easy::vhdl::deps::{should_transform_next_state_logic, NextStateLogicDeps};
use rt_easy::vhdl::error::SynthError;
use rt_easy::vhdl::generate::{
    accessed_bit_range, calc_label_goto_prefix, declared_bit_range, make_label, SourceBitRange,
};
use rt_easy::vhdl::ir::{
    And, Assignment, Atom, BinaryOperator, BinaryTerm, BitRange, Bus, BusKind, Concat,
    ConcatPartExpr, ConcatPartLvalueUnclocked, Criterion, CriterionId, DebugInfo, Expression,
    ExpressionKind, Extend, Ident, Label, Lvalue, NextStateLogic, Number, NumberKind, Operation,
    Or, Read, Register, RegisterKind, UnaryOperator, UnaryTerm,
};
use rt_easy::vhdl::render::{binary_operator, unary_operator, RenderBitRange, RenderCriteriaExpr};
use rt_easy::vhdl::sensitivity::{build, render_item, sensitivity_list_bus_mux, sensitivity_list_criteria_gen};
use rt_easy::vhdl::template::{operations, operations_tmp_var};

fn reg(name: &str) -> Register<'_> {
    Register { ident: Ident(name), range: None, kind: RegisterKind::Intern }
}

fn bus(name: &str) -> Bus<'_> {
    Bus { ident: Ident(name), range: None, kind: BusKind::Intern }
}

fn atom(a: Atom<'_>) -> Expression<'_> {
    Expression { kind: ExpressionKind::Atom(a), extend_to: Extend::Zero(8) }
}

fn number() -> Number {
    Number { value: Value::one(4), kind: DebugInfo(NumberKind::Decimal) }
}

#[test]
fn labels() {
    assert_eq!(Label::terminated().0, "TERMINATED");
    assert_eq!(Label::named("LOOP").0, "NAMED_LOOP");
    assert_eq!(Label::unnamed(0).0, "UNNAMED_0");
    assert_eq!(Label::unnamed(42).0, "UNNAMED_42");
    assert_eq!(make_label(3, Some(Some("END"))).0, "NAMED_END");
    assert_eq!(make_label(3, Some(None)).0, "UNNAMED_3");
    assert_eq!(make_label(3, None).0, "TERMINATED");
}

#[test]
fn bit_ranges() {
    assert_eq!(BitRange::Downto(7, 0).size(), 8);
    assert_eq!(BitRange::To(2, 5).size(), 4);
    assert_eq!(BitRange::Downto(3, 3).size(), 1);
    assert_eq!(BitRange::To(2, 5).msb_lsb(), (2, 5));
    assert_eq!(Extend::Sign(12).size(), 12);
    assert_eq!(Criterion::False(CriterionId(4)).id(), CriterionId(4));
}

#[test]
fn render_bit_ranges() {
    assert_eq!(RenderBitRange(Some(BitRange::Downto(7, 0))).to_string(), "(7 DOWNTO 0)");
    assert_eq!(RenderBitRange(Some(BitRange::To(0, 7))).to_string(), "(0 TO 7)");
    assert_eq!(RenderBitRange(Some(BitRange::Downto(3, 3))).to_string(), "(3 TO 3)");
    assert_eq!(RenderBitRange(None).to_string(), "");
}

#[test]
fn render_criteria() {
    let or = Or(vec![
        And(vec![Criterion::True(CriterionId(0)), Criterion::False(CriterionId(1))]),
        And(vec![Criterion::True(CriterionId(2))]),
    ]);
    assert_eq!(RenderCriteriaExpr(&or).to_string(), "(k(0) = '1' AND k(1) = '0') OR k(2) = '1'");
    let single = Or(vec![And(vec![Criterion::True(CriterionId(10)), Criterion::True(CriterionId(11))])]);
    assert_eq!(RenderCriteriaExpr(&single).to_string(), "k(10) = '1' AND k(11) = '1'");
}

#[test]
fn operator_functions() {
    assert_eq!(binary_operator(BinaryOperator::Add), "f_add");
    assert_eq!(binary_operator(BinaryOperator::Nand), "f_nand");
    assert_eq!(binary_operator(BinaryOperator::Ge), "f_ge");
    assert_eq!(unary_operator(UnaryOperator::Sign), "f_neg");
    assert_eq!(unary_operator(UnaryOperator::Neg), "f_neg");
    assert_eq!(unary_operator(UnaryOperator::Sxt), "f_sxt");
}

#[test]
fn synth_error_messages() {
    assert_eq!(SynthError::UnclockedGotoDependency.message(), "next state depends on an unclocked item");
    assert_eq!(SynthError::ConditionalGotoInFirstState.message(), "conditional goto in first state");
}

#[test]
fn next_state_dependencies() {
    let r = atom(Atom::Register(reg("X")));
    let b = atom(Atom::Bus(bus("B")));
    let n = atom(Atom::Number(number()));
    let ops: Vec<&Operation> = Vec::new();
    assert_eq!(should_transform_next_state_logic(&ops, &vec![&r]), Ok(true));
    assert_eq!(should_transform_next_state_logic(&ops, &vec![&n]), Ok(false));
    assert_eq!(should_transform_next_state_logic(&ops, &vec![]), Ok(false));
    assert_eq!(
        should_transform_next_state_logic(&ops, &vec![&r, &b]),
        Err(SynthError::UnclockedGotoDependency)
    );
    let d = NextStateLogicDeps::clocked() | NextStateLogicDeps::unclocked();
    assert_eq!(d, NextStateLogicDeps { clocked: true, unclocked: true });
    assert_eq!(NextStateLogicDeps::empty() | NextStateLogicDeps::empty(), NextStateLogicDeps::empty());
}

#[test]
fn dependencies_inside_terms() {
    let sum = Expression {
        kind: ExpressionKind::BinaryTerm(Box::new(BinaryTerm {
            lhs: atom(Atom::Number(number())),
            rhs: Expression {
                kind: ExpressionKind::UnaryTerm(Box::new(UnaryTerm {
                    expression: atom(Atom::Concat(Concat {
                        parts: vec![ConcatPartExpr::Number(number()), ConcatPartExpr::Bus(bus("B"))],
                    })),
                    operator: UnaryOperator::Not,
                })),
                extend_to: Extend::Zero(8),
            },
            operator: BinaryOperator::Add,
        })),
        extend_to: Extend::Zero(8),
    };
    let ops: Vec<&Operation> = Vec::new();
    assert_eq!(should_transform_next_state_logic(&ops, &vec![&sum]), Err(SynthError::UnclockedGotoDependency));
}

#[test]
fn sensitivity_lists() {
    let a = atom(Atom::Register(reg("A")));
    let b = atom(Atom::Bus(bus("B")));
    let sum = Expression {
        kind: ExpressionKind::BinaryTerm(Box::new(BinaryTerm {
            lhs: atom(Atom::Register(reg("A"))),
            rhs: atom(Atom::Concat(Concat {
                parts: vec![
                    ConcatPartExpr::Bus(Bus { ident: Ident("IN"), range: None, kind: BusKind::Input }),
                    ConcatPartExpr::Number(number()),
                    ConcatPartExpr::Register(Register { ident: Ident("A"), range: Some(BitRange::Downto(1, 0)), kind: RegisterKind::Intern }),
                ],
            })),
            operator: BinaryOperator::Add,
        })),
        extend_to: Extend::Zero(8),
    };
    let items = build(&vec![&a, &b, &sum]);
    let names: Vec<String> = items.iter().map(render_item).collect();
    assert_eq!(names, vec!["register_A", "bus_B", "input_IN"]);

    let criteria = vec![atom(Atom::Bus(bus("B"))), atom(Atom::Register(reg("A"))), atom(Atom::Bus(bus("B")))];
    assert_eq!(sensitivity_list_criteria_gen(&criteria), "(bus_B, register_A)");
    assert_eq!(
        sensitivity_list_criteria_gen(&vec![atom(Atom::Number(number()))]),
        "(c) -- c is used here because vhdl simulators would otherwise get stuck at an empty sensitivity list"
    );

    let ops = vec![
        Operation::Assignment(Assignment { lhs: Lvalue::Bus(bus("B")), rhs: atom(Atom::Register(reg("A"))) }),
        Operation::Assignment(Assignment { lhs: Lvalue::Register(reg("C")), rhs: atom(Atom::Bus(bus("B"))) }),
        Operation::Read(Read { memory: Ident("MEM"), ar: reg("AR"), dr: reg("DR") }),
    ];
    assert_eq!(sensitivity_list_bus_mux(&ops), "(c, register_A)");
    assert_eq!(operations(&ops, true), vec![1, 2]);
    assert_eq!(operations(&ops, false), vec![0]);
}

#[test]
fn temporary_variables() {
    let ops = vec![
        Operation::Assignment(Assignment {
            lhs: Lvalue::ConcatUnclocked(Concat { parts: vec![ConcatPartLvalueUnclocked::Bus(bus("B"), 4)] }),
            rhs: Expression { kind: ExpressionKind::Atom(Atom::Register(reg("A"))), extend_to: Extend::Zero(4) },
        }),
        Operation::Assignment(Assignment { lhs: Lvalue::Bus(bus("B")), rhs: atom(Atom::Register(reg("A"))) }),
    ];
    assert_eq!(operations_tmp_var(&ops, false), vec![(0, BitRange::Downto(3, 0))]);
    assert_eq!(operations_tmp_var(&ops, true), vec![]);
}

#[test]
fn goto_prefix() {
    assert_eq!(calc_label_goto_prefix(&vec![Some("A"), None]), "_GOTO_");
    assert_eq!(calc_label_goto_prefix(&vec![Some("X_GOTO_Y"), None]), "_GOTO__");
    assert_eq!(calc_label_goto_prefix(&vec![Some("_GOTO_"), Some("a_GOTO__b")]), "_GOTO___");
    assert_eq!(calc_label_goto_prefix(&vec![]), "_GOTO_");
}

#[test]
fn source_bit_ranges() {
    assert_eq!(declared_bit_range(None), BitRange::Downto(0, 0));
    assert_eq!(declared_bit_range(Some(SourceBitRange { msb: 7, lsb: Some(0) })), BitRange::Downto(7, 0));
    assert_eq!(declared_bit_range(Some(SourceBitRange { msb: 0, lsb: Some(7) })), BitRange::To(0, 7));
    assert_eq!(declared_bit_range(Some(SourceBitRange { msb: 5, lsb: None })), BitRange::Downto(5, 5));
    let decl = BitRange::Downto(7, 0);
    assert_eq!(accessed_bit_range(None, decl), None);
    assert_eq!(accessed_bit_range(Some(SourceBitRange { msb: 7, lsb: Some(0) }), decl), None);
    assert_eq!(accessed_bit_range(Some(SourceBitRange { msb: 3, lsb: Some(0) }), decl), Some(BitRange::Downto(3, 0)));
    assert_eq!(accessed_bit_range(Some(SourceBitRange { msb: 2, lsb: None }), decl), Some(BitRange::Downto(2, 2)));
    assert_eq!(
        accessed_bit_range(Some(SourceBitRange { msb: 2, lsb: None }), BitRange::To(0, 7)),
        Some(BitRange::To(2, 2))
    );
}

#[test]
fn next_state_logic_label() {
    let l = NextStateLogic::Label(Label::named("X"));
    assert_eq!(l.as_label().map(|l| l.0.clone()), Some("NAMED_X".to_string()));
    let c = NextStateLogic::Cond { conditional: vec![], default: Box::new(l) };
    assert!(c.as_label().is_none());
}

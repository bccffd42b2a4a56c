use rt_easy::value::{Bit, Value};
use rt_easy::vhdl::ir::{
    Assignment, Atom, BinaryOperator, BinaryTerm, BitRange, Bus, BusKind, Concat, ConcatPartExpr,
    DebugInfo, Expression, ExpressionKind, Extend, Ident, Lvalue, Number, NumberKind, Operation,
    Read, Register, RegisterKind, UnaryOperator, UnaryTerm, Write,
};
use rt_easy::vhdl::render_expr::{Render, RenderOperation};

fn reg(name: &'static str, range: Option<BitRange>, kind: RegisterKind) -> Register<'static> {
    Register { ident: Ident(name), range, kind }
}

fn atom(a: Atom<'static>, extend_to: Extend) -> Expression<'static> {
    Expression { kind: ExpressionKind::Atom(a), extend_to }
}

fn number(bits: &str) -> Number {
    let bits = bits.chars().rev().map(|c| if c == '1' { Bit::One } else { Bit::Zero }).collect();
    Number { value: Value { bits }, kind: DebugInfo(NumberKind::Binary) }
}

#[test]
fn renders_atoms_with_extension() {
    let e = atom(Atom::Register(reg("X", Some(BitRange::Downto(3, 0)), RegisterKind::Intern)), Extend::Zero(8));
    assert_eq!(Render(&e).to_string(), "zero_extend(register_X(3 DOWNTO 0), 8)");
    let e = atom(
        Atom::Bus(Bus { ident: Ident("B"), range: None, kind: BusKind::Input }),
        Extend::Sign(4),
    );
    assert_eq!(Render(&e).to_string(), "sign_extend(input_B, 4)");
    let e = atom(Atom::Number(number("1010")), Extend::Zero(4));
    assert_eq!(Render(&e).to_string(), "zero_extend(\"1010\", 4)");
}

#[test]
fn renders_terms_and_concatenations() {
    let lhs = atom(Atom::Register(reg("A", None, RegisterKind::Output)), Extend::Zero(4));
    let rhs = atom(
        Atom::Concat(Concat {
            parts: vec![
                ConcatPartExpr::Bus(Bus { ident: Ident("B"), range: Some(BitRange::To(0, 1)), kind: BusKind::Intern }),
                ConcatPartExpr::Number(number("11")),
            ],
        }),
        Extend::Zero(4),
    );
    let sum = Expression {
        kind: ExpressionKind::BinaryTerm(Box::new(BinaryTerm { lhs, rhs, operator: BinaryOperator::Add })),
        extend_to: Extend::Zero(4),
    };
    let e = Expression {
        kind: ExpressionKind::UnaryTerm(Box::new(UnaryTerm { expression: sum, operator: UnaryOperator::Not })),
        extend_to: Extend::Sign(5),
    };
    assert_eq!(
        Render(&e).to_string(),
        "sign_extend(f_not(zero_extend(f_add(zero_extend(output_A, 4), zero_extend((bus_B(0 TO 1) & \"11\"), 4)), 4)), 5)"
    );
}

#[test]
fn renders_operations() {
    let w = Operation::Write(Write {
        memory: Ident("MEM"),
        ar: reg("AR", None, RegisterKind::Intern),
        dr: reg("DR", None, RegisterKind::Intern),
    });
    assert_eq!(RenderOperation { operation: &w }.to_string(), "VHDL_write MEM;");
    let r = Operation::Read(Read {
        memory: Ident("MEM"),
        ar: reg("AR", None, RegisterKind::Intern),
        dr: reg("DR", None, RegisterKind::Intern),
    });
    assert_eq!(RenderOperation { operation: &r }.to_string(), "VHDL_read MEM;");
    let a = Operation::Assignment(Assignment {
        lhs: Lvalue::Register(reg("X", Some(BitRange::Downto(7, 4)), RegisterKind::Intern)),
        rhs: atom(Atom::Number(number("0101")), Extend::Zero(4)),
    });
    assert_eq!(RenderOperation { operation: &a }.to_string(), "register_X(7 DOWNTO 4) <= zero_extend(\"0101\", 4);");
    let b = Operation::Assignment(Assignment {
        lhs: Lvalue::Bus(Bus { ident: Ident("B"), range: None, kind: BusKind::Intern }),
        rhs: atom(Atom::Register(reg("X", None, RegisterKind::Output)), Extend::Zero(8)),
    });
    assert_eq!(RenderOperation { operation: &b }.to_string(), "bus_B <= zero_extend(output_X, 8);");
}

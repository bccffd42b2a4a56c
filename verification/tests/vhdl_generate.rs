use rt_easy::value::Value;
use rt_easy::vhdl::builder::{generate, BackendVhdl, CriteriaMapping, Vhdl};
use rt_easy::vhdl::deps::NextStateLogicDeps;
use rt_easy::vhdl::error::SynthError;
use rt_easy::vhdl::from_mir::{generate_declarations, generate_expression};
use rt_easy::vhdl::generate::SourceBitRange;
use rt_easy::vhdl::ir::{
    Atom, BinaryOperator, BitRange, BusKind, Criterion, CriterionId, ExpressionKind, Extend,
    Ident, NextStateLogic, NumberKind, Operation, RegisterKind, UnaryOperator,
};
use rt_easy::vhdl::mir;
use rt_easy::vhdl::next_state::next_state_logic_deps;

fn value(bits: &str) -> Value {
    Value::parse_bin(bits).unwrap()
}

fn range(msb: usize, lsb: usize) -> Option<SourceBitRange> {
    Some(SourceBitRange { msb, lsb: Some(lsb) })
}

fn reg<'s>(name: &'s str, r: Option<SourceBitRange>) -> mir::Register<'s> {
    mir::Register { ident: Ident(name), range: r, kind: RegisterKind::Intern }
}

fn bus<'s>(name: &'s str, r: Option<SourceBitRange>) -> mir::Bus<'s> {
    mir::Bus { ident: Ident(name), range: r, kind: BusKind::Intern }
}

fn num<'s>(bits: &str, kind: NumberKind) -> mir::Expression<'s> {
    mir::Expression::Atom(mir::Atom::Number(mir::Number { value: value(bits), kind }))
}

fn reg_expr<'s>(name: &'s str, r: Option<SourceBitRange>) -> mir::Expression<'s> {
    mir::Expression::Atom(mir::Atom::Register(reg(name, r)))
}

fn bus_expr<'s>(name: &'s str, r: Option<SourceBitRange>) -> mir::Expression<'s> {
    mir::Expression::Atom(mir::Atom::Bus(bus(name, r)))
}

fn step<'s>(criteria: Vec<mir::Criterion>, operation: mir::Operation<'s>) -> mir::Step<'s> {
    mir::Step { criteria, operation, is_post_pipe: false }
}

fn assign<'s>(lhs: mir::Lvalue<'s>, rhs: mir::Expression<'s>, size: usize) -> mir::Operation<'s> {
    mir::Operation::Assignment(mir::Assignment { lhs, rhs, size })
}

fn eval<'s>(id: usize, condition: mir::Expression<'s>) -> mir::Operation<'s> {
    mir::Operation::EvalCriterion(mir::EvalCriterion { criterion_id: mir::CriterionId(id), condition })
}

fn statement<'s>(label: Option<&'s str>, steps: Vec<mir::Step<'s>>) -> mir::Statement<'s> {
    mir::Statement { label: label.map(Ident), steps }
}

fn declare_x<'s>() -> Vec<mir::Declaration<'s>> {
    vec![mir::Declaration::Register(vec![(Ident("X"), range(7, 0), RegisterKind::Intern)])]
}

fn targets(logic: &NextStateLogic, out: &mut Vec<String>) {
    match logic {
        NextStateLogic::Label(l) => out.push(l.0.clone()),
        NextStateLogic::Cond { conditional, default } => {
            for (_, l) in conditional {
                targets(l, out);
            }
            targets(default, out);
        }
    }
}

fn label_of(vhdl: &Vhdl<'_>, i: usize) -> String {
    vhdl.statements[i].label.0.clone()
}

fn jump_of(vhdl: &Vhdl<'_>, i: usize) -> String {
    match &vhdl.statements[i].next_state_logic {
        NextStateLogic::Label(l) => l.0.clone(),
        NextStateLogic::Cond { .. } => panic!("conditional logic"),
    }
}

#[test]
fn generate_declarations_ranges_and_memories() {
    let ds = vec![
        mir::Declaration::Register(vec![
            (Ident("AR"), range(3, 0), RegisterKind::Intern),
            (Ident("DR"), range(0, 7), RegisterKind::Output),
            (Ident("F"), None, RegisterKind::Intern),
        ]),
        mir::Declaration::Bus(vec![(Ident("B"), Some(SourceBitRange { msb: 5, lsb: None }), BusKind::Input)]),
        mir::Declaration::Memory(vec![(Ident("M"), Ident("AR"), Ident("DR"))]),
        mir::Declaration::RegisterArray(vec![(Ident("A"), range(7, 0), 4)]),
    ];
    let d = generate_declarations(&ds);
    assert_eq!(d.registers.len(), 3);
    assert_eq!(d.registers[0].1, BitRange::Downto(3, 0));
    assert_eq!(d.registers[1].1, BitRange::To(0, 7));
    assert_eq!(d.registers[2].1, BitRange::Downto(0, 0));
    assert_eq!(d.buses[0].1, BitRange::Downto(5, 5));
    assert_eq!(d.buses[0].2, BusKind::Input);
    assert_eq!(d.register_arrays[0].1, BitRange::Downto(7, 0));
    assert_eq!(d.register_arrays[0].2, 4);
    assert_eq!(d.memories.len(), 1);
    let (m, ar, dr) = &d.memories[0];
    assert_eq!(m.0, "M");
    assert_eq!((ar.0 .0, ar.1, ar.2), ("AR", BitRange::Downto(3, 0), RegisterKind::Intern));
    assert_eq!((dr.0 .0, dr.1, dr.2), ("DR", BitRange::To(0, 7), RegisterKind::Output));
}

#[test]
fn generate_expression_widths_and_ranges() {
    let d = generate_declarations(&declare_x());
    // X(3:0) + X(7:0), the operands evaluated in four bits, the sum in eight.
    let e = mir::Expression::BinaryTerm(Box::new(mir::BinaryTerm {
        lhs: reg_expr("X", range(3, 0)),
        rhs: reg_expr("X", range(7, 0)),
        operator: BinaryOperator::Add,
        ctx_size: mir::CtxSize::Size(4),
    }));
    let g = generate_expression(&e, &d, 8);
    assert_eq!(g.extend_to, Extend::Zero(8));
    match &g.kind {
        ExpressionKind::BinaryTerm(t) => {
            assert_eq!(t.lhs.extend_to, Extend::Zero(4));
            assert_eq!(t.rhs.extend_to, Extend::Zero(4));
            match (&t.lhs.kind, &t.rhs.kind) {
                (ExpressionKind::Atom(Atom::Register(l)), ExpressionKind::Atom(Atom::Register(r))) => {
                    assert_eq!(l.range, Some(BitRange::Downto(3, 0)));
                    assert_eq!(r.range, None);
                }
                _ => panic!("registers expected"),
            }
        }
        _ => panic!("binary term expected"),
    }
    // A sign extension widens with the sign; other unary terms with zeros.
    let sxt = mir::Expression::UnaryTerm(Box::new(mir::UnaryTerm {
        expression: reg_expr("X", None),
        operator: UnaryOperator::Sxt,
        ctx_size: mir::CtxSize::Inherit,
    }));
    let g = generate_expression(&sxt, &d, 12);
    assert_eq!(g.extend_to, Extend::Sign(12));
    match &g.kind {
        ExpressionKind::UnaryTerm(t) => assert_eq!(t.expression.extend_to, Extend::Zero(12)),
        _ => panic!("unary term expected"),
    }
}

#[test]
fn criteria_mapping_maps_to_last_insertion() {
    let mut m = CriteriaMapping::new();
    m.insert(mir::CriterionId(0), CriterionId(5));
    m.insert(mir::CriterionId(1), CriterionId(2));
    m.insert(mir::CriterionId(0), CriterionId(7));
    let mapped = m.map(&vec![mir::Criterion::True(mir::CriterionId(0)), mir::Criterion::False(mir::CriterionId(1))]);
    assert_eq!(mapped, vec![Criterion::True(CriterionId(7)), Criterion::False(CriterionId(2))]);
}

#[test]
fn labels_and_terminated_state() {
    let statements = vec![
        statement(None, vec![step(vec![], mir::Operation::Nop)]),
        statement(Some("LOOP"), vec![step(vec![], mir::Operation::Goto(Ident("LOOP")))]),
    ];
    let vhdl = generate(mir::Mir { declarations: declare_x(), statements }).unwrap();
    assert_eq!(vhdl.statements.len(), 3);
    assert_eq!(label_of(&vhdl, 0), "UNNAMED_0");
    assert_eq!(jump_of(&vhdl, 0), "NAMED_LOOP");
    assert_eq!(label_of(&vhdl, 1), "NAMED_LOOP");
    assert_eq!(jump_of(&vhdl, 1), "NAMED_LOOP");
    assert_eq!(label_of(&vhdl, 2), "TERMINATED");
    assert_eq!(jump_of(&vhdl, 2), "TERMINATED");
    assert!(vhdl.criteria.is_empty());
    assert!(vhdl.operations.is_empty());
}

#[test]
fn conditional_operations_and_shared_criteria() {
    // if X(0) then X <- 1 fi, twice: one criterion, one operation under it.
    let body = || {
        vec![
            step(vec![], eval(0, reg_expr("X", Some(SourceBitRange { msb: 0, lsb: None })))),
            step(
                vec![mir::Criterion::True(mir::CriterionId(0))],
                assign(mir::Lvalue::Register(reg("X", None)), num("1", NumberKind::Decimal), 8),
            ),
            step(
                vec![mir::Criterion::False(mir::CriterionId(0))],
                assign(mir::Lvalue::Register(reg("X", None)), num("1", NumberKind::Decimal), 8),
            ),
        ]
    };
    let statements = vec![statement(None, body()), statement(None, body())];
    let vhdl = generate(mir::Mir { declarations: declare_x(), statements }).unwrap();
    assert_eq!(vhdl.criteria.len(), 1);
    assert_eq!(vhdl.operations.len(), 1);
    let or = vhdl.statements[0].operations[0].1.as_ref().unwrap();
    assert_eq!(or.0.len(), 2);
    assert_eq!(or.0[0].0, vec![Criterion::True(CriterionId(0))]);
    assert_eq!(or.0[1].0, vec![Criterion::False(CriterionId(0))]);
}

#[test]
fn operations_sorted_by_number() {
    let one = || assign(mir::Lvalue::Register(reg("X", None)), num("1", NumberKind::Decimal), 8);
    let two = || assign(mir::Lvalue::Register(reg("X", None)), num("10", NumberKind::Decimal), 8);
    let statements = vec![
        statement(None, vec![step(vec![], one())]),
        statement(None, vec![step(vec![], two()), step(vec![], one())]),
    ];
    let vhdl = generate(mir::Mir { declarations: declare_x(), statements }).unwrap();
    let ids: Vec<usize> = vhdl.statements[1].operations.iter().map(|(id, _)| id.0).collect();
    assert_eq!(ids, vec![0, 1]);
}

fn bit0() -> Option<SourceBitRange> {
    Some(SourceBitRange { msb: 0, lsb: None })
}

fn if_goto<'s>(condition: mir::Expression<'s>, target: &'s str, post_pipe: bool) -> Vec<mir::Step<'s>> {
    let mut e = step(vec![], eval(0, condition));
    let mut g = step(vec![mir::Criterion::True(mir::CriterionId(0))], mir::Operation::Goto(Ident(target)));
    e.is_post_pipe = post_pipe;
    g.is_post_pipe = post_pipe;
    vec![e, g]
}

fn concat<'s>(parts: Vec<mir::ConcatPartExpr<'s>>) -> mir::Expression<'s> {
    mir::Expression::Atom(mir::Atom::Concat(parts))
}

fn part_num<'s>(bits: &str) -> mir::ConcatPartExpr<'s> {
    mir::ConcatPartExpr::Number(mir::Number { value: value(bits), kind: NumberKind::BitString })
}

fn binary<'s>(lhs: mir::Expression<'s>, op: BinaryOperator, rhs: mir::Expression<'s>, w: usize) -> mir::Expression<'s> {
    mir::Expression::BinaryTerm(Box::new(mir::BinaryTerm { lhs, rhs, operator: op, ctx_size: mir::CtxSize::Size(w) }))
}

struct Example<'s> {
    program: mir::Mir<'s>,
    is_ok: bool,
}

fn x_gets<'s>(n: mir::Expression<'s>, size: usize) -> Vec<mir::Step<'s>> {
    vec![step(vec![], assign(mir::Lvalue::Register(reg("X", None)), n, size))]
}

#[test]
fn unclocked_goto_dependency() {
    let declare_b = || vec![mir::Declaration::Bus(vec![(Ident("B"), range(7, 0), BusKind::Intern)])];
    let examples = vec![
        // START: nop; if B(0) then goto START fi;
        Example {
            program: mir::Mir {
                declarations: declare_b(),
                statements: vec![
                    statement(Some("START"), vec![step(vec![], mir::Operation::Nop)]),
                    statement(None, if_goto(bus_expr("B", bit0()), "START", false)),
                ],
            },
            is_ok: false,
        },
        // START: nop; if "0".B(1) = "11" then goto START fi;
        Example {
            program: mir::Mir {
                declarations: declare_b(),
                statements: vec![
                    statement(Some("START"), vec![step(vec![], mir::Operation::Nop)]),
                    statement(
                        None,
                        if_goto(
                            binary(
                                concat(vec![
                                    part_num("0"),
                                    mir::ConcatPartExpr::Bus(bus("B", Some(SourceBitRange { msb: 1, lsb: None }))),
                                ]),
                                BinaryOperator::Eq,
                                num("11", NumberKind::BitString),
                                2,
                            ),
                            "START",
                            false,
                        ),
                    ),
                ],
            },
            is_ok: false,
        },
        // START: nop; nop | if B(0) then goto START fi;
        Example {
            program: mir::Mir {
                declarations: declare_b(),
                statements: vec![
                    statement(Some("START"), vec![step(vec![], mir::Operation::Nop)]),
                    statement(None, {
                        let mut steps = vec![step(vec![], mir::Operation::Nop)];
                        steps.extend(if_goto(bus_expr("B", bit0()), "START", true));
                        steps
                    }),
                ],
            },
            is_ok: true,
        },
    ];

    for example in examples {
        let res = generate(example.program);
        if example.is_ok {
            assert!(res.is_ok());
        } else {
            match res {
                Ok(_) => panic!("expected backend error"),
                Err(err) => assert!(matches!(err, SynthError::UnclockedGotoDependency)),
            }
        }
    }
}

#[test]
fn conditional_goto_in_first_state() {
    let end = || statement(Some("END"), x_gets(num("1100", NumberKind::Decimal), 8));
    let nop = || statement(None, vec![step(vec![], mir::Operation::Nop)]);
    let examples = vec![
        // if X(0) then goto END fi; nop; END: X <- 12;
        Example {
            program: mir::Mir {
                declarations: declare_x(),
                statements: vec![statement(None, if_goto(reg_expr("X", bit0()), "END", false)), nop(), end()],
            },
            is_ok: false,
        },
        // if X(0)."1" = 23 then goto END fi; nop; END: X <- 12;
        Example {
            program: mir::Mir {
                declarations: declare_x(),
                statements: vec![
                    statement(
                        None,
                        if_goto(
                            binary(
                                concat(vec![mir::ConcatPartExpr::Register(reg("X", bit0())), part_num("1")]),
                                BinaryOperator::Eq,
                                num("10111", NumberKind::Decimal),
                                5,
                            ),
                            "END",
                            false,
                        ),
                    ),
                    nop(),
                    end(),
                ],
            },
            is_ok: false,
        },
        // nop | if X(0) then goto END fi; nop; END: X <- 12;
        Example {
            program: mir::Mir {
                declarations: declare_x(),
                statements: vec![
                    statement(None, {
                        let mut steps = vec![step(vec![], mir::Operation::Nop)];
                        steps.extend(if_goto(reg_expr("X", bit0()), "END", true));
                        steps
                    }),
                    nop(),
                    end(),
                ],
            },
            is_ok: true,
        },
        // if 12 = 12 then goto END fi; nop; END: X <- 12;
        Example {
            program: mir::Mir {
                declarations: declare_x(),
                statements: vec![
                    statement(
                        None,
                        if_goto(
                            binary(num("1100", NumberKind::Decimal), BinaryOperator::Eq, num("1100", NumberKind::Decimal), 4),
                            "END",
                            false,
                        ),
                    ),
                    nop(),
                    end(),
                ],
            },
            is_ok: true,
        },
        // goto END; nop; END: X <- 12;
        Example {
            program: mir::Mir {
                declarations: declare_x(),
                statements: vec![
                    statement(None, vec![step(vec![], mir::Operation::Goto(Ident("END")))]),
                    nop(),
                    end(),
                ],
            },
            is_ok: true,
        },
    ];

    for example in examples {
        let res = generate(example.program);
        if example.is_ok {
            assert!(res.is_ok());
        } else {
            match res {
                Ok(_) => panic!("expected backend error"),
                Err(err) => assert!(matches!(err, SynthError::ConditionalGotoInFirstState)),
            }
        }
    }
}

#[test]
fn next_state_deps_of_statements() {
    let with_bus = statement(None, if_goto(bus_expr("B", bit0()), "START", false));
    assert_eq!(next_state_logic_deps(&with_bus), NextStateLogicDeps { clocked: false, unclocked: true });
    let with_register = statement(None, if_goto(reg_expr("X", bit0()), "START", false));
    assert_eq!(next_state_logic_deps(&with_register), NextStateLogicDeps { clocked: true, unclocked: false });
    let after_pipe = statement(None, if_goto(reg_expr("X", bit0()), "START", true));
    assert_eq!(next_state_logic_deps(&after_pipe), NextStateLogicDeps { clocked: false, unclocked: false });
    let input = mir::Expression::Atom(mir::Atom::Bus(mir::Bus { ident: Ident("I"), range: None, kind: BusKind::Input }));
    let with_input = statement(None, if_goto(input, "START", false));
    assert_eq!(next_state_logic_deps(&with_input), NextStateLogicDeps { clocked: false, unclocked: false });
}

#[test]
fn constant_condition_keeps_conditional_jump() {
    // if 12 = 12 then goto END fi; nop; END: nop;
    let twelve = binary(num("1100", NumberKind::Decimal), BinaryOperator::Eq, num("1100", NumberKind::Decimal), 4);
    let statements = vec![
        statement(None, if_goto(twelve, "END", false)),
        statement(None, vec![step(vec![], mir::Operation::Nop)]),
        statement(Some("END"), vec![step(vec![], mir::Operation::Nop)]),
    ];
    let vhdl = generate(mir::Mir { declarations: declare_x(), statements }).unwrap();
    assert_eq!(vhdl.statements.len(), 4);
    match &vhdl.statements[0].next_state_logic {
        NextStateLogic::Cond { conditional, default } => {
            assert_eq!(conditional.len(), 1);
            match &conditional[0].1 {
                NextStateLogic::Label(l) => assert_eq!(l.0, "NAMED_END"),
                _ => panic!("plain jump expected"),
            }
            match &**default {
                NextStateLogic::Label(l) => assert_eq!(l.0, "UNNAMED_1"),
                _ => panic!("plain jump expected"),
            }
        }
        _ => panic!("conditional logic expected"),
    }
}

#[test]
fn clocked_goto_moves_into_previous_state() {
    // nop; if X(0) then goto END fi; nop; END: nop;
    let statements = vec![
        statement(None, vec![step(vec![], mir::Operation::Nop)]),
        statement(
            None,
            vec![
                step(vec![], eval(0, reg_expr("X", Some(SourceBitRange { msb: 0, lsb: None })))),
                step(vec![mir::Criterion::True(mir::CriterionId(0))], mir::Operation::Goto(Ident("END"))),
            ],
        ),
        statement(None, vec![step(vec![], mir::Operation::Nop)]),
        statement(Some("END"), vec![step(vec![], mir::Operation::Nop)]),
    ];
    let vhdl = generate(mir::Mir { declarations: declare_x(), statements }).unwrap();
    let labels: Vec<String> = (0..vhdl.statements.len()).map(|i| label_of(&vhdl, i)).collect();
    assert_eq!(
        labels,
        vec![
            "UNNAMED_0",
            "UNNAMED_1_GOTO_NAMED_END",
            "UNNAMED_1_GOTO_UNNAMED_2",
            "UNNAMED_2",
            "NAMED_END",
            "TERMINATED",
        ]
    );
    assert_eq!(jump_of(&vhdl, 1), "NAMED_END");
    assert_eq!(jump_of(&vhdl, 2), "UNNAMED_2");
    // No state jumps to the statement whose jumps moved.
    for st in &vhdl.statements {
        let mut out = Vec::new();
        targets(&st.next_state_logic, &mut out);
        assert!(!out.contains(&"UNNAMED_1".to_string()));
    }
    // The first state now picks the split state itself.
    match &vhdl.statements[0].next_state_logic {
        NextStateLogic::Cond { conditional, default } => {
            assert_eq!(conditional.len(), 1);
            assert_eq!(conditional[0].0 .0[0].0, vec![Criterion::True(CriterionId(0))]);
            match (&conditional[0].1, &**default) {
                (NextStateLogic::Label(a), NextStateLogic::Label(b)) => {
                    assert_eq!(a.0, "UNNAMED_1_GOTO_NAMED_END");
                    assert_eq!(b.0, "UNNAMED_1_GOTO_UNNAMED_2");
                }
                _ => panic!("plain jumps expected"),
            }
        }
        _ => panic!("conditional logic expected"),
    }
}

#[test]
fn goto_prefix_avoids_labels() {
    // A label containing `_GOTO_` makes the prefix `_GOTO__`.
    let statements = vec![
        statement(Some("A_GOTO_B"), vec![step(vec![], mir::Operation::Nop)]),
        statement(
            None,
            vec![
                step(vec![], eval(0, reg_expr("X", Some(SourceBitRange { msb: 0, lsb: None })))),
                step(vec![mir::Criterion::True(mir::CriterionId(0))], mir::Operation::Goto(Ident("A_GOTO_B"))),
            ],
        ),
    ];
    let vhdl = generate(mir::Mir { declarations: declare_x(), statements }).unwrap();
    assert_eq!(label_of(&vhdl, 1), "UNNAMED_1_GOTO__NAMED_A_GOTO_B");
    assert_eq!(label_of(&vhdl, 2), "UNNAMED_1_GOTO__TERMINATED");
}

#[test]
fn memory_access_operations() {
    let decls = vec![
        mir::Declaration::Register(vec![
            (Ident("AR"), range(3, 0), RegisterKind::Intern),
            (Ident("DR"), range(7, 0), RegisterKind::Intern),
        ]),
        mir::Declaration::Memory(vec![(Ident("MEM"), Ident("AR"), Ident("DR"))]),
    ];
    let statements = vec![statement(
        None,
        vec![step(vec![], mir::Operation::Read(Ident("MEM"))), step(vec![], mir::Operation::Write(Ident("MEM")))],
    )];
    let vhdl = generate(mir::Mir { declarations: decls, statements }).unwrap();
    assert_eq!(vhdl.operations.len(), 2);
    match (&vhdl.operations[0], &vhdl.operations[1]) {
        (Operation::Read(r), Operation::Write(w)) => {
            assert_eq!(r.memory.0, "MEM");
            assert_eq!(r.ar.ident.0, "AR");
            assert_eq!(r.ar.range, None);
            assert_eq!(w.dr.ident.0, "DR");
        }
        _ => panic!("read then write expected"),
    }
}

// The control signals of a program are its operations, one each.

#[test]
fn zero() {
    // declare bus B(7:0)
    // declare register X
    let declarations = vec![
        mir::Declaration::Bus(vec![(Ident("B"), range(7, 0), BusKind::Intern)]),
        mir::Declaration::Register(vec![(Ident("X"), None, RegisterKind::Intern)]),
    ];
    let vhdl = generate(mir::Mir { declarations, statements: vec![] }).unwrap();
    assert_eq!(vhdl.operations.len(), 0);
}

#[test]
fn one() {
    // declare register X(3:0)
    // X <- 2;
    let declarations = vec![mir::Declaration::Register(vec![(Ident("X"), range(3, 0), RegisterKind::Intern)])];
    let statements = vec![statement(None, x_gets(num("10", NumberKind::Decimal), 4))];
    let vhdl = generate(mir::Mir { declarations, statements }).unwrap();
    assert_eq!(vhdl.operations.len(), 1);
}

#[test]
fn duplicate() {
    // declare bus B(7:0)
    // declare register X(3:0)
    // X(3) <- 1, X(2:0) <- 2; X(2:0) <- 2;
    let declarations = vec![
        mir::Declaration::Bus(vec![(Ident("B"), range(7, 0), BusKind::Intern)]),
        mir::Declaration::Register(vec![(Ident("X"), range(3, 0), RegisterKind::Intern)]),
    ];
    let x3 = || mir::Lvalue::Register(reg("X", Some(SourceBitRange { msb: 3, lsb: None })));
    let x20 = || mir::Lvalue::Register(reg("X", range(2, 0)));
    let statements = vec![
        statement(
            None,
            vec![
                step(vec![], assign(x3(), num("1", NumberKind::Decimal), 1)),
                step(vec![], assign(x20(), num("10", NumberKind::Decimal), 3)),
            ],
        ),
        statement(None, vec![step(vec![], assign(x20(), num("10", NumberKind::Decimal), 3))]),
    ];
    let vhdl = generate(mir::Mir { declarations, statements }).unwrap();
    assert_eq!(vhdl.operations.len(), 2);
}

#[test]
fn duplicate_full_range() {
    // declare register X(7:0)
    // X <- X;
    // X <- X(7:0);
    let statements = vec![
        statement(None, x_gets(reg_expr("X", None), 8)),
        statement(None, x_gets(reg_expr("X", range(7, 0)), 8)),
    ];
    let vhdl = generate(mir::Mir { declarations: declare_x(), statements }).unwrap();
    assert_eq!(vhdl.operations.len(), 1);
}

#[test]
fn duplicate_number_different_kind() {
    // declare register X(7:0)
    // X <- "1100";
    // X <- 0b1100; X <- 0B001100; X <- %0000000000000000001100;
    // X <- 12; X <- 012;
    // X <- 0xc; X <- 0X000C; X <- $00000c;
    let numbers = [
        ("1100", NumberKind::BitString),
        ("1100", NumberKind::Binary),
        ("001100", NumberKind::Binary),
        ("0000000000000000001100", NumberKind::Binary),
        ("1100", NumberKind::Decimal),
        ("1100", NumberKind::Decimal),
        ("1100", NumberKind::Hexadecimal),
        ("0000000000001100", NumberKind::Hexadecimal),
        ("000000000000000000001100", NumberKind::Hexadecimal),
    ];
    let statements = numbers.iter().map(|(n, k)| statement(None, x_gets(num(n, *k), 8))).collect();
    let vhdl = generate(mir::Mir { declarations: declare_x(), statements }).unwrap();
    assert_eq!(vhdl.operations.len(), 1);
    assert_eq!(vhdl.statements.len(), 10);
    for i in 0..9 {
        assert_eq!(vhdl.statements[i].operations.len(), 1);
        assert_eq!(vhdl.statements[i].operations[0].0 .0, 0);
        assert!(vhdl.statements[i].operations[0].1.is_none());
    }
}

#[test]
fn different_ctx_size() {
    // declare register X(7:0)
    // X <- X(3:0) + X(3:0) = "0000";
    // X <- X(3:0) + X(3:0) = "00000";
    let sum = || binary(reg_expr("X", range(3, 0)), BinaryOperator::Add, reg_expr("X", range(3, 0)), 4);
    let statements = vec![
        statement(None, x_gets(binary(sum(), BinaryOperator::Eq, num("0000", NumberKind::BitString), 4), 8)),
        statement(None, x_gets(binary(sum(), BinaryOperator::Eq, num("00000", NumberKind::BitString), 5), 8)),
    ];
    let vhdl = generate(mir::Mir { declarations: declare_x(), statements }).unwrap();
    assert_eq!(vhdl.operations.len(), 2);
}

fn criteria_of(logic: &NextStateLogic, out: &mut Vec<Criterion>) {
    if let NextStateLogic::Cond { conditional, default } = logic {
        for (or, l) in conditional {
            for and in &or.0 {
                out.extend(and.0.iter().copied());
            }
            criteria_of(l, out);
        }
        criteria_of(default, out);
    }
}

#[test]
fn states_refer_to_program() {
    // nop; if X(0) then X <- 1, goto END fi; if X(1) then X <- 10 fi; END: X <- 1;
    let statements = vec![
        statement(None, vec![step(vec![], mir::Operation::Nop)]),
        statement(None, {
            let mut steps = if_goto(reg_expr("X", bit0()), "END", false);
            steps.push(step(
                vec![mir::Criterion::True(mir::CriterionId(0))],
                assign(mir::Lvalue::Register(reg("X", None)), num("1", NumberKind::Decimal), 8),
            ));
            steps
        }),
        statement(
            None,
            vec![
                step(vec![], eval(0, reg_expr("X", Some(SourceBitRange { msb: 1, lsb: None })))),
                step(
                    vec![mir::Criterion::True(mir::CriterionId(0))],
                    assign(mir::Lvalue::Register(reg("X", None)), num("10", NumberKind::Decimal), 8),
                ),
            ],
        ),
        statement(Some("END"), x_gets(num("1", NumberKind::Decimal), 8)),
    ];
    let vhdl = generate(mir::Mir { declarations: declare_x(), statements }).unwrap();
    assert_eq!(vhdl.criteria.len(), 2);
    assert_eq!(vhdl.operations.len(), 2);
    for st in &vhdl.statements {
        let mut crits = Vec::new();
        criteria_of(&st.next_state_logic, &mut crits);
        for (id, or) in &st.operations {
            assert!(id.0 < vhdl.operations.len());
            if let Some(or) = or {
                for and in &or.0 {
                    crits.extend(and.0.iter().copied());
                }
            }
        }
        for c in crits {
            assert!(c.id().0 < vhdl.criteria.len());
        }
    }
}

#[test]
fn backend_generates_program() {
    let statements = vec![statement(None, x_gets(num("101", NumberKind::Decimal), 8))];
    let vhdl = BackendVhdl.generate(mir::Mir { declarations: declare_x(), statements }).unwrap();
    assert_eq!(vhdl.statements.len(), 2);
    assert_eq!(vhdl.operations.len(), 1);
    assert_eq!(vhdl.declarations.registers.len(), 1);
}

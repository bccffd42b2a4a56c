use rt_easy::vhdl::ir::{And, Criterion, CriterionId, Label, NextStateLogic, Or};
use rt_easy::vhdl::logic::{build_logic, clone_logic, transform};

fn jump(label: &str) -> NextStateLogic {
    NextStateLogic::Label(Label(label.to_string()))
}

fn describe(l: &NextStateLogic) -> String {
    match l {
        NextStateLogic::Label(label) => label.0.clone(),
        NextStateLogic::Cond { conditional, default } => {
            let parts: Vec<String> = conditional
                .iter()
                .map(|(or, next)| format!("{}:{}", or.0.len(), describe(next)))
                .collect();
            format!("[{}; else {}]", parts.join(", "), describe(default))
        }
    }
}

fn cond(id: usize) -> Or<And<Criterion>> {
    Or(vec![And(vec![Criterion::True(CriterionId(id))])])
}

#[test]
fn plain_jump_without_conditions() {
    let l = build_logic(vec![], Label("NEXT".to_string()));
    assert_eq!(describe(&l), "NEXT");
}

#[test]
fn conditional_jumps_then_default() {
    let l = build_logic(vec![(cond(0), Label("A".to_string())), (cond(1), Label("B".to_string()))], Label("C".to_string()));
    assert_eq!(describe(&l), "[1:A, 1:B; else C]");
}

#[test]
fn transform_replaces_every_jump() {
    let mut l = build_logic(vec![(cond(0), Label("X".to_string()))], Label("X".to_string()));
    let to = build_logic(vec![(cond(2), Label("Y".to_string()))], Label("Z".to_string()));
    transform(&mut l, &Label("X".to_string()), to);
    assert_eq!(describe(&l), "[1:[1:Y; else Z]; else [1:Y; else Z]]");
}

#[test]
fn transform_of_absent_label_changes_nothing() {
    let mut l = build_logic(vec![(cond(0), Label("A".to_string()))], Label("B".to_string()));
    let before = describe(&clone_logic(&l));
    transform(&mut l, &Label("Q".to_string()), jump("R"));
    assert_eq!(describe(&l), before);
}

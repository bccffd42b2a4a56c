//! The logic that picks the next state, and how states that a jump must
//! pass through are spliced into it.

use super::ir::{And, Criterion, Label, NextStateLogic, Or};
use super::render::or_view;
use crate::text::chars::str_eq;
use vstd::prelude::*;

verus! {

/// The next state logic with labels as text and criteria as sequences.
pub enum LogicView {
    Label(Seq<char>),
    Cond(Seq<(Seq<Seq<Criterion>>, LogicView)>, Box<LogicView>),
}

/// The view of the logic.
pub open spec fn logic_view(l: NextStateLogic) -> LogicView
    decreases l, 1int,
{
    match l {
        NextStateLogic::Label(lb) => LogicView::Label(lb.0@),
        NextStateLogic::Cond { conditional, default } => LogicView::Cond(
            conds_view(conditional@),
            Box::new(logic_view(*default)),
        ),
    }
}

/// The view of conditional branches.
pub open spec fn conds_view(cs: Seq<(Or<And<Criterion>>, NextStateLogic)>) -> Seq<(Seq<Seq<Criterion>>, LogicView)>
    decreases cs, 0int,
{
    if cs.len() == 0 {
        Seq::empty()
    } else {
        conds_view(cs.subrange(0, cs.len() - 1)).push((or_view(&cs[cs.len() - 1].0), logic_view(cs[cs.len() - 1].1)))
    }
}

/// The logic of a state: a plain jump to `default` without conditional
/// jumps, else the conditional jumps in order with `default` after them.
pub open spec fn spec_build_logic(conds: Seq<(Seq<Seq<Criterion>>, Seq<char>)>, default: Seq<char>) -> LogicView {
    if conds.len() == 0 {
        LogicView::Label(default)
    } else {
        LogicView::Cond(
            Seq::new(conds.len(), |i: int| (conds[i].0, LogicView::Label(conds[i].1))),
            Box::new(LogicView::Label(default)),
        )
    }
}

/// The view of conditional jumps to labels.
pub open spec fn jumps_view(cs: Seq<(Or<And<Criterion>>, Label)>) -> Seq<(Seq<Seq<Criterion>>, Seq<char>)> {
    Seq::new(cs.len(), |i: int| (or_view(&cs[i].0), cs[i].1.0@))
}

proof fn lemma_conds_view_len(cs: Seq<(Or<And<Criterion>>, NextStateLogic)>)
    ensures
        conds_view(cs).len() == cs.len(),
        forall|i: int| 0 <= i < cs.len() ==> #[trigger] conds_view(cs)[i] == (or_view(&cs[i].0), logic_view(cs[i].1)),
    decreases cs.len(),
{
    if cs.len() > 0 {
        let p = cs.subrange(0, cs.len() - 1);
        lemma_conds_view_len(p);
        assert forall|i: int| 0 <= i < cs.len() implies #[trigger] conds_view(cs)[i] == (or_view(&cs[i].0), logic_view(cs[i].1)) by {
            if i < cs.len() - 1 {
                assert(p[i] == cs[i]);
            }
        }
    }
}

/// The logic of a state from its conditional jumps and its default jump.
pub fn build_logic(conditional: Vec<(Or<And<Criterion>>, Label)>, default: Label) -> (res: NextStateLogic)
    ensures
        logic_view(res) == spec_build_logic(jumps_view(conditional@), default.0@),
{
    if conditional.len() == 0 {
        assert(jumps_view(conditional@).len() == 0);
        return NextStateLogic::Label(default);
    }
    let ghost jv = jumps_view(conditional@);
    let mut branches: Vec<(Or<And<Criterion>>, NextStateLogic)> = Vec::new();
    let ghost orig = conditional@;
    for c in it: conditional.into_iter()
        invariant
            it.seq() == orig,
            jv == jumps_view(orig),
            branches@.len() == it.index(),
            forall|k: int|
                0 <= k < it.index() ==> or_view(&(#[trigger] branches@[k]).0) == jv[k].0
                    && logic_view(branches@[k].1) == LogicView::Label(jv[k].1),
    {
        let (or, label) = c;
        branches.push((or, NextStateLogic::Label(label)));
    }
    let res = NextStateLogic::Cond { conditional: branches, default: Box::new(NextStateLogic::Label(default)) };
    proof {
        lemma_conds_view_len(branches@);
        assert(branches@.len() == jv.len());
        assert(conds_view(branches@) =~= Seq::new(jv.len(), |i: int| (jv[i].0, LogicView::Label(jv[i].1))));
        assert(res matches NextStateLogic::Cond { conditional, default: d } && conditional@ == branches@);
        assert(logic_view(res) == LogicView::Cond(conds_view(branches@), Box::new(LogicView::Label(default.0@)))) by {
            reveal_with_fuel(logic_view, 2);
        }
    }
    res
}

/// The logic with every jump to `from` replaced by the logic `to`.
pub open spec fn transformed(v: LogicView, from: Seq<char>, to: LogicView) -> LogicView
    decreases v, 1int,
{
    match v {
        LogicView::Label(l) => if l == from {
            to
        } else {
            LogicView::Label(l)
        },
        LogicView::Cond(cs, d) => LogicView::Cond(
            transformed_conds(cs, from, to),
            Box::new(transformed(*d, from, to)),
        ),
    }
}

/// The branches with every jump to `from` replaced by the logic `to`.
pub open spec fn transformed_conds(cs: Seq<(Seq<Seq<Criterion>>, LogicView)>, from: Seq<char>, to: LogicView) -> Seq<(Seq<Seq<Criterion>>, LogicView)>
    decreases cs, 0int,
{
    if cs.len() == 0 {
        Seq::empty()
    } else {
        transformed_conds(cs.subrange(0, cs.len() - 1), from, to).push(
            (cs[cs.len() - 1].0, transformed(cs[cs.len() - 1].1, from, to)),
        )
    }
}

proof fn lemma_transformed_conds(cs: Seq<(Seq<Seq<Criterion>>, LogicView)>, from: Seq<char>, to: LogicView)
    ensures
        transformed_conds(cs, from, to).len() == cs.len(),
        forall|i: int| 0 <= i < cs.len() ==> #[trigger] transformed_conds(cs, from, to)[i] == (cs[i].0, transformed(cs[i].1, from, to)),
    decreases cs.len(),
{
    if cs.len() > 0 {
        let p = cs.subrange(0, cs.len() - 1);
        lemma_transformed_conds(p, from, to);
        assert forall|i: int| 0 <= i < cs.len() implies #[trigger] transformed_conds(cs, from, to)[i] == (cs[i].0, transformed(cs[i].1, from, to)) by {
            if i < cs.len() - 1 {
                assert(p[i] == cs[i]);
            }
        }
    }
}

/// A copy of the disjunction.
pub fn clone_or(or: &Or<And<Criterion>>) -> (res: Or<And<Criterion>>)
    ensures
        or_view(&res) == or_view(or),
{
    let mut ands: Vec<And<Criterion>> = Vec::new();
    let mut k: usize = 0;
    while k < or.0.len()
        invariant
            k <= or.0@.len(),
            ands@.len() == k,
            forall|t: int| 0 <= t < k ==> (#[trigger] ands@[t]).0@ == or.0@[t].0@,
        decreases or.0@.len() - k,
    {
        let and = &or.0[k];
        let mut cs: Vec<Criterion> = Vec::new();
        let mut j: usize = 0;
        while j < and.0.len()
            invariant
                j <= and.0@.len(),
                cs@ == and.0@.take(j as int),
            decreases and.0@.len() - j,
        {
            cs.push(and.0[j]);
            j = j + 1;
            assert(cs@ =~= and.0@.take(j as int));
        }
        assert(cs@ =~= and.0@);
        ands.push(And(cs));
        k = k + 1;
    }
    let res = Or(ands);
    assert(or_view(&res) =~= or_view(or));
    res
}

/// A copy of the logic.
pub fn clone_logic(l: &NextStateLogic) -> (res: NextStateLogic)
    ensures
        logic_view(res) == logic_view(*l),
    decreases l,
{
    match l {
        NextStateLogic::Label(lb) => NextStateLogic::Label(Label(lb.0.clone())),
        NextStateLogic::Cond { conditional, default } => {
            let mut out: Vec<(Or<And<Criterion>>, NextStateLogic)> = Vec::new();
            let mut k: usize = 0;
            while k < conditional.len()
                invariant
                    k <= conditional@.len(),
                    *l is Cond && l->Cond_conditional == *conditional,
                    out@.len() == k,
                    forall|t: int|
                        0 <= t < k ==> or_view(&(#[trigger] out@[t]).0) == or_view(&conditional@[t].0)
                            && logic_view(out@[t].1) == logic_view(conditional@[t].1),
                decreases conditional@.len() - k,
            {
                let branch = &conditional[k];
                proof {
                    assert(decreases_to!(*l => *conditional));
                    assert(decreases_to!(*conditional => conditional@));
                    assert(decreases_to!(conditional@ => conditional@[k as int]));
                    assert(decreases_to!(conditional@[k as int] => conditional@[k as int].1));
                }
                let or = clone_or(&branch.0);
                let sub = clone_logic(&branch.1);
                out.push((or, sub));
                k = k + 1;
            }
            let d = clone_logic(default);
            let res = NextStateLogic::Cond { conditional: out, default: Box::new(d) };
            proof {
                lemma_conds_view_len(out@);
                lemma_conds_view_len(conditional@);
                assert(conds_view(out@) =~= conds_view(conditional@));
                assert(logic_view(res) == logic_view(*l)) by {
                    reveal_with_fuel(logic_view, 2);
                }
            }
            res
        },
    }
}

/// The logic with every jump to `from` replaced by the logic `to`.
fn transformed_logic(l: NextStateLogic, from: &Label, to: &NextStateLogic) -> (res: NextStateLogic)
    ensures
        logic_view(res) == transformed(logic_view(l), from.0@, logic_view(*to)),
    decreases l,
{
    let ghost l0 = l;
    match l {
        NextStateLogic::Label(lb) => {
            if str_eq(lb.0.as_str(), from.0.as_str()) {
                clone_logic(to)
            } else {
                NextStateLogic::Label(lb)
            }
        },
        NextStateLogic::Cond { conditional, default } => {
            let ghost orig = conditional@;
            let ghost ov = conds_view(orig);
            let mut out: Vec<(Or<And<Criterion>>, NextStateLogic)> = Vec::new();
            proof {
                lemma_conds_view_len(orig);
            }
            for branch in it: conditional.into_iter()
                invariant
                    it.seq() == orig,
                    l0 is Cond && l0->Cond_conditional@ == orig,
                    l0 == l,
                    ov == conds_view(orig),
                    ov.len() == orig.len(),
                    forall|i: int| 0 <= i < orig.len() ==> #[trigger] ov[i] == (or_view(&orig[i].0), logic_view(orig[i].1)),
                    out@.len() == it.index(),
                    forall|t: int|
                        0 <= t < it.index() ==> or_view(&(#[trigger] out@[t]).0) == ov[t].0
                            && logic_view(out@[t].1) == transformed(ov[t].1, from.0@, logic_view(*to)),
            {
                let ghost k = it.index();
                assert(branch == orig[k as int]);
                let (or, sub) = branch;
                proof {
                    assert(decreases_to!(l0 => l0->Cond_conditional));
                    assert(decreases_to!(l0->Cond_conditional => orig));
                    assert(decreases_to!(orig => orig[k as int]));
                    assert(decreases_to!(orig[k as int] => orig[k as int].1));
                    assert(sub == orig[k as int].1);
                    assert(decreases_to!(l0 => sub));
                }
                let t = transformed_logic(sub, from, to);
                out.push((or, t));
            }
            let d = transformed_logic(*default, from, to);
            let res = NextStateLogic::Cond { conditional: out, default: Box::new(d) };
            proof {
                lemma_conds_view_len(out@);
                lemma_transformed_conds(ov, from.0@, logic_view(*to));
                assert(conds_view(out@) =~= transformed_conds(ov, from.0@, logic_view(*to)));
                assert(logic_view(res) == transformed(logic_view(l), from.0@, logic_view(*to))) by {
                    reveal_with_fuel(logic_view, 2);
                }
            }
            res
        },
    }
}

/// Replaces every jump to `from` in `logic` by the logic `to`.
pub fn transform(logic: &mut NextStateLogic, from: &Label, to: NextStateLogic)
    ensures
        logic_view(*final(logic)) == transformed(logic_view(*old(logic)), from.0@, logic_view(to)),
{
    let mut taken = NextStateLogic::Label(Label(String::new()));
    std::mem::swap(&mut taken, logic);
    *logic = transformed_logic(taken, from, &to);
}

/// Some jump of the logic goes to `l`.
pub open spec fn jumps_to(v: LogicView, l: Seq<char>) -> bool
    decreases v, 1int,
{
    match v {
        LogicView::Label(x) => x == l,
        LogicView::Cond(cs, d) => conds_jump_to(cs, l) || jumps_to(*d, l),
    }
}

/// Some branch jumps to `l`.
pub open spec fn conds_jump_to(cs: Seq<(Seq<Seq<Criterion>>, LogicView)>, l: Seq<char>) -> bool
    decreases cs, 0int,
{
    if cs.len() == 0 {
        false
    } else {
        conds_jump_to(cs.subrange(0, cs.len() - 1), l) || jumps_to(cs[cs.len() - 1].1, l)
    }
}

/// After replacing the jumps to `from` by logic that does not jump there,
/// no jump to `from` is left.
pub proof fn law_transform_removes_jumps(v: LogicView, from: Seq<char>, to: LogicView)
    requires
        !jumps_to(to, from),
    ensures
        !jumps_to(transformed(v, from, to), from),
    decreases v, 1int,
{
    match v {
        LogicView::Label(x) => {},
        LogicView::Cond(cs, d) => {
            lemma_conds_removes(cs, from, to);
            law_transform_removes_jumps(*d, from, to);
        },
    }
}

proof fn lemma_conds_removes(cs: Seq<(Seq<Seq<Criterion>>, LogicView)>, from: Seq<char>, to: LogicView)
    requires
        !jumps_to(to, from),
    ensures
        !conds_jump_to(transformed_conds(cs, from, to), from),
    decreases cs, 0int,
{
    if cs.len() > 0 {
        let p = cs.subrange(0, cs.len() - 1);
        lemma_conds_removes(p, from, to);
        law_transform_removes_jumps(cs[cs.len() - 1].1, from, to);
        let t = transformed_conds(cs, from, to);
        assert(t.subrange(0, t.len() - 1) =~= transformed_conds(p, from, to));
    }
}

/// Replacing the jumps to a label that the logic never jumps to changes
/// nothing.
pub proof fn law_transform_absent_label(v: LogicView, from: Seq<char>, to: LogicView)
    requires
        !jumps_to(v, from),
    ensures
        transformed(v, from, to) == v,
    decreases v, 1int,
{
    match v {
        LogicView::Label(x) => {},
        LogicView::Cond(cs, d) => {
            lemma_conds_absent(cs, from, to);
            law_transform_absent_label(*d, from, to);
        },
    }
}

proof fn lemma_conds_absent(cs: Seq<(Seq<Seq<Criterion>>, LogicView)>, from: Seq<char>, to: LogicView)
    requires
        !conds_jump_to(cs, from),
    ensures
        transformed_conds(cs, from, to) == cs,
    decreases cs, 0int,
{
    if cs.len() > 0 {
        let p = cs.subrange(0, cs.len() - 1);
        lemma_conds_absent(p, from, to);
        law_transform_absent_label(cs[cs.len() - 1].1, from, to);
        assert(p.push(cs[cs.len() - 1]) =~= cs);
    }
}

/// Replacing the jumps to `from` by logic that does not jump to `l` adds no
/// jump to `l`.
pub proof fn law_transform_keeps_absent(v: LogicView, from: Seq<char>, to: LogicView, l: Seq<char>)
    requires
        !jumps_to(v, l),
        !jumps_to(to, l),
    ensures
        !jumps_to(transformed(v, from, to), l),
    decreases v, 1int,
{
    match v {
        LogicView::Label(x) => {},
        LogicView::Cond(cs, d) => {
            lemma_conds_keep_absent(cs, from, to, l);
            law_transform_keeps_absent(*d, from, to, l);
        },
    }
}

proof fn lemma_conds_keep_absent(
    cs: Seq<(Seq<Seq<Criterion>>, LogicView)>,
    from: Seq<char>,
    to: LogicView,
    l: Seq<char>,
)
    requires
        !conds_jump_to(cs, l),
        !jumps_to(to, l),
    ensures
        !conds_jump_to(transformed_conds(cs, from, to), l),
    decreases cs, 0int,
{
    if cs.len() > 0 {
        let p = cs.subrange(0, cs.len() - 1);
        lemma_conds_keep_absent(p, from, to, l);
        law_transform_keeps_absent(cs[cs.len() - 1].1, from, to, l);
        let t = transformed_conds(cs, from, to);
        assert(t.subrange(0, t.len() - 1) =~= transformed_conds(p, from, to));
    }
}

/// The logic of a state jumps only to its default target and to the
/// targets of its conditional jumps.
pub proof fn lemma_build_logic_targets(
    conds: Seq<(Seq<Seq<Criterion>>, Seq<char>)>,
    default: Seq<char>,
    l: Seq<char>,
)
    requires
        jumps_to(spec_build_logic(conds, default), l),
    ensures
        l == default || exists|i: int| 0 <= i < conds.len() && conds[i].1 == l,
{
    if conds.len() > 0 {
        let cs = Seq::new(conds.len(), |i: int| (conds[i].0, LogicView::Label(conds[i].1)));
        assert(spec_build_logic(conds, default) == LogicView::Cond(
            cs,
            Box::new(LogicView::Label(default)),
        ));
        assert(jumps_to(spec_build_logic(conds, default), l) == (conds_jump_to(cs, l) || jumps_to(
            LogicView::Label(default),
            l,
        )));
        if conds_jump_to(cs, l) {
            lemma_conds_jump_witness(cs, l);
            let i = choose|i: int| 0 <= i < cs.len() && jumps_to(cs[i].1, l);
            assert(cs[i].1 == LogicView::Label(conds[i].1));
            assert(jumps_to(LogicView::Label(conds[i].1), l));
            assert(conds[i].1 == l);
        } else {
            assert(jumps_to(LogicView::Label(default), l));
        }
    } else {
        assert(spec_build_logic(conds, default) == LogicView::Label(default));
    }
}

proof fn lemma_conds_jump_witness(cs: Seq<(Seq<Seq<Criterion>>, LogicView)>, l: Seq<char>)
    requires
        conds_jump_to(cs, l),
    ensures
        exists|i: int| 0 <= i < cs.len() && jumps_to(cs[i].1, l),
    decreases cs.len(),
{
    let p = cs.subrange(0, cs.len() - 1);
    if conds_jump_to(p, l) {
        lemma_conds_jump_witness(p, l);
        let i = choose|i: int| 0 <= i < p.len() && jumps_to(p[i].1, l);
        assert(cs[i] == p[i]);
    } else {
        assert(jumps_to(cs[cs.len() - 1].1, l));
    }
}

} // verus!

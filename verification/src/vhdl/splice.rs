//! Why the generated program has no jump left to a statement whose jumps
//! moved into the states before it: the states that replace it are named
//! with the goto prefix, which no statement label can take.

use super::builder::{
    apply_transforms, initial_sb, mir_labels, sort_ops, spec_add_step,
    spec_add_steps, spec_eval_group, spec_finish,
    spec_gen_statements, spec_goto_prefix, stmt_label, terminated_statement,
    transform_all, transforms_insert, GenState, SbState,
};
use super::from_mir::DeclsView;
use super::generate::{any_label_contains, contains_seq, goto_prefix, label_text};
use super::ir::{named_prefix, terminated_text, unnamed_prefix};
use super::logic::{
    jumps_to, law_transform_keeps_absent, law_transform_removes_jumps,
    lemma_build_logic_targets, spec_build_logic, LogicView,
};
use super::mir;
use super::next_state::spec_next_state_logic_deps;
use crate::value::format::{dec_string, digit_char};
use vstd::prelude::*;

verus! {

/// `l` is the label of one of the statements.
pub open spec fn is_statement_label<'s>(stmts: Seq<mir::Statement<'s>>, l: Seq<char>) -> bool {
    exists|k: int| 0 <= k < stmts.len() && l == #[trigger] stmt_label(stmts, k)
}

/// `l` is the label of a state split off a statement: the label of the
/// statement, the prefix, then its target.
pub open spec fn is_split_label<'s>(stmts: Seq<mir::Statement<'s>>, p: Seq<char>, l: Seq<char>) -> bool {
    exists|k: int, x: Seq<char>| 0 <= k < stmts.len() && l == #[trigger] (stmt_label(stmts, k) + p + x)
}

/// The logic jumps only to states split off statements.
pub open spec fn jumps_only_split<'s>(v: LogicView, stmts: Seq<mir::Statement<'s>>, p: Seq<char>) -> bool {
    forall|l: Seq<char>| #[trigger] jumps_to(v, l) ==> is_split_label(stmts, p, l)
}

/// Each recorded transformation replaces the jumps to a statement by logic
/// that jumps only to states split off statements.
pub open spec fn transforms_wf<'s>(
    ts: Seq<(Seq<char>, LogicView)>,
    stmts: Seq<mir::Statement<'s>>,
    p: Seq<char>,
) -> bool {
    forall|i: int|
        0 <= i < ts.len() ==> is_statement_label(stmts, (#[trigger] ts[i]).0) && jumps_only_split(
            ts[i].1,
            stmts,
            p,
        )
}

proof fn lemma_eval_group_keeps<'s>(
    sb: SbState,
    g: GenState,
    items: Seq<mir::EvalCriterion<'s>>,
    d: DeclsView<'s>,
)
    ensures
        spec_eval_group(sb, g, items, d).0.label == sb.label,
        spec_eval_group(sb, g, items, d).0.transform == sb.transform,
        spec_eval_group(sb, g, items, d).1.transforms == g.transforms,
        spec_eval_group(sb, g, items, d).1.statements == g.statements,
    decreases items.len(),
{
    if items.len() > 0 {
        lemma_eval_group_keeps(sb, g, items.drop_last(), d);
    }
}

proof fn lemma_add_step_keeps<'s>(sb: SbState, g: GenState, step: mir::Step<'s>, d: DeclsView<'s>)
    ensures
        spec_add_step(sb, g, step, d).0.label == sb.label,
        spec_add_step(sb, g, step, d).0.transform == sb.transform,
        spec_add_step(sb, g, step, d).1.transforms == g.transforms,
        spec_add_step(sb, g, step, d).1.statements == g.statements,
{
    match step.operation {
        mir::Operation::EvalCriterionSwitchGroup(items) => {
            lemma_eval_group_keeps(sb, g, items@, d);
        },
        _ => {},
    }
}

/// Adding steps keeps the label of the statement, whether its jumps move,
/// and the states and transformations gathered before.
pub proof fn lemma_add_steps_keeps<'s>(sb: SbState, g: GenState, steps: Seq<mir::Step<'s>>, d: DeclsView<'s>)
    ensures
        spec_add_steps(sb, g, steps, d).0.label == sb.label,
        spec_add_steps(sb, g, steps, d).0.transform == sb.transform,
        spec_add_steps(sb, g, steps, d).1.transforms == g.transforms,
        spec_add_steps(sb, g, steps, d).1.statements == g.statements,
    decreases steps.len(),
{
    if steps.len() > 0 {
        lemma_add_steps_keeps(sb, g, steps.drop_last(), d);
        let (sb1, g1) = spec_add_steps(sb, g, steps.drop_last(), d);
        lemma_add_step_keeps(sb1, g1, steps.last(), d);
    }
}

proof fn lemma_transforms_insert_wf<'s>(
    ts: Seq<(Seq<char>, LogicView)>,
    from: Seq<char>,
    to: LogicView,
    stmts: Seq<mir::Statement<'s>>,
    p: Seq<char>,
)
    requires
        transforms_wf(ts, stmts, p),
        is_statement_label(stmts, from),
        jumps_only_split(to, stmts, p),
    ensures
        transforms_wf(transforms_insert(ts, from, to), stmts, p),
{
    let r = transforms_insert(ts, from, to);
    if exists|i: int| 0 <= i < ts.len() && ts[i].0 == from {
        assert forall|i: int| 0 <= i < r.len() implies is_statement_label(
            stmts,
            (#[trigger] r[i]).0,
        ) && jumps_only_split(r[i].1, stmts, p) by {
            assert(r[i] == ts[i] || r[i] == (from, to));
        }
    } else {
        assert(r == ts.push((from, to)));
        assert forall|i: int| 0 <= i < r.len() implies is_statement_label(
            stmts,
            (#[trigger] r[i]).0,
        ) && jumps_only_split(r[i].1, stmts, p) by {
            if i < ts.len() {
                assert(r[i] == ts[i]);
            }
        }
    }
}

proof fn lemma_gen_transforms_wf<'s>(stmts: Seq<mir::Statement<'s>>, n: int, d: DeclsView<'s>, p: Seq<char>)
    requires
        0 <= n <= stmts.len(),
    ensures
        transforms_wf(spec_gen_statements(stmts, n, d, p).transforms, stmts, p),
    decreases n,
{
    if n > 0 {
        lemma_gen_transforms_wf(stmts, n - 1, d, p);
        let g = spec_gen_statements(stmts, n - 1, d, p);
        let label = stmt_label(stmts, n - 1);
        let next = stmt_label(stmts, n);
        let t = spec_next_state_logic_deps(stmts[n - 1].steps@).clocked;
        let init = initial_sb(label, next, t);
        let steps = stmts[n - 1].steps@;
        lemma_add_steps_keeps(init, g, steps, d);
        let (sb, g1) = spec_add_steps(init, g, steps, d);
        let sb2 = SbState { ops: sort_ops(sb.ops), ..sb
};
        assert(spec_gen_statements(stmts, n, d, p) == spec_finish(sb2, g1, p));
        assert(label == stmt_label(stmts, n - 1));
        if sb2.transform {
            let conds = Seq::new(
                sb2.cond.len(),
                |i: int| (sb2.cond[i].0, sb2.label + p + sb2.cond[i].1),
            );
            let dflt = sb2.label + p + sb2.default;
            let to = spec_build_logic(conds, dflt);
            assert forall|l: Seq<char>| #[trigger] jumps_to(to, l) implies is_split_label(
                stmts,
                p,
                l,
            ) by {
                lemma_build_logic_targets(conds, dflt, l);
                if l == dflt {
                    assert(l == stmt_label(stmts, n - 1) + p + sb2.default);
                } else {
                    let i = choose|i: int| 0 <= i < conds.len() && conds[i].1 == l;
                    assert(l == stmt_label(stmts, n - 1) + p + sb2.cond[i].1);
                }
            }
            assert(is_statement_label(stmts, sb2.label));
            lemma_transforms_insert_wf(g1.transforms, sb2.label, to, stmts, p);
        }
    }
}

proof fn lemma_transform_all_clears(l0: LogicView, ts: Seq<(Seq<char>, LogicView)>)
    requires
        forall|i: int, j: int|
            0 <= i < ts.len() && 0 <= j < ts.len() ==> !jumps_to(#[trigger] ts[i].1, #[trigger] ts[j].0),
    ensures
        forall|j: int| 0 <= j < ts.len() ==> !jumps_to(transform_all(l0, ts), #[trigger] ts[j].0),
    decreases ts.len(),
{
    if ts.len() > 0 {
        let q = ts.drop_last();
        assert forall|i: int, j: int|
            0 <= i < q.len() && 0 <= j < q.len() implies !jumps_to(#[trigger] q[i].1, #[trigger] q[j].0) by {
            assert(q[i] == ts[i] && q[j] == ts[j]);
        }
        lemma_transform_all_clears(l0, q);
        let v = transform_all(l0, q);
        let t = ts.last();
        assert(!jumps_to(ts[ts.len() - 1].1, ts[ts.len() - 1].0));
        law_transform_removes_jumps(v, t.0, t.1);
        assert forall|j: int| 0 <= j < ts.len() implies !jumps_to(
            transform_all(l0, ts),
            #[trigger] ts[j].0,
        ) by {
            if j < ts.len() - 1 {
                assert(q[j] == ts[j]);
                assert(!jumps_to(v, q[j].0));
                assert(!jumps_to(ts[ts.len() - 1].1, ts[j].0));
                law_transform_keeps_absent(v, t.0, t.1, ts[j].0);
            }
        }
    }
}

proof fn lemma_dec_string_digits(n: nat)
    ensures
        dec_string(n).len() > 0,
        forall|i: int| 0 <= i < dec_string(n).len() ==> #[trigger] dec_string(n)[i] != '_',
    decreases n,
{
    if n >= 10 {
        lemma_dec_string_digits(n / 10);
        let d = (n % 10) as nat;
        assert(digit_char(d) != '_');
        assert forall|i: int| 0 <= i < dec_string(n).len() implies #[trigger] dec_string(n)[i]
            != '_' by {
            if i < dec_string(n / 10).len() {
                assert(dec_string(n)[i] == dec_string(n / 10)[i]);
            }
        }
    } else {
        assert(digit_char(n) != '_');
    }
}

/// Labels of statements begin with `N` (named) or `U` (unnamed).
proof fn lemma_stmt_label_start<'s>(stmts: Seq<mir::Statement<'s>>, k: int)
    requires
        0 <= k < stmts.len(),
    ensures
        stmt_label(stmts, k).len() >= 6,
        stmts[k].label is Some ==> stmt_label(stmts, k)[0] == 'N' && stmt_label(stmts, k)
            == named_prefix() + (stmts[k].label->0).0@,
        stmts[k].label is None ==> stmt_label(stmts, k)[0] == 'U' && stmt_label(stmts, k)
            == unnamed_prefix() + dec_string(k as nat),
{
    if stmts[k].label is None {
        lemma_dec_string_digits(k as nat);
    }
}

/// A split state's label is no statement's label.
proof fn lemma_split_not_statement<'s>(stmts: Seq<mir::Statement<'s>>, p: Seq<char>, l: Seq<char>)
    requires
        p.len() > 0,
        p[0] == '_',
        !any_label_contains(mir_labels(stmts), p),
        is_split_label(stmts, p, l),
    ensures
        !is_statement_label(stmts, l),
{
    let (k1, x) = choose|k: int, x: Seq<char>| 0 <= k < stmts.len() && l == #[trigger] (stmt_label(
        stmts,
        k,
    ) + p + x);
    if is_statement_label(stmts, l) {
        let k2 = choose|k: int| 0 <= k < stmts.len() && l == #[trigger] stmt_label(stmts, k);
        let a = stmt_label(stmts, k1);
        let b = stmt_label(stmts, k2);
        lemma_stmt_label_start(stmts, k1);
        lemma_stmt_label_start(stmts, k2);
        assert(l[0] == a[0]);
        assert(l[0] == b[0]);
        if stmts[k1].label is Some {
            let u = (stmts[k1].label->0).0@;
            let w = (stmts[k2].label->0).0@;
            assert(stmts[k2].label is Some);
            assert(l.subrange(6, l.len() as int) =~= u + p + x);
            assert(l.subrange(6, l.len() as int) =~= w);
            assert(w.subrange(u.len() as int, (u.len() + p.len()) as int) =~= p);
            let labels = mir_labels(stmts);
            assert(labels[k2] == Some((stmts[k2].label->0).0));
            assert(label_text(labels[k2]) == w);
            assert(contains_seq(label_text(labels[k2]), p));
            assert(any_label_contains(labels, p));
        } else {
            assert(stmts[k2].label is None);
            let u = dec_string(k1 as nat);
            let w = dec_string(k2 as nat);
            lemma_dec_string_digits(k2 as nat);
            assert(l.subrange(8, l.len() as int) =~= u + p + x);
            assert(l.subrange(8, l.len() as int) =~= w);
            assert(w[u.len() as int] == p[0]);
        }
    }
}

/// The longest label.
spec fn longest_label<'s>(labels: Seq<Option<&'s str>>) -> nat
    decreases labels.len(),
{
    if labels.len() == 0 {
        0
    } else {
        let m = longest_label(labels.drop_last());
        let t = label_text(labels.last()).len();
        if m < t {
            t
        } else {
            m
        }
    }
}

proof fn lemma_longest_label<'s>(labels: Seq<Option<&'s str>>)
    ensures
        forall|k: int| 0 <= k < labels.len() ==> label_text(#[trigger] labels[k]).len() <= longest_label(labels),
    decreases labels.len(),
{
    if labels.len() > 0 {
        lemma_longest_label(labels.drop_last());
        assert forall|k: int| 0 <= k < labels.len() implies label_text(#[trigger] labels[k]).len()
            <= longest_label(labels) by {
            if k < labels.len() - 1 {
                assert(labels[k] == labels.drop_last()[k]);
            }
        }
    }
}

/// The first prefix from `_GOTO_` plus `n` underscores on that no label
/// contains, looking at most `fuel` further.
spec fn first_free<'s>(labels: Seq<Option<&'s str>>, n: nat, fuel: nat) -> nat
    decreases fuel,
{
    if fuel == 0 || !any_label_contains(labels, goto_prefix(n)) {
        n
    } else {
        first_free(labels, n + 1, (fuel - 1) as nat)
    }
}

proof fn lemma_first_free<'s>(labels: Seq<Option<&'s str>>, n: nat, fuel: nat)
    requires
        forall|j: nat| j < n ==> any_label_contains(labels, #[trigger] goto_prefix(j)),
        n + fuel >= longest_label(labels),
    ensures
        !any_label_contains(labels, goto_prefix(first_free(labels, n, fuel))),
        forall|j: nat| j < first_free(labels, n, fuel) ==> any_label_contains(labels, #[trigger] goto_prefix(j)),
    decreases fuel,
{
    if fuel == 0 {
        lemma_longest_label(labels);
        if any_label_contains(labels, goto_prefix(n)) {
            let k = choose|k: int|
                0 <= k < labels.len() && labels[k] is Some && contains_seq(
                    #[trigger] label_text(labels[k]),
                    goto_prefix(n),
                );
            assert(label_text(labels[k]).len() <= longest_label(labels));
            assert(goto_prefix(n).len() == n + 6);
        }
    } else if any_label_contains(labels, goto_prefix(n)) {
        assert forall|j: nat| j < n + 1 implies any_label_contains(labels, #[trigger] goto_prefix(j)) by {
        }
        lemma_first_free(labels, n + 1, (fuel - 1) as nat);
    }
}

/// The goto prefix is `_GOTO_` and underscores, and no label contains it.
proof fn lemma_goto_prefix_free<'s>(labels: Seq<Option<&'s str>>)
    ensures
        !any_label_contains(labels, spec_goto_prefix(labels)),
        spec_goto_prefix(labels).len() > 0,
        spec_goto_prefix(labels)[0] == '_',
{
    let m = first_free(labels, 0, longest_label(labels));
    lemma_first_free(labels, 0, longest_label(labels));
    assert(!any_label_contains(labels, goto_prefix(m)) && forall|j: nat|
        j < m ==> any_label_contains(labels, #[trigger] goto_prefix(j)));
    let c = choose|n: nat|
        !any_label_contains(labels, goto_prefix(n)) && forall|j: nat|
            j < n ==> any_label_contains(labels, #[trigger] goto_prefix(j));
    assert(spec_goto_prefix(labels) == goto_prefix(c));
    assert(goto_prefix(c)[0] == '_');
}

proof fn lemma_transforms_disjoint<'s>(stmts: Seq<mir::Statement<'s>>, d: DeclsView<'s>)
    ensures
        ({
            let p = spec_goto_prefix(mir_labels(stmts));
            let ts = spec_gen_statements(stmts, stmts.len() as int, d, p).transforms;
            &&& forall|i: int, j: int|
                0 <= i < ts.len() && 0 <= j < ts.len() ==> !jumps_to(
                    #[trigger] ts[i].1,
                    #[trigger] ts[j].0,
                )
            &&& forall|j: int| 0 <= j < ts.len() ==> is_statement_label(stmts, #[trigger] ts[j].0)
        }),
{
    let labels = mir_labels(stmts);
    let p = spec_goto_prefix(labels);
    let ts = spec_gen_statements(stmts, stmts.len() as int, d, p).transforms;
    lemma_goto_prefix_free(labels);
    lemma_gen_transforms_wf(stmts, stmts.len() as int, d, p);
    assert forall|i: int, j: int|
        0 <= i < ts.len() && 0 <= j < ts.len() implies !jumps_to(#[trigger] ts[i].1, #[trigger] ts[j].0) by {
        assert(is_statement_label(stmts, ts[j].0));
        assert(jumps_only_split(ts[i].1, stmts, p));
        if jumps_to(ts[i].1, ts[j].0) {
            lemma_split_not_statement(stmts, p, ts[j].0);
        }
    }
    assert forall|j: int| 0 <= j < ts.len() implies is_statement_label(stmts, #[trigger] ts[j].0) by {
    }
}

proof fn lemma_terminated_not_statement<'s>(stmts: Seq<mir::Statement<'s>>, l: Seq<char>)
    requires
        is_statement_label(stmts, l),
    ensures
        !jumps_to(terminated_statement().logic, l),
{
    let k = choose|k: int| 0 <= k < stmts.len() && l == #[trigger] stmt_label(stmts, k);
    lemma_stmt_label_start(stmts, k);
    assert(terminated_text()[0] == 'T');
    assert(jumps_to(LogicView::Label(terminated_text()), l) == (terminated_text() == l));
}

/// No state of the generated program jumps to a statement whose jumps
/// moved into the states before it: the states split off it take its
/// place everywhere, and the terminated state stays where it is.
pub proof fn law_no_jump_to_moved_statement<'s>(stmts: Seq<mir::Statement<'s>>, d: DeclsView<'s>)
    ensures
        ({
            let p = spec_goto_prefix(mir_labels(stmts));
            let g = spec_gen_statements(stmts, stmts.len() as int, d, p);
            let states = apply_transforms(g.statements, g.transforms).push(terminated_statement());
            forall|i: int, j: int|
                0 <= i < states.len() && 0 <= j < g.transforms.len() ==> !jumps_to(
                    #[trigger] states[i].logic,
                    #[trigger] g.transforms[j].0,
                )
        }),
{
    let p = spec_goto_prefix(mir_labels(stmts));
    let g = spec_gen_statements(stmts, stmts.len() as int, d, p);
    let ts = g.transforms;
    lemma_transforms_disjoint(stmts, d);
    let states = apply_transforms(g.statements, ts).push(terminated_statement());
    assert forall|i: int, j: int| 0 <= i < states.len() && 0 <= j < ts.len() implies !jumps_to(
        #[trigger] states[i].logic,
        #[trigger] ts[j].0,
    ) by {
        if i < g.statements.len() {
            lemma_transform_all_clears(g.statements[i].logic, ts);
            assert(states[i].logic == transform_all(g.statements[i].logic, ts));
        } else {
            assert(states[i] == terminated_statement());
            lemma_terminated_not_statement(stmts, ts[j].0);
        }
    }
}

} // verus!

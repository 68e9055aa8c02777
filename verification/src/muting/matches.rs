//! What muting leaves of matches and array literals.
use crate::ast::{Arm, ArrayElement, MatchExpr};
use crate::muting::checks::lemma_check;
use crate::muting::exprs::lemma_expr;
use crate::muting::patterns::lemma_pattern;
use crate::gen::{
    arms_from, array, array_body, check_pattern, expr, group, groups_from, items_from, match_expr,
    match_expr_body, pattern, Arms, Checked, Matching,
};
use crate::op::Op;
use crate::muting::{group_muting, lemma_fresh, lemma_one_more};
use crate::muting::pieces::group_muting_pieces;
use crate::state::{Sighting, State};
use vstd::prelude::*;

verus! {

broadcast use {group_muting, group_muting_pieces};

pub proof fn lemma_match(pre: Seq<Sighting>, m: MatchExpr, tail: bool, s: State)
    ensures
        match_expr(m, tail, s).muted(pre) == match_expr(m, tail, s.muted(pre)),
    decreases m, 1nat,
{
    reveal(match_expr_body);
    assert(match_expr(m, tail, s) == match_expr_body(m, tail, s));
    assert(match_expr(m, tail, s.muted(pre)) == match_expr_body(m, tail, s.muted(pre)));
    let t = expr(*m.subject, s);
    lemma_expr(pre, *m.subject, s);
    let a0 = Arms { s: t.spill(), ends: Seq::empty(), ok: true };
    assert(a0.muted(pre).ends =~= Seq::<usize>::empty());
    assert(a0.muted(pre) == (Arms { s: t.muted(pre).spill(), ends: Seq::empty(), ok: true }));
    lemma_arms(pre, m.arms@, 0, tail, t.next_slot(), a0);
}

pub proof fn lemma_arms(pre: Seq<Sighting>, arms: Seq<Arm>, i: nat, tail: bool, slot: i32, a: Arms)
    ensures
        arms_from(arms, i, tail, slot, a).muted(pre)
            == arms_from(arms, i, tail, slot, a.muted(pre)),
    decreases arms, arms.len() - i,
{
    if i < arms.len() {
        let arm = arms[i as int];
        let o = a.s.push_block();
        let c = check_pattern(arm.pattern, Checked::new(o));
        lemma_check(pre, arm.pattern, Checked::new(o));
        let c2 = check_pattern(arm.pattern, Checked::new(a.muted(pre).s.push_block()));
        assert(c2 == c.muted(pre));
        let ids = c.ids;
        let bound = c.s.bind_idents(ids, ids.len());
        let n = Matching { s: bound.emit_arg(Op::PushLocal, slot), fails: Seq::empty() };
        let n2 = Matching {
            s: c2.s.bind_idents(ids, ids.len()).emit_arg(Op::PushLocal, slot),
            fails: Seq::empty(),
        };
        lemma_fresh(pre, n.s);
        assert(n2 == n.muted(pre));
        let m = pattern(arm.pattern, n);
        let m2 = pattern(arm.pattern, n2);
        lemma_pattern(pre, arm.pattern, n);
        let g = match arm.guard {
            Some(guard) => m.at(expr(guard, m.s).misfit(arm.guard_faults@)).fail_if_false(),
            None => m,
        };
        let g2 = match arm.guard {
            Some(guard) => m2.at(expr(guard, m2.s).misfit(arm.guard_faults@)).fail_if_false(),
            None => m2,
        };
        if let Some(guard) = arm.guard {
            lemma_expr(pre, guard, m.s);
        }
        assert(g2 == g.muted(pre));
        lemma_expr(pre, arm.body, g.s.set_tail(tail));
        let b = expr(arm.body, g.s.set_tail(tail)).set_tail(false).misfit(arm.faults@);
        let b2 = expr(arm.body, g2.s.set_tail(tail)).set_tail(false).misfit(arm.faults@);
        assert(b2 == b.muted(pre));
        lemma_one_more(pre, b, a.ends.len());
        let next = Arms {
            s: b.emit_arg(Op::Jump, 0).patch_all(g.fails, g.fails.len()).pop_block(),
            ends: a.ends.push(b.pos()),
            ok: a.ok && c.ok,
        };
        let next2 = Arms {
            s: b2.emit_arg(Op::Jump, 0).patch_all(g2.fails, g2.fails.len()).pop_block(),
            ends: a.muted(pre).ends.push(b2.pos()),
            ok: a.ok && c2.ok,
        };
        assert(next2.s == next.muted(pre).s);
        assert(next2.ends == next.muted(pre).ends);
        assert(next2 == next.muted(pre));
        lemma_arms(pre, arms, i + 1, tail, slot, next);
    }
}

pub proof fn lemma_items(pre: Seq<Sighting>, es: Seq<ArrayElement>, i: nat, j: nat, s: State)
    ensures
        items_from(es, i, j, s).muted(pre) == items_from(es, i, j, s.muted(pre)),
    decreases
            es,
            (if i < es.len() {
                es.len() - i
            } else {
                0
            }),
{
    if i < j && i < es.len() {
        match es[i as int] {
            ArrayElement::Item { value, faults } => {
                let t = expr(value, s).misfit(faults@);
                lemma_expr(pre, value, s);
                lemma_items(pre, es, i + 1, j, t);
            },
            ArrayElement::Spread { .. } => lemma_items(pre, es, i + 1, j, s),
        }
    }
}

pub proof fn lemma_array(pre: Seq<Sighting>, es: Seq<ArrayElement>, s: State)
    ensures
        array(es, s).muted(pre) == array(es, s.muted(pre)),
    decreases es, 2 * es.len() + 5,
{
    reveal(array_body);
    assert(array(es, s) == array_body(es, s));
    assert(array(es, s.muted(pre)) == array_body(es, s.muted(pre)));
    lemma_groups(pre, es, 0, false, s);
    lemma_items(pre, es, 0, es.len(), s);
}

pub proof fn lemma_group(pre: Seq<Sighting>, es: Seq<ArrayElement>, i: nat, have: bool, s: State)
    requires
        i < es.len(),
    ensures
        group(es, i, have, s).muted(pre) == group(es, i, have, s.muted(pre)),
    decreases es, es.len() + 2,
{
    match es[i as int] {
        ArrayElement::Spread { expression, faults, span } => {
            if let Some(inner) = expression {
                lemma_expr(pre, inner, s);
            }
        },
        ArrayElement::Item { .. } => {
            let j = crate::gen::item_run(es, i);
            let t = items_from(es, i, j, s);
            lemma_items(pre, es, i, j, s);
            if j < es.len() {
                if let ArrayElement::Spread { expression: Some(inner), .. } = es[j as int] {
                    lemma_expr(pre, inner, t);
                }
            }
        },
    }
}

pub proof fn lemma_groups(pre: Seq<Sighting>, es: Seq<ArrayElement>, i: nat, have: bool, s: State)
    ensures
        groups_from(es, i, have, s).muted(pre) == groups_from(es, i, have, s.muted(pre)),
    decreases es, es.len() + 3 + (es.len() - i),
{
    if i < es.len() {
        lemma_group(pre, es, i, have, s);
        let g = group(es, i, have, s);
        if i < g.next <= es.len() {
            lemma_groups(pre, es, g.next, g.have, g.s);
        }
    }
}

} // verus!

//! Matches and array literals leave the scope as it was.
use crate::ast::{span_of, Arm, ArrayElement, MatchExpr};
use crate::balance::checks::lemma_check;
use crate::balance::exprs::{lemma_expr, lemma_tail_block};
use crate::balance::patterns::lemma_pattern;
use crate::diag::Message;
use crate::gen::{
    arms_from, array, array_body, check_pattern, expr, group, groups_from, items_from, match_expr,
    match_expr_body, pattern, run_group, spread_group, Arms, Checked, Matching,
};
use crate::op::Op;
use crate::pieces::group_pieces;
use crate::scopes::{
    extends, from_here, group_steps, leaves, lemma_block, lemma_positioned, lemma_raised, same_scope,
};
use crate::state::State;
use vstd::prelude::*;

verus! {

broadcast use {group_steps, group_pieces};

pub proof fn lemma_match(m: MatchExpr, tail: bool, s: State)
    requires
        !s.loc.tail,
    ensures
        leaves(s.set_tail(tail), match_expr(m, tail, s)),
    decreases m, 1nat,
{
    let b = s.set_tail(tail);
    assert(from_here(b));
    assert(b.loc.tail == tail) by {
        reveal(State::set_tail);
    }
    assert(from_here(s));
    reveal(match_expr_body);
    assert(match_expr(m, tail, s) == match_expr_body(m, tail, s));
    let t = expr(*m.subject, s);
    lemma_expr(*m.subject, s);
    let a0 = Arms { s: t.spill(), ends: Seq::empty(), ok: true };
    assert(leaves(s, a0.s));
    assert(!a0.s.loc.tail) by {
        reveal(same_scope);
    }
    lemma_raised(s, tail, a0.s);
    lemma_positioned(b, tail, a0.s);
    lemma_arms(m.arms@, 0, tail, t.next_slot(), a0);
    let a = arms_from(m.arms@, 0, tail, t.next_slot(), a0);
    let u = a.s.nil().patch_all(a.ends, a.ends.len());
    assert(leaves(b, u));
    assert(from_here(u));
    assert(leaves(u, u));
    let v = match m.missing {
        Some(missing) => u.error(Message::NotExhaustive { missing }, span_of(*m.subject)),
        None => u,
    };
    assert(from_here(u));
    assert(leaves(u, v));
    assert(from_here(v));
    assert(leaves(v, v.report_unreachable(m.arms@, m.arms@.len())));
}

pub proof fn lemma_arms(arms: Seq<Arm>, i: nat, tail: bool, slot: i32, a: Arms)
    requires
        !a.s.loc.tail,
    ensures
        leaves(a.s.set_tail(tail), arms_from(arms, i, tail, slot, a).s),
    decreases arms, arms.len() - i,
{
    let base = a.s.set_tail(tail);
    assert(from_here(base));
    assert(leaves(a.s, a.s));
    lemma_raised(a.s, tail, a.s);
    if i < arms.len() {
        let arm = arms[i as int];
        let o = a.s.push_block();
        let w = o.set_tail(tail);
        lemma_tail_block(a.s, tail);
        assert(w.loc.tail == tail) by {
            reveal(State::set_tail);
        }
        let c = check_pattern(arm.pattern, Checked::new(o));
        lemma_check(arm.pattern, Checked::new(o));
        let ids = c.ids;
        let bound = c.s.bind_idents(ids, ids.len());
        assert(from_here(c.s));
        assert(extends(c.s, bound));
        let n = Matching { s: bound.emit_arg(Op::PushLocal, slot), fails: Seq::empty() };
        assert(from_here(bound));
        assert(leaves(bound, n.s));
        let m = pattern(arm.pattern, n);
        lemma_pattern(arm.pattern, n);
        assert(from_here(o));
        assert(extends(o, m.s));
        let g = match arm.guard {
            Some(guard) => m.at(expr(guard, m.s).misfit(arm.guard_faults@)).fail_if_false(),
            None => m,
        };
        assert(from_here(m.s));
        assert(leaves(m.s, m.s));
        if let Some(guard) = arm.guard {
            lemma_expr(guard, m.s);
        }
        assert(from_here(m.s));
        assert(leaves(m.s, g.s));
        assert(from_here(o));
        assert(extends(o, g.s));
        lemma_raised(o, tail, g.s);
        lemma_positioned(w, tail, g.s);
        lemma_expr(arm.body, g.s.set_tail(tail));
        let x = expr(arm.body, g.s.set_tail(tail));
        assert(from_here(w));
        assert(extends(w, x));
        lemma_positioned(w, false, x);
        let y = x.set_tail(false);
        assert(extends(w, y));
        let b = y.misfit(arm.faults@);
        assert(leaves(y, b));
        let d = b.emit_arg(Op::Jump, 0).patch_all(g.fails, g.fails.len());
        assert(from_here(b));
        assert(leaves(b, d));
        assert(from_here(y));
        assert(leaves(y, d));
        assert(extends(w, d));
        lemma_block(base, d);
        let next = Arms {
            s: d.pop_block(),
            ends: a.ends.push(b.pos()),
            ok: a.ok && c.ok,
        };
        assert(!next.s.loc.tail) by {
            assert(!y.loc.tail) by {
                reveal(State::set_tail);
            }
            reveal(same_scope);
            reveal(State::pop_env);
            reveal(State::pop_locals);
            reveal(State::pop_unused);
        }
        assert(base.loc.tail == tail) by {
            reveal(State::set_tail);
        }
        lemma_positioned(base, tail, next.s);
        lemma_arms(arms, i + 1, tail, slot, next);
    }
}

pub proof fn lemma_items(es: Seq<ArrayElement>, i: nat, j: nat, s: State)
    ensures
        leaves(s, items_from(es, i, j, s)),
    decreases
            es,
            (if i < es.len() {
                es.len() - i
            } else {
                0
            }),
{
    assert(from_here(s));
    assert(leaves(s, s));
    if i < j && i < es.len() {
        match es[i as int] {
            ArrayElement::Item { value, faults } => {
                let t = expr(value, s).misfit(faults@);
                lemma_expr(value, s);
                assert(leaves(s, t));
                lemma_items(es, i + 1, j, t);
            },
            ArrayElement::Spread { .. } => lemma_items(es, i + 1, j, s),
        }
    }
}

pub proof fn lemma_array(es: Seq<ArrayElement>, s: State)
    ensures
        leaves(s, array(es, s)),
    decreases es, 2 * es.len() + 5,
{
    assert(from_here(s));
    reveal(array_body);
    assert(array(es, s) == array_body(es, s));
    lemma_groups(es, 0, false, s);
    lemma_items(es, 0, es.len(), s);
}

pub proof fn lemma_group(es: Seq<ArrayElement>, i: nat, have: bool, s: State)
    requires
        i < es.len(),
    ensures
        leaves(s, group(es, i, have, s).s),
    decreases es, es.len() + 2,
{
    assert(from_here(s));
    assert(leaves(s, s));
    match es[i as int] {
        ArrayElement::Spread { expression, faults, span } => {
            if let Some(inner) = expression {
                lemma_expr(inner, s);
            }
            assert(leaves(s, spread_group(expression, faults@, span, i, have, s).s));
        },
        ArrayElement::Item { .. } => {
            let j = crate::gen::item_run(es, i);
            let t = items_from(es, i, j, s);
            lemma_items(es, i, j, s);
            if j < es.len() {
                if let ArrayElement::Spread { expression: Some(inner), .. } = es[j as int] {
                    lemma_expr(inner, t);
                }
            }
            assert(leaves(s, run_group(es, i, j, have, s).s));
        },
    }
}

pub proof fn lemma_groups(es: Seq<ArrayElement>, i: nat, have: bool, s: State)
    ensures
        leaves(s, groups_from(es, i, have, s)),
    decreases es, es.len() + 3 + (es.len() - i),
{
    assert(from_here(s));
    assert(leaves(s, s));
    if i < es.len() {
        lemma_group(es, i, have, s);
        let g = group(es, i, have, s);
        if i < g.next <= es.len() {
            lemma_groups(es, g.next, g.have, g.s);
        }
    }
}

} // verus!

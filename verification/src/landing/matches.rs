//! The jumps in a match or an array literal land in it.
use crate::ast::{span_of, Arm, ArrayElement, MatchExpr};
use crate::diag::Message;
use crate::gen::{
    arms_from, array, array_body, check_pattern, expr, group, groups_from, items_from, match_expr,
    match_expr_body, pattern, run_group, spread_group, Arms, Checked, Matching,
};
use crate::landing::{
    group_landing, lands, lemma_caught, lemma_handed_on, lemma_lead, lemma_trail, misses, places,
};
use crate::landing::checks::lemma_check;
use crate::landing::exprs::lemma_expr;
use crate::landing::patterns::lemma_pattern;
use crate::landing::pieces::group_landing_pieces;
use crate::op::Op;
use crate::scopes::from_here;
use crate::state::State;
use vstd::prelude::*;

verus! {

broadcast use {group_landing, group_landing_pieces};

pub proof fn lemma_match(m: MatchExpr, tail: bool, s: State)
    ensures
        lands(s, match_expr(m, tail, s)),
    decreases m, 1nat,
{
    assert(from_here(s));
    reveal(match_expr_body);
    assert(match_expr(m, tail, s) == match_expr_body(m, tail, s));
    let t = expr(*m.subject, s);
    lemma_expr(*m.subject, s);
    let a0 = Arms { s: t.spill(), ends: Seq::empty(), ok: true };
    assert(lands(s, a0.s));
    lemma_arms(m.arms@, 0, tail, t.next_slot(), a0);
    let a = arms_from(m.arms@, 0, tail, t.next_slot(), a0);
    let u = a.s.nil().patch_all(a.ends, a.ends.len());
    lemma_caught(ends_of(a0), ends_of(a), a.s.nil());
    lemma_lead(s, a0.s, u, Set::empty());
    assert(from_here(u));
    assert(lands(u, u));
    let v = match m.missing {
        Some(missing) => u.error(Message::NotExhaustive { missing }, span_of(*m.subject)),
        None => u,
    };
    assert(from_here(u));
    assert(lands(u, v));
    assert(from_here(v));
    assert(lands(v, v.report_unreachable(m.arms@, m.arms@.len())));
}

/// The arms so far as code whose open jumps are those to the end.
pub open spec fn ends_of(a: Arms) -> Matching {
    Matching { s: a.s, fails: a.ends }
}

pub proof fn lemma_arms(arms: Seq<Arm>, i: nat, tail: bool, slot: i32, a: Arms)
    ensures
        misses(ends_of(a), ends_of(arms_from(arms, i, tail, slot, a))),
    decreases arms, arms.len() - i,
{
    assert(from_here(ends_of(a).s));
    assert(misses(ends_of(a), ends_of(a)));
    if i < arms.len() {
        let arm = arms[i as int];
        let o = a.s.push_block();
        let c = check_pattern(arm.pattern, Checked::new(o));
        lemma_check(arm.pattern, Checked::new(o));
        let ids = c.ids;
        let bound = c.s.bind_idents(ids, ids.len());
        let n = Matching { s: bound.emit_arg(Op::PushLocal, slot), fails: Seq::empty() };
        assert(lands(a.s, o));
        assert(lands(a.s, n.s));
        let m = pattern(arm.pattern, n);
        lemma_pattern(arm.pattern, n);
        let g = match arm.guard {
            Some(guard) => m.at(expr(guard, m.s).misfit(arm.guard_faults@)).fail_if_false(),
            None => m,
        };
        if let Some(guard) = arm.guard {
            lemma_expr(guard, m.s);
            assert(from_here(m.s));
            assert(misses(m, m.at(expr(guard, m.s).misfit(arm.guard_faults@))));
        }
        assert(from_here(n.s));
        assert(misses(n, g));
        lemma_expr(arm.body, g.s.set_tail(tail));
        let b = expr(arm.body, g.s.set_tail(tail)).set_tail(false).misfit(arm.faults@);
        assert(from_here(g.s));
        assert(lands(g.s, b));
        lemma_handed_on(n, g, b);
        let d = b.emit_arg(Op::Jump, 0).patch_all(g.fails, g.fails.len());
        let over = set![b.pos() as int];
        lemma_lead(a.s, n.s, d, over);
        assert(from_here(d));
        assert(lands(d, d.pop_block()));
        lemma_trail(a.s, d, d.pop_block(), over);
        let next = Arms {
            s: d.pop_block(),
            ends: a.ends.push(b.pos()),
            ok: a.ok && c.ok,
        };
        assert(misses(ends_of(a), ends_of(next))) by {
            reveal(misses);
            assert(next.ends.take(a.ends.len() as int) =~= a.ends);
            assert(places(next.ends, a.ends.len()) =~= over) by {
                assert(next.ends[a.ends.len() as int] == b.pos());
            }
        }
        lemma_arms(arms, i + 1, tail, slot, next);
    }
}

pub proof fn lemma_items(es: Seq<ArrayElement>, i: nat, j: nat, s: State)
    ensures
        lands(s, items_from(es, i, j, s)),
    decreases
            es,
            (if i < es.len() {
                es.len() - i
            } else {
                0
            }),
{
    assert(from_here(s));
    assert(lands(s, s));
    if i < j && i < es.len() {
        match es[i as int] {
            ArrayElement::Item { value, faults } => {
                let t = expr(value, s).misfit(faults@);
                lemma_expr(value, s);
                assert(lands(s, t));
                lemma_items(es, i + 1, j, t);
            },
            ArrayElement::Spread { .. } => lemma_items(es, i + 1, j, s),
        }
    }
}

pub proof fn lemma_array(es: Seq<ArrayElement>, s: State)
    ensures
        lands(s, array(es, s)),
    decreases es, 2 * es.len() + 5,
{
    assert(from_here(s));
    reveal(array_body);
    assert(array(es, s) == array_body(es, s));
    lemma_groups(es, 0, false, s);
    lemma_items(es, 0, es.len(), s);
}

pub proof fn lemma_group(es: Seq<ArrayElement>, i: nat, have: bool, s: State)
    requires
        i < es.len(),
    ensures
        lands(s, group(es, i, have, s).s),
    decreases es, es.len() + 2,
{
    assert(from_here(s));
    assert(lands(s, s));
    match es[i as int] {
        ArrayElement::Spread { expression, faults, span } => {
            if let Some(inner) = expression {
                lemma_expr(inner, s);
            }
            assert(lands(s, spread_group(expression, faults@, span, i, have, s).s));
        },
        ArrayElement::Item { .. } => {
            let j = crate::gen::item_run(es, i);
            let t = items_from(es, i, j, s);
            lemma_items(es, i, j, s);
            if j < es.len() {
                if let ArrayElement::Spread { expression: Some(inner), .. } = es[j as int] {
                    lemma_expr(inner, t);
                }
            }
            assert(lands(s, run_group(es, i, j, have, s).s));
        },
    }
}

pub proof fn lemma_groups(es: Seq<ArrayElement>, i: nat, have: bool, s: State)
    ensures
        lands(s, groups_from(es, i, have, s)),
    decreases es, es.len() + 3 + (es.len() - i),
{
    assert(from_here(s));
    assert(lands(s, s));
    if i < es.len() {
        lemma_group(es, i, have, s);
        let g = group(es, i, have, s);
        if i < g.next <= es.len() {
            lemma_groups(es, g.next, g.have, g.s);
        }
    }
}

} // verus!

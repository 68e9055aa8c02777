//! What muting leaves of statements.
use crate::ast::{pattern_span, Pattern, Statement};
use crate::muting::checks::{lemma_check, lemma_check_all};
use crate::muting::exprs::lemma_expr;
use crate::muting::patterns::{lemma_pattern, lemma_store_name};
use crate::diag::Message;
use crate::gen::{
    check_pattern, check_patterns, elements_from, expr, pattern, statement, statement_body, Checked,
    Matching,
};
use crate::op::Op;
use crate::muting::{group_muting, lemma_fresh};
use crate::muting::pieces::group_muting_pieces;
use crate::state::{Binding, Sighting, State, ValueKind};
use vstd::prelude::*;

verus! {

broadcast use {group_muting, group_muting_pieces};

pub proof fn lemma_statement(pre: Seq<Sighting>, st: Statement, s: State)
    ensures
        statement(st, s).muted(pre) == statement(st, s.muted(pre)),
    decreases st, 1nat,
{
    reveal(statement_body);
    assert(statement(st, s) == statement_body(st, s));
    assert(statement(st, s.muted(pre)) == statement_body(st, s.muted(pre)));
    match st {
        Statement::Binding { target, annotation, init, faults, doc, .. } => {
            let late = s.at_module_scope() && s.has_local(target.name);
            let r = if late {
                s
            } else {
                s.reserve(target.name)
            };
            let t = r.hydrate(annotation);
            let named = init is Function;
            let u = if named {
                t.define(target.name, (Binding { kind: ValueKind::Local, def: None, doc }))
            } else {
                t
            };
            let w = u.set_next_self(
                if named {
                    Some(target.name)
                } else {
                    None
                },
            );
            lemma_expr(pre, init, w);
            let x = expr(init, w).set_next_self(u.loc.next_self).misfit(faults@);
            let v = x.register(target, doc);
            assert(r.muted(pre) == if late {
                s.muted(pre)
            } else {
                s.muted(pre).reserve(target.name)
            });
            assert(t.muted(pre) == r.muted(pre).hydrate(annotation));
            assert(u.muted(pre) == if named {
                t.muted(pre).define(target.name, (Binding { kind: ValueKind::Local, def: None, doc }))
            } else {
                t.muted(pre)
            });
            assert(w.muted(pre) == u.muted(pre).set_next_self(w.loc.next_self)) by {
                reveal(State::set_next_self);
            }
            assert(x.muted(pre) == expr(init, w.muted(pre)).set_next_self(u.loc.next_self).misfit(
                faults@,
            ));
            assert(v.muted(pre) == x.muted(pre).register(target, doc));
            lemma_store_name(pre, v, target.name);
        },
        Statement::TupleBinding { patterns, init, faults, .. } => {
            let t = expr(init, s).misfit(faults@);
            lemma_expr(pre, init, s);
            let c = check_patterns(patterns@, 0, Checked::new(t));
            lemma_check_all(pre, patterns@, 0, Checked::new(t));
            let ids = c.ids;
            let u = c.s.bind_idents(ids, ids.len());
            lemma_bound_elements(pre, patterns@, 0, u.next_slot(), u.spill());
        },
        Statement::CtorBinding { pattern: p, init, uncovered, span } => {
            let t = expr(init, s);
            lemma_expr(pre, init, s);
            let c = check_pattern(p, Checked::new(t));
            lemma_check(pre, p, Checked::new(t));
            let ids = c.ids;
            let u = c.s.bind_idents(ids, ids.len());
            let v = match uncovered {
                Some(missing) => if c.ok {
                    u.error(Message::RefutableCtorBinding { missing }, span)
                } else {
                    u
                },
                None => u,
            };
            let n = Matching {
                s: v.spill().emit_arg(Op::PushLocal, v.next_slot()),
                fails: Seq::empty(),
            };
            lemma_fresh(pre, n.s);
            lemma_pattern(pre, p, n);
            let m = pattern(p, n);
            assert(m.s.patch_all(m.fails, m.fails.len()).muted(pre) == m.muted(pre).s);
        },
        Statement::TypedDiscard { ty_name, annotation, init, faults, .. } => {
            let t = s.error(Message::NotAType { name: ty_name.name }, ty_name.span);
            let u = s.hydrate(annotation);
            lemma_expr(pre, init, u);
            lemma_expr(pre, init, t);
        },
        Statement::Declaration { decl, .. } => {
        },
        Statement::Import(_) => {},
    }
}

pub proof fn lemma_bound_elements(pre: Seq<Sighting>, ps: Seq<Pattern>, i: nat, temp: i32, s: State)
    ensures
        elements_from(ps, i, temp, s).muted(pre) == elements_from(ps, i, temp, s.muted(pre)),
    decreases ps, ps.len() - i,
{
    if i < ps.len() {
        let n = Matching {
            s: s.emit_arg(Op::PushLocal, temp).emit_arg(Op::TupleIndex, i as i32),
            fails: Seq::empty(),
        };
        lemma_fresh(pre, n.s);
        lemma_pattern(pre, ps[i as int], n);
        let m = pattern(ps[i as int], n);
        let t = if m.fails.len() > 0 {
            m.s.error(Message::RefutableBinding, pattern_span(ps[i as int])).patch_all(
                m.fails,
                m.fails.len(),
            )
        } else {
            m.s
        };
        lemma_bound_elements(pre, ps, i + 1, temp, t);
    }
}

} // verus!

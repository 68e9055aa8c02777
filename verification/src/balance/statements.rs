//! A statement adds names to the innermost block at most.
use crate::ast::{pattern_span, Pattern, Statement};
use crate::balance::checks::{lemma_check, lemma_check_all};
use crate::balance::exprs::lemma_expr;
use crate::balance::patterns::{lemma_pattern, lemma_store_name};
use crate::diag::Message;
use crate::gen::{
    check_pattern, check_patterns, elements_from, expr, pattern, statement, statement_body, Checked,
    Matching,
};
use crate::op::Op;
use crate::pieces::group_pieces;
use crate::scopes::{extends, from_here, group_steps, leaves, lemma_named, lemma_register};
use crate::state::{Binding, State, ValueKind};
use vstd::prelude::*;

verus! {

broadcast use {group_steps, group_pieces};

pub proof fn lemma_statement(st: Statement, s: State)
    ensures
        extends(s, statement(st, s)),
    decreases st, 1nat,
{
    assert(from_here(s));
    reveal(statement_body);
    assert(statement(st, s) == statement_body(st, s));
    assert(leaves(s, s));
    match st {
        Statement::Binding { target, annotation, init, faults, doc, .. } => {
            let late = s.at_module_scope() && s.has_local(target.name);
            let r = if late {
                s
            } else {
                s.reserve(target.name)
            };
            assert(extends(s, r));
            let t = r.hydrate(annotation);
            assert(from_here(r));
            assert(leaves(r, t));
            assert(extends(s, t));
            assert(from_here(t));
            assert(leaves(t, t));
            let named = init is Function;
            let u = if named {
                t.define(target.name, (Binding { kind: ValueKind::Local, def: None, doc }))
            } else {
                t
            };
            assert(from_here(t));
            assert(extends(t, u));
            let own = if named {
                Some(target.name)
            } else {
                None
            };
            let w = u.set_next_self(own);
            lemma_expr(init, w);
            lemma_named(u, own, expr(init, w));
            let y = expr(init, w).set_next_self(u.loc.next_self);
            let x = y.misfit(faults@);
            assert(from_here(u));
            assert(leaves(u, y));
            assert(leaves(y, x));
            assert(leaves(u, x));
            lemma_register(x, target, doc);
            let v = x.register(target, doc);
            assert(extends(s, v));
            lemma_store_name(v, target.name);
            assert(from_here(v));
            assert(leaves(v, v.emit_arg(Op::StoreLocal, s.slot_of(target.name))));
        },
        Statement::TupleBinding { patterns, init, faults, .. } => {
            let t = expr(init, s).misfit(faults@);
            lemma_expr(init, s);
            let c = check_patterns(patterns@, 0, Checked::new(t));
            lemma_check_all(patterns@, 0, Checked::new(t));
            let ids = c.ids;
            let u = c.s.bind_idents(ids, ids.len());
            assert(from_here(c.s));
            assert(extends(c.s, u));
            assert(from_here(u));
            assert(leaves(u, u.spill()));
            lemma_bound_elements(patterns@, 0, u.next_slot(), u.spill());
        },
        Statement::CtorBinding { pattern: p, init, uncovered, span } => {
            let t = expr(init, s);
            lemma_expr(init, s);
            let c = check_pattern(p, Checked::new(t));
            lemma_check(p, Checked::new(t));
            let ids = c.ids;
            let u = c.s.bind_idents(ids, ids.len());
            assert(from_here(c.s));
            assert(extends(c.s, u));
            let v = match uncovered {
                Some(missing) => if c.ok {
                    u.error(Message::RefutableCtorBinding { missing }, span)
                } else {
                    u
                },
                None => u,
            };
            assert(from_here(u));
            assert(leaves(u, u));
            assert(from_here(u));
            assert(leaves(u, v));
            let n = Matching {
                s: v.spill().emit_arg(Op::PushLocal, v.next_slot()),
                fails: Seq::empty(),
            };
            assert(from_here(v));
            assert(leaves(v, n.s));
            lemma_pattern(p, n);
            let m = pattern(p, n);
            assert(from_here(m.s));
            assert(leaves(m.s, m.s.patch_all(m.fails, m.fails.len())));
        },
        Statement::TypedDiscard { ty_name, annotation, init, faults, .. } => {
            let t = s.error(Message::NotAType { name: ty_name.name }, ty_name.span);
            let u = s.hydrate(annotation);
            lemma_expr(init, u);
            lemma_expr(init, t);
            assert(leaves(s, u));
            assert(leaves(s, expr(init, u).misfit(faults@).emit(Op::Pop)));
            assert(leaves(s, expr(init, t).misfit(faults@).emit(Op::Pop)));
        },
        Statement::Declaration { decl, .. } => {
            let t = s.error(
                Message::NestedDeclaration { kind: crate::gen::decl_kind(decl) },
                crate::ast::decl_span(decl),
            );
            assert(leaves(s, t));
        },
        Statement::Import(_) => {},
    }
}

pub proof fn lemma_bound_elements(ps: Seq<Pattern>, i: nat, temp: i32, s: State)
    ensures
        extends(s, elements_from(ps, i, temp, s)),
    decreases ps, ps.len() - i,
{
    assert(from_here(s));
    assert(leaves(s, s));
    if i < ps.len() {
        let n = Matching {
            s: s.emit_arg(Op::PushLocal, temp).emit_arg(Op::TupleIndex, i as i32),
            fails: Seq::empty(),
        };
        assert(leaves(s, n.s));
        lemma_pattern(ps[i as int], n);
        let m = pattern(ps[i as int], n);
        let t = if m.fails.len() > 0 {
            m.s.error(Message::RefutableBinding, pattern_span(ps[i as int])).patch_all(
                m.fails,
                m.fails.len(),
            )
        } else {
            m.s
        };
        assert(from_here(m.s));
        assert(leaves(m.s, m.s));
        assert(from_here(m.s));
        assert(leaves(m.s, t));
        lemma_bound_elements(ps, i + 1, temp, t);
    }
}

} // verus!

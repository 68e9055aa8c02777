//! The jumps in a statement land in it.
use crate::ast::{pattern_span, Pattern, Statement};
use crate::diag::Message;
use crate::gen::{
    check_pattern, check_patterns, elements_from, expr, pattern, statement, statement_body, Checked,
    Matching,
};
use crate::landing::{group_landing, lands, lemma_caught, lemma_register, misses, places};
use crate::landing::checks::{lemma_check, lemma_check_all};
use crate::landing::exprs::lemma_expr;
use crate::landing::patterns::{lemma_pattern, lemma_store_name};
use crate::landing::pieces::group_landing_pieces;
use crate::op::Op;
use crate::scopes::from_here;
use crate::state::{Binding, State, ValueKind};
use vstd::prelude::*;

verus! {

broadcast use {group_landing, group_landing_pieces};

pub proof fn lemma_statement(st: Statement, s: State)
    ensures
        lands(s, statement(st, s)),
    decreases st, 1nat,
{
    assert(from_here(s));
    reveal(statement_body);
    assert(statement(st, s) == statement_body(st, s));
    assert(lands(s, s));
    match st {
        Statement::Binding { target, annotation, init, faults, doc, .. } => {
            let late = s.at_module_scope() && s.has_local(target.name);
            let r = if late {
                s
            } else {
                s.reserve(target.name)
            };
            assert(lands(s, r));
            let t = r.hydrate(annotation);
            assert(from_here(r));
            assert(lands(r, t));
            assert(lands(s, t));
            assert(from_here(t));
            assert(lands(t, t));
            let named = init is Function;
            let u = if named {
                t.define(target.name, (Binding { kind: ValueKind::Local, def: None, doc }))
            } else {
                t
            };
            assert(from_here(t));
            assert(lands(t, u));
            let w = u.set_next_self(
                if named {
                    Some(target.name)
                } else {
                    None
                },
            );
            assert(from_here(u));
            assert(lands(u, w));
            lemma_expr(init, w);
            let x = expr(init, w).set_next_self(u.loc.next_self).misfit(faults@);
            assert(from_here(w));
            assert(lands(w, x));
            lemma_register(x, target, doc);
            let v = x.register(target, doc);
            assert(lands(s, v));
            lemma_store_name(v, target.name);
            assert(from_here(v));
            assert(lands(v, v.emit_arg(Op::StoreLocal, s.slot_of(target.name))));
        },
        Statement::TupleBinding { patterns, init, faults, .. } => {
            let t = expr(init, s).misfit(faults@);
            lemma_expr(init, s);
            let c = check_patterns(patterns@, 0, Checked::new(t));
            lemma_check_all(patterns@, 0, Checked::new(t));
            let ids = c.ids;
            let u = c.s.bind_idents(ids, ids.len());
            assert(from_here(c.s));
            assert(lands(c.s, u));
            assert(from_here(u));
            assert(lands(u, u.spill()));
            lemma_bound_elements(patterns@, 0, u.next_slot(), u.spill());
        },
        Statement::CtorBinding { pattern: p, init, uncovered, span } => {
            let t = expr(init, s);
            lemma_expr(init, s);
            let c = check_pattern(p, Checked::new(t));
            lemma_check(p, Checked::new(t));
            let ids = c.ids;
            let u = c.s.bind_idents(ids, ids.len());
            assert(from_here(c.s));
            assert(lands(c.s, u));
            let v = match uncovered {
                Some(missing) => if c.ok {
                    u.error(Message::RefutableCtorBinding { missing }, span)
                } else {
                    u
                },
                None => u,
            };
            assert(from_here(u));
            assert(lands(u, u));
            assert(from_here(u));
            assert(lands(u, v));
            let n = Matching {
                s: v.spill().emit_arg(Op::PushLocal, v.next_slot()),
                fails: Seq::empty(),
            };
            assert(from_here(v));
            assert(lands(v, n.s));
            lemma_pattern(p, n);
            let m = pattern(p, n);
            assert(lands(m.s, m.s));
            lemma_caught(n, m, m.s);
        },
        Statement::TypedDiscard { ty_name, annotation, init, faults, .. } => {
            let t = s.error(Message::NotAType { name: ty_name.name }, ty_name.span);
            let u = s.hydrate(annotation);
            lemma_expr(init, u);
            lemma_expr(init, t);
            assert(lands(s, u));
            assert(lands(s, expr(init, u).misfit(faults@).emit(Op::Pop)));
            assert(lands(s, expr(init, t).misfit(faults@).emit(Op::Pop)));
        },
        Statement::Declaration { decl, .. } => {
            let t = s.error(
                Message::NestedDeclaration { kind: crate::gen::decl_kind(decl) },
                crate::ast::decl_span(decl),
            );
            assert(lands(s, t));
        },
        Statement::Import(_) => {},
    }
}

pub proof fn lemma_bound_elements(ps: Seq<Pattern>, i: nat, temp: i32, s: State)
    ensures
        lands(s, elements_from(ps, i, temp, s)),
    decreases ps, ps.len() - i,
{
    assert(from_here(s));
    assert(lands(s, s));
    if i < ps.len() {
        let n = Matching {
            s: s.emit_arg(Op::PushLocal, temp).emit_arg(Op::TupleIndex, i as i32),
            fails: Seq::empty(),
        };
        assert(lands(s, n.s));
        lemma_pattern(ps[i as int], n);
        let m = pattern(ps[i as int], n);
        let e = m.s.error(Message::RefutableBinding, pattern_span(ps[i as int]));
        let t = if m.fails.len() > 0 {
            e.patch_all(m.fails, m.fails.len())
        } else {
            m.s
        };
        if m.fails.len() > 0 {
            assert(lands(m.s, e));
            lemma_caught(n, m, e);
        } else {
            reveal(misses);
            assert(places(m.fails, 0) =~= Set::<int>::empty());
        }
        assert(lands(n.s, t));
        lemma_bound_elements(ps, i + 1, temp, t);
    }
}

} // verus!

//! What muting leaves of expressions.
use crate::ast::{node_span, BinaryExpr, Expr, Node, PropertyExpr, Statement, StrId, TypeFault};
use crate::muting::calls::lemma_call;
use crate::muting::matches::{lemma_array, lemma_match};
use crate::muting::recover::{lemma_binary_literal, lemma_or};
use crate::muting::statements::lemma_statement;
use crate::binop::{kind_of, BinopKind, ShortCircuitOp};
use crate::diag::Message;
use crate::gen::{
    array, binary, binary_body, declared_function, expr, expr_body, exprs_from, node, nodes_from,
    parts_from, property, property_body, QualifiedView,
};
use crate::op::Op;
use crate::muting::group_muting;
use crate::muting::pieces::group_muting_pieces;
use crate::state::{Sighting, State};
use vstd::prelude::*;

verus! {

broadcast use {group_muting, group_muting_pieces};

/// Compiling an expression in a muted state is compiling it, muted.
pub proof fn lemma_expr(pre: Seq<Sighting>, e: Expr, s: State)
    ensures
        expr(e, s).muted(pre) == expr(e, s.muted(pre)),
    decreases e, 1nat,
{
    reveal(expr_body);
    let tail = s.loc.tail;
    let t = s.set_tail(false);
    assert(expr(e, s) == expr_body(e, tail, t));
    assert(t.muted(pre) == s.muted(pre).set_tail(false));
    assert(expr(e, s.muted(pre)) == expr_body(e, tail, t.muted(pre)));
    match e {
        Expr::BinaryLiteral { segments, .. } => lemma_binary_literal(pre, segments@, t),
        Expr::Block { body, .. } => {
            let o = t.push_block();
            lemma_nodes(pre, body@, 0, tail, o);
            let u = nodes_from(body@, 0, tail, o);
        },
        Expr::Number(n) => {
        },
        Expr::Str { .. } => {},
        Expr::Interpolated { parts, .. } => {
            if parts@.len() > 0 {
                lemma_parts(pre, parts@, 0, t);
            }
        },
        Expr::Name { id, near } => {
        },
        Expr::Binary(b) => lemma_binary(pre, b, t),
        Expr::Unary { operand, faults, .. } => {
            lemma_expr(pre, *operand, t);
        },
        Expr::If { condition, condition_faults, body, else_body, .. } => {
            let s1 = expr(*condition, t).misfit(condition_faults@);
            lemma_expr(pre, *condition, t);
            let b0 = s1.emit_arg(Op::JumpIfFalse, 0).set_tail(tail);
            lemma_expr(pre, *body, b0);
            let s2 = expr(*body, b0).set_tail(false);
            let s3 = s2.emit_arg(Op::Jump, 0).patch(s1.pos() as int);
            lemma_expr(pre, *else_body, s3.set_tail(tail));
        },
        Expr::Match(m) => lemma_match(pre, m, tail, t),
        Expr::Array { elements, .. } => lemma_array(pre, elements@, t),
        Expr::Tuple { elements, .. } => lemma_exprs(pre, elements@, 0, t),
        Expr::Index { array, array_faults, index, .. } => {
            let u = expr(*array, t).misfit(array_faults@);
            lemma_expr(pre, *array, t);
            match *index {
                Expr::Range { start, end, .. } => {
                    lemma_expr(pre, *start, u);
                    lemma_expr(pre, *end, expr(*start, u));
                },
                _ => lemma_expr(pre, *index, u),
            }
        },
        Expr::Range { start, end, .. } => {
            lemma_expr(pre, *start, t);
            lemma_expr(pre, *end, expr(*start, t));
        },
        Expr::Function { params, annotations, body, ret, faults, .. } => {
            let u = t.enter(None).bind_params(params@, annotations@, params@.len());
            lemma_expr(pre, *body, u);
        },
        Expr::Call(c) => lemma_call(pre, c, tail, t),
        Expr::Property(pa) => lemma_property(pre, pa, t),
        Expr::Or(o) => lemma_or(pre, o, t),
        Expr::Error { message, span } => {
        },
    }
}

pub proof fn lemma_nodes(pre: Seq<Sighting>, body: Seq<Node>, i: nat, tail: bool, s: State)
    ensures
        nodes_from(body, i, tail, s).muted(pre) == nodes_from(body, i, tail, s.muted(pre)),
    decreases body, body.len() - i,
{
    if i < body.len() {
        let last = i == body.len() - 1;
        let b = s.set_tail(tail && last);
        lemma_node(pre, body[i as int], b);
        let t = node(body[i as int], b).set_tail(false);
        let u = match body[i as int] {
            Node::Expression { unconsumed, .. } => if last {
                t
            } else {
                match unconsumed {
                    Some(ty) => t.error(Message::MustConsume { ty }, node_span(body[i as int])),
                    None => t,
                }.emit(Op::Pop)
            },
            Node::Statement(_) => t,
        };
        lemma_nodes(pre, body, i + 1, tail, u);
    }
}

pub proof fn lemma_node(pre: Seq<Sighting>, n: Node, s: State)
    ensures
        node(n, s).muted(pre) == node(n, s.muted(pre)),
    decreases n, 0nat,
{
    match n {
        Node::Statement(st) => lemma_statement(pre, st, s),
        Node::Expression { expr: e, .. } => lemma_expr(pre, e, s),
    }
}

pub proof fn lemma_exprs(pre: Seq<Sighting>, es: Seq<Expr>, i: nat, s: State)
    ensures
        exprs_from(es, i, s).muted(pre) == exprs_from(es, i, s.muted(pre)),
    decreases es, es.len() - i,
{
    if i < es.len() {
        lemma_expr(pre, es[i as int], s);
        lemma_exprs(pre, es, i + 1, expr(es[i as int], s));
    }
}

pub proof fn lemma_parts(pre: Seq<Sighting>, es: Seq<Expr>, i: nat, s: State)
    ensures
        parts_from(es, i, s).muted(pre) == parts_from(es, i, s.muted(pre)),
    decreases es, es.len() - i,
{
    if i < es.len() {
        lemma_expr(pre, es[i as int], s);
        let t = expr(es[i as int], s).emit(Op::ToString);
        lemma_parts(pre, es, i + 1, t);
    }
}

pub proof fn lemma_binary(pre: Seq<Sighting>, b: BinaryExpr, s: State)
    ensures
        binary(b, s).muted(pre) == binary(b, s.muted(pre)),
    decreases b, 1nat,
{
    reveal(binary_body);
    assert(binary(b, s) == binary_body(b, s));
    assert(binary(b, s.muted(pre)) == binary_body(b, s.muted(pre)));
    let l = expr(*b.left, s);
    lemma_expr(pre, *b.left, s);
    lemma_expr(pre, *b.right, l);
    let t = l.misfit(b.left_faults@);
    match kind_of(b.op) {
        BinopKind::ShortCircuit(o) => {
            let jump = match o {
                ShortCircuitOp::And => Op::JumpIfFalse,
                ShortCircuitOp::Or => Op::JumpIfTrue,
            };
            let u = t.emit(Op::Dup).emit_arg(jump, 0).emit(Op::Pop);
            lemma_expr(pre, *b.right, u);
        },
        BinopKind::Value(_) => {},
    }
}

pub proof fn lemma_property(pre: Seq<Sighting>, pa: PropertyExpr, s: State)
    ensures
        property(pa, s).muted(pre) == property(pa, s.muted(pre)),
    decreases pa, 1nat,
{
    reveal(property_body);
    assert(property(pa, s) == property_body(pa, s));
    assert(property(pa, s.muted(pre)) == property_body(pa, s.muted(pre)));
    let (t, q) = s.qualified(pa);
    match q {
        QualifiedView::LookupFailed => {},
        QualifiedView::Resolved { module, member, binding, slot } => {
            let n = t.record(None, member, None);
        },
        QualifiedView::NotQualified => {
            let u = expr(*pa.left, t);
            lemma_expr(pre, *pa.left, t);
            match *pa.right {
                Expr::Number(n) => if let Some(i) = crate::numbers::i64_of(u.text(n.text)) {
                    if i32::MIN <= i <= i32::MAX {
                    }
                },
                Expr::Name { id, .. } => {
                },
                _ => {},
            }
        },
    }
}

pub proof fn lemma_declared(
    pre: Seq<Sighting>,
    name: StrId,
    params: Seq<crate::ast::Ident>,
    body: Expr,
    faults: Seq<TypeFault>,
    s: State,
)
    ensures
        declared_function(name, params, body, faults, s).muted(pre)
            == declared_function(name, params, body, faults, s.muted(pre)),
{
    let u = s.enter(Some(name)).bind_idents(params, params.len());
    lemma_expr(pre, body, u);
}

} // verus!

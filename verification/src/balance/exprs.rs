//! An expression leaves the scope as it was.
use crate::ast::{node_span, BinaryExpr, Expr, Node, PropertyExpr, Statement, StrId, TypeFault};
use crate::balance::calls::lemma_call;
use crate::balance::matches::{lemma_array, lemma_match};
use crate::balance::recover::{lemma_binary_literal, lemma_or};
use crate::balance::statements::lemma_statement;
use crate::binop::{kind_of, BinopKind, ShortCircuitOp};
use crate::diag::Message;
use crate::gen::{
    array, binary, binary_body, declared_function, expr, expr_body, exprs_from, node, nodes_from,
    parts_from, property, property_body, QualifiedView,
};
use crate::op::Op;
use crate::pieces::group_pieces;
use crate::scopes::{
    extends, from_here, group_steps, leaves, lemma_block, lemma_function, lemma_positioned,
    lemma_raised, same_scope,
};
use crate::state::State;
use vstd::prelude::*;

verus! {

broadcast use {group_steps, group_pieces};

/// Compiling an expression leaves the scope as it was, whatever blocks and
/// functions it holds: every name is bound to the same slot and denotes the same
/// thing, no diagnostic is taken back, and while only checking nothing is produced.
pub proof fn lemma_expr(e: Expr, s: State)
    ensures
        leaves(s, expr(e, s)),
    decreases e, 1nat,
{
    assert(from_here(s));
    reveal(expr_body);
    let tail = s.loc.tail;
    let t = s.set_tail(false);
    assert(expr(e, s) == expr_body(e, tail, t));
    assert(leaves(s, t));
    assert(t.set_tail(tail) == s && !t.loc.tail) by {
        reveal(State::set_tail);
    }
    assert(from_here(t));
    assert(leaves(t, t));
    match e {
        Expr::BinaryLiteral { segments, .. } => lemma_binary_literal(segments@, t),
        Expr::Block { body, .. } => {
            let o = t.push_block();
            lemma_tail_block(t, tail);
            lemma_nodes(body@, 0, tail, o);
            let u = nodes_from(body@, 0, tail, o);
            assert(from_here(u));
            assert(leaves(u, u));
            assert(from_here(u));
            assert(leaves(u, u.nil()));
            let v = if body@.len() > 0 && body@[body@.len() - 1] is Expression {
                u
            } else {
                u.nil()
            };
            assert(from_here(o.set_tail(tail)));
            assert(extends(o.set_tail(tail), v));
            lemma_block(t.set_tail(tail), v);
        },
        Expr::Number(n) => {
            assert(from_here(t));
            assert(leaves(t, t.push_number(n)));
        },
        Expr::Str { .. } => {},
        Expr::Interpolated { parts, .. } => {
            if parts@.len() > 0 {
                lemma_parts(parts@, 0, t);
            }
        },
        Expr::Name { id, near } => {
            assert(from_here(t));
            assert(leaves(t, t.identifier(id, near)));
        },
        Expr::Binary(b) => lemma_binary(b, t),
        Expr::Unary { operand, faults, .. } => {
            lemma_expr(*operand, t);
            assert(leaves(t, expr(*operand, t).misfit(faults@)));
        },
        Expr::If { condition, condition_faults, body, else_body, .. } => {
            let s1 = expr(*condition, t).misfit(condition_faults@);
            lemma_expr(*condition, t);
            let b0 = s1.emit_arg(Op::JumpIfFalse, 0);
            assert(from_here(t));
            assert(leaves(t, b0));
            assert(leaves(s, b0));
            lemma_positioned(s, tail, b0);
            lemma_expr(*body, b0.set_tail(tail));
            let x = expr(*body, b0.set_tail(tail));
            assert(leaves(s, x));
            lemma_positioned(s, false, x);
            let s2 = x.set_tail(false);
            let s3 = s2.emit_arg(Op::Jump, 0).patch(s1.pos() as int);
            assert(from_here(s2));
            assert(leaves(s2, s3));
            assert(leaves(s, s3));
            lemma_positioned(s, tail, s3);
            lemma_expr(*else_body, s3.set_tail(tail));
            let y = expr(*else_body, s3.set_tail(tail));
            assert(leaves(s, y));
            lemma_positioned(s, false, y);
            assert(leaves(s, y.set_tail(false)));
        },
        Expr::Match(m) => lemma_match(m, tail, t),
        Expr::Array { elements, .. } => lemma_array(elements@, t),
        Expr::Tuple { elements, .. } => lemma_exprs(elements@, 0, t),
        Expr::Index { array, array_faults, index, .. } => {
            let u = expr(*array, t).misfit(array_faults@);
            lemma_expr(*array, t);
            assert(leaves(t, u));
            match *index {
                Expr::Range { start, end, .. } => {
                    lemma_expr(*start, u);
                    lemma_expr(*end, expr(*start, u));
                },
                _ => lemma_expr(*index, u),
            }
        },
        Expr::Range { start, end, .. } => {
            lemma_expr(*start, t);
            lemma_expr(*end, expr(*start, t));
        },
        Expr::Function { params, annotations, body, ret, faults, .. } => {
            let u = t.enter(None).bind_params(params@, annotations@, params@.len());
            assert(from_here(t.enter(None)));
            assert(extends(t.enter(None), u));
            lemma_expr(*body, u);
            assert(from_here(t.enter(None)));
            let v = expr(*body, u).hydrate(ret).misfit(faults@);
            assert(from_here(expr(*body, u)));
            assert(leaves(expr(*body, u), v));
            assert(from_here(t.enter(None)));
            assert(extends(t.enter(None), v));
            lemma_function(t, None, v, "__anon__"@, params@.len() as i32);
        },
        Expr::Call(c) => lemma_call(c, tail, t),
        Expr::Property(pa) => lemma_property(pa, t),
        Expr::Or(o) => lemma_or(o, t),
        Expr::Error { message, span } => {
            assert(from_here(t));
            assert(leaves(t, t.unreadable(message, span)));
        },
    }
}

/// A block in tail position is one in which the position is set.
pub proof fn lemma_tail_block(s: State, tail: bool)
    ensures
        s.set_tail(tail).push_block() == s.push_block().set_tail(tail),
        s.push_block().loc.tail == s.loc.tail,
{
    reveal(State::set_tail);
    reveal(State::push_env);
    reveal(State::push_locals);
}

pub proof fn lemma_nodes(body: Seq<Node>, i: nat, tail: bool, s: State)
    requires
        !s.loc.tail,
    ensures
        extends(s.set_tail(tail), nodes_from(body, i, tail, s)),
    decreases body, body.len() - i,
{
    let a = s.set_tail(tail);
    assert(from_here(a));
    assert(leaves(s, s));
    lemma_raised(s, tail, s);
    if i < body.len() {
        let last = i == body.len() - 1;
        let b = s.set_tail(tail && last);
        assert(b == a.set_tail(tail && last) && a.loc.tail == tail) by {
            reveal(State::set_tail);
        }
        assert(leaves(a, b));
        lemma_node(body[i as int], b);
        let x = node(body[i as int], b);
        assert(extends(a, x));
        lemma_positioned(a, false, x);
        let t = x.set_tail(false);
        assert(!t.loc.tail) by {
            reveal(State::set_tail);
        }
        assert(extends(a, t));
        assert(from_here(t));
        assert(leaves(t, t));
        let u = match body[i as int] {
            Node::Expression { unconsumed, .. } => if last {
                t
            } else {
                match unconsumed {
                    Some(ty) => t.error(Message::MustConsume { ty }, node_span(body[i as int])),
                    None => t,
                }.emit(Op::Pop)
            },
            Node::Statement(_) => t,
        };
        assert(from_here(t));
        assert(leaves(t, u));
        assert(!u.loc.tail) by {
            reveal(same_scope);
        }
        assert(extends(a, u));
        lemma_positioned(a, tail, u);
        lemma_nodes(body, i + 1, tail, u);
    }
}

/// Compiling a statement or an expression of a block adds names to the block at
/// most.
pub proof fn lemma_node(n: Node, s: State)
    ensures
        extends(s, node(n, s)),
    decreases n, 0nat,
{
    assert(from_here(s));
    match n {
        Node::Statement(st) => lemma_statement(st, s),
        Node::Expression { expr: e, .. } => lemma_expr(e, s),
    }
}

pub proof fn lemma_exprs(es: Seq<Expr>, i: nat, s: State)
    ensures
        leaves(s, exprs_from(es, i, s)),
    decreases es, es.len() - i,
{
    assert(from_here(s));
    assert(leaves(s, s));
    if i < es.len() {
        lemma_expr(es[i as int], s);
        lemma_exprs(es, i + 1, expr(es[i as int], s));
    }
}

pub proof fn lemma_parts(es: Seq<Expr>, i: nat, s: State)
    ensures
        leaves(s, parts_from(es, i, s)),
    decreases es, es.len() - i,
{
    assert(from_here(s));
    assert(leaves(s, s));
    if i < es.len() {
        lemma_expr(es[i as int], s);
        let t = expr(es[i as int], s).emit(Op::ToString);
        assert(leaves(s, t));
        lemma_parts(es, i + 1, t);
    }
}

pub proof fn lemma_binary(b: BinaryExpr, s: State)
    ensures
        leaves(s, binary(b, s)),
    decreases b, 1nat,
{
    assert(from_here(s));
    reveal(binary_body);
    assert(binary(b, s) == binary_body(b, s));
    let l = expr(*b.left, s);
    lemma_expr(*b.left, s);
    lemma_expr(*b.right, l);
    let t = l.misfit(b.left_faults@);
    assert(leaves(s, t));
    match kind_of(b.op) {
        BinopKind::ShortCircuit(o) => {
            let jump = match o {
                ShortCircuitOp::And => Op::JumpIfFalse,
                ShortCircuitOp::Or => Op::JumpIfTrue,
            };
            let u = t.emit(Op::Dup).emit_arg(jump, 0).emit(Op::Pop);
            assert(leaves(s, u));
            lemma_expr(*b.right, u);
            assert(leaves(s, expr(*b.right, u).misfit(b.right_faults@)));
        },
        BinopKind::Value(_) => {},
    }
}

pub proof fn lemma_property(pa: PropertyExpr, s: State)
    ensures
        leaves(s, property(pa, s)),
    decreases pa, 1nat,
{
    assert(from_here(s));
    reveal(property_body);
    assert(property(pa, s) == property_body(pa, s));
    let (t, q) = s.qualified(pa);
    assert(leaves(s, t));
    match q {
        QualifiedView::LookupFailed => {},
        QualifiedView::Resolved { module, member, binding, slot } => {
            let n = t.record(None, member, None);
            assert(from_here(t));
            assert(leaves(t, n));
            let v = n.named_value(
                member.name,
                Some(module),
                member.span,
                binding.kind,
                State::slot_access(slot),
            );
            assert(from_here(n));
            assert(leaves(n, v));
            assert(from_here(t));
            assert(leaves(t, v));
        },
        QualifiedView::NotQualified => {
            let u = expr(*pa.left, t);
            lemma_expr(*pa.left, t);
            match *pa.right {
                Expr::Number(n) => if let Some(i) = crate::numbers::i64_of(u.text(n.text)) {
                    if i32::MIN <= i <= i32::MAX {
                        assert(from_here(u));
                        assert(leaves(u, u.tuple_index(pa.receiver, i as i32, n.span)));
                    }
                },
                Expr::Name { id, .. } => {
                    assert(from_here(u));
                    assert(leaves(u, u.field(pa.receiver, id, pa.faults@)));
                },
                _ => {},
            }
        },
    }
}

/// Compiling a declared function leaves the scope as it was.
pub proof fn lemma_declared(
    name: StrId,
    params: Seq<crate::ast::Ident>,
    body: Expr,
    faults: Seq<TypeFault>,
    s: State,
)
    ensures
        leaves(s, declared_function(name, params, body, faults, s)),
{
    assert(from_here(s));
    let u = s.enter(Some(name)).bind_idents(params, params.len());
    assert(from_here(s.enter(Some(name))));
    assert(extends(s.enter(Some(name)), u));
    lemma_expr(body, u);
    let v = expr(body, u).misfit(faults);
    assert(from_here(expr(body, u)));
    assert(leaves(expr(body, u), v));
    assert(from_here(s.enter(Some(name))));
    assert(extends(s.enter(Some(name)), v));
    lemma_function(s, Some(name), v, s.text(name), params.len() as i32);
}

} // verus!

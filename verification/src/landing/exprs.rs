//! The jumps in an expression land in it.
use crate::ast::{node_span, BinaryExpr, Expr, Node, PropertyExpr, Statement, StrId, TypeFault};
use crate::binop::{kind_of, law_value_binops_never_branch, BinopKind, ShortCircuitOp};
use crate::diag::Message;
use crate::gen::{
    array, binary, binary_body, declared_function, expr, expr_body, exprs_from, node, nodes_from,
    parts_from, property, property_body, QualifiedView,
};
use crate::landing::{
    group_landing, lands, lemma_block, lemma_function, lemma_jump, lemma_lead, lemma_on,
    lemma_patch_open, lemma_trail,
};
use crate::landing::calls::lemma_call;
use crate::landing::matches::{lemma_array, lemma_match};
use crate::landing::pieces::group_landing_pieces;
use crate::landing::recover::{lemma_binary_literal, lemma_or};
use crate::landing::statements::lemma_statement;
use crate::op::{instr, Op};
use crate::scopes::from_here;
use crate::state::State;
use vstd::prelude::*;

verus! {

broadcast use {group_landing, group_landing_pieces};

/// Every jump that an expression emits lands in its code, whatever blocks and functions
/// it holds.
pub proof fn lemma_expr(e: Expr, s: State)
    ensures
        lands(s, expr(e, s)),
    decreases e, 1nat,
{
    assert(from_here(s));
    reveal(expr_body);
    let tail = s.loc.tail;
    let t = s.set_tail(false);
    assert(expr(e, s) == expr_body(e, tail, t));
    assert(lands(s, t));
    assert(from_here(t));
    assert(lands(t, t));
    match e {
        Expr::BinaryLiteral { segments, .. } => lemma_binary_literal(segments@, t),
        Expr::Block { body, .. } => {
            let o = t.push_block();
            lemma_nodes(body@, 0, tail, o);
            let u = nodes_from(body@, 0, tail, o);
            assert(from_here(u));
            assert(lands(u, u));
            assert(from_here(u));
            assert(lands(u, u.nil()));
            let v = if body@.len() > 0 && body@[body@.len() - 1] is Expression {
                u
            } else {
                u.nil()
            };
            assert(from_here(o));
            assert(lands(o, v));
            lemma_block(t, v);
        },
        Expr::Number(n) => {
            assert(from_here(t));
            assert(lands(t, t.push_number(n)));
        },
        Expr::Str { .. } => {},
        Expr::Interpolated { parts, .. } => {
            if parts@.len() > 0 {
                lemma_parts(parts@, 0, t);
            }
        },
        Expr::Name { id, near } => {
            assert(from_here(t));
            assert(lands(t, t.identifier(id, near)));
        },
        Expr::Binary(b) => lemma_binary(b, t),
        Expr::Unary { operand, faults, .. } => {
            lemma_expr(*operand, t);
            assert(lands(t, expr(*operand, t).misfit(faults@)));
        },
        Expr::If { condition, condition_faults, body, else_body, .. } => {
            let s1 = expr(*condition, t).misfit(condition_faults@);
            lemma_expr(*condition, t);
            let b0 = s1.emit_arg(Op::JumpIfFalse, 0).set_tail(tail);
            lemma_expr(*body, b0);
            let s2 = expr(*body, b0).set_tail(false);
            let s3 = s2.emit_arg(Op::Jump, 0).patch(s1.pos() as int);
            lemma_expr(*else_body, s3.set_tail(tail));
            let s4 = expr(*else_body, s3.set_tail(tail)).set_tail(false);
            assert(from_here(s1.emit_arg(Op::JumpIfFalse, 0)));
            assert(lands(s1.emit_arg(Op::JumpIfFalse, 0), s2));
            assert(from_here(s3));
            assert(lands(s3, s4));
            lemma_branch(s1, s2, s4);
            lemma_lead(t, s1, s4.patch(s2.pos() as int), Set::empty());
            assert(from_here(t));
            assert(lands(t, s4.patch(s2.pos() as int)));
        },
        Expr::Match(m) => lemma_match(m, tail, t),
        Expr::Array { elements, .. } => lemma_array(elements@, t),
        Expr::Tuple { elements, .. } => lemma_exprs(elements@, 0, t),
        Expr::Index { array, array_faults, index, .. } => {
            let u = expr(*array, t).misfit(array_faults@);
            lemma_expr(*array, t);
            assert(lands(t, u));
            match *index {
                Expr::Range { start, end, .. } => {
                    lemma_expr(*start, u);
                    lemma_expr(*end, expr(*start, u));
                },
                _ => lemma_expr(*index, u),
            }
        },
        Expr::Range { start, end, .. } => {
            lemma_expr(*start, t);
            lemma_expr(*end, expr(*start, t));
        },
        Expr::Function { params, annotations, body, ret, faults, .. } => {
            let u = t.enter(None).bind_params(params@, annotations@, params@.len());
            assert(from_here(t.enter(None)));
            assert(lands(t.enter(None), u));
            lemma_expr(*body, u);
            assert(from_here(t.enter(None)));
            let v = expr(*body, u).hydrate(ret).misfit(faults@);
            assert(from_here(expr(*body, u)));
            assert(lands(expr(*body, u), v));
            assert(from_here(t.enter(None)));
            assert(lands(t.enter(None), v));
            lemma_function(t, None, v, "__anon__"@, params@.len() as i32);
        },
        Expr::Call(c) => lemma_call(c, tail, t),
        Expr::Property(pa) => lemma_property(pa, t),
        Expr::Or(o) => lemma_or(o, t),
        Expr::Error { message, span } => {
            assert(from_here(t));
            assert(lands(t, t.unreadable(message, span)));
        },
    }
}

/// Both jumps of a branch land: the one past the first way at the second, the one past
/// the second behind it.
proof fn lemma_branch(s1: State, s2: State, s4: State)
    requires
        lands(s1.emit_arg(Op::JumpIfFalse, 0), s2),
        lands(s2.emit_arg(Op::Jump, 0).patch(s1.pos() as int), s4),
    ensures
        lands(s1, s4.patch(s2.pos() as int)),
{
    let j1 = s1.emit_arg(Op::JumpIfFalse, 0);
    let j2 = s2.emit_arg(Op::Jump, 0);
    let (p1, p2) = (s1.pos() as int, s2.pos() as int);
    lemma_jump(s1, instr(Op::JumpIfFalse, 0, 0, 0));
    lemma_trail(s1, j1, s2, set![p1]);
    lemma_jump(s2, instr(Op::Jump, 0, 0, 0));
    lemma_on(s1, s2, j2, set![p1], set![p2]);
    let both = set![p1].union(set![p2]);
    lemma_patch_open(s1, j2, both, p1, set![p2]);
    lemma_trail(s1, j2.patch(p1), s4, set![p2]);
    lemma_patch_open(s1, s4, set![p2], p2, Set::empty());
}

pub proof fn lemma_nodes(body: Seq<Node>, i: nat, tail: bool, s: State)
    ensures
        lands(s, nodes_from(body, i, tail, s)),
    decreases body, body.len() - i,
{
    assert(from_here(s));
    assert(lands(s, s));
    if i < body.len() {
        let last = i == body.len() - 1;
        let b = s.set_tail(tail && last);
        assert(lands(s, b));
        lemma_node(body[i as int], b);
        let t = node(body[i as int], b).set_tail(false);
        assert(from_here(node(body[i as int], b)));
        assert(lands(node(body[i as int], b), t));
        assert(lands(s, t));
        assert(from_here(t));
        assert(lands(t, t));
        let u = match body[i as int] {
            Node::Expression { unconsumed, .. } => if last {
                t
            } else {
                match unconsumed {
                    Some(ty) => t.error(Message::MustConsume { ty }, node_span(body[i as int])),
                    None => t,
                }.emit(Op::Pop)
            },
            Node::Statement(_) => t,
        };
        assert(from_here(t));
        assert(lands(t, u));
        lemma_nodes(body, i + 1, tail, u);
    }
}

/// The jumps of a statement or an expression of a block land in its code.
pub proof fn lemma_node(n: Node, s: State)
    ensures
        lands(s, node(n, s)),
    decreases n, 0nat,
{
    assert(from_here(s));
    match n {
        Node::Statement(st) => lemma_statement(st, s),
        Node::Expression { expr: e, .. } => lemma_expr(e, s),
    }
}

pub proof fn lemma_exprs(es: Seq<Expr>, i: nat, s: State)
    ensures
        lands(s, exprs_from(es, i, s)),
    decreases es, es.len() - i,
{
    assert(from_here(s));
    assert(lands(s, s));
    if i < es.len() {
        lemma_expr(es[i as int], s);
        lemma_exprs(es, i + 1, expr(es[i as int], s));
    }
}

pub proof fn lemma_parts(es: Seq<Expr>, i: nat, s: State)
    ensures
        lands(s, parts_from(es, i, s)),
    decreases es, es.len() - i,
{
    assert(from_here(s));
    assert(lands(s, s));
    if i < es.len() {
        lemma_expr(es[i as int], s);
        let t = expr(es[i as int], s).emit(Op::ToString);
        assert(lands(s, t));
        lemma_parts(es, i + 1, t);
    }
}

pub proof fn lemma_binary(b: BinaryExpr, s: State)
    ensures
        lands(s, binary(b, s)),
    decreases b, 1nat,
{
    assert(from_here(s));
    reveal(binary_body);
    assert(binary(b, s) == binary_body(b, s));
    let l = expr(*b.left, s);
    lemma_expr(*b.left, s);
    lemma_expr(*b.right, l);
    let t = l.misfit(b.left_faults@);
    assert(lands(s, t));
    match kind_of(b.op) {
        BinopKind::ShortCircuit(o) => {
            let jump = match o {
                ShortCircuitOp::And => Op::JumpIfFalse,
                ShortCircuitOp::Or => Op::JumpIfTrue,
            };
            let d = t.emit(Op::Dup);
            let u = d.emit_arg(jump, 0).emit(Op::Pop);
            assert(lands(s, d));
            lemma_expr(*b.right, u);
            let v = expr(*b.right, u).misfit(b.right_faults@);
            let over = d.pos() as int;
            lemma_jump(d, instr(jump, 0, 0, 0));
            assert(from_here(d.emit_arg(jump, 0)));
            assert(lands(d.emit_arg(jump, 0), v));
            lemma_trail(d, d.emit_arg(jump, 0), v, set![over]);
            lemma_patch_open(d, v, set![over], over, Set::empty());
            lemma_lead(s, d, v.patch(over), Set::empty());
        },
        BinopKind::Value(o) => law_value_binops_never_branch(o, b.prim),
    }
}

pub proof fn lemma_property(pa: PropertyExpr, s: State)
    ensures
        lands(s, property(pa, s)),
    decreases pa, 1nat,
{
    assert(from_here(s));
    reveal(property_body);
    assert(property(pa, s) == property_body(pa, s));
    let (t, q) = s.qualified(pa);
    assert(lands(s, t));
    match q {
        QualifiedView::LookupFailed => {},
        QualifiedView::Resolved { module, member, binding, slot } => {
            let n = t.record(None, member, None);
            assert(from_here(t));
            assert(lands(t, n));
            let v = n.named_value(
                member.name,
                Some(module),
                member.span,
                binding.kind,
                State::slot_access(slot),
            );
            assert(from_here(n));
            assert(lands(n, v));
            assert(from_here(t));
            assert(lands(t, v));
        },
        QualifiedView::NotQualified => {
            let u = expr(*pa.left, t);
            lemma_expr(*pa.left, t);
            match *pa.right {
                Expr::Number(n) => if let Some(i) = crate::numbers::i64_of(u.text(n.text)) {
                    if i32::MIN <= i <= i32::MAX {
                        assert(from_here(u));
                        assert(lands(u, u.tuple_index(pa.receiver, i as i32, n.span)));
                    }
                },
                Expr::Name { id, .. } => {
                    assert(from_here(u));
                    assert(lands(u, u.field(pa.receiver, id, pa.faults@)));
                },
                _ => {},
            }
        },
    }
}

/// The jumps of a declared function, the one past its body among them, land in its code.
pub proof fn lemma_declared(
    name: StrId,
    params: Seq<crate::ast::Ident>,
    body: Expr,
    faults: Seq<TypeFault>,
    s: State,
)
    ensures
        lands(s, declared_function(name, params, body, faults, s)),
{
    assert(from_here(s));
    let u = s.enter(Some(name)).bind_idents(params, params.len());
    assert(from_here(s.enter(Some(name))));
    assert(lands(s.enter(Some(name)), u));
    lemma_expr(body, u);
    let v = expr(body, u).misfit(faults);
    assert(from_here(expr(body, u)));
    assert(lands(expr(body, u), v));
    assert(from_here(s.enter(Some(name))));
    assert(lands(s.enter(Some(name)), v));
    lemma_function(s, Some(name), v, s.text(name), params.len() as i32);
}

} // verus!

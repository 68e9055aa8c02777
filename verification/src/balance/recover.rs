//! What recovers from a failure, and binary literals, leave the scope as it was.
use crate::ast::{span_of, BinSegment, Expr, OrExpr, TypeFault};
use crate::balance::exprs::lemma_expr;
use crate::balance::patterns::lemma_store_name;
use crate::diag::Message;
use crate::gen::{
    array, binary_literal, binary_literal_body, expr, literal_segment, literal_segment_body,
    literal_segments_from, or_expr, or_general, or_general_body, or_recover, segment_size,
    OrFailure,
};
use crate::op::Op;
use crate::pieces::group_pieces;
use crate::scopes::{extends, from_here, group_steps, leaves, lemma_block, lemma_register};
use crate::state::State;
use vstd::prelude::*;

verus! {

broadcast use {group_steps, group_pieces};

pub proof fn lemma_or(o: OrExpr, s: State)
    ensures
        leaves(s, or_expr(o, s)),
    decreases o, 3nat,
{
    assert(from_here(s));
    lemma_or_general(o, s);
    if let Expr::Index { array, array_faults, index, index_faults, .. } = *o.expression {
        if !(*index is Range) {
            let a = expr(*array, s).misfit(array_faults@);
            lemma_expr(*array, s);
            let t = expr(*index, a).misfit(index_faults@);
            lemma_expr(*index, a);
            assert(leaves(s, a));
            assert(leaves(s, t));
            let u = t.emit_arg(Op::IndexOrElse, 0);
            let w = u.emit_arg(Op::Jump, 0).patch(t.pos() as int);
            assert(leaves(s, w));
            lemma_expr(*o.body, w.push_block());
            let x = expr(*o.body, w.push_block());
            assert(from_here(w.push_block()));
            assert(extends(w.push_block(), x));
            lemma_block(w, x);
            assert(from_here(x.pop_block()));
            assert(leaves(x.pop_block(), x.pop_block().patch(u.pos() as int)));
        }
    }
}

pub proof fn lemma_or_general(o: OrExpr, s: State)
    ensures
        leaves(s, or_general(o, s)),
    decreases o, 2nat,
{
    assert(from_here(s));
    reveal(or_general_body);
    assert(or_general(o, s) == or_general_body(o, s));
    let t = expr(*o.expression, s);
    lemma_expr(*o.expression, s);
    match t.or_failure(o.left) {
        OrFailure::Never => {
            let u = t.error(Message::OrOperand { ty: o.left.text }, span_of(*o.expression));
            lemma_expr(*o.body, u.push_block());
            let v = expr(*o.body, u.push_block()).emit(Op::Pop);
            assert(from_here(u.push_block()));
            assert(leaves(u.push_block(), v));
            assert(from_here(u.push_block()));
            assert(extends(u.push_block(), v));
            lemma_block(u, v);
        },
        OrFailure::Absent { id } => {
            let u = match o.receiver {
                Some(r) => t.error(Message::OrBindsNothing, r.span),
                None => t,
            }.misfit(o.left_faults@);
            assert(from_here(t));
            assert(leaves(t, t));
            assert(from_here(t));
            assert(leaves(t, u));
            let v = u.or_test(id, u.world.none_name);
            assert(from_here(u));
            assert(leaves(u, v));
            let w = v.emit_arg(Op::JumpIfFalse, 0);
            let x = w.push_block().emit(Op::Pop);
            assert(from_here(w.push_block()));
            assert(leaves(w.push_block(), x));
            assert(from_here(w.push_block()));
            assert(extends(w.push_block(), x));
            lemma_recover(*o.body, o.body_faults@, v.pos(), w, x);
        },
        OrFailure::Error { id } => {
            let u = t.misfit(o.left_faults@).or_test(id, t.world.err_name);
            assert(from_here(t));
            assert(leaves(t, u));
            let w = u.emit_arg(Op::JumpIfFalse, 0);
            let v = w.push_block().emit(Op::UnwrapEnum);
            assert(from_here(w.push_block()));
            assert(leaves(w.push_block(), v));
            let x = match o.receiver {
                Some(r) => v.store_name(r.name).register(r, None),
                None => v.emit(Op::Pop),
            };
            if let Some(r) = o.receiver {
                lemma_store_name(v, r.name);
                lemma_register(v.store_name(r.name), r, None);
            } else {
                assert(from_here(v));
                assert(leaves(v, x));
            }
            assert(from_here(w.push_block()));
            assert(extends(w.push_block(), x));
            lemma_recover(*o.body, o.body_faults@, u.pos(), w, x);
        },
    }
}

pub proof fn lemma_recover(
    body: Expr,
    faults: Seq<TypeFault>,
    skip: usize,
    w: State,
    s: State,
)
    requires
        extends(w.push_block(), s),
    ensures
        leaves(w, or_recover(body, faults, skip, s)),
    decreases body, 2nat,
{
    assert(from_here(w.push_block()));
    assert(from_here(w));
    lemma_expr(body, s);
    assert(extends(w.push_block(), expr(body, s)));
    lemma_block(w, expr(body, s));
    let t = expr(body, s).pop_block().misfit(faults);
    assert(leaves(w, t));
    let u = t.emit_arg(Op::Jump, 0).patch(skip as int).emit(Op::UnwrapEnum);
    assert(from_here(t));
    assert(leaves(t, u.patch(t.pos() as int)));
}

pub proof fn lemma_binary_literal(segs: Seq<BinSegment>, s: State)
    ensures
        leaves(s, binary_literal(segs, s)),
    decreases segs, segs.len() + 2,
{
    assert(from_here(s));
    reveal(binary_literal_body);
    assert(binary_literal(segs, s) == binary_literal_body(segs, s));
    lemma_literal_segments(segs, 0, s);
}

pub proof fn lemma_literal_segments(segs: Seq<BinSegment>, i: nat, s: State)
    ensures
        leaves(s, literal_segments_from(segs, i, s)),
    decreases segs, segs.len() - i,
{
    assert(from_here(s));
    assert(leaves(s, s));
    if i < segs.len() {
        lemma_literal_segment(segs[i as int], s);
        lemma_literal_segments(segs, i + 1, literal_segment(segs[i as int], s));
    }
}

pub proof fn lemma_literal_segment(seg: BinSegment, s: State)
    ensures
        leaves(s, literal_segment(seg, s)),
    decreases seg, 3nat,
{
    assert(from_here(s));
    reveal(literal_segment_body);
    assert(literal_segment(seg, s) == literal_segment_body(seg, s));
    let t = expr(seg.value, s).misfit(seg.value_faults@);
    lemma_expr(seg.value, s);
    assert(leaves(s, t));
    lemma_segment_size(seg, 8, t);
    lemma_segment_size(seg, 0, t);
}

pub proof fn lemma_segment_size(seg: BinSegment, default: i64, s: State)
    ensures
        leaves(s, segment_size(seg, default, s)),
    decreases seg, 1nat,
{
    assert(from_here(s));
    if let Some(e) = seg.size {
        lemma_expr(e, s);
        assert(leaves(s, expr(e, s).misfit(seg.size_faults@)));
    }
}

} // verus!

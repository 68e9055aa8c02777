//! What muting leaves of recoveries and binary literals.
use crate::ast::{span_of, BinSegment, Expr, OrExpr, TypeFault};
use crate::muting::exprs::lemma_expr;
use crate::muting::patterns::lemma_store_name;
use crate::diag::Message;
use crate::gen::{
    array, binary_literal, binary_literal_body, expr, literal_segment, literal_segment_body,
    literal_segments_from, or_expr, or_general, or_general_body, or_recover, segment_size,
    OrFailure,
};
use crate::op::Op;
use crate::muting::group_muting;
use crate::muting::pieces::group_muting_pieces;
use crate::state::{Sighting, State};
use vstd::prelude::*;

verus! {

broadcast use {group_muting, group_muting_pieces};

pub proof fn lemma_or(pre: Seq<Sighting>, o: OrExpr, s: State)
    ensures
        or_expr(o, s).muted(pre) == or_expr(o, s.muted(pre)),
    decreases o, 3nat,
{
    lemma_or_general(pre, o, s);
    if let Expr::Index { array, array_faults, index, index_faults, .. } = *o.expression {
        if !(*index is Range) {
            let a = expr(*array, s).misfit(array_faults@);
            lemma_expr(pre, *array, s);
            let t = expr(*index, a).misfit(index_faults@);
            lemma_expr(pre, *index, a);
            let u = t.emit_arg(Op::IndexOrElse, 0);
            let w = u.emit_arg(Op::Jump, 0).patch(t.pos() as int);
            lemma_expr(pre, *o.body, w.push_block());
        }
    }
}

pub proof fn lemma_or_general(pre: Seq<Sighting>, o: OrExpr, s: State)
    ensures
        or_general(o, s).muted(pre) == or_general(o, s.muted(pre)),
    decreases o, 2nat,
{
    reveal(or_general_body);
    assert(or_general(o, s) == or_general_body(o, s));
    assert(or_general(o, s.muted(pre)) == or_general_body(o, s.muted(pre)));
    let t = expr(*o.expression, s);
    lemma_expr(pre, *o.expression, s);
    match t.or_failure(o.left) {
        OrFailure::Never => {
            let u = t.error(Message::OrOperand { ty: o.left.text }, span_of(*o.expression));
            lemma_expr(pre, *o.body, u.push_block());
            let v = expr(*o.body, u.push_block()).emit(Op::Pop);
        },
        OrFailure::Absent { id } => {
            let u = match o.receiver {
                Some(r) => t.error(Message::OrBindsNothing, r.span),
                None => t,
            }.misfit(o.left_faults@);
            let v = u.or_test(id, u.world.none_name);
            let w = v.emit_arg(Op::JumpIfFalse, 0);
            let x = w.push_block().emit(Op::Pop);
            lemma_recover(pre, *o.body, o.body_faults@, v.pos(), v.muted(pre).pos(), x);
        },
        OrFailure::Error { id } => {
            let u = t.misfit(o.left_faults@).or_test(id, t.world.err_name);
            let w = u.emit_arg(Op::JumpIfFalse, 0);
            let v = w.push_block().emit(Op::UnwrapEnum);
            let x = match o.receiver {
                Some(r) => v.store_name(r.name).register(r, None),
                None => v.emit(Op::Pop),
            };
            if let Some(r) = o.receiver {
                lemma_store_name(pre, v, r.name);
            } else {
            }
            lemma_recover(pre, *o.body, o.body_faults@, u.pos(), u.muted(pre).pos(), x);
        },
    }
}

pub proof fn lemma_recover(
    pre: Seq<Sighting>,
    body: Expr,
    faults: Seq<TypeFault>,
    skip: usize,
    other: usize,
    s: State,
)
    ensures
        or_recover(body, faults, skip, s).muted(pre)
            == or_recover(body, faults, other, s.muted(pre)),
    decreases body, 2nat,
{
    lemma_expr(pre, body, s);
}

pub proof fn lemma_binary_literal(pre: Seq<Sighting>, segs: Seq<BinSegment>, s: State)
    ensures
        binary_literal(segs, s).muted(pre) == binary_literal(segs, s.muted(pre)),
    decreases segs, segs.len() + 2,
{
    reveal(binary_literal_body);
    assert(binary_literal(segs, s) == binary_literal_body(segs, s));
    assert(binary_literal(segs, s.muted(pre)) == binary_literal_body(segs, s.muted(pre)));
    lemma_literal_segments(pre, segs, 0, s);
}

pub proof fn lemma_literal_segments(pre: Seq<Sighting>, segs: Seq<BinSegment>, i: nat, s: State)
    ensures
        literal_segments_from(segs, i, s).muted(pre)
            == literal_segments_from(segs, i, s.muted(pre)),
    decreases segs, segs.len() - i,
{
    if i < segs.len() {
        lemma_literal_segment(pre, segs[i as int], s);
        lemma_literal_segments(pre, segs, i + 1, literal_segment(segs[i as int], s));
    }
}

pub proof fn lemma_literal_segment(pre: Seq<Sighting>, seg: BinSegment, s: State)
    ensures
        literal_segment(seg, s).muted(pre) == literal_segment(seg, s.muted(pre)),
    decreases seg, 3nat,
{
    reveal(literal_segment_body);
    assert(literal_segment(seg, s) == literal_segment_body(seg, s));
    assert(literal_segment(seg, s.muted(pre)) == literal_segment_body(seg, s.muted(pre)));
    let t = expr(seg.value, s).misfit(seg.value_faults@);
    lemma_expr(pre, seg.value, s);
    lemma_segment_size(pre, seg, 8, t);
    lemma_segment_size(pre, seg, 0, t);
}

pub proof fn lemma_segment_size(pre: Seq<Sighting>, seg: BinSegment, default: i64, s: State)
    ensures
        segment_size(seg, default, s).muted(pre) == segment_size(seg, default, s.muted(pre)),
    decreases seg, 1nat,
{
    if let Some(e) = seg.size {
        lemma_expr(pre, e, s);
    }
}

} // verus!

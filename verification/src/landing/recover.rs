//! The jumps in a recovery or a binary literal land in it.
use crate::ast::{span_of, BinSegment, Expr, OrExpr, TypeFault};
use crate::diag::Message;
use crate::gen::{
    array, binary_literal, binary_literal_body, expr, literal_segment, literal_segment_body,
    literal_segments_from, or_expr, or_general, or_general_body, or_recover, segment_size,
    OrFailure,
};
use crate::landing::{
    group_landing, lands, lemma_block, lemma_jump, lemma_lead, lemma_on, lemma_patch_open,
    lemma_register, lemma_trail,
};
use crate::landing::exprs::lemma_expr;
use crate::landing::patterns::lemma_store_name;
use crate::landing::pieces::group_landing_pieces;
use crate::op::{instr, Op};
use crate::scopes::from_here;
use crate::state::State;
use vstd::prelude::*;

verus! {

broadcast use {group_landing, group_landing_pieces};

pub proof fn lemma_or(o: OrExpr, s: State)
    ensures
        lands(s, or_expr(o, s)),
    decreases o, 3nat,
{
    assert(from_here(s));
    lemma_or_general(o, s);
    if let Expr::Index { array, array_faults, index, index_faults, .. } = *o.expression {
        if !(*index is Range) {
            let a = expr(*array, s).misfit(array_faults@);
            lemma_expr(*array, s);
            let t = expr(*index, a).misfit(index_faults@);
            lemma_expr(*index, a);
            assert(lands(s, a));
            assert(lands(s, t));
            let u = t.emit_arg(Op::IndexOrElse, 0);
            let w = u.emit_arg(Op::Jump, 0).patch(t.pos() as int);
            lemma_expr(*o.body, w.push_block());
            let x = expr(*o.body, w.push_block());
            lemma_block(w, x);
            let y = x.pop_block();
            let (p1, p2) = (t.pos() as int, u.pos() as int);
            lemma_jump(t, instr(Op::IndexOrElse, 0, 0, 0));
            lemma_jump(u, instr(Op::Jump, 0, 0, 0));
            lemma_on(t, u, u.emit_arg(Op::Jump, 0), set![p1], set![p2]);
            let both = set![p1].union(set![p2]);
            lemma_patch_open(t, u.emit_arg(Op::Jump, 0), both, p1, set![p2]);
            lemma_trail(t, w, y, set![p2]);
            lemma_patch_open(t, y, set![p2], p2, Set::empty());
            lemma_lead(s, t, y.patch(p2), Set::empty());
            assert(lands(s, y.patch(p2)));
            assert(lands(s, y.patch(p2).misfit(o.body_faults@)));
        }
    }
}

pub proof fn lemma_or_general(o: OrExpr, s: State)
    ensures
        lands(s, or_general(o, s)),
    decreases o, 2nat,
{
    assert(from_here(s));
    reveal(or_general_body);
    assert(or_general(o, s) == or_general_body(o, s));
    let t = expr(*o.expression, s);
    lemma_expr(*o.expression, s);
    match t.or_failure(o.left) {
        OrFailure::Never => {
            let u = t.error(Message::OrOperand { ty: o.left.text }, span_of(*o.expression));
            lemma_expr(*o.body, u.push_block());
            let v = expr(*o.body, u.push_block()).emit(Op::Pop);
            assert(from_here(u.push_block()));
            assert(lands(u.push_block(), v));
            assert(from_here(u.push_block()));
            assert(lands(u.push_block(), v));
            lemma_block(u, v);
        },
        OrFailure::Absent { id } => {
            let u = match o.receiver {
                Some(r) => t.error(Message::OrBindsNothing, r.span),
                None => t,
            }.misfit(o.left_faults@);
            assert(from_here(t));
            assert(lands(t, t));
            assert(from_here(t));
            assert(lands(t, u));
            let v = u.or_test(id, u.world.none_name);
            assert(from_here(u));
            assert(lands(u, v));
            let w = v.emit_arg(Op::JumpIfFalse, 0);
            let x = w.push_block().emit(Op::Pop);
            assert(lands(w.push_block(), x));
            lemma_recover(*o.body, o.body_faults@, v, x);
        },
        OrFailure::Error { id } => {
            let u = t.misfit(o.left_faults@).or_test(id, t.world.err_name);
            assert(from_here(t));
            assert(lands(t, u));
            let w = u.emit_arg(Op::JumpIfFalse, 0);
            let v = w.push_block().emit(Op::UnwrapEnum);
            assert(from_here(w.push_block()));
            assert(lands(w.push_block(), v));
            let x = match o.receiver {
                Some(r) => v.store_name(r.name).register(r, None),
                None => v.emit(Op::Pop),
            };
            if let Some(r) = o.receiver {
                lemma_store_name(v, r.name);
                lemma_register(v.store_name(r.name), r, None);
            } else {
                assert(from_here(v));
                assert(lands(v, x));
            }
            assert(from_here(w.push_block()));
            assert(lands(w.push_block(), x));
            lemma_recover(*o.body, o.body_faults@, u, x);
        },
    }
}

pub proof fn lemma_recover(body: Expr, faults: Seq<TypeFault>, v: State, s: State)
    requires
        lands(v.emit_arg(Op::JumpIfFalse, 0).push_block(), s),
    ensures
        lands(v, or_recover(body, faults, v.pos(), s)),
    decreases body, 2nat,
{
    let w = v.emit_arg(Op::JumpIfFalse, 0);
    assert(from_here(w.push_block()));
    lemma_expr(body, s);
    assert(lands(w.push_block(), expr(body, s)));
    lemma_block(w, expr(body, s));
    let t = expr(body, s).pop_block().misfit(faults);
    assert(from_here(w));
    assert(lands(w, t));
    let (p1, p2) = (v.pos() as int, t.pos() as int);
    let j = t.emit_arg(Op::Jump, 0);
    lemma_jump(v, instr(Op::JumpIfFalse, 0, 0, 0));
    lemma_trail(v, w, t, set![p1]);
    lemma_jump(t, instr(Op::Jump, 0, 0, 0));
    lemma_on(v, t, j, set![p1], set![p2]);
    let both = set![p1].union(set![p2]);
    lemma_patch_open(v, j, both, p1, set![p2]);
    let u = j.patch(p1).emit(Op::UnwrapEnum);
    lemma_trail(v, j.patch(p1), u, set![p2]);
    lemma_patch_open(v, u, set![p2], p2, Set::empty());
}

pub proof fn lemma_binary_literal(segs: Seq<BinSegment>, s: State)
    ensures
        lands(s, binary_literal(segs, s)),
    decreases segs, segs.len() + 2,
{
    assert(from_here(s));
    reveal(binary_literal_body);
    assert(binary_literal(segs, s) == binary_literal_body(segs, s));
    lemma_literal_segments(segs, 0, s);
}

pub proof fn lemma_literal_segments(segs: Seq<BinSegment>, i: nat, s: State)
    ensures
        lands(s, literal_segments_from(segs, i, s)),
    decreases segs, segs.len() - i,
{
    assert(from_here(s));
    assert(lands(s, s));
    if i < segs.len() {
        lemma_literal_segment(segs[i as int], s);
        lemma_literal_segments(segs, i + 1, literal_segment(segs[i as int], s));
    }
}

pub proof fn lemma_literal_segment(seg: BinSegment, s: State)
    ensures
        lands(s, literal_segment(seg, s)),
    decreases seg, 3nat,
{
    assert(from_here(s));
    reveal(literal_segment_body);
    assert(literal_segment(seg, s) == literal_segment_body(seg, s));
    let t = expr(seg.value, s).misfit(seg.value_faults@);
    lemma_expr(seg.value, s);
    assert(lands(s, t));
    lemma_segment_size(seg, 8, t);
    lemma_segment_size(seg, 0, t);
}

pub proof fn lemma_segment_size(seg: BinSegment, default: i64, s: State)
    ensures
        lands(s, segment_size(seg, default, s)),
    decreases seg, 1nat,
{
    assert(from_here(s));
    if let Some(e) = seg.size {
        lemma_expr(e, s);
        assert(lands(s, expr(e, s).misfit(seg.size_faults@)));
    }
}

} // verus!

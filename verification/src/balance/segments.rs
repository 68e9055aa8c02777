//! The segments of a binary pattern add names to the innermost block at most.
use crate::ast::{BinKind, BinSegmentPat, BinUnit};
use crate::balance::exprs::lemma_expr;
use crate::balance::patterns::lemma_pattern;
use crate::gen::{
    expr, measure, measure_body, pattern, segment, segment_body, segments_from, BinMatching,
    BinOperand, BinSlots,
};
use crate::literal::{run_end, static_width};
use crate::op::Op;
use crate::pieces::group_pieces;
use crate::scopes::{extends, from_here, group_steps, leaves};
use vstd::prelude::*;

verus! {

broadcast use {group_steps, group_pieces};

pub proof fn lemma_segments(segs: Seq<BinSegmentPat>, i: nat, slots: BinSlots, b: BinMatching)
    ensures
        extends(b.m.s, segments_from(segs, i, slots, b).m.s),
    decreases segs, segs.len() - i,
{
    assert(from_here(b.m.s));
    assert(leaves(b.m.s, b.m.s));
    if i < segs.len() {
        let c = b.check_run(segs, i, slots);
        assert(leaves(b.m.s, c.m.s));
        let (end, bits) = run_end(c.m.s.world.names@, segs, i, Seq::empty());
        if i < end <= segs.len() {
            assert(from_here(c.m.s));
            assert(leaves(c.m.s, c.match_prefix(bits, slots).m.s));
            lemma_segments(segs, end, slots, c.match_prefix(bits, slots));
        } else {
            lemma_segment(segs[i as int], slots, c);
            lemma_segments(segs, i + 1, slots, segment(segs[i as int], slots, c));
        }
    }
}

pub proof fn lemma_read(seg: BinSegmentPat, r: BinMatching, slot: i32, width: BinOperand)
    ensures
        extends(
            r.m.s,
            (BinMatching { m: pattern(seg.value, r.m), ..r }).advance(slot, width).m.s,
        ),
    decreases seg, 0nat,
{
    assert(from_here(r.m.s));
    lemma_pattern(seg.value, r.m);
    let t = BinMatching { m: pattern(seg.value, r.m), ..r };
    assert(from_here(t.m.s));
    assert(leaves(t.m.s, t.advance(slot, width).m.s));
}

pub proof fn lemma_segment(seg: BinSegmentPat, slots: BinSlots, c: BinMatching)
    ensures
        extends(c.m.s, segment(seg, slots, c).m.s),
    decreases seg, 3nat,
{
    assert(from_here(c.m.s));
    reveal(segment_body);
    assert(segment(seg, slots, c) == segment_body(seg, slots, c));
    let names = c.m.s.world.names@;
    if seg.kind == BinKind::Utf8 {
        let r = c.read_utf8(slots);
        let width = c.spilled(slots.cursor).m.s.emit_arg(Op::PushLocal, slots.bin).emit_arg(
            Op::PushLocal,
            slots.cursor,
        ).emit(Op::BinReadUtf8).next_slot();
        assert(leaves(c.m.s, r.m.s));
        lemma_read(seg, r, slots.cursor, BinOperand::Local(width));
    } else {
        match static_width(names, seg) {
            Some(w) => {
                let d = if c.cursor is None {
                    c.check_width(BinOperand::Const(w), slots)
                } else {
                    c
                };
                assert(leaves(c.m.s, c.m.s));
                assert(leaves(c.m.s, d.m.s));
                let r = d.read_segment(seg.kind, BinOperand::Const(w), slots);
                assert(from_here(d.m.s));
                assert(leaves(d.m.s, r.m.s));
                lemma_read(seg, r, slots.cursor, BinOperand::Const(w));
            },
            None => {
                let temp = c.m.s.next_slot();
                let t = c.at(c.m.s.take_slot());
                assert(leaves(c.m.s, t.m.s));
                lemma_measure(seg, temp, slots, t);
                let d = measure(seg, temp, slots, t);
                let r = d.read_segment(seg.kind, BinOperand::Local(temp), slots);
                assert(from_here(d.m.s));
                assert(leaves(d.m.s, r.m.s));
                lemma_read(seg, r, slots.cursor, BinOperand::Local(temp));
            },
        }
    }
}

pub proof fn lemma_measure(seg: BinSegmentPat, temp: i32, slots: BinSlots, t: BinMatching)
    ensures
        leaves(t.m.s, measure(seg, temp, slots, t).m.s),
    decreases seg, 2nat,
{
    assert(from_here(t.m.s));
    reveal(measure_body);
    assert(measure(seg, temp, slots, t) == measure_body(seg, temp, slots, t));
    match seg.size {
        Some(e) => {
            lemma_expr(e, t.m.s);
            let s1 = expr(e, t.m.s).misfit(seg.size_faults@);
            let s2 = if seg.unit == BinUnit::Bytes {
                s1.push_int(8).emit(Op::Mul)
            } else {
                s1
            };
            assert(from_here(s1));
            assert(leaves(s1, s1));
            assert(from_here(s1));
            assert(leaves(s1, s2));
            let u = t.at(s2.emit_arg(Op::StoreLocal, temp));
            assert(leaves(t.m.s, u.m.s));
            let v = u.spilled(slots.cursor);
            assert(from_here(u.m.s));
            assert(leaves(u.m.s, v.m.s));
            assert(from_here(v.m.s));
            assert(leaves(v.m.s, v.check_width(BinOperand::Local(temp), slots).m.s));
        },
        None => {
            let u = t.spilled(slots.cursor);
            assert(leaves(t.m.s, u.m.s));
        },
    }
}


} // verus!

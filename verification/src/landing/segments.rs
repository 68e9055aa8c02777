//! The jumps in the segments of a binary pattern land in them or lead to the failure.
use crate::ast::{BinKind, BinSegmentPat, BinUnit};
use crate::gen::{
    expr, measure, measure_body, pattern, segment, segment_body, segments_from, BinMatching,
    BinOperand, BinSlots,
};
use crate::landing::{group_landing, lands, misses};
use crate::landing::exprs::lemma_expr;
use crate::landing::patterns::lemma_pattern;
use crate::landing::pieces::group_landing_pieces;
use crate::literal::{run_end, static_width};
use crate::op::Op;
use crate::scopes::from_here;
use vstd::prelude::*;

verus! {

broadcast use {group_landing, group_landing_pieces};

pub proof fn lemma_segments(segs: Seq<BinSegmentPat>, i: nat, slots: BinSlots, b: BinMatching)
    ensures
        misses(b.m, segments_from(segs, i, slots, b).m),
    decreases segs, segs.len() - i,
{
    assert(from_here(b.m.s));
    assert(misses(b.m, b.m));
    if i < segs.len() {
        let c = b.check_run(segs, i, slots);
        assert(misses(b.m, c.m));
        let (end, bits) = run_end(c.m.s.world.names@, segs, i, Seq::empty());
        if i < end <= segs.len() {
            assert(from_here(c.m.s));
            assert(misses(c.m, c.match_prefix(bits, slots).m));
            lemma_segments(segs, end, slots, c.match_prefix(bits, slots));
        } else {
            lemma_segment(segs[i as int], slots, c);
            lemma_segments(segs, i + 1, slots, segment(segs[i as int], slots, c));
        }
    }
}

pub proof fn lemma_read(seg: BinSegmentPat, r: BinMatching, slot: i32, width: BinOperand)
    ensures
        misses(
            r.m,
            (BinMatching { m: pattern(seg.value, r.m), ..r }).advance(slot, width).m,
        ),
    decreases seg, 0nat,
{
    assert(from_here(r.m.s));
    lemma_pattern(seg.value, r.m);
    let t = BinMatching { m: pattern(seg.value, r.m), ..r };
    assert(from_here(t.m.s));
    assert(misses(t.m, t.advance(slot, width).m));
}

pub proof fn lemma_segment(seg: BinSegmentPat, slots: BinSlots, c: BinMatching)
    ensures
        misses(c.m, segment(seg, slots, c).m),
    decreases seg, 3nat,
{
    assert(from_here(c.m.s));
    reveal(segment_body);
    assert(segment(seg, slots, c) == segment_body(seg, slots, c));
    let names = c.m.s.world.names@;
    if seg.kind == BinKind::Utf8 {
        let r = c.read_utf8(slots);
        let width = c.spilled(slots.cursor).m.s.emit_arg(Op::PushLocal, slots.bin).emit_arg(
            Op::PushLocal,
            slots.cursor,
        ).emit(Op::BinReadUtf8).next_slot();
        assert(misses(c.m, r.m));
        lemma_read(seg, r, slots.cursor, BinOperand::Local(width));
    } else {
        match static_width(names, seg) {
            Some(w) => {
                let d = if c.cursor is None {
                    c.check_width(BinOperand::Const(w), slots)
                } else {
                    c
                };
                assert(misses(c.m, c.m));
                assert(misses(c.m, d.m));
                let r = d.read_segment(seg.kind, BinOperand::Const(w), slots);
                assert(from_here(d.m.s));
                assert(misses(d.m, r.m));
                lemma_read(seg, r, slots.cursor, BinOperand::Const(w));
            },
            None => {
                let temp = c.m.s.next_slot();
                let t = c.at(c.m.s.take_slot());
                assert(lands(c.m.s, t.m.s));
                assert(misses(c.m, t.m));
                lemma_measure(seg, temp, slots, t);
                let d = measure(seg, temp, slots, t);
                let r = d.read_segment(seg.kind, BinOperand::Local(temp), slots);
                assert(from_here(d.m.s));
                assert(misses(d.m, r.m));
                lemma_read(seg, r, slots.cursor, BinOperand::Local(temp));
            },
        }
    }
}

pub proof fn lemma_measure(seg: BinSegmentPat, temp: i32, slots: BinSlots, t: BinMatching)
    ensures
        misses(t.m, measure(seg, temp, slots, t).m),
    decreases seg, 2nat,
{
    assert(from_here(t.m.s));
    reveal(measure_body);
    assert(measure(seg, temp, slots, t) == measure_body(seg, temp, slots, t));
    match seg.size {
        Some(e) => {
            lemma_expr(e, t.m.s);
            let s1 = expr(e, t.m.s).misfit(seg.size_faults@);
            let s2 = if seg.unit == BinUnit::Bytes {
                s1.push_int(8).emit(Op::Mul)
            } else {
                s1
            };
            assert(from_here(s1));
            assert(lands(s1, s1));
            assert(from_here(s1));
            assert(lands(s1, s2));
            let u = t.at(s2.emit_arg(Op::StoreLocal, temp));
            assert(lands(t.m.s, u.m.s));
            assert(misses(t.m, u.m));
            let v = u.spilled(slots.cursor);
            assert(from_here(u.m.s));
            assert(lands(u.m.s, v.m.s));
            assert(misses(u.m, v.m));
            assert(from_here(v.m.s));
            assert(misses(t.m, v.m));
            let x = v.check_width(BinOperand::Local(temp), slots);
            assert(misses(v.m, x.m));
            assert(misses(t.m, x.m));
            assert(measure(seg, temp, slots, t) == x);
        },
        None => {
            let u = t.spilled(slots.cursor);
            assert(lands(t.m.s, u.m.s));
            assert(misses(t.m, u.m));
            let s1 = u.m.s.emit_arg(Op::PushLocal, slots.total).emit_arg(
                Op::PushLocal,
                slots.cursor,
            ).emit(Op::Sub).emit_arg(Op::StoreLocal, temp);
            assert(from_here(u.m.s));
            assert(lands(u.m.s, s1));
            assert(misses(u.m, u.m.at(s1)));
        },
    }
}


} // verus!

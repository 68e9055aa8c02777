//! What muting leaves of the segments of a binary pattern.
use crate::ast::{BinKind, BinSegmentPat};
use crate::muting::exprs::lemma_expr;
use crate::muting::patterns::lemma_pattern;
use crate::gen::{
    measure, measure_body, pattern, segment, segment_body, segments_from, BinMatching, BinOperand,
    BinSlots,
};
use crate::literal::{run_end, static_width};
use crate::op::Op;
use crate::muting::group_muting;
use crate::muting::pieces::group_muting_pieces;
use crate::state::Sighting;
use vstd::prelude::*;

verus! {

broadcast use {group_muting, group_muting_pieces};

pub proof fn lemma_segments(
    pre: Seq<Sighting>,
    segs: Seq<BinSegmentPat>,
    i: nat,
    slots: BinSlots,
    b: BinMatching,
)
    ensures
        segments_from(segs, i, slots, b).muted(pre) == segments_from(segs, i, slots, b.muted(pre)),
    decreases segs, segs.len() - i,
{
    if i < segs.len() {
        let c = b.check_run(segs, i, slots);
        let (end, bits) = run_end(c.m.s.world.names@, segs, i, Seq::empty());
        if i < end <= segs.len() {
            lemma_segments(pre, segs, end, slots, c.match_prefix(bits, slots));
        } else {
            lemma_segment(pre, segs[i as int], slots, c);
            lemma_segments(pre, segs, i + 1, slots, segment(segs[i as int], slots, c));
        }
    }
}

pub proof fn lemma_read(
    pre: Seq<Sighting>,
    seg: BinSegmentPat,
    r: BinMatching,
    slot: i32,
    width: BinOperand,
)
    ensures
        (BinMatching { m: pattern(seg.value, r.m), ..r }).advance(slot, width).muted(pre) == (
        BinMatching { m: pattern(seg.value, r.m.muted(pre)), ..r.muted(pre) }).advance(slot, width),
    decreases seg, 0nat,
{
    lemma_pattern(pre, seg.value, r.m);
}

pub proof fn lemma_segment(pre: Seq<Sighting>, seg: BinSegmentPat, slots: BinSlots, c: BinMatching)
    ensures
        segment(seg, slots, c).muted(pre) == segment(seg, slots, c.muted(pre)),
    decreases seg, 3nat,
{
    reveal(segment_body);
    assert(segment(seg, slots, c) == segment_body(seg, slots, c));
    assert(segment(seg, slots, c.muted(pre)) == segment_body(seg, slots, c.muted(pre)));
    let names = c.m.s.world.names@;
    if seg.kind == BinKind::Utf8 {
        let r = c.read_utf8(slots);
        let p = c.spilled(slots.cursor);
        let w = p.m.s.emit_arg(Op::PushLocal, slots.bin).emit_arg(
            Op::PushLocal,
            slots.cursor,
        ).emit(Op::BinReadUtf8);
        let width = w.next_slot();
        assert(p.muted(pre) == c.muted(pre).spilled(slots.cursor));
        assert(w.muted(pre) == p.muted(pre).m.s);
        assert(w.muted(pre).next_slot() == width);
        lemma_read(pre, seg, r, slots.cursor, BinOperand::Local(width));
    } else {
        match static_width(names, seg) {
            Some(w) => {
                let d = if c.cursor is None {
                    c.check_width(BinOperand::Const(w), slots)
                } else {
                    c
                };
                let r = d.read_segment(seg.kind, BinOperand::Const(w), slots);
                lemma_read(pre, seg, r, slots.cursor, BinOperand::Const(w));
            },
            None => {
                let temp = c.m.s.next_slot();
                let t = c.at(c.m.s.take_slot());
                lemma_measure(pre, seg, temp, slots, t);
                let d = measure(seg, temp, slots, t);
                let r = d.read_segment(seg.kind, BinOperand::Local(temp), slots);
                lemma_read(pre, seg, r, slots.cursor, BinOperand::Local(temp));
            },
        }
    }
}

pub proof fn lemma_measure(
    pre: Seq<Sighting>,
    seg: BinSegmentPat,
    temp: i32,
    slots: BinSlots,
    t: BinMatching,
)
    ensures
        measure(seg, temp, slots, t).muted(pre) == measure(seg, temp, slots, t.muted(pre)),
    decreases seg, 2nat,
{
    reveal(measure_body);
    assert(measure(seg, temp, slots, t) == measure_body(seg, temp, slots, t));
    assert(measure(seg, temp, slots, t.muted(pre)) == measure_body(seg, temp, slots, t.muted(pre)));
    match seg.size {
        Some(e) => {
            lemma_expr(pre, e, t.m.s);
        },
        None => {
        },
    }
}

} // verus!

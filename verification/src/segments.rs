//! Matching binaries.
use crate::ast::{BinKind, BinSegmentPat, BinUnit, BinaryRest};
use crate::gen::{
    all_known, known_run, measure, measure_body, pattern, segment, segment_body, segments_from,
    start_binary, BinMatching, BinOperand, BinSlots, Matching,
};
use crate::literal::{literal_prefix_run, packed, run_end, static_segment_bits};
use crate::names::Interner;
use crate::op::{Const, ConstView, Op};
use crate::state::{Compiler, State};
use vstd::prelude::*;

verus! {

/// The sum of the widths from `i` on up to the first one that is not known.
fn sum_known_run(names: &Interner, segs: &Vec<BinSegmentPat>, i: usize, from: i64) -> (res: i64)
    requires
        i <= segs@.len(),
    ensures
        res == known_run(names@, segs@, i as nat, from),
{
    let mut sum: i64 = from;
    let mut k: usize = i;
    while k < segs.len()
        invariant
            i <= k <= segs.len(),
            known_run(names@, segs@, i as nat, from) == known_run(names@, segs@, k as nat, sum),
        decreases segs.len() - k,
    {
        match static_segment_bits(names, &segs[k]) {
            Some(w) => {
                sum = sum.wrapping_add(w);
            },
            None => {
                return sum;
            },
        }
        k = k + 1;
    }
    sum
}

/// Whether all widths are known.
fn every_width_known(names: &Interner, segs: &Vec<BinSegmentPat>) -> (res: bool)
    ensures
        res == all_known(names@, segs@, 0),
{
    let mut k: usize = 0;
    while k < segs.len()
        invariant
            k <= segs.len(),
            all_known(names@, segs@, 0) == all_known(names@, segs@, k as nat),
        decreases segs.len() - k,
    {
        if static_segment_bits(names, &segs[k]).is_none() {
            return false;
        }
        k = k + 1;
    }
    true
}

/// The position in a binary: what is known of it at this point, and how far the
/// length has been checked.
#[derive(Debug, Clone, Copy)]
pub struct Cursor {
    pub known: Option<i64>,
    pub checked: i64,
}

/// A binary match under way.
pub open spec fn under_way(s: State, fails: Seq<usize>, cursor: Cursor) -> BinMatching {
    BinMatching {
        m: Matching { s, fails },
        cursor: cursor.known,
        checked: cursor.checked,
    }
}

impl Compiler {
    /// Push an operand.
    pub fn emit_push_operand(&mut self, o: BinOperand)
        ensures
            final(self)@ == old(self)@.operand(o),
    {
        match o {
            BinOperand::Const(v) => self.push_int(v),
            BinOperand::Local(slot) => self.emit_arg(Op::PushLocal, slot),
        }
    }

    /// Push the bit cursor.
    pub fn emit_push_cursor(&mut self, cursor: Option<i64>, slot: i32)
        ensures
            final(self)@ == old(self)@.cursor(cursor, slot),
    {
        match cursor {
            Some(k) => self.push_int(k),
            None => self.emit_arg(Op::PushLocal, slot),
        }
    }

    /// Bring the cursor into its slot, where it stays.
    pub fn emit_spill_cursor(&mut self, cursor: &mut Cursor, slot: i32)
        ensures
            forall|fails: Seq<usize>|
                #[trigger] under_way(old(self)@, fails, *old(cursor)).spilled(slot) == under_way(
                    final(self)@,
                    fails,
                    *final(cursor),
                ),
    {
        if let Some(k) = cursor.known {
            self.push_int(k);
            self.emit_arg(Op::StoreLocal, slot);
            cursor.known = None;
        }
    }

    /// Move the cursor on.
    pub fn emit_advance_cursor(&mut self, cursor: &mut Cursor, slot: i32, by: BinOperand)
        ensures
            forall|fails: Seq<usize>|
                #[trigger] under_way(old(self)@, fails, *old(cursor)).advance(slot, by)
                    == under_way(final(self)@, fails, *final(cursor)),
    {
        proof {
            reveal(BinMatching::advance);
        }
        if let Some(k) = cursor.known {
            if let BinOperand::Const(b) = by {
                cursor.known = Some(k.wrapping_add(b));
                return;
            }
        }
        self.emit_spill_cursor(cursor, slot);
        self.emit_arg(Op::PushLocal, slot);
        self.emit_push_operand(by);
        self.emit(Op::Add);
        self.emit_arg(Op::StoreLocal, slot);
    }

    /// Fail when fewer than `width` bits are left behind the cursor's slot.
    fn emit_check_width(
        &mut self,
        width: BinOperand,
        slots: BinSlots,
        cursor: &Cursor,
        fails: &mut Vec<usize>,
    )
        ensures
            under_way(old(self)@, old(fails)@, *cursor).check_width(width, slots) == under_way(
                final(self)@,
                final(fails)@,
                *cursor,
            ),
    {
        proof {
            reveal(BinMatching::check_width);
        }
        self.emit_arg(Op::PushLocal, slots.cursor);
        self.emit_push_operand(width);
        self.emit(Op::Add);
        self.emit_arg(Op::PushLocal, slots.total);
        self.require(Op::Lte, fails);
    }

    /// Read a character at the cursor and fail when there is none. Returns the
    /// slot of its width.
    fn emit_read_utf8(
        &mut self,
        slots: BinSlots,
        cursor: &mut Cursor,
        fails: &mut Vec<usize>,
    ) -> (nbits: i32)
        ensures
            ({
                let b = under_way(old(self)@, old(fails)@, *old(cursor));
                &&& b.read_utf8(slots) == under_way(final(self)@, final(fails)@, *final(cursor))
                &&& nbits == b.spilled(slots.cursor).m.s.emit_arg(
                    Op::PushLocal,
                    slots.bin,
                ).emit_arg(Op::PushLocal, slots.cursor).emit(Op::BinReadUtf8).next_slot()
            }),
    {
        proof {
            reveal(BinMatching::read_utf8);
        }
        let ghost b = under_way(self@, fails@, *cursor).spilled(slots.cursor);
        self.emit_spill_cursor(cursor, slots.cursor);
        self.emit_arg(Op::PushLocal, slots.bin);
        self.emit_arg(Op::PushLocal, slots.cursor);
        self.emit(Op::BinReadUtf8);
        let nbits: i32 = self.spill_temp();
        let point: i32 = self.spill_temp();
        self.emit_arg(Op::PushLocal, nbits);
        self.push_int(0);
        self.require(Op::Gt, fails);
        self.emit_arg(Op::PushLocal, point);
        nbits
    }

    /// Read a segment of `width` bits at the cursor, match it against the
    /// segment's pattern, and move the cursor on.
    fn emit_segment_read(
        &mut self,
        seg: &BinSegmentPat,
        width: BinOperand,
        slots: BinSlots,
        cursor: &mut Cursor,
        fails: &mut Vec<usize>,
    )
        ensures
            ({
                let r = under_way(old(self)@, old(fails)@, *old(cursor)).read_segment(
                    seg.kind,
                    width,
                    slots,
                );
                (BinMatching { m: pattern(seg.value, r.m), ..r }).advance(slots.cursor, width)
                    == under_way(final(self)@, final(fails)@, *final(cursor))
            }),
        decreases *seg, 0nat,
    {
        proof {
            reveal(BinMatching::read_segment);
        }
        let ghost r = under_way(self@, fails@, *cursor).read_segment(seg.kind, width, slots);
        self.emit_arg(Op::PushLocal, slots.bin);
        self.emit_push_cursor(cursor.known, slots.cursor);
        self.emit_push_operand(width);
        if seg.kind == BinKind::Binary {
            self.emit(Op::BinView);
        } else {
            self.emit(Op::BinReadInt);
        }
        assert(r == under_way(self@, fails@, *cursor));
        self.emit_pattern(&seg.value, fails);
        assert((BinMatching { m: pattern(seg.value, r.m), ..r }) == under_way(
            self@,
            fails@,
            *cursor,
        ));
        self.emit_advance_cursor(cursor, slots.cursor, width);
    }

    /// Work out the width of a segment into a slot.
    fn emit_measure(
        &mut self,
        seg: &BinSegmentPat,
        temp: i32,
        slots: BinSlots,
        cursor: &mut Cursor,
        fails: &mut Vec<usize>,
    )
        ensures
            measure(*seg, temp, slots, under_way(old(self)@, old(fails)@, *old(cursor)))
                == under_way(final(self)@, final(fails)@, *final(cursor)),
        decreases *seg, 0nat,
    {
        proof {
            reveal(measure_body);
            assert(measure(*seg, temp, slots, under_way(self@, fails@, *cursor)) == measure_body(*seg, temp, slots, under_way(self@, fails@, *cursor)));
        }
        let ghost t = under_way(self@, fails@, *cursor);
        match &seg.size {
            Some(e) => {
                self.compile_expr(e);
                self.misfit(&seg.size_faults);
                if seg.unit == BinUnit::Bytes {
                    self.push_int(8);
                    self.emit(Op::Mul);
                }
                self.emit_arg(Op::StoreLocal, temp);
                assert(t.at(self@) == under_way(self@, fails@, *cursor));
                self.emit_spill_cursor(cursor, slots.cursor);
                self.emit_check_width(BinOperand::Local(temp), slots, cursor, fails);
            },
            None => {
                self.emit_spill_cursor(cursor, slots.cursor);
                self.emit_arg(Op::PushLocal, slots.total);
                self.emit_arg(Op::PushLocal, slots.cursor);
                self.emit(Op::Sub);
                self.emit_arg(Op::StoreLocal, temp);
            },
        }
    }

    /// Match one segment that is no literal.
    fn emit_segment(
        &mut self,
        seg: &BinSegmentPat,
        slots: BinSlots,
        cursor: &mut Cursor,
        fails: &mut Vec<usize>,
    )
        ensures
            segment(*seg, slots, under_way(old(self)@, old(fails)@, *old(cursor))) == under_way(
                final(self)@,
                final(fails)@,
                *final(cursor),
            ),
        decreases *seg, 1nat,
    {
        proof {
            reveal(segment_body);
            assert(segment(*seg, slots, under_way(self@, fails@, *cursor)) == segment_body(*seg, slots, under_way(self@, fails@, *cursor)));
        }
        if seg.kind == BinKind::Utf8 {
            let nbits: i32 = self.emit_read_utf8(slots, cursor, fails);
            let ghost r = under_way(self@, fails@, *cursor);
            self.emit_pattern(&seg.value, fails);
            assert((BinMatching { m: pattern(seg.value, r.m), ..r }) == under_way(
                self@,
                fails@,
                *cursor,
            ));
            self.emit_advance_cursor(cursor, slots.cursor, BinOperand::Local(nbits));
            return;
        }
        let width: Option<i64> = static_segment_bits(&self.world().names, seg);
        match width {
            Some(w) => {
                if cursor.known.is_none() {
                    self.emit_check_width(BinOperand::Const(w), slots, cursor, fails);
                }
                self.emit_segment_read(seg, BinOperand::Const(w), slots, cursor, fails);
            },
            None => {
                let ghost c = under_way(self@, fails@, *cursor);
                let temp: i32 = self.alloc_temp();
                assert(c.at(c.m.s.take_slot()) == under_way(self@, fails@, *cursor));
                self.emit_measure(seg, temp, slots, cursor, fails);
                self.emit_segment_read(seg, BinOperand::Local(temp), slots, cursor, fails);
            },
        }
    }

    /// Fail when the binary ends before the run of segments of known width that
    /// starts at `i`, unless that has been checked.
    fn emit_check_run(
        &mut self,
        segs: &Vec<BinSegmentPat>,
        i: usize,
        slots: BinSlots,
        cursor: &mut Cursor,
        fails: &mut Vec<usize>,
    )
        requires
            i < segs@.len(),
        ensures
            under_way(old(self)@, old(fails)@, *old(cursor)).check_run(segs@, i as nat, slots)
                == under_way(final(self)@, final(fails)@, *final(cursor)),
    {
        proof {
            reveal(BinMatching::check_run);
        }
        if let Some(at) = cursor.known {
            if static_segment_bits(&self.world().names, &segs[i]).is_some() {
                let end: i64 = sum_known_run(&self.world().names, segs, i, at);
                if end > cursor.checked {
                    self.push_int(end);
                    self.emit_arg(Op::PushLocal, slots.total);
                    self.require(Op::Lte, fails);
                    cursor.checked = end;
                }
            }
        }
    }

    /// Compare a run of literal bits at the cursor.
    fn emit_match_prefix(
        &mut self,
        bytes: Vec<u8>,
        bit_len: u64,
        slots: BinSlots,
        cursor: &mut Cursor,
        fails: &mut Vec<usize>,
        Ghost(bits): Ghost<Seq<bool>>,
    )
        requires
            bytes@ == packed(bits),
            bit_len == bits.len(),
        ensures
            under_way(old(self)@, old(fails)@, *old(cursor)).match_prefix(bits, slots)
                == under_way(final(self)@, final(fails)@, *final(cursor)),
    {
        proof {
            reveal(BinMatching::match_prefix);
        }
        let ghost b = under_way(self@, fails@, *cursor);
        let ghost value = ConstView::Binary { bytes: packed(bits), bit_len };
        let ghost s = self@.pool(value);
        let c: i32 = self.const_binary(bytes, bit_len);
        assert(self@ == s);
        self.emit_arg(Op::PushLocal, slots.bin);
        self.emit_push_cursor(cursor.known, slots.cursor);
        self.emit_arg(Op::PushConst, c);
        self.require(Op::BinMatchPrefix, fails);
        assert(b.at(
            s.emit_arg(Op::PushLocal, slots.bin).cursor(b.cursor, slots.cursor).emit_arg(
                Op::PushConst,
                c,
            ),
        ).require(Op::BinMatchPrefix) == under_way(self@, fails@, *cursor));
        self.emit_advance_cursor(cursor, slots.cursor, BinOperand::Const(bit_len as i64));
    }

    /// Begin with a binary on top of the stack.
    fn start_binary(
        &mut self,
        segs: &Vec<BinSegmentPat>,
        rest: Option<BinaryRest>,
        fails: &mut Vec<usize>,
    ) -> (res: (Cursor, BinSlots))
        ensures
            start_binary(segs@, rest, Matching { s: old(self)@, fails: old(fails)@ }) == (
                under_way(final(self)@, final(fails)@, res.0),
                res.1,
            ),
    {
        proof {
            reveal(start_binary);
        }
        let bin: i32 = self.spill_temp();
        self.emit_arg(Op::PushLocal, bin);
        self.emit(Op::BinBitSize);
        let total: i32 = self.spill_temp();
        let cursor: i32 = self.alloc_temp();
        let mut checked: i64 = 0;
        if every_width_known(&self.world().names, segs) && rest.is_none() {
            let whole: i64 = sum_known_run(&self.world().names, segs, 0, 0);
            self.push_int(whole);
            self.emit_arg(Op::PushLocal, total);
            self.require(Op::Eq, fails);
            checked = whole;
        }
        (Cursor { known: Some(0), checked }, BinSlots { bin, total, cursor })
    }

    /// Deal with what is left of a binary behind its segments.
    fn emit_rest(
        &mut self,
        segs: &Vec<BinSegmentPat>,
        rest: Option<BinaryRest>,
        slots: BinSlots,
        cursor: &Cursor,
        fails: &mut Vec<usize>,
    )
        ensures
            ({
                let m = under_way(old(self)@, old(fails)@, *cursor).finish_rest(segs@, rest, slots);
                final(self)@ == m.s && final(fails)@ == m.fails
            }),
    {
        proof {
            reveal(BinMatching::finish_rest);
        }
        match rest {
            Some(r) => {
                if let Some(id) = r.binding {
                    self.emit_arg(Op::PushLocal, slots.bin);
                    self.emit_push_cursor(cursor.known, slots.cursor);
                    self.emit_arg(Op::PushLocal, slots.total);
                    self.emit_push_cursor(cursor.known, slots.cursor);
                    self.emit(Op::Sub);
                    self.emit(Op::BinView);
                    self.store_name(id.name);
                }
            },
            None => {
                if !(every_width_known(&self.world().names, segs) && cursor.known.is_some()) {
                    self.emit_push_cursor(cursor.known, slots.cursor);
                    self.emit_arg(Op::PushLocal, slots.total);
                    self.require(Op::Eq, fails);
                }
            },
        }
    }

    /// Match a binary on top of the stack against the segments of a pattern. The
    /// position in the binary is calculated while every width so far is known,
    /// and kept in a slot afterwards; runs of literal segments are compared in
    /// one go; one check covers a run of segments of known width.
    pub fn emit_binary_pattern(
        &mut self,
        segs: &Vec<BinSegmentPat>,
        rest: Option<BinaryRest>,
        fails: &mut Vec<usize>,
    )
        ensures
            ({
                let (b, slots) = start_binary(
                    segs@,
                    rest,
                    Matching { s: old(self)@, fails: old(fails)@ },
                );
                let m = segments_from(segs@, 0, slots, b).finish_rest(segs@, rest, slots);
                final(self)@ == m.s && final(fails)@ == m.fails
            }),
        decreases segs@, 0nat,
    {
        let (mut cursor, slots): (Cursor, BinSlots) = self.start_binary(segs, rest, fails);
        let ghost goal = segments_from(segs@, 0, slots, under_way(self@, fails@, cursor));
        let mut i: usize = 0;
        while i < segs.len()
            invariant
                i <= segs.len(),
                goal == segments_from(
                    segs@,
                    i as nat,
                    slots,
                    under_way(self@, fails@, cursor),
                ),
            decreases segs.len() - i,
        {
            self.emit_check_run(segs, i, slots, &mut cursor, fails);
            let run: Option<(Vec<u8>, u64, usize)> = literal_prefix_run(
                &self.world().names,
                segs,
                i,
            );
            match run {
                Some((bytes, bit_len, n)) => {
                    let ghost bits = run_end(
                        self@.world.names@,
                        segs@,
                        i as nat,
                        Seq::empty(),
                    ).1;
                    self.emit_match_prefix(
                        bytes,
                        bit_len,
                        slots,
                        &mut cursor,
                        fails,
                        Ghost(bits),
                    );
                    i = i + n;
                },
                None => {
                    self.emit_segment(&segs[i], slots, &mut cursor, fails);
                    i = i + 1;
                },
            }
        }
        self.emit_rest(segs, rest, slots, &cursor, fails);
    }
}

} // verus!

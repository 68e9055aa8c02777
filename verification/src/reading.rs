//! How binaries are read.
//!
//! Code that matches a binary keeps the binary and its length in slots and goes through the
//! bits with a cursor. What it takes off the binary and when it gives up is said here of the
//! bits themselves.
use crate::ast::{BinKind, BinSegmentPat, BinaryRest};
use crate::bits::byte_bit;
use crate::fitting::{ctx_of, fits, in_order, names_in, suits};
use crate::fitting::frames::{after, lemma_after_same, lemma_store_name};
use crate::fitting::runs::{binds, lemma_named, lemma_pattern, lemma_ready, ready};
use crate::gen::{
    all_known, known_run, pattern, segment, segment_body, BinMatching, BinOperand, BinSlots, Matching,
};
use crate::landing::{group_landing, lands, misses};
use crate::literal::{bit_or_zero, packed, packed_byte, static_width};
use crate::machine::{
    bits_of, fits_int, lemma_reaches_on, lemma_reaches_self, number_of_bits, reaches, Config, Given,
    Image, Value,
};
use crate::op::{instr, ConstView, Op};
use crate::running::{
    at_end, carries, decides, lemma_carries_parts, lemma_const, lemma_fails_on, lemma_line,
    lemma_local, lemma_op, lemma_require, lemma_store, lemma_straight,
};
use crate::scopes::from_here;
use crate::state::State;
use vstd::prelude::*;

verus! {

/// Whether the slots hold a binary and its length.
pub open spec fn holds_binary(slots: BinSlots, locals: Map<int, Value>, bits: Seq<bool>) -> bool {
    &&& locals.dom().contains(slots.bin as int)
    &&& locals[slots.bin as int] == Value::Bits(bits)
    &&& locals.dom().contains(slots.total as int)
    &&& locals[slots.total as int] == Value::Int(bits.len() as int)
}

/// Whether an operand stands for a number.
pub open spec fn stands_for(o: BinOperand, locals: Map<int, Value>, n: int) -> bool {
    match o {
        BinOperand::Const(v) => v == n,
        BinOperand::Local(slot) => locals.dom().contains(slot as int) && locals[slot as int]
            == Value::Int(n),
    }
}

/// Where the cursor is, as an operand.
pub open spec fn cursor_operand(cursor: Option<i64>, slots: BinSlots) -> BinOperand {
    match cursor {
        Some(k) => BinOperand::Const(k),
        None => BinOperand::Local(slots.cursor),
    }
}

/// Whether the cursor is at a bit.
pub open spec fn is_at(b: BinMatching, slots: BinSlots, locals: Map<int, Value>, at: int) -> bool {
    stands_for(cursor_operand(b.cursor, slots), locals, at)
}

/// Whether no slot but one has another value.
pub open spec fn same_but(before: Map<int, Value>, after: Map<int, Value>, slot: int) -> bool {
    forall|i: int|
        i != slot ==> (#[trigger] after.dom().contains(i) <==> before.dom().contains(i))
            && after[i] == before[i]
}

proof fn lemma_operand(
    g: Given,
    img: Image,
    m: Matching,
    o: BinOperand,
    c: Config,
    stack: Seq<Value>,
    locals: Map<int, Value>,
    n: int,
)
    requires
        carries(img, m, m.at(m.s.operand(o))),
        stands_for(o, locals, n),
        reaches(g, img, c, at_end(m.s, stack, locals)),
    ensures
        reaches(g, img, c, at_end(m.s.operand(o), stack.push(Value::Int(n)), locals)),
{
    match o {
        BinOperand::Const(v) => lemma_const(g, img, m, ConstView::Int(v), c, stack, locals),
        BinOperand::Local(slot) => lemma_local(g, img, m, slot, c, stack, locals),
    }
}

proof fn lemma_operand_lands(s: State, o: BinOperand)
    ensures
        lands(s, s.operand(o)),
{
    broadcast use group_landing;
    assert(from_here(s));
}

/// A segment's code pushes what stands at the cursor: for an integer the number that its bits
/// stand for, for a binary the bits themselves. The locals stay as they were.
pub proof fn law_segments_are_read(
    g: Given,
    img: Image,
    b: BinMatching,
    kind: BinKind,
    width: BinOperand,
    slots: BinSlots,
    stack: Seq<Value>,
    locals: Map<int, Value>,
    bits: Seq<bool>,
    at: int,
    n: int,
)
    requires
        kind != BinKind::Utf8,
        carries(img, b.m, b.read_segment(kind, width, slots).m),
        holds_binary(slots, locals, bits),
        is_at(b, slots, locals, at),
        stands_for(width, locals, n),
        0 <= at,
        0 <= n,
        at + n <= bits.len(),
    ensures
        reaches(
            g,
            img,
            at_end(b.m.s, stack, locals),
            at_end(
                b.read_segment(kind, width, slots).m.s,
                stack.push(
                    match kind {
                        BinKind::Binary => Value::Bits(bits.subrange(at, at + n)),
                        _ => Value::Int(number_of_bits(bits.subrange(at, at + n))),
                    },
                ),
                locals,
            ),
        ),
        b.read_segment(kind, width, slots).m.fails == b.m.fails,
        is_at(b.read_segment(kind, width, slots), slots, locals, at),
{
    reveal(BinMatching::read_segment);
    let c = at_end(b.m.s, stack, locals);
    lemma_reaches_self(g, img, c);
    let m = b.m;
    let o = cursor_operand(b.cursor, slots);
    let s1 = m.s.emit_arg(Op::PushLocal, slots.bin);
    let s2 = s1.operand(o);
    let s3 = s2.operand(width);
    let ins = instr(
        if kind == BinKind::Binary {
            Op::BinView
        } else {
            Op::BinReadInt
        },
        0,
        0,
        0,
    );
    let s4 = s3.push(ins);
    assert(s2 == s1.cursor(b.cursor, slots.cursor));
    assert(lands(m.s, s1) && lands(s1, s2) && lands(s1, s4) && lands(s2, s3) && lands(s2, s4)
        && lands(s3, s4)) by {
        broadcast use group_landing;

        lemma_operand_lands(s1, o);
        lemma_operand_lands(s2, width);
        assert(from_here(m.s) && from_here(s3) && from_here(s2) && from_here(s1));
        assert(lands(s3, s4));
        assert(lands(s2, s4));
    }
    lemma_line(img, m, s1, s4);
    lemma_line(img, m.at(s1), s2, s4);
    lemma_line(img, m.at(s2), s3, s4);
    lemma_local(g, img, m, slots.bin, c, stack, locals);
    let x1 = stack.push(Value::Bits(bits));
    lemma_operand(g, img, m.at(s1), o, c, x1, locals, at);
    let x2 = x1.push(Value::Int(at));
    lemma_operand(g, img, m.at(s2), width, c, x2, locals, n);
    let x3 = x2.push(Value::Int(n));
    let v = match kind {
        BinKind::Binary => Value::Bits(bits.subrange(at, at + n)),
        _ => Value::Int(number_of_bits(bits.subrange(at, at + n))),
    };
    assert(at_end(s3, x3, locals).without(3) =~= stack);
    lemma_op(g, img, m.at(s3), ins, c, x3, locals, stack.push(v));
}

/// The code that checks whether a segment is there goes on where the binary has the bits, and
/// fails where it has not.
pub proof fn law_segments_are_there(
    g: Given,
    img: Image,
    b: BinMatching,
    width: BinOperand,
    slots: BinSlots,
    stack: Seq<Value>,
    locals: Map<int, Value>,
    bits: Seq<bool>,
    at: int,
    n: int,
)
    requires
        b.cursor is None,
        carries(img, b.m, b.check_width(width, slots).m),
        holds_binary(slots, locals, bits),
        is_at(b, slots, locals, at),
        stands_for(width, locals, n),
        fits_int(at + n),
    ensures
        decides(
            g,
            img,
            b.m,
            b.check_width(width, slots).m,
            at_end(b.m.s, stack, locals),
            stack,
            locals,
            at + n <= bits.len(),
        ),
{
    reveal(BinMatching::check_width);
    let c = at_end(b.m.s, stack, locals);
    lemma_reaches_self(g, img, c);
    let m = b.m;
    let s1 = m.s.emit_arg(Op::PushLocal, slots.cursor);
    let s2 = s1.operand(width);
    let s3 = s2.emit(Op::Add);
    let s4 = s3.emit_arg(Op::PushLocal, slots.total);
    let t = m.at(s4).require(Op::Lte);
    assert(lands(m.s, s1) && lands(s1, s2) && lands(s1, s4) && lands(s2, s3) && lands(s2, s4)
        && lands(s3, s4) && lands(m.s, s4)) by {
        broadcast use group_landing;

        lemma_operand_lands(s1, width);
        assert(from_here(m.s) && from_here(s3) && from_here(s2) && from_here(s1));
        assert(lands(s3, s4));
        assert(lands(s2, s4));
        assert(lands(s1, s4));
    }
    lemma_straight(m, s4);
    crate::landing::lemma_require(m.at(s4), Op::Lte);
    lemma_carries_parts(img, m, m.at(s4), t);
    lemma_line(img, m, s1, s4);
    lemma_line(img, m.at(s1), s2, s4);
    lemma_line(img, m.at(s2), s3, s4);
    lemma_local(g, img, m, slots.cursor, c, stack, locals);
    let x1 = stack.push(Value::Int(at));
    lemma_operand(g, img, m.at(s1), width, c, x1, locals, n);
    let x2 = x1.push(Value::Int(n));
    assert(at_end(s2, x2, locals).without(2) =~= stack);
    let x3 = stack.push(Value::Int(at + n));
    lemma_op(g, img, m.at(s2), instr(Op::Add, 0, 0, 0), c, x2, locals, x3);
    lemma_local(g, img, m.at(s3), slots.total, c, x3, locals);
    let x4 = x3.push(Value::Int(bits.len() as int));
    assert(at_end(s4, x4, locals).without(2) =~= stack);
    lemma_require(g, img, m.at(s4), Op::Lte, c, x4, stack, at + n <= bits.len(), locals);
}

/// Moving the cursor on moves it by that many bits and leaves every other slot alone.
pub proof fn law_cursors_move_on(
    g: Given,
    img: Image,
    b: BinMatching,
    by: BinOperand,
    slots: BinSlots,
    stack: Seq<Value>,
    locals: Map<int, Value>,
    at: int,
    n: int,
) -> (l: Map<int, Value>)
    requires
        carries(img, b.m, b.advance(slots.cursor, by).m),
        is_at(b, slots, locals, at),
        stands_for(by, locals, n),
        by != BinOperand::Local(slots.cursor),
        fits_int(at + n),
    ensures
        reaches(
            g,
            img,
            at_end(b.m.s, stack, locals),
            at_end(b.advance(slots.cursor, by).m.s, stack, l),
        ),
        b.advance(slots.cursor, by).m.fails == b.m.fails,
        is_at(b.advance(slots.cursor, by), slots, l, at + n),
        same_but(locals, l, slots.cursor as int),
{
    reveal(BinMatching::advance);
    let c = at_end(b.m.s, stack, locals);
    lemma_reaches_self(g, img, c);
    let m = b.m;
    if b.cursor is Some && by is Const {
        locals
    } else {
        let s0 = b.spilled(slots.cursor).m.s;
        let s1 = s0.emit_arg(Op::PushLocal, slots.cursor);
        let s2 = s1.operand(by);
        let s3 = s2.emit(Op::Add);
        let s4 = s3.emit_arg(Op::StoreLocal, slots.cursor);
        assert(lands(m.s, s0) && lands(s0, s1) && lands(s0, s4) && lands(s1, s2) && lands(s1, s4)
            && lands(s2, s3) && lands(s2, s4) && lands(s3, s4) && lands(m.s, s4)) by {
            broadcast use group_landing;

            lemma_operand_lands(s1, by);
            assert(from_here(m.s) && from_here(s3) && from_here(s2) && from_here(s1) && from_here(
                s0,
            ));
            assert(lands(s3, s4));
            assert(lands(s2, s4));
            assert(lands(s1, s4));
            assert(lands(s0, s4));
        }
        lemma_line(img, m, s0, s4);
        lemma_line(img, m.at(s0), s1, s4);
        lemma_line(img, m.at(s1), s2, s4);
        lemma_line(img, m.at(s2), s3, s4);
        let l0 = match b.cursor {
            Some(k) => locals.insert(slots.cursor as int, Value::Int(at)),
            None => locals,
        };
        assert(reaches(g, img, c, at_end(s0, stack, l0))) by {
            if let Some(k) = b.cursor {
                let r = m.s.push_int(k);
                assert(lands(m.s, r) && lands(r, s0)) by {
                    broadcast use group_landing;

                    assert(from_here(m.s) && from_here(r));
                }
                lemma_line(img, m, r, s0);
                lemma_const(g, img, m, ConstView::Int(k), c, stack, locals);
                lemma_store(g, img, m.at(r), slots.cursor, c, stack, Value::Int(at), locals);
            }
        }
        assert(stands_for(by, l0, n));
        lemma_local(g, img, m.at(s0), slots.cursor, c, stack, l0);
        let x1 = stack.push(Value::Int(at));
        lemma_operand(g, img, m.at(s1), by, c, x1, l0, n);
        let x2 = x1.push(Value::Int(n));
        assert(at_end(s2, x2, l0).without(2) =~= stack);
        let v = Value::Int(at + n);
        lemma_op(g, img, m.at(s2), instr(Op::Add, 0, 0, 0), c, x2, l0, stack.push(v));
        lemma_store(g, img, m.at(s3), slots.cursor, c, stack, v, l0);
        l0.insert(slots.cursor as int, v)
    }
}

proof fn lemma_bit_of_sum(a: u8, b: u8, c: u8, d: u8, e: u8, f: u8, g: u8, h: u8, x: u8)
    by (bit_vector)
    requires
        a <= 1 && b <= 1 && c <= 1 && d <= 1 && e <= 1 && f <= 1 && g <= 1 && h <= 1,
        x == 128 * a + 64 * b + 32 * c + 16 * d + 8 * e + 4 * f + 2 * g + h,
    ensures
        (x >> 7u8) & 1 == a && (x >> 6u8) & 1 == b && (x >> 5u8) & 1 == c && (x >> 4u8) & 1 == d,
        (x >> 3u8) & 1 == e && (x >> 2u8) & 1 == f && (x >> 1u8) & 1 == g && (x >> 0u8) & 1 == h,
{
}

/// Packing bits loses none.
pub proof fn law_packed_bits_are_kept(bits: Seq<bool>)
    ensures
        bits_of(packed(bits), bits.len()) == bits,
{
    let bytes = packed(bits);
    assert forall|j: int| 0 <= j < bits.len() implies byte_bit(bytes[j / 8], j % 8) == bits[j] by {
        let i = j / 8;
        let x = packed_byte(bits, i);
        assert(bytes[i] == x);
        lemma_bit_of_sum(
            bit_or_zero(bits, 8 * i) as u8,
            bit_or_zero(bits, 8 * i + 1) as u8,
            bit_or_zero(bits, 8 * i + 2) as u8,
            bit_or_zero(bits, 8 * i + 3) as u8,
            bit_or_zero(bits, 8 * i + 4) as u8,
            bit_or_zero(bits, 8 * i + 5) as u8,
            bit_or_zero(bits, 8 * i + 6) as u8,
            bit_or_zero(bits, 8 * i + 7) as u8,
            x,
        );
        assert(j == 8 * i + j % 8);
    }
    assert(bits_of(bytes, bits.len()) =~= bits);
}

/// Literal segments match where the bits at the cursor are theirs; the cursor is behind them
/// afterwards. Where the bits are others, the match fails.
pub proof fn law_literal_bits_match(
    g: Given,
    img: Image,
    b: BinMatching,
    want: Seq<bool>,
    slots: BinSlots,
    stack: Seq<Value>,
    locals: Map<int, Value>,
    bits: Seq<bool>,
    at: int,
) -> (l: Map<int, Value>)
    requires
        carries(img, b.m, b.match_prefix(want, slots).m),
        holds_binary(slots, locals, bits),
        is_at(b, slots, locals, at),
        0 <= at,
        at + want.len() <= bits.len(),
        fits_int(at + want.len()),
    ensures
        decides(
            g,
            img,
            b.m,
            b.match_prefix(want, slots).m,
            at_end(b.m.s, stack, locals),
            stack,
            l,
            bits.subrange(at, at + want.len()) == want,
        ),
        bits.subrange(at, at + want.len()) == want ==> is_at(
            b.match_prefix(want, slots),
            slots,
            l,
            at + want.len(),
        ),
        same_but(locals, l, slots.cursor as int),
{
    reveal(BinMatching::match_prefix);
    reveal(State::pool);
    reveal(State::pool_index);
    reveal(State::push);
    let c = at_end(b.m.s, stack, locals);
    lemma_reaches_self(g, img, c);
    let m = b.m;
    let k = ConstView::Binary { bytes: packed(want), bit_len: want.len() as u64 };
    let o = cursor_operand(b.cursor, slots);
    let s0 = m.s.pool(k);
    let s1 = s0.emit_arg(Op::PushLocal, slots.bin);
    let s2 = s1.operand(o);
    let s3 = s2.emit_arg(Op::PushConst, m.s.pool_index());
    let d = b.at(s3).require(Op::BinMatchPrefix);
    let by = BinOperand::Const(want.len() as u64 as i64);
    let n = d.advance(slots.cursor, by);
    let ok = bits.subrange(at, at + want.len()) == want;
    assert(lands(m.s, s0) && lands(s0, s1) && lands(s0, s3) && lands(s1, s2) && lands(s1, s3)
        && lands(s2, s3) && lands(m.s, s3)) by {
        broadcast use group_landing;

        lemma_operand_lands(s1, o);
        assert(from_here(m.s) && from_here(s2) && from_here(s1) && from_here(s0));
        assert(lands(s2, s3));
        assert(lands(s1, s3));
        assert(lands(s0, s3));
    }
    lemma_straight(m, s3);
    crate::landing::lemma_require(m.at(s3), Op::BinMatchPrefix);
    crate::landing::pieces::lemma_advance(d, slots.cursor, by);
    assert(misses(m, d.m)) by {
        broadcast use group_landing;

        assert(from_here(m.s));
    }
    lemma_carries_parts(img, m, d.m, n.m);
    lemma_carries_parts(img, m, m.at(s3), d.m);
    lemma_line(img, m, s0, s3);
    lemma_line(img, m.at(s0), s1, s3);
    lemma_line(img, m.at(s1), s2, s3);
    lemma_local(g, img, m.at(s0), slots.bin, c, stack, locals);
    let x1 = stack.push(Value::Bits(bits));
    lemma_operand(g, img, m.at(s1), o, c, x1, locals, at);
    let x2 = x1.push(Value::Int(at));
    let x3 = x2.push(Value::Bits(want));
    law_packed_bits_are_kept(want);
    let j = m.s.out.consts.len() as int;
    assert(s3.out.consts[j] == k);
    assert(img.consts[j] == k);
    assert(g.constant(k) == Value::Bits(want));
    lemma_op(
        g,
        img,
        m.at(s2),
        instr(Op::PushConst, 0, 0, m.s.pool_index()),
        c,
        x2,
        locals,
        x3,
    );
    assert(at_end(s3, x3, locals).without(3) =~= stack);
    lemma_require(g, img, m.at(s3), Op::BinMatchPrefix, c, x3, stack, ok, locals);
    if ok {
        let l = law_cursors_move_on(
            g,
            img,
            d,
            by,
            slots,
            stack,
            locals,
            at,
            want.len() as int,
        );
        lemma_reaches_on(g, img, c, at_end(d.m.s, stack, locals), at_end(n.m.s, stack, l));
        l
    } else {
        lemma_fails_on(g, img, m, d.m, n.m, c, c, stack, locals);
        locals
    }
}

/// A run of segments of known width is checked once: the code goes on where the binary has all
/// their bits, and fails where it has not. What has been checked is there.
pub proof fn law_runs_of_segments_are_there(
    g: Given,
    img: Image,
    b: BinMatching,
    segs: Seq<BinSegmentPat>,
    i: nat,
    slots: BinSlots,
    stack: Seq<Value>,
    locals: Map<int, Value>,
    bits: Seq<bool>,
)
    requires
        i < segs.len(),
        static_width(b.m.s.world.names@, segs[i as int]) is Some,
        b.cursor is Some,
        b.checked <= bits.len(),
        carries(img, b.m, b.check_run(segs, i, slots).m),
        holds_binary(slots, locals, bits),
    ensures
        decides(
            g,
            img,
            b.m,
            b.check_run(segs, i, slots).m,
            at_end(b.m.s, stack, locals),
            stack,
            locals,
            known_run(b.m.s.world.names@, segs, i, b.cursor->0) <= bits.len(),
        ),
        b.check_run(segs, i, slots).cursor == b.cursor,
        known_run(b.m.s.world.names@, segs, i, b.cursor->0) <= bits.len() ==> b.check_run(
            segs,
            i,
            slots,
        ).checked <= bits.len() && known_run(b.m.s.world.names@, segs, i, b.cursor->0)
            <= b.check_run(segs, i, slots).checked,
{
    reveal(BinMatching::check_run);
    let c = at_end(b.m.s, stack, locals);
    lemma_reaches_self(g, img, c);
    let m = b.m;
    let end = known_run(m.s.world.names@, segs, i, b.cursor->0);
    if end > b.checked {
        let s1 = m.s.push_int(end);
        let s2 = s1.emit_arg(Op::PushLocal, slots.total);
        let n = m.at(s2).require(Op::Lte);
        assert(n == b.check_run(segs, i, slots).m);
        assert(lands(m.s, s1) && lands(s1, s2) && lands(m.s, s2)) by {
            broadcast use group_landing;

            assert(from_here(m.s) && from_here(s1));
            assert(lands(s1, s2));
        }
        lemma_straight(m, s2);
        crate::landing::lemma_require(m.at(s2), Op::Lte);
        lemma_carries_parts(img, m, m.at(s2), n);
        lemma_line(img, m, s1, s2);
        lemma_const(g, img, m, ConstView::Int(end), c, stack, locals);
        let x1 = stack.push(Value::Int(end as int));
        lemma_local(g, img, m.at(s1), slots.total, c, x1, locals);
        let x2 = x1.push(Value::Int(bits.len() as int));
        assert(at_end(s2, x2, locals).without(2) =~= stack);
        lemma_require(g, img, m.at(s2), Op::Lte, c, x2, stack, end <= bits.len(), locals);
        if end > bits.len() {
            lemma_fails_on(g, img, m, m.at(s2), n, c, c, stack, locals);
        }
    }
}

/// Where a binary pattern has no rest, its code ends at the cursor just where no bit is left,
/// unless the length was compared at once.
pub proof fn law_nothing_is_left(
    g: Given,
    img: Image,
    b: BinMatching,
    segs: Seq<BinSegmentPat>,
    slots: BinSlots,
    stack: Seq<Value>,
    locals: Map<int, Value>,
    bits: Seq<bool>,
    at: int,
)
    requires
        !(all_known(b.m.s.world.names@, segs, 0) && b.cursor is Some),
        carries(img, b.m, b.finish_rest(segs, None, slots)),
        holds_binary(slots, locals, bits),
        is_at(b, slots, locals, at),
    ensures
        decides(
            g,
            img,
            b.m,
            b.finish_rest(segs, None, slots),
            at_end(b.m.s, stack, locals),
            stack,
            locals,
            at == bits.len(),
        ),
{
    reveal(BinMatching::finish_rest);
    let c = at_end(b.m.s, stack, locals);
    lemma_reaches_self(g, img, c);
    let m = b.m;
    let o = cursor_operand(b.cursor, slots);
    let s1 = m.s.operand(o);
    let s2 = s1.emit_arg(Op::PushLocal, slots.total);
    let n = m.at(s2).require(Op::Eq);
    assert(n == b.finish_rest(segs, None, slots));
    lemma_operand_lands(m.s, o);
    assert(lands(s1, s2) && lands(m.s, s2)) by {
        broadcast use group_landing;

        assert(from_here(m.s) && from_here(s1));
        assert(lands(s1, s2));
    }
    lemma_straight(m, s2);
    crate::landing::lemma_require(m.at(s2), Op::Eq);
    lemma_carries_parts(img, m, m.at(s2), n);
    lemma_line(img, m, s1, s2);
    lemma_operand(g, img, m, o, c, stack, locals, at);
    let x1 = stack.push(Value::Int(at));
    lemma_local(g, img, m.at(s1), slots.total, c, x1, locals);
    let x2 = x1.push(Value::Int(bits.len() as int));
    assert(at_end(s2, x2, locals).without(2) =~= stack);
    lemma_require(g, img, m.at(s2), Op::Eq, c, x2, stack, at == bits.len(), locals);
    if at != bits.len() {
        lemma_fails_on(g, img, m, m.at(s2), n, c, c, stack, locals);
    }
}

/// The rest of a binary pattern stands for all the bits from the cursor on.
pub proof fn law_the_rest_is_what_is_left(
    g: Given,
    img: Image,
    b: BinMatching,
    segs: Seq<BinSegmentPat>,
    rest: BinaryRest,
    slots: BinSlots,
    stack: Seq<Value>,
    locals: Map<int, Value>,
    bits: Seq<bool>,
    at: int,
) -> (l: Map<int, Value>)
    requires
        rest.binding is Some,
        carries(img, b.m, b.finish_rest(segs, Some(rest), slots)),
        ready(b.m, b.finish_rest(segs, Some(rest), slots), set![rest.binding->0.name]),
        holds_binary(slots, locals, bits),
        is_at(b, slots, locals, at),
        0 <= at <= bits.len(),
        fits_int(bits.len() as int),
    ensures
        reaches(
            g,
            img,
            at_end(b.m.s, stack, locals),
            at_end(b.finish_rest(segs, Some(rest), slots).s, stack, l),
        ),
        b.finish_rest(segs, Some(rest), slots).fails == b.m.fails,
        l.dom().contains(
            b.finish_rest(segs, Some(rest), slots).s.loc.map[rest.binding->0.name].slot as int,
        ),
        l[b.finish_rest(segs, Some(rest), slots).s.loc.map[rest.binding->0.name].slot as int]
            == Value::Bits(bits.skip(at)),
{
    reveal(BinMatching::finish_rest);
    let c = at_end(b.m.s, stack, locals);
    lemma_reaches_self(g, img, c);
    let m = b.m;
    let name = rest.binding->0.name;
    let names = set![name];
    let o = cursor_operand(b.cursor, slots);
    let s1 = m.s.emit_arg(Op::PushLocal, slots.bin);
    let s2 = s1.operand(o);
    let s3 = s2.emit_arg(Op::PushLocal, slots.total);
    let s4 = s3.operand(o);
    let s5 = s4.emit(Op::Sub);
    let s6 = s5.emit(Op::BinView);
    let s7 = s6.store_name(name);
    let n = m.at(s7);
    assert(n == b.finish_rest(segs, Some(rest), slots));
    lemma_operand_lands(s1, o);
    lemma_operand_lands(s3, o);
    crate::landing::patterns::lemma_store_name(s6, name);
    assert(lands(m.s, s1) && lands(s2, s3) && lands(s4, s5) && lands(s5, s6)) by {
        broadcast use group_landing;

        assert(from_here(m.s) && from_here(s2) && from_here(s4) && from_here(s5));
    }
    assert(lands(s4, s6) && lands(s3, s6) && lands(s2, s6) && lands(s1, s6) && lands(m.s, s6)) by {
        broadcast use group_landing;

        assert(from_here(s4));
        assert(lands(s4, s6));
        assert(from_here(s3));
        assert(lands(s3, s6));
        assert(from_here(s2));
        assert(lands(s2, s6));
        assert(from_here(s1));
        assert(lands(s1, s6));
        assert(from_here(m.s));
    }
    lemma_line(img, m, s6, s7);
    lemma_line(img, m, s1, s6);
    lemma_line(img, m.at(s1), s2, s6);
    lemma_line(img, m.at(s2), s3, s6);
    lemma_line(img, m.at(s3), s4, s6);
    lemma_line(img, m.at(s4), s5, s6);
    lemma_local(g, img, m, slots.bin, c, stack, locals);
    let x1 = stack.push(Value::Bits(bits));
    lemma_operand(g, img, m.at(s1), o, c, x1, locals, at);
    let x2 = x1.push(Value::Int(at));
    lemma_local(g, img, m.at(s2), slots.total, c, x2, locals);
    let x3 = x2.push(Value::Int(bits.len() as int));
    lemma_operand(g, img, m.at(s3), o, c, x3, locals, at);
    let x4 = x3.push(Value::Int(at));
    assert(at_end(s4, x4, locals).without(2) =~= x2);
    let x5 = x2.push(Value::Int(bits.len() - at));
    lemma_op(g, img, m.at(s4), instr(Op::Sub, 0, 0, 0), c, x4, locals, x5);
    assert(at_end(s5, x5, locals).without(3) =~= stack);
    assert(bits.subrange(at, at + (bits.len() - at)) =~= bits.skip(at));
    let v = Value::Bits(bits.skip(at));
    lemma_op(g, img, m.at(s5), instr(Op::BinView, 0, 0, 0), c, x5, locals, stack.push(v));
    lemma_flat(b, slots, s6);
    lemma_store_name(s6, name);
    lemma_ready(m, m.at(s6), n, Set::empty(), names, names);
    let l = lemma_named(g, img, m.at(s6), name, c, stack, v, locals);
    reveal(binds);
    assert(names.contains(name));
    l
}

/// Pushing a binary and two numbers changes nothing but the code.
proof fn lemma_flat(b: BinMatching, slots: BinSlots, t: State)
    requires
        t == b.m.s.emit_arg(Op::PushLocal, slots.bin).operand(
            cursor_operand(b.cursor, slots),
        ).emit_arg(Op::PushLocal, slots.total).operand(cursor_operand(b.cursor, slots)).emit(
            Op::Sub,
        ).emit(Op::BinView),
    ensures
        after(b.m.s, t, Set::empty()),
{
    reveal(State::push);
    reveal(State::pool);
    lemma_after_same(b.m.s, t);
}

/// A segment of known width at a known place matches where its pattern fits what stands there:
/// the number that the bits stand for, or the bits themselves. Where it does not, the match
/// fails. The cursor is behind the segment afterwards.
pub proof fn law_segments_match_their_pattern(
    g: Given,
    img: Image,
    b: BinMatching,
    seg: BinSegmentPat,
    slots: BinSlots,
    stack: Seq<Value>,
    locals: Map<int, Value>,
    bits: Seq<bool>,
    at: int,
    n: int,
) -> (l: Map<int, Value>)
    requires
        seg.kind != BinKind::Utf8,
        b.cursor matches Some(k) && k == at,
        static_width(b.m.s.world.names@, seg) matches Some(w) && w == n,
        0 <= at,
        0 <= n,
        at + n <= bits.len(),
        fits_int(at + n),
        holds_binary(slots, locals, bits),
        in_order(ctx_of(b.m.s), seg.value),
        suits(ctx_of(b.m.s), seg.value, taken(seg.kind, bits.subrange(at, at + n))),
        carries(img, b.m, segment(seg, slots, b).m),
        ready(b.m, segment(seg, slots, b).m, names_in(ctx_of(b.m.s), seg.value)),
    ensures
        decides(
            g,
            img,
            b.m,
            segment(seg, slots, b).m,
            at_end(b.m.s, stack, locals),
            stack,
            l,
            fits(g, ctx_of(b.m.s), seg.value, taken(seg.kind, bits.subrange(at, at + n))),
        ),
        segment(seg, slots, b).cursor matches Some(k) && k == at + n,
{
    let x = ctx_of(b.m.s);
    let names = names_in(x, seg.value);
    let w = BinOperand::Const(n as i64);
    let r = b.read_segment(seg.kind, w, slots);
    let q = pattern(seg.value, r.m);
    let e = segment(seg, slots, b);
    assert(e.m == q && e.cursor == Some((at + n) as i64)) by {
        reveal(segment_body);
        assert(e == segment_body(seg, slots, b));
        reveal(BinMatching::advance);
        reveal(BinMatching::read_segment);
    }
    assert(after(b.m.s, r.m.s, Set::empty())) by {
        reveal(BinMatching::read_segment);
        reveal(State::push);
        reveal(State::pool);
        lemma_after_same(b.m.s, r.m.s);
    }
    crate::landing::pieces::lemma_read_segment(b, seg.kind, w, slots);
    crate::landing::patterns::lemma_pattern(seg.value, r.m);
    crate::fitting::frames::lemma_pattern(seg.value, r.m);
    lemma_carries_parts(img, b.m, r.m, q);
    lemma_ready(b.m, r.m, q, Set::empty(), names, names);
    law_segments_are_read(
        g,
        img,
        b,
        seg.kind,
        w,
        slots,
        stack,
        locals,
        bits,
        at,
        n,
    );
    let v = taken(seg.kind, bits.subrange(at, at + n));
    let c = at_end(b.m.s, stack, locals);
    let d = at_end(r.m.s, stack.push(v), locals);
    let l = lemma_pattern(g, img, seg.value, r.m, v, stack, locals);
    if fits(g, x, seg.value, v) {
        lemma_reaches_on(g, img, c, d, at_end(q.s, stack, l));
    } else {
        lemma_fails_on(g, img, b.m, r.m, q, c, d, stack, l);
    }
    l
}

/// The value of a segment with some bits.
pub open spec fn taken(kind: BinKind, bits: Seq<bool>) -> Value {
    match kind {
        BinKind::Binary => Value::Bits(bits),
        _ => Value::Int(number_of_bits(bits)),
    }
}

} // verus!

//! A pattern adds names to the innermost block at most.
use crate::ast::{ArrayPattern, Pattern, PatternArg, StrId};
use crate::balance::segments::lemma_segments;
use crate::gen::{
    alternatives_from, array_from, array_pattern, array_pattern_body, binders, fields_from,
    or_pattern, or_pattern_body, pattern, pattern_body, pattern_keys, segments_from, spread_place,
    start_binary, tuple_from, tuple_pattern, Matching, OrMatching,
};
use crate::op::{ConstView, Op};
use crate::pieces::group_pieces;
use crate::scopes::{extends, from_here, group_steps, leaves, lemma_pins};
use crate::slots::slotted;
use crate::state::State;
use vstd::prelude::*;

verus! {

broadcast use {group_steps, group_pieces};

pub proof fn lemma_store_name(s: State, name: StrId)
    ensures
        extends(s, s.store_name(name)),
{
    assert(from_here(s));
    let t = s.reserve(name);
    assert(from_here(t));
    assert(leaves(t, s.store_name(name)));
}

pub proof fn lemma_pattern(p: Pattern, m: Matching)
    ensures
        extends(m.s, pattern(p, m).s),
    decreases p, 1nat,
{
    assert(from_here(m.s));
    reveal(pattern_body);
    assert(pattern(p, m) == pattern_body(p, m));
    let s = m.s;
    assert(from_here(s));
    assert(leaves(s, s));
    match p {
        Pattern::Binary { segments, rest, .. } => {
            let (b, slots) = start_binary(segments@, rest, m);
            lemma_segments(segments@, 0, slots, b);
            let d = segments_from(segments@, 0, slots, b);
            assert(from_here(b.m.s));
            assert(extends(b.m.s, d.m.s));
            assert(from_here(d.m.s));
            assert(extends(d.m.s, d.finish_rest(segments@, rest, slots).s));
        },
        Pattern::Wildcard { .. } => {
            assert(from_here(s));
            assert(leaves(s, s.emit(Op::Pop)));
        },
        Pattern::Var { id, .. } => {
            lemma_store_name(s, id.name);
            assert(from_here(s));
            assert(leaves(s, s.emit(Op::Pop)));
        },
        Pattern::Number { literal: n, .. } => {
            let t = m.at(s.push_number(n)).require(Op::Eq);
            assert(from_here(s));
            assert(leaves(s, t.s));
        },
        Pattern::Str { value, .. } => {
            let t = m.at(s.push_const(ConstView::Str(value))).require(Op::Eq);
            assert(from_here(s));
            assert(leaves(s, t.s));
        },
        Pattern::Range { start, end, .. } => {
            let m1 = m.at(
                s.spill().emit_arg(Op::PushLocal, s.next_slot()).range_bound(*start),
            ).require(Op::Gte);
            assert(from_here(s));
            assert(leaves(s, m1.s));
            let m2 = m1.at(
                m1.s.emit_arg(Op::PushLocal, s.next_slot()).range_bound(*end),
            ).require(Op::Lt);
            assert(from_here(m1.s));
            assert(leaves(m1.s, m2.s));
        },
        Pattern::Tuple { elements, .. } => {
            lemma_tuple(elements@, 0, s.next_slot(), m.at(s.spill()));
            assert(tuple_pattern(elements@, m) == tuple_from(
                elements@,
                0,
                s.next_slot(),
                m.at(s.spill()),
            ));
            assert(from_here(s));
            assert(leaves(s, s.spill()));
        },
        Pattern::Array { elements, .. } => lemma_array_pattern(elements@, m),
        Pattern::Constructor { name, args, .. } => {
            if let Some(v) = s.ctor(name.name) {
                let temp = s.next_slot();
                assert(from_here(s));
                assert(leaves(s, m.at(s.bool_value(name.name)).require(Op::Eq).s));
                let m1 = m.at(
                    s.spill().emit_arg(Op::PushLocal, temp).match_header(v.type_id, name.name),
                ).require(Op::MatchEnum);
                assert(from_here(s));
                assert(leaves(s, m1.s));
                let t = slotted(m1.s, v.shape, false, pattern_keys(args@), None);
                assert(from_here(m1.s));
                assert(leaves(m1.s, t.s));
                let s2 = t.s.emit_arg(Op::PushLocal, temp).emit(Op::UnwrapEnum);
                let s3 = s2.take_slots(v.shape.arity as i32).store_fields(
                    s2.next_slot(),
                    v.shape.arity as nat,
                );
                assert(from_here(s));
                assert(leaves(s, s3));
                lemma_fields(args@, t.by_pos, 0, s2.next_slot(), m1.at(s3));
            } else {
                assert(from_here(s));
                assert(leaves(s, s.emit(Op::Pop)));
            }
        },
        Pattern::Or { patterns, .. } => lemma_or_pattern(patterns@, m),
    }
}

pub proof fn lemma_tuple(es: Seq<Pattern>, i: nat, temp: i32, m: Matching)
    ensures
        extends(m.s, tuple_from(es, i, temp, m).s),
    decreases es, es.len() - i,
{
    assert(from_here(m.s));
    assert(leaves(m.s, m.s));
    if i < es.len() {
        let n = m.at(m.s.emit_arg(Op::PushLocal, temp).emit_arg(Op::TupleIndex, i as i32));
        assert(leaves(m.s, n.s));
        lemma_pattern(es[i as int], n);
        lemma_tuple(es, i + 1, temp, pattern(es[i as int], n));
    }
}

pub proof fn lemma_array_pattern(es: Seq<ArrayPattern>, m: Matching)
    ensures
        extends(m.s, array_pattern(es, m).s),
    decreases es, es.len() + 1,
{
    assert(from_here(m.s));
    reveal(array_pattern_body);
    assert(array_pattern(es, m) == array_pattern_body(es, m));
    let s = m.s;
    let place = spread_place(es, es.len());
    let count = match place {
        Some(i) => i,
        None => es.len(),
    };
    let m1 = m.at(
        s.spill().emit_arg(Op::PushLocal, s.next_slot()).emit(Op::ArrayLen).push_int(count as i64),
    ).require(
        if place is Some {
            Op::Gte
        } else {
            Op::Eq
        },
    );
    assert(from_here(s));
    assert(leaves(s, m1.s));
    lemma_array_from(es, 0, count, s.next_slot(), m1);
    let m2 = array_from(es, 0, count, s.next_slot(), m1);
    if let Some(i) = place {
        if let ArrayPattern::Spread { binding: Some(id), .. } = es[i as int] {
            let t = m2.s.emit_arg(Op::PushLocal, s.next_slot()).push_int(count as i64).emit(
                Op::Drop,
            );
            assert(from_here(m2.s));
            assert(leaves(m2.s, t));
            lemma_store_name(t, id.name);
        }
    }
}

pub proof fn lemma_array_from(es: Seq<ArrayPattern>, i: nat, count: nat, temp: i32, m: Matching)
    ensures
        extends(m.s, array_from(es, i, count, temp, m).s),
    decreases es, es.len() - i,
{
    assert(from_here(m.s));
    assert(leaves(m.s, m.s));
    if i < count && i < es.len() {
        match es[i as int] {
            ArrayPattern::Item(p) => {
                let n = m.at(m.s.emit_arg(Op::PushLocal, temp).emit_arg(Op::ElemAt, i as i32));
                assert(leaves(m.s, n.s));
                lemma_pattern(p, n);
                lemma_array_from(es, i + 1, count, temp, pattern(p, n));
            },
            ArrayPattern::Spread { .. } => lemma_array_from(es, i + 1, count, temp, m),
        }
    }
}

pub proof fn lemma_fields(
    args: Seq<PatternArg>,
    by_pos: Seq<Option<usize>>,
    i: nat,
    base: i32,
    m: Matching,
)
    ensures
        extends(m.s, fields_from(args, by_pos, i, base, m).s),
    decreases args, by_pos.len() - i,
{
    assert(from_here(m.s));
    assert(leaves(m.s, m.s));
    if i < by_pos.len() {
        match by_pos[i as int] {
            Some(k) => if k < args.len() {
                let n = m.at(m.s.emit_arg(Op::PushLocal, i32::wrapping_add(base, i as i32)));
                assert(leaves(m.s, n.s));
                match args[k as int] {
                    PatternArg::Positional(p) => {
                        lemma_pattern(p, n);
                        lemma_fields(args, by_pos, i + 1, base, pattern(p, n));
                    },
                    PatternArg::Labeled { pattern: p, .. } => {
                        lemma_pattern(p, n);
                        lemma_fields(args, by_pos, i + 1, base, pattern(p, n));
                    },
                }
            },
            None => lemma_fields(args, by_pos, i + 1, base, m),
        }
    }
}

pub proof fn lemma_or_pattern(ps: Seq<Pattern>, m: Matching)
    ensures
        extends(m.s, or_pattern(ps, m).s),
    decreases ps, ps.len() + 1,
{
    assert(from_here(m.s));
    reveal(or_pattern_body);
    assert(or_pattern(ps, m) == or_pattern_body(ps, m));
    let s = m.s;
    let temp = s.next_slot();
    let start = OrMatching { m: m.at(s.spill()), matched: Seq::empty() };
    let o = alternatives_from(ps, 0, temp, start);
    assert(from_here(s));
    assert(leaves(s, start.m.s));
    if ps.len() > 1 {
        let first = Matching {
            s: start.m.s.emit_arg(Op::PushLocal, temp),
            fails: Seq::empty(),
        };
        let alt = pattern(ps[0], first);
        lemma_pattern(ps[0], first);
        assert(from_here(start.m.s));
        assert(leaves(start.m.s, first.s));
        assert(from_here(s));
        assert(extends(s, alt.s));
        let ids = binders(alt.s.world.names@, ps[0], Seq::empty());
        let pinned = alt.s.push_pins(ids);
        let t = pinned.emit_arg(Op::Jump, 0).patch_all(alt.fails, alt.fails.len());
        assert(from_here(pinned));
        assert(leaves(pinned, t));
        let next = OrMatching {
            m: Matching { s: t, fails: start.m.fails },
            matched: start.matched.push(pinned.pos()),
        };
        lemma_alternatives(ps, 1, temp, next);
        assert(o == alternatives_from(ps, 1, temp, next));
        assert(from_here(pinned));
        assert(extends(pinned, o.m.s));
        lemma_pins(alt.s, ids, o.m.s);
        let u = o.m.s.pop_pins();
        assert(from_here(s));
        assert(extends(s, u));
        assert(from_here(u));
        assert(leaves(u, u.patch_all(o.matched, o.matched.len())));
    } else {
        lemma_alternatives(ps, 0, temp, start);
        assert(from_here(o.m.s));
        assert(leaves(o.m.s, o.m.s.patch_all(o.matched, o.matched.len())));
    }
}

pub proof fn lemma_alternatives(ps: Seq<Pattern>, i: nat, temp: i32, o: OrMatching)
    requires
        i > 0 || ps.len() <= 1,
    ensures
        extends(o.m.s, alternatives_from(ps, i, temp, o).m.s),
    decreases ps, ps.len() - i,
{
    assert(from_here(o.m.s));
    assert(leaves(o.m.s, o.m.s));
    if i < ps.len() {
        let n = Matching { s: o.m.s.emit_arg(Op::PushLocal, temp), fails: Seq::empty() };
        let alt = pattern(ps[i as int], n);
        assert(leaves(o.m.s, n.s));
        lemma_pattern(ps[i as int], n);
        let next = if i < ps.len() - 1 {
            OrMatching {
                m: Matching {
                    s: alt.s.emit_arg(Op::Jump, 0).patch_all(alt.fails, alt.fails.len()),
                    fails: o.m.fails,
                },
                matched: o.matched.push(alt.s.pos()),
            }
        } else {
            OrMatching {
                m: Matching { s: alt.s, fails: o.m.fails + alt.fails },
                matched: o.matched,
            }
        };
        assert(from_here(alt.s));
        assert(leaves(alt.s, alt.s));
        assert(from_here(alt.s));
        assert(leaves(alt.s, next.m.s));
        lemma_alternatives(ps, i + 1, temp, next);
    }
}

} // verus!

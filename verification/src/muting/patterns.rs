//! What muting leaves of patterns.
use crate::ast::{ArrayPattern, Ident, Pattern, PatternArg, StrId};
use crate::muting::segments::lemma_segments;
use crate::gen::{
    alternatives_from, any_slotted, array_from, array_pattern, array_pattern_body, binders,
    fields_from,
    or_pattern, or_pattern_body, pattern, pattern_body, pattern_keys, segments_from, spread_place,
    start_binary, tuple_from, tuple_pattern, Matching, OrMatching,
};
use crate::op::{ConstView, Op};
use crate::muting::{
    group_muting, lemma_fresh, lemma_jumps_of, lemma_jumps_of_both, lemma_one_more,
    lemma_require,
};
use crate::muting::pieces::group_muting_pieces;
use crate::slots::slotted;
use crate::state::{Sighting, State};
use vstd::prelude::*;

verus! {

broadcast use {group_muting, group_muting_pieces};

pub proof fn lemma_store_name(pre: Seq<Sighting>, s: State, name: StrId)
    ensures
        s.store_name(name).muted(pre) == s.muted(pre).store_name(name),
{
}

pub proof fn lemma_pattern(pre: Seq<Sighting>, p: Pattern, m: Matching)
    ensures
        pattern(p, m).muted(pre) == pattern(p, m.muted(pre)),
    decreases p, 1nat,
{
    match p {
        Pattern::Binary { .. } => lemma_binary(pre, p, m),
        Pattern::Range { .. } => lemma_range(pre, p, m),
        Pattern::Constructor { .. } => lemma_ctor_pattern(pre, p, m),
        _ => lemma_other(pre, p, m),
    }
}

proof fn lemma_other(pre: Seq<Sighting>, p: Pattern, m: Matching)
    requires
        !(p is Binary || p is Range || p is Constructor),
    ensures
        pattern(p, m).muted(pre) == pattern(p, m.muted(pre)),
    decreases p, 0nat,
{
    reveal(pattern_body);
    assert(pattern(p, m) == pattern_body(p, m));
    assert(pattern(p, m.muted(pre)) == pattern_body(p, m.muted(pre)));
    let s = m.s;
    match p {
        Pattern::Var { id, .. } => {
            lemma_store_name(pre, s, id.name);
        },
        Pattern::Number { literal: n, .. } => {
            let t = m.at(s.push_number(n));
            assert(t.muted(pre) == m.muted(pre).at(m.muted(pre).s.push_number(n)));
            lemma_require(pre, t, Op::Eq);
        },
        Pattern::Str { value, .. } => {
            let t = m.at(s.push_const(ConstView::Str(value)));
            assert(t.muted(pre) == m.muted(pre).at(m.muted(pre).s.push_const(ConstView::Str(value))));
            lemma_require(pre, t, Op::Eq);
        },
        Pattern::Tuple { elements, .. } => {
            lemma_tuple(pre, elements@, 0, s.next_slot(), m.at(s.spill()));
            assert(tuple_pattern(elements@, m) == tuple_from(
                elements@,
                0,
                s.next_slot(),
                m.at(s.spill()),
            ));
        },
        Pattern::Array { elements, .. } => lemma_array_pattern(pre, elements@, m),
        Pattern::Or { patterns, .. } => lemma_or_pattern(pre, patterns@, m),
        _ => {},
    }
}

proof fn lemma_binary(pre: Seq<Sighting>, p: Pattern, m: Matching)
    requires
        p is Binary,
    ensures
        pattern(p, m).muted(pre) == pattern(p, m.muted(pre)),
    decreases p, 0nat,
{
    if let Pattern::Binary { segments, rest, .. } = p {
        let (b, slots) = start_binary(segments@, rest, m);
        lemma_segments(pre, segments@, 0, slots, b);
        let d = segments_from(segments@, 0, slots, b);
        assert(pattern(p, m) == d.finish_rest(segments@, rest, slots)) by {
            reveal(pattern_body);
            assert(pattern(p, m) == pattern_body(p, m));
        }
        let (b2, slots2) = start_binary(segments@, rest, m.muted(pre));
        assert(b2 == b.muted(pre) && slots2 == slots);
        assert(pattern(p, m.muted(pre)) == d.muted(pre).finish_rest(segments@, rest, slots)) by {
            reveal(pattern_body);
            assert(pattern(p, m.muted(pre)) == pattern_body(p, m.muted(pre)));
        }
    }
}

proof fn lemma_range(pre: Seq<Sighting>, p: Pattern, m: Matching)
    requires
        p is Range,
    ensures
        pattern(p, m).muted(pre) == pattern(p, m.muted(pre)),
    decreases p, 0nat,
{
    if let Pattern::Range { start, end, .. } = p {
        let s = m.s;
        let a = s.spill().emit_arg(Op::PushLocal, s.next_slot()).range_bound(*start);
        let m1 = m.at(a).require(Op::Gte);
        lemma_require(pre, m.at(a), Op::Gte);
        assert(m1.muted(pre) == m.muted(pre).at(a.muted(pre)).require(Op::Gte));
        let b = m1.s.emit_arg(Op::PushLocal, s.next_slot()).range_bound(*end);
        let m2 = m1.at(b).require(Op::Lt);
        lemma_require(pre, m1.at(b), Op::Lt);
        assert(m2.muted(pre) == m1.muted(pre).at(b.muted(pre)).require(Op::Lt));
        assert(pattern(p, m) == m2) by {
            reveal(pattern_body);
            assert(pattern(p, m) == pattern_body(p, m));
        }
        let a2 = m.muted(pre).s.spill().emit_arg(Op::PushLocal, s.next_slot()).range_bound(*start);
        assert(a2 == a.muted(pre));
        let b2 = m1.muted(pre).s.emit_arg(Op::PushLocal, s.next_slot()).range_bound(*end);
        assert(b2 == b.muted(pre));
        assert(pattern(p, m.muted(pre)) == m1.muted(pre).at(b2).require(Op::Lt)) by {
            reveal(pattern_body);
            assert(pattern(p, m.muted(pre)) == pattern_body(p, m.muted(pre)));
        }
    }
}

/// A constructor's pattern.
spec fn ctor_pattern(name: Ident, args: Seq<PatternArg>, m: Matching) -> Matching {
    match m.s.ctor(name.name) {
        None => m.at(m.s.emit(Op::Pop)),
        Some(v) => if m.s.is_bool(v.type_id) {
            m.at(m.s.bool_value(name.name)).require(Op::Eq)
        } else {
            let temp = m.s.next_slot();
            let m1 = m.at(
                m.s.spill().emit_arg(Op::PushLocal, temp).match_header(v.type_id, name.name),
            ).require(Op::MatchEnum);
            if v.shape.arity == 0 {
                m1
            } else {
                let t = slotted(m1.s, v.shape, false, pattern_keys(args), None);
                if !any_slotted(t.by_pos, t.by_pos.len()) {
                    m1.at(t.s)
                } else {
                    fields_of(args, t.by_pos, temp, v.shape.arity, m1.at(t.s))
                }
            }
        },
    }
}

/// The patterns of the fields of a value in `temp`.
spec fn fields_of(
    args: Seq<PatternArg>,
    by_pos: Seq<Option<usize>>,
    temp: i32,
    arity: usize,
    m: Matching,
) -> Matching {
    let s = m.s.emit_arg(Op::PushLocal, temp).emit(Op::UnwrapEnum);
    fields_from(
        args,
        by_pos,
        0,
        s.next_slot(),
        m.at(s.take_slots(arity as i32).store_fields(s.next_slot(), arity as nat)),
    )
}

proof fn lemma_ctor_pattern(pre: Seq<Sighting>, p: Pattern, m: Matching)
    requires
        p is Constructor,
    ensures
        pattern(p, m).muted(pre) == pattern(p, m.muted(pre)),
    decreases p, 0nat,
{
    if let Pattern::Constructor { name, args, .. } = p {
        assert(pattern(p, m) == ctor_pattern(name, args@, m)) by {
            lemma_is_ctor_pattern(pre, p, m);
        }
        assert(pattern(p, m.muted(pre)) == ctor_pattern(name, args@, m.muted(pre))) by {
            lemma_is_ctor_pattern(pre, p, m.muted(pre));
        }
        if let Some(v) = m.s.ctor(name.name) {
            assert(m.muted(pre).s.ctor(name.name) == Some(v));
            let b = m.s.bool_value(name.name);
            lemma_require(pre, m.at(b), Op::Eq);
            assert(m.at(b).require(Op::Eq).muted(pre) == m.muted(pre).at(b.muted(pre)).require(Op::Eq));
            let temp = m.s.next_slot();
            let h = m.s.spill().emit_arg(Op::PushLocal, temp).match_header(v.type_id, name.name);
            let m1 = m.at(h).require(Op::MatchEnum);
            lemma_require(pre, m.at(h), Op::MatchEnum);
            assert(m1.muted(pre) == m.muted(pre).at(h.muted(pre)).require(Op::MatchEnum));
            let t = slotted(m1.s, v.shape, false, pattern_keys(args@), None);
            assert(m1.at(t.s).muted(pre) == m1.muted(pre).at(t.s.muted(pre)));
            lemma_fields_of(pre, args@, t.by_pos, temp, v.shape.arity, m1.at(t.s));
        }
    }
}

proof fn lemma_is_ctor_pattern(pre: Seq<Sighting>, p: Pattern, m: Matching)
    ensures
        p matches Pattern::Constructor { name, args, .. } ==> pattern(p, m) == ctor_pattern(
            name,
            args@,
            m,
        ),
{
    reveal(pattern_body);
    assert(pattern(p, m) == pattern_body(p, m));
    if let Pattern::Constructor { name, args, .. } = p {
        if let Some(v) = m.s.ctor(name.name) {
            let temp = m.s.next_slot();
            let m1 = m.at(
                m.s.spill().emit_arg(Op::PushLocal, temp).match_header(v.type_id, name.name),
            ).require(Op::MatchEnum);
            let t = slotted(m1.s, v.shape, false, pattern_keys(args@), None);
            assert(m1.at(t.s).s == t.s);
            let s2 = t.s.emit_arg(Op::PushLocal, temp).emit(Op::UnwrapEnum);
            let s3 = s2.take_slots(v.shape.arity as i32).store_fields(
                s2.next_slot(),
                v.shape.arity as nat,
            );
            assert(m1.at(t.s).at(s3) == m1.at(s3));
        }
    }
}

proof fn lemma_fields_of(
    pre: Seq<Sighting>,
    args: Seq<PatternArg>,
    by_pos: Seq<Option<usize>>,
    temp: i32,
    arity: usize,
    m: Matching,
)
    ensures
        fields_of(args, by_pos, temp, arity, m).muted(pre) == fields_of(
            args,
            by_pos,
            temp,
            arity,
            m.muted(pre),
        ),
    decreases args, by_pos.len() + 1,
{
    let s = m.s.emit_arg(Op::PushLocal, temp).emit(Op::UnwrapEnum);
    let t = s.take_slots(arity as i32).store_fields(s.next_slot(), arity as nat);
    lemma_fields(pre, args, by_pos, 0, s.next_slot(), m.at(t));
}

pub proof fn lemma_tuple(pre: Seq<Sighting>, es: Seq<Pattern>, i: nat, temp: i32, m: Matching)
    ensures
        tuple_from(es, i, temp, m).muted(pre) == tuple_from(es, i, temp, m.muted(pre)),
    decreases es, es.len() - i,
{
    if i < es.len() {
        let n = m.at(m.s.emit_arg(Op::PushLocal, temp).emit_arg(Op::TupleIndex, i as i32));
        lemma_pattern(pre, es[i as int], n);
        lemma_tuple(pre, es, i + 1, temp, pattern(es[i as int], n));
    }
}

pub proof fn lemma_array_pattern(pre: Seq<Sighting>, es: Seq<ArrayPattern>, m: Matching)
    ensures
        array_pattern(es, m).muted(pre) == array_pattern(es, m.muted(pre)),
    decreases es, es.len() + 1,
{
    reveal(array_pattern_body);
    assert(array_pattern(es, m) == array_pattern_body(es, m));
    assert(array_pattern(es, m.muted(pre)) == array_pattern_body(es, m.muted(pre)));
    let s = m.s;
    let place = spread_place(es, es.len());
    let count = match place {
        Some(i) => i,
        None => es.len(),
    };
    let m1 = m.at(
        s.spill().emit_arg(Op::PushLocal, s.next_slot()).emit(Op::ArrayLen).push_int(count as i64),
    ).require(
        if place is Some {
            Op::Gte
        } else {
            Op::Eq
        },
    );
    lemma_array_from(pre, es, 0, count, s.next_slot(), m1);
    let m2 = array_from(es, 0, count, s.next_slot(), m1);
    if let Some(i) = place {
        if let ArrayPattern::Spread { binding: Some(id), .. } = es[i as int] {
            let t = m2.s.emit_arg(Op::PushLocal, s.next_slot()).push_int(count as i64).emit(
                Op::Drop,
            );
            lemma_store_name(pre, t, id.name);
        }
    }
}

pub proof fn lemma_array_from(
    pre: Seq<Sighting>,
    es: Seq<ArrayPattern>,
    i: nat,
    count: nat,
    temp: i32,
    m: Matching,
)
    ensures
        array_from(es, i, count, temp, m).muted(pre)
            == array_from(es, i, count, temp, m.muted(pre)),
    decreases es, es.len() - i,
{
    if i < count && i < es.len() {
        match es[i as int] {
            ArrayPattern::Item(p) => {
                let n = m.at(m.s.emit_arg(Op::PushLocal, temp).emit_arg(Op::ElemAt, i as i32));
                lemma_pattern(pre, p, n);
                lemma_array_from(pre, es, i + 1, count, temp, pattern(p, n));
            },
            ArrayPattern::Spread { .. } => lemma_array_from(pre, es, i + 1, count, temp, m),
        }
    }
}

pub proof fn lemma_fields(
    pre: Seq<Sighting>,
    args: Seq<PatternArg>,
    by_pos: Seq<Option<usize>>,
    i: nat,
    base: i32,
    m: Matching,
)
    ensures
        fields_from(args, by_pos, i, base, m).muted(pre)
            == fields_from(args, by_pos, i, base, m.muted(pre)),
    decreases args, by_pos.len() - i,
{
    if i < by_pos.len() {
        match by_pos[i as int] {
            Some(k) => if k < args.len() {
                let n = m.at(m.s.emit_arg(Op::PushLocal, i32::wrapping_add(base, i as i32)));
                match args[k as int] {
                    PatternArg::Positional(p) => {
                        lemma_pattern(pre, p, n);
                        lemma_fields(pre, args, by_pos, i + 1, base, pattern(p, n));
                    },
                    PatternArg::Labeled { pattern: p, .. } => {
                        lemma_pattern(pre, p, n);
                        lemma_fields(pre, args, by_pos, i + 1, base, pattern(p, n));
                    },
                }
            },
            None => lemma_fields(pre, args, by_pos, i + 1, base, m),
        }
    }
}

pub proof fn lemma_or_pattern(pre: Seq<Sighting>, ps: Seq<Pattern>, m: Matching)
    ensures
        or_pattern(ps, m).muted(pre) == or_pattern(ps, m.muted(pre)),
    decreases ps, ps.len() + 1,
{
    let s = m.s;
    let temp = s.next_slot();
    let start = OrMatching { m: m.at(s.spill()), matched: Seq::empty() };
    assert(start.muted(pre).matched =~= Seq::<usize>::empty());
    assert(start.muted(pre) == (OrMatching {
        m: m.muted(pre).at(m.muted(pre).s.spill()),
        matched: Seq::empty(),
    }));
    lemma_alternatives(pre, ps, 0, temp, start);
    let o = alternatives_from(ps, 0, temp, start);
    let u = if ps.len() > 1 {
        o.m.s.pop_pins()
    } else {
        o.m.s
    };
    let v = u.patch_all(o.matched, o.matched.len());
    assert(or_pattern(ps, m) == o.m.at(v)) by {
        reveal(or_pattern_body);
        assert(or_pattern(ps, m) == or_pattern_body(ps, m));
    }
    let o2 = o.muted(pre);
    let u2 = if ps.len() > 1 {
        o2.m.s.pop_pins()
    } else {
        o2.m.s
    };
    let v2 = u2.patch_all(o2.matched, o2.matched.len());
    assert(or_pattern(ps, m.muted(pre)) == o2.m.at(v2)) by {
        reveal(or_pattern_body);
        assert(or_pattern(ps, m.muted(pre)) == or_pattern_body(ps, m.muted(pre)));
    }
    assert(u2 == u.muted(pre));
    assert(v2 == v.muted(pre));
}

pub proof fn lemma_alternatives(
    pre: Seq<Sighting>,
    ps: Seq<Pattern>,
    i: nat,
    temp: i32,
    o: OrMatching,
)
    ensures
        alternatives_from(ps, i, temp, o).muted(pre)
            == alternatives_from(ps, i, temp, o.muted(pre)),
    decreases ps, ps.len() - i,
{
    if i < ps.len() {
        let o2 = o.muted(pre);
        let n = Matching { s: o.m.s.emit_arg(Op::PushLocal, temp), fails: Seq::empty() };
        let n2 = Matching { s: o2.m.s.emit_arg(Op::PushLocal, temp), fails: Seq::empty() };
        lemma_fresh(pre, n.s);
        assert(n2 == n.muted(pre));
        let alt = pattern(ps[i as int], n);
        let alt2 = pattern(ps[i as int], n2);
        lemma_pattern(pre, ps[i as int], n);
        assert(alt2 == alt.muted(pre));
        let s1 = if i == 0 && ps.len() > 1 {
            alt.s.push_pins(binders(alt.s.world.names@, ps[0], Seq::empty()))
        } else {
            alt.s
        };
        let s2 = if i == 0 && ps.len() > 1 {
            alt2.s.push_pins(binders(alt2.s.world.names@, ps[0], Seq::empty()))
        } else {
            alt2.s
        };
        assert(s2 == s1.muted(pre));
        if i < ps.len() - 1 {
            let t = s1.emit_arg(Op::Jump, 0).patch_all(alt.fails, alt.fails.len());
            let t2 = s2.emit_arg(Op::Jump, 0).patch_all(alt2.fails, alt2.fails.len());
            assert(t2 == t.muted(pre));
            lemma_jumps_of(pre, o.m, t);
            lemma_one_more(pre, s1, o.matched.len());
            let next = OrMatching {
                m: Matching { s: t, fails: o.m.fails },
                matched: o.matched.push(s1.pos()),
            };
            let next2 = OrMatching {
                m: Matching { s: t2, fails: o2.m.fails },
                matched: o2.matched.push(s2.pos()),
            };
            assert(next2 == next.muted(pre));
            lemma_alternatives(pre, ps, i + 1, temp, next);
        } else {
            let m = Matching { s: s1, fails: alt.fails };
            lemma_jumps_of(pre, alt, s1);
            lemma_jumps_of_both(pre, o.m, m);
            let next = OrMatching {
                m: Matching { s: s1, fails: o.m.fails + alt.fails },
                matched: o.matched,
            };
            let next2 = OrMatching {
                m: Matching { s: s2, fails: o2.m.fails + alt2.fails },
                matched: o2.matched,
            };
            assert(next2 == next.muted(pre));
            lemma_alternatives(pre, ps, i + 1, temp, next);
        }
    }
}

} // verus!

//! The jumps in a pattern land in it or lead to the failure.
use crate::ast::{ArrayPattern, Pattern, PatternArg, StrId};
use crate::gen::{
    alternatives_from, array_from, array_pattern, array_pattern_body, binders, fields_from,
    or_pattern, or_pattern_body, pattern, pattern_body, pattern_keys, segments_from, spread_place,
    start_binary, tuple_from, tuple_pattern, Matching, OrMatching,
};
use crate::landing::{
    group_landing, lands, lands_but, lemma_handed_on, lemma_lead, lemma_on, lemma_patch_list,
    lemma_trail, misses, places,
};
use crate::landing::pieces::group_landing_pieces;
use crate::landing::segments::lemma_segments;
use crate::op::{ConstView, Op};
use crate::scopes::{begins_with, from_here};
use crate::slots::slotted;
use crate::state::State;
use vstd::prelude::*;

verus! {

broadcast use {group_landing, group_landing_pieces};

pub proof fn lemma_store_name(s: State, name: StrId)
    ensures
        lands(s, s.store_name(name)),
{
    assert(from_here(s));
    let t = s.reserve(name);
    assert(from_here(t));
    assert(lands(t, s.store_name(name)));
}

pub proof fn lemma_pattern(p: Pattern, m: Matching)
    ensures
        misses(m, pattern(p, m)),
    decreases p, 1nat,
{
    assert(from_here(m.s));
    reveal(pattern_body);
    assert(pattern(p, m) == pattern_body(p, m));
    let s = m.s;
    assert(from_here(s));
    assert(lands(s, s));
    match p {
        Pattern::Binary { segments, rest, .. } => {
            let (b, slots) = start_binary(segments@, rest, m);
            lemma_segments(segments@, 0, slots, b);
            let d = segments_from(segments@, 0, slots, b);
            assert(from_here(b.m.s));
            assert(misses(b.m, d.m));
            assert(from_here(d.m.s));
            assert(misses(d.m, d.finish_rest(segments@, rest, slots)));
        },
        Pattern::Wildcard { .. } => {
            assert(from_here(s));
            assert(lands(s, s.emit(Op::Pop)));
        },
        Pattern::Var { id, .. } => {
            lemma_store_name(s, id.name);
            assert(from_here(s));
            assert(lands(s, s.emit(Op::Pop)));
        },
        Pattern::Number { literal: n, .. } => {
            let t = m.at(s.push_number(n)).require(Op::Eq);
            assert(from_here(s));
            assert(misses(m, t));
        },
        Pattern::Str { value, .. } => {
            let t = m.at(s.push_const(ConstView::Str(value))).require(Op::Eq);
            assert(from_here(s));
            assert(misses(m, t));
        },
        Pattern::Range { start, end, .. } => {
            let m1 = m.at(
                s.spill().emit_arg(Op::PushLocal, s.next_slot()).range_bound(*start),
            ).require(Op::Gte);
            assert(from_here(s));
            assert(misses(m, m1));
            let m2 = m1.at(
                m1.s.emit_arg(Op::PushLocal, s.next_slot()).range_bound(*end),
            ).require(Op::Lt);
            assert(from_here(m1.s));
            assert(misses(m1, m2));
        },
        Pattern::Tuple { elements, .. } => {
            lemma_tuple(elements@, 0, s.next_slot(), m.at(s.spill()));
            assert(tuple_pattern(elements@, m) == tuple_from(
                elements@,
                0,
                s.next_slot(),
                m.at(s.spill()),
            ));
            assert(from_here(s));
            assert(lands(s, s.spill()));
        },
        Pattern::Array { elements, .. } => lemma_array_pattern(elements@, m),
        Pattern::Constructor { name, args, .. } => {
            if let Some(v) = s.ctor(name.name) {
                let temp = s.next_slot();
                assert(from_here(s));
                assert(misses(m, m.at(s.bool_value(name.name)).require(Op::Eq)));
                let m1 = m.at(
                    s.spill().emit_arg(Op::PushLocal, temp).match_header(v.type_id, name.name),
                ).require(Op::MatchEnum);
                assert(from_here(s));
                assert(misses(m, m1));
                let t = slotted(m1.s, v.shape, false, pattern_keys(args@), None);
                assert(from_here(m1.s));
                assert(lands(m1.s, t.s));
                let s2 = t.s.emit_arg(Op::PushLocal, temp).emit(Op::UnwrapEnum);
                let s3 = s2.take_slots(v.shape.arity as i32).store_fields(
                    s2.next_slot(),
                    v.shape.arity as nat,
                );
                assert(lands(m1.s, s3));
                assert(misses(m1, m1.at(s3)));
                lemma_fields(args@, t.by_pos, 0, s2.next_slot(), m1.at(s3));
            } else {
                assert(from_here(s));
                assert(lands(s, s.emit(Op::Pop)));
            }
        },
        Pattern::Or { patterns, .. } => lemma_or_pattern(patterns@, m),
    }
}

pub proof fn lemma_tuple(es: Seq<Pattern>, i: nat, temp: i32, m: Matching)
    ensures
        misses(m, tuple_from(es, i, temp, m)),
    decreases es, es.len() - i,
{
    assert(from_here(m.s));
    assert(misses(m, m));
    if i < es.len() {
        let n = m.at(m.s.emit_arg(Op::PushLocal, temp).emit_arg(Op::TupleIndex, i as i32));
        assert(lands(m.s, n.s));
                assert(misses(m, n));
        lemma_pattern(es[i as int], n);
        lemma_tuple(es, i + 1, temp, pattern(es[i as int], n));
    }
}

pub proof fn lemma_array_pattern(es: Seq<ArrayPattern>, m: Matching)
    ensures
        misses(m, array_pattern(es, m)),
    decreases es, es.len() + 1,
{
    assert(from_here(m.s));
    reveal(array_pattern_body);
    assert(array_pattern(es, m) == array_pattern_body(es, m));
    let s = m.s;
    let place = spread_place(es, es.len());
    let count = match place {
        Some(i) => i,
        None => es.len(),
    };
    let m1 = m.at(
        s.spill().emit_arg(Op::PushLocal, s.next_slot()).emit(Op::ArrayLen).push_int(count as i64),
    ).require(
        if place is Some {
            Op::Gte
        } else {
            Op::Eq
        },
    );
    assert(from_here(s));
    assert(misses(m, m1));
    lemma_array_from(es, 0, count, s.next_slot(), m1);
    let m2 = array_from(es, 0, count, s.next_slot(), m1);
    if let Some(i) = place {
        if let ArrayPattern::Spread { binding: Some(id), .. } = es[i as int] {
            let t = m2.s.emit_arg(Op::PushLocal, s.next_slot()).push_int(count as i64).emit(
                Op::Drop,
            );
            assert(from_here(m2.s));
            assert(lands(m2.s, t));
            lemma_store_name(t, id.name);
        }
    }
}

pub proof fn lemma_array_from(es: Seq<ArrayPattern>, i: nat, count: nat, temp: i32, m: Matching)
    ensures
        misses(m, array_from(es, i, count, temp, m)),
    decreases es, es.len() - i,
{
    assert(from_here(m.s));
    assert(misses(m, m));
    if i < count && i < es.len() {
        match es[i as int] {
            ArrayPattern::Item(p) => {
                let n = m.at(m.s.emit_arg(Op::PushLocal, temp).emit_arg(Op::ElemAt, i as i32));
                assert(lands(m.s, n.s));
                assert(misses(m, n));
                lemma_pattern(p, n);
                lemma_array_from(es, i + 1, count, temp, pattern(p, n));
            },
            ArrayPattern::Spread { .. } => lemma_array_from(es, i + 1, count, temp, m),
        }
    }
}

pub proof fn lemma_fields(
    args: Seq<PatternArg>,
    by_pos: Seq<Option<usize>>,
    i: nat,
    base: i32,
    m: Matching,
)
    ensures
        misses(m, fields_from(args, by_pos, i, base, m)),
    decreases args, by_pos.len() - i,
{
    assert(from_here(m.s));
    assert(misses(m, m));
    if i < by_pos.len() {
        match by_pos[i as int] {
            Some(k) => if k < args.len() {
                let n = m.at(m.s.emit_arg(Op::PushLocal, i32::wrapping_add(base, i as i32)));
                assert(lands(m.s, n.s));
                assert(misses(m, n));
                match args[k as int] {
                    PatternArg::Positional(p) => {
                        lemma_pattern(p, n);
                        lemma_fields(args, by_pos, i + 1, base, pattern(p, n));
                    },
                    PatternArg::Labeled { pattern: p, .. } => {
                        lemma_pattern(p, n);
                        lemma_fields(args, by_pos, i + 1, base, pattern(p, n));
                    },
                }
            },
            None => lemma_fields(args, by_pos, i + 1, base, m),
        }
    }
}

pub proof fn lemma_or_pattern(ps: Seq<Pattern>, m: Matching)
    ensures
        misses(m, or_pattern(ps, m)),
        misses(m.at(m.s.spill()), or_pattern(ps, m)),
    decreases ps, ps.len() + 1,
{
    assert(from_here(m.s));
    reveal(or_pattern_body);
    assert(or_pattern(ps, m) == or_pattern_body(ps, m));
    let s = m.s;
    let temp = s.next_slot();
    let start = OrMatching { m: m.at(s.spill()), matched: Seq::empty() };
    let o = alternatives_from(ps, 0, temp, start);
    assert(lands(s, start.m.s));
    lemma_alternatives(ps, 0, temp, start);
    let u = if ps.len() > 1 {
        o.m.s.pop_pins()
    } else {
        o.m.s
    };
    assert(from_here(o.m.s));
    assert(lands(o.m.s, o.m.s));
    assert(lands(o.m.s, u));
    reveal(strays);
    let fails = places(o.m.fails, m.fails.len());
    let matched = places(o.matched, 0);
    let open = fails.union(matched);
    lemma_lead(s, start.m.s, o.m.s, open);
    lemma_trail(s, o.m.s, u, open);
    assert forall|k: int| 0 <= k < o.matched.len() implies open.contains(
        #[trigger] o.matched[k] as int,
    ) by {
        assert(matched.contains(o.matched[k] as int));
    }
    lemma_patch_list(s, u, open, o.matched, o.matched.len(), fails);
    lemma_trail(start.m.s, o.m.s, u, open);
    lemma_patch_list(start.m.s, u, open, o.matched, o.matched.len(), fails);
    assert(or_pattern(ps, m).s == u.patch_all(o.matched, o.matched.len()));
    reveal(misses);
}

/// Whether code has been added whose only open jumps are those to the failure and
/// those past the alternatives behind a match.
#[verifier::opaque]
pub open spec fn strays(o: OrMatching, p: OrMatching) -> bool {
    &&& begins_with(p.m.fails, o.m.fails)
    &&& begins_with(p.matched, o.matched)
    &&& lands_but(
        o.m.s,
        p.m.s,
        places(p.m.fails, o.m.fails.len()).union(places(p.matched, o.matched.len())),
    )
}

proof fn lemma_places_on(a: Seq<usize>, b: Seq<usize>, c: Seq<usize>)
    requires
        begins_with(b, a),
        begins_with(c, b),
    ensures
        begins_with(c, a),
        places(b, a.len()).union(places(c, b.len())) =~= places(c, a.len()),
{
    assert(c.take(a.len() as int) =~= c.take(b.len() as int).take(a.len() as int));
    assert forall|j: int| 0 <= j < b.len() implies c[j] == b[j] by {
        assert(c.take(b.len() as int)[j] == c[j]);
    }
    assert forall|p: int| places(c, a.len()).contains(p) implies places(b, a.len()).union(
        places(c, b.len()),
    ).contains(p) by {
        let j = choose|j: int| a.len() <= j < c.len() && #[trigger] c[j] as int == p;
        if j < b.len() {
            assert(b[j] as int == p);
        }
    }
    assert forall|p: int|
        places(b, a.len()).union(places(c, b.len())).contains(p) implies places(
        c,
        a.len(),
    ).contains(p) by {
        if places(b, a.len()).contains(p) {
            let j = choose|j: int| a.len() <= j < b.len() && #[trigger] b[j] as int == p;
            assert(c[j] as int == p);
        }
    }
}

proof fn lemma_strays_on(a: OrMatching, b: OrMatching, c: OrMatching)
    requires
        strays(a, b),
        strays(b, c),
    ensures
        strays(a, c),
{
    reveal(strays);
    lemma_places_on(a.m.fails, b.m.fails, c.m.fails);
    lemma_places_on(a.matched, b.matched, c.matched);
    let first = places(b.m.fails, a.m.fails.len()).union(places(b.matched, a.matched.len()));
    let second = places(c.m.fails, b.m.fails.len()).union(places(c.matched, b.matched.len()));
    lemma_on(a.m.s, b.m.s, c.m.s, first, second);
    assert(first.union(second) =~= places(c.m.fails, a.m.fails.len()).union(
        places(c.matched, a.matched.len()),
    ));
}

pub proof fn lemma_alternatives(ps: Seq<Pattern>, i: nat, temp: i32, o: OrMatching)
    ensures
        strays(o, alternatives_from(ps, i, temp, o)),
    decreases ps, ps.len() - i,
{
    assert(from_here(o.m.s));
    if i >= ps.len() {
        assert(lands(o.m.s, o.m.s));
        assert(strays(o, o)) by {
            reveal(strays);
            assert(o.m.fails.take(o.m.fails.len() as int) =~= o.m.fails);
            assert(o.matched.take(o.matched.len() as int) =~= o.matched);
            assert(places(o.m.fails, o.m.fails.len()).union(
                places(o.matched, o.matched.len()),
            ) =~= Set::<int>::empty());
        }
    } else {
        let n = Matching { s: o.m.s.emit_arg(Op::PushLocal, temp), fails: Seq::empty() };
        let alt = pattern(ps[i as int], n);
        assert(lands(o.m.s, n.s));
        lemma_pattern(ps[i as int], n);
        let s1 = if i == 0 && ps.len() > 1 {
            alt.s.push_pins(binders(alt.s.world.names@, ps[0], Seq::empty()))
        } else {
            alt.s
        };
        assert(from_here(alt.s));
        assert(lands(alt.s, alt.s));
        assert(lands(alt.s, s1));
        let next = if i < ps.len() - 1 {
            OrMatching {
                m: Matching {
                    s: s1.emit_arg(Op::Jump, 0).patch_all(alt.fails, alt.fails.len()),
                    fails: o.m.fails,
                },
                matched: o.matched.push(s1.pos()),
            }
        } else {
            OrMatching {
                m: Matching { s: s1, fails: o.m.fails + alt.fails },
                matched: o.matched,
            }
        };
        assert(strays(o, next)) by {
            reveal(strays);
            let open = places(next.m.fails, o.m.fails.len()).union(
                places(next.matched, o.matched.len()),
            );
            if i < ps.len() - 1 {
                let over = set![s1.pos() as int];
                lemma_handed_on(n, alt, s1);
                lemma_lead(o.m.s, n.s, next.m.s, over);
                assert(next.m.fails.take(o.m.fails.len() as int) =~= o.m.fails);
                assert(next.matched.take(o.matched.len() as int) =~= o.matched);
                assert(open =~= over) by {
                    assert(next.matched[o.matched.len() as int] == s1.pos());
                }
            } else {
                reveal(misses);
                let fails = places(alt.fails, 0);
                lemma_trail(n.s, alt.s, s1, fails);
                lemma_lead(o.m.s, n.s, s1, fails);
                assert(next.m.fails.take(o.m.fails.len() as int) =~= o.m.fails);
                assert(next.matched.take(o.matched.len() as int) =~= o.matched);
                assert(open =~= fails) by {
                    assert forall|p: int| fails.contains(p) implies open.contains(p) by {
                        let j = choose|j: int|
                            0 <= j < alt.fails.len() && #[trigger] alt.fails[j] as int == p;
                        assert(next.m.fails[o.m.fails.len() + j] as int == p);
                    }
                    assert forall|p: int| open.contains(p) implies fails.contains(p) by {
                        let j = choose|j: int|
                            o.m.fails.len() <= j < next.m.fails.len()
                                && #[trigger] next.m.fails[j] as int == p;
                        assert(alt.fails[j - o.m.fails.len()] as int == p);
                    }
                }
            }
        }
        lemma_alternatives(ps, i + 1, temp, next);
        lemma_strays_on(o, next, alternatives_from(ps, i + 1, temp, next));
    }
}

} // verus!

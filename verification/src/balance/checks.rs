//! Checking patterns leaves the scope as it was.
use crate::ast::{ArrayPattern, BinSegmentPat, Pattern, PatternArg, TypeFault};
use crate::diag::Message;
use crate::gen::{
    check_alternatives, check_array, check_body, check_pattern, check_patterns, check_segments, check_slots, pattern,
    pattern_keys, Checked,
};
use crate::pieces::group_pieces;
use crate::scopes::{from_here, group_steps, leaves};
use crate::slots::{slotted, MissingReport};
use vstd::prelude::*;

verus! {

broadcast use {group_steps, group_pieces};

pub proof fn lemma_check(p: Pattern, c: Checked)
    ensures
        leaves(c.s, check_pattern(p, c).s),
    decreases p, 1nat,
{
    assert(from_here(c.s));
    reveal(check_body);
    assert(check_pattern(p, c) == check_body(p, c));
    assert(leaves(c.s, c.s));
    match p {
        Pattern::Binary { segments, faults, .. } => {
            let d = c.misfit(faults@);
            assert(leaves(c.s, d.s));
            lemma_check_segments(segments@, 0, d);
        },
        Pattern::Range { start, end, faults, .. } => {
            let d = c.misfit(faults@);
            assert(leaves(c.s, d.s));
            lemma_check(*start, d);
            lemma_check(*end, check_pattern(*start, d));
        },
        Pattern::Tuple { elements, faults, .. } => {
            assert(leaves(c.s, c.misfit(faults@).s));
            lemma_check_all(elements@, 0, c.misfit(faults@));
        },
        Pattern::Array { elements, faults, .. } => {
            assert(leaves(c.s, c.misfit(faults@).s));
            lemma_check_array(elements@, 0, false, c.misfit(faults@));
        },
        Pattern::Constructor { name, args, rest, faults, span } => {
            if let Some(v) = c.s.ctor(name.name) {
                let n = c.record(v.ty_name, name);
                let d = n.misfit(faults@);
                assert(leaves(c.s, n.s));
                assert(leaves(c.s, d.s));
                if v.shape.arity != 0 {
                    let t = slotted(
                        d.s,
                        v.shape,
                        true,
                        pattern_keys(args@),
                        if rest {
                            None
                        } else {
                            Some(MissingReport { span, in_pattern: true })
                        },
                    );
                    assert(from_here(d.s));
                    assert(leaves(d.s, t.s));
                    lemma_check_slots(args@, t.by_pos, 0, Checked { s: t.s, ok: d.ok && t.ok, ..d });
                }
            }
        },
        Pattern::Or { patterns, unlike, .. } => lemma_check_alternatives(
            patterns@,
            unlike@,
            0,
            c,
        ),
        _ => {},
    }
}

pub proof fn lemma_check_all(ps: Seq<Pattern>, i: nat, c: Checked)
    ensures
        leaves(c.s, check_patterns(ps, i, c).s),
    decreases ps, ps.len() - i,
{
    assert(from_here(c.s));
    assert(leaves(c.s, c.s));
    if i < ps.len() {
        lemma_check(ps[i as int], c);
        lemma_check_all(ps, i + 1, check_pattern(ps[i as int], c));
    }
}

pub proof fn lemma_check_alternatives(
    ps: Seq<Pattern>,
    unlike: Seq<Vec<TypeFault>>,
    i: nat,
    c: Checked,
)
    ensures
        leaves(c.s, check_alternatives(ps, unlike, i, c).s),
    decreases ps, ps.len() - i,
{
    assert(from_here(c.s));
    assert(leaves(c.s, c.s));
    if i < ps.len() {
        let b = c.alternative(i);
        let d = check_pattern(ps[i as int], b).rejoin(i, c);
        lemma_check(ps[i as int], b);
        let f = if 0 < i <= unlike.len() {
            d.misfit(unlike[i - 1]@)
        } else {
            d
        };
        assert(leaves(c.s, f.s));
        lemma_check_alternatives(ps, unlike, i + 1, f);
    }
}

pub proof fn lemma_check_segments(segs: Seq<BinSegmentPat>, i: nat, c: Checked)
    ensures
        leaves(c.s, check_segments(segs, i, c).s),
    decreases segs, segs.len() - i,
{
    assert(from_here(c.s));
    assert(leaves(c.s, c.s));
    if i < segs.len() {
        lemma_check(segs[i as int].value, c);
        lemma_check_segments(segs, i + 1, c);
        lemma_check_segments(segs, i + 1, check_pattern(segs[i as int].value, c));
    }
}

pub proof fn lemma_check_array(es: Seq<ArrayPattern>, i: nat, seen: bool, c: Checked)
    ensures
        leaves(c.s, check_array(es, i, seen, c).s),
    decreases es, es.len() - i,
{
    assert(from_here(c.s));
    assert(leaves(c.s, c.s));
    if i < es.len() {
        match es[i as int] {
            ArrayPattern::Item(p) => {
                lemma_check(p, c);
                lemma_check_array(es, i + 1, seen, check_pattern(p, c));
            },
            ArrayPattern::Spread { binding, faults, span } => {
                let d = if seen {
                    c.fail(Message::ManyPatternSpreads, span)
                } else if i != es.len() - 1 {
                    c.fail(Message::PatternSpreadNotLast, span)
                } else {
                    c
                };
                assert(leaves(c.s, d.s));
                assert(leaves(c.s, d.misfit(faults@).s));
                lemma_check_array(es, i + 1, true, d.misfit(faults@).bind_opt(binding));
            },
        }
    }
}

pub proof fn lemma_check_slots(args: Seq<PatternArg>, by_pos: Seq<Option<usize>>, i: nat, c: Checked)
    ensures
        leaves(c.s, check_slots(args, by_pos, i, c).s),
    decreases args, by_pos.len() - i,
{
    assert(from_here(c.s));
    assert(leaves(c.s, c.s));
    if i < by_pos.len() {
        match by_pos[i as int] {
            Some(k) => if k < args.len() {
                match args[k as int] {
                    PatternArg::Positional(p) => {
                        lemma_check(p, c);
                        lemma_check_slots(args, by_pos, i + 1, check_pattern(p, c));
                    },
                    PatternArg::Labeled { pattern: p, .. } => {
                        lemma_check(p, c);
                        lemma_check_slots(args, by_pos, i + 1, check_pattern(p, c));
                    },
                }
            },
            None => lemma_check_slots(args, by_pos, i + 1, c),
        }
    }
}


} // verus!

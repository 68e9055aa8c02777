//! What muting leaves of checking patterns.
use crate::ast::{ArrayPattern, BinSegmentPat, Pattern, PatternArg, TypeFault};
use crate::diag::Message;
use crate::gen::{
    check_alternatives, check_array, check_body, check_pattern, check_patterns, check_segments,
    check_slots, pattern,
    pattern_keys, Checked,
};
use crate::muting::{
    group_muting, lemma_checked_fail, lemma_checked_misfit, lemma_checked_record,
};
use crate::muting::pieces::group_muting_pieces;
use crate::slots::{slotted, MissingReport};
use crate::state::Sighting;
use vstd::prelude::*;

verus! {

broadcast use {group_muting, group_muting_pieces};

pub proof fn lemma_check(pre: Seq<Sighting>, p: Pattern, c: Checked)
    ensures
        check_pattern(p, c).muted(pre) == check_pattern(p, c.muted(pre)),
    decreases p, 1nat,
{
    reveal(check_body);
    assert(check_pattern(p, c) == check_body(p, c));
    assert(check_pattern(p, c.muted(pre)) == check_body(p, c.muted(pre)));
    match p {
        Pattern::Binary { segments, faults, rest_faults, .. } => {
            let d = c.misfit(faults@);
            lemma_check_segments(pre, segments@, 0, d);
            lemma_checked_misfit(pre, check_segments(segments@, 0, d), rest_faults@);
        },
        Pattern::Range { start, end, faults, .. } => {
            let d = c.misfit(faults@);
            lemma_check(pre, *start, d);
            lemma_check(pre, *end, check_pattern(*start, d));
        },
        Pattern::Tuple { elements, faults, .. } => {
            lemma_check_all(pre, elements@, 0, c.misfit(faults@));
        },
        Pattern::Array { elements, faults, .. } => {
            lemma_check_array(pre, elements@, 0, false, c.misfit(faults@));
        },
        Pattern::Constructor { name, args, rest, faults, span } => {
            if let Some(v) = c.s.ctor(name.name) {
                let n = c.record(v.ty_name, name);
                let d = n.misfit(faults@);
                lemma_checked_record(pre, c, v.ty_name, name);
                lemma_checked_misfit(pre, n, faults@);
                let given = Message::NoArguments { name: name.name, given: args.len() };
                lemma_checked_fail(pre, d, given, span);
                if v.shape.arity != 0 {
                    let t = slotted(
                        d.s,
                        v.shape,
                        true,
                        pattern_keys(args@),
                        if rest {
                            None
                        } else {
                            Some(MissingReport { span, in_pattern: true })
                        },
                    );
                    lemma_check_slots(pre, args@, t.by_pos, 0, Checked { s: t.s, ok: d.ok && t.ok, ..d });
                }
            } else {
                lemma_checked_fail(pre, c, Message::NotAConstructor { name: name.name }, name.span);
                lemma_checked_fail(pre, c, Message::UnknownConstructor { name: name.name }, name.span);
            }
        },
        Pattern::Or { patterns, unlike, .. } => lemma_check_alternatives(
            pre,
            patterns@,
            unlike@,
            0,
            c,
        ),
        Pattern::Wildcard { .. } => {},
        Pattern::Var { faults, .. } => lemma_checked_misfit(pre, c, faults@),
        Pattern::Number { faults, .. } => lemma_checked_misfit(pre, c, faults@),
        Pattern::Str { faults, .. } => lemma_checked_misfit(pre, c, faults@),
    }
}

pub proof fn lemma_check_all(pre: Seq<Sighting>, ps: Seq<Pattern>, i: nat, c: Checked)
    ensures
        check_patterns(ps, i, c).muted(pre) == check_patterns(ps, i, c.muted(pre)),
    decreases ps, ps.len() - i,
{
    if i < ps.len() {
        lemma_check(pre, ps[i as int], c);
        lemma_check_all(pre, ps, i + 1, check_pattern(ps[i as int], c));
    }
}

pub proof fn lemma_check_alternatives(
    pre: Seq<Sighting>,
    ps: Seq<Pattern>,
    unlike: Seq<Vec<TypeFault>>,
    i: nat,
    c: Checked,
)
    ensures
        check_alternatives(ps, unlike, i, c).muted(pre)
            == check_alternatives(ps, unlike, i, c.muted(pre)),
    decreases ps, ps.len() - i,
{
    if i < ps.len() {
        let b = c.alternative(i);
        let d = check_pattern(ps[i as int], b).rejoin(i, c);
        lemma_check(pre, ps[i as int], b);
        let f = if 0 < i <= unlike.len() {
            d.misfit(unlike[i - 1]@)
        } else {
            d
        };
        lemma_check_alternatives(pre, ps, unlike, i + 1, f);
    }
}

pub proof fn lemma_check_segments(pre: Seq<Sighting>, segs: Seq<BinSegmentPat>, i: nat, c: Checked)
    ensures
        check_segments(segs, i, c).muted(pre) == check_segments(segs, i, c.muted(pre)),
    decreases segs, segs.len() - i,
{
    if i < segs.len() {
        lemma_check(pre, segs[i as int].value, c);
        lemma_check_segments(pre, segs, i + 1, c);
        lemma_check_segments(pre, segs, i + 1, check_pattern(segs[i as int].value, c));
    }
}

pub proof fn lemma_check_array(
    pre: Seq<Sighting>,
    es: Seq<ArrayPattern>,
    i: nat,
    seen: bool,
    c: Checked,
)
    ensures
        check_array(es, i, seen, c).muted(pre) == check_array(es, i, seen, c.muted(pre)),
    decreases es, es.len() - i,
{
    if i < es.len() {
        match es[i as int] {
            ArrayPattern::Item(p) => {
                lemma_check(pre, p, c);
                lemma_check_array(pre, es, i + 1, seen, check_pattern(p, c));
            },
            ArrayPattern::Spread { binding, faults, span } => {
                let d = if seen {
                    c.fail(Message::ManyPatternSpreads, span)
                } else if i != es.len() - 1 {
                    c.fail(Message::PatternSpreadNotLast, span)
                } else {
                    c
                };
                lemma_check_array(pre, es, i + 1, true, d.misfit(faults@).bind_opt(binding));
            },
        }
    }
}

pub proof fn lemma_check_slots(
    pre: Seq<Sighting>,
    args: Seq<PatternArg>,
    by_pos: Seq<Option<usize>>,
    i: nat,
    c: Checked,
)
    ensures
        check_slots(args, by_pos, i, c).muted(pre) == check_slots(args, by_pos, i, c.muted(pre)),
    decreases args, by_pos.len() - i,
{
    if i < by_pos.len() {
        match by_pos[i as int] {
            Some(k) => if k < args.len() {
                match args[k as int] {
                    PatternArg::Positional(p) => {
                        lemma_check(pre, p, c);
                        lemma_check_slots(pre, args, by_pos, i + 1, check_pattern(p, c));
                    },
                    PatternArg::Labeled { pattern: p, .. } => {
                        lemma_check(pre, p, c);
                        lemma_check_slots(pre, args, by_pos, i + 1, check_pattern(p, c));
                    },
                }
            },
            None => lemma_check_slots(pre, args, by_pos, i + 1, c),
        }
    }
}

} // verus!

//! Checking the shape of patterns.
use crate::ast::{ArrayPattern, BinSegmentPat, Ident, Pattern, PatternArg, Span, StrId, TypeFault};
use crate::binders::{push_binder, push_opt_binder};
use crate::diag::Message;
use crate::gen::{
    check_alternatives, check_array, check_body, check_pattern, check_patterns, check_segments,
    check_slots, pattern, pattern_keys, Checked,
};
use crate::literal::utf8_literal_segment;
use crate::slots::{lemma_slotted_in_range, ArgKey, MissingReport};
use crate::state::Compiler;
use crate::values::CtorInfo;
use vstd::prelude::*;

verus! {

/// The arguments of a constructor pattern as slotting sees them.
pub(crate) fn keys_of_pattern(args: &Vec<PatternArg>) -> (keys: Vec<ArgKey>)
    ensures
        keys@ == pattern_keys(args@),
        forall|k: int| 0 <= k < keys@.len() ==> (#[trigger] keys@[k]).arg < args@.len(),
{
    let mut keys: Vec<ArgKey> = Vec::new();
    let mut i: usize = 0;
    while i < args.len()
        invariant
            i <= args.len(),
            keys@ == pattern_keys(args@).take(i as int),
            forall|k: int| 0 <= k < keys@.len() ==> (#[trigger] keys@[k]).arg < args@.len(),
        decreases args.len() - i,
    {
        let key: ArgKey = match &args[i] {
            PatternArg::Positional(p) => ArgKey { label: None, span: p.span(), arg: i },
            PatternArg::Labeled { label, .. } => ArgKey {
                label: Some(*label),
                span: label.span,
                arg: i,
            },
        };
        keys.push(key);
        assert(keys@ =~= pattern_keys(args@).take(i + 1));
        i = i + 1;
    }
    assert(keys@ =~= pattern_keys(args@));
    keys
}

impl Compiler {
    /// Check a pattern, and add the names it binds to a list: an argument that no field
    /// takes, or that stands under a name that is no constructor, binds nothing. Returns
    /// whether all was well: no type failed to fit, no name failed to be bound, and every
    /// constructor has what it takes.
    pub fn type_pattern(&mut self, p: &Pattern, ids: &mut Vec<Ident>) -> (ok: bool)
        ensures
            ({
                let c = check_pattern(
                    *p,
                    Checked { s: old(self)@, ok: true, ids: old(ids)@ },
                );
                final(self)@ == c.s && ok == c.ok && final(ids)@ == c.ids
            }),
    {
        self.check_pattern_onto(p, true, ids)
    }

    /// Check a pattern, as part of a check that has gone `ok` so
    /// far.
    fn check_pattern_onto(&mut self, p: &Pattern, ok: bool, ids: &mut Vec<Ident>) -> (res: bool)
        ensures
            ({
                let c = check_pattern(*p, Checked { s: old(self)@, ok, ids: old(ids)@ });
                final(self)@ == c.s && res == c.ok && final(ids)@ == c.ids
            }),
        decreases *p, 1nat,
    {
        proof {
            reveal(check_body);
            let c = Checked { s: self@, ok, ids: ids@ };
            assert(check_pattern(*p, c) == check_body(*p, c));
        }
        match p {
            Pattern::Binary { segments, rest, faults, rest_faults, .. } => {
                let fits: bool = self.check_fit(faults, ok);
                let res: bool = self.check_segments_onto(segments, fits, ids);
                let res: bool = self.check_fit(rest_faults, res);
                if let Some(r) = rest {
                    push_opt_binder(&self.world().names, ids, r.binding);
                }
                res
            },
            Pattern::Wildcard { .. } => ok,
            Pattern::Var { id, faults, .. } => {
                let res: bool = self.check_fit(faults, ok);
                push_binder(&self.world().names, ids, *id);
                res
            },
            Pattern::Number { faults, .. } => self.check_fit(faults, ok),
            Pattern::Str { faults, .. } => self.check_fit(faults, ok),
            Pattern::Range { start, end, faults, .. } => {
                let fits: bool = self.check_fit(faults, ok);
                let res: bool = self.check_pattern_onto(start, fits, ids);
                self.check_pattern_onto(end, res, ids)
            },
            Pattern::Tuple { elements, faults, .. } => {
                let fits: bool = self.check_fit(faults, ok);
                self.check_patterns_onto(elements, fits, ids)
            },
            Pattern::Array { elements, faults, .. } => {
                let fits: bool = self.check_fit(faults, ok);
                self.check_array_onto(elements, fits, ids)
            },
            Pattern::Constructor { name, args, rest, faults, span } => self.type_ctor_pattern(
                *name,
                args,
                *rest,
                faults,
                *span,
                ok,
                ids,
                Ghost(*p),
            ),
            Pattern::Or { patterns, unlike, .. } => self.check_alternatives_onto(
                patterns,
                unlike,
                ok,
                ids,
            ),
        }
    }

    /// Check the segments of a binary.
    fn check_segments_onto(
        &mut self,
        segments: &Vec<BinSegmentPat>,
        ok: bool,
        ids: &mut Vec<Ident>,
    ) -> (res: bool)
        ensures
            ({
                let c = check_segments(segments@, 0, Checked { s: old(self)@, ok, ids: old(ids)@ });
                final(self)@ == c.s && res == c.ok && final(ids)@ == c.ids
            }),
        decreases segments@, 0nat,
    {
        let mut res: bool = ok;
        let mut i: usize = 0;
        let ghost goal = check_segments(segments@, 0, Checked { s: self@, ok, ids: ids@ });
        while i < segments.len()
            invariant
                i <= segments.len(),
                goal == check_segments(
                    segments@,
                    i as nat,
                    Checked { s: self@, ok: res, ids: ids@ },
                ),
            decreases segments.len() - i,
        {
            if utf8_literal_segment(&segments[i]).is_none() {
                res = self.check_pattern_onto(&segments[i].value, res, ids);
            }
            i = i + 1;
        }
        res
    }

    /// Check the elements of an array.
    fn check_array_onto(
        &mut self,
        elements: &Vec<ArrayPattern>,
        ok: bool,
        ids: &mut Vec<Ident>,
    ) -> (res: bool)
        ensures
            ({
                let c = check_array(
                    elements@,
                    0,
                    false,
                    Checked { s: old(self)@, ok, ids: old(ids)@ },
                );
                final(self)@ == c.s && res == c.ok && final(ids)@ == c.ids
            }),
        decreases elements@, 0nat,
    {
        let mut res: bool = ok;
        let mut seen: bool = false;
        let mut i: usize = 0;
        let ghost goal = check_array(elements@, 0, false, Checked { s: self@, ok, ids: ids@ });
        while i < elements.len()
            invariant
                i <= elements.len(),
                goal == check_array(
                    elements@,
                    i as nat,
                    seen,
                    Checked { s: self@, ok: res, ids: ids@ },
                ),
            decreases elements.len() - i,
        {
            match &elements[i] {
                ArrayPattern::Item(q) => {
                    res = self.check_pattern_onto(q, res, ids);
                },
                ArrayPattern::Spread { binding, faults, span } => {
                    if seen {
                        self.error(Message::ManyPatternSpreads, *span);
                        res = false;
                    } else if i != elements.len() - 1 {
                        self.error(Message::PatternSpreadNotLast, *span);
                        res = false;
                    }
                    res = self.check_fit(faults, res);
                    push_opt_binder(&self.world().names, ids, *binding);
                    seen = true;
                },
            }
            i = i + 1;
        }
        res
    }

    /// Report types that do not fit, as part of a check.
    fn check_fit(&mut self, faults: &Vec<TypeFault>, ok: bool) -> (res: bool)
        ensures
            ({
                let c = (Checked { s: old(self)@, ok, ids: Seq::empty() }).misfit(faults@);
                final(self)@ == c.s && res == c.ok
            }),
    {
        self.misfit(faults);
        ok && faults.len() == 0
    }

    /// Check the alternatives of an or-pattern.
    fn check_alternatives_onto(
        &mut self,
        ps: &Vec<Pattern>,
        unlike: &Vec<Vec<TypeFault>>,
        ok: bool,
        ids: &mut Vec<Ident>,
    ) -> (res: bool)
        ensures
            ({
                let c = check_alternatives(
                    ps@,
                    unlike@,
                    0,
                    Checked { s: old(self)@, ok, ids: old(ids)@ },
                );
                final(self)@ == c.s && res == c.ok && final(ids)@ == c.ids
            }),
        decreases ps@, 0nat,
    {
        let mut res: bool = ok;
        let mut i: usize = 0;
        let ghost goal = check_alternatives(ps@, unlike@, 0, Checked { s: self@, ok, ids: ids@ });
        while i < ps.len()
            invariant
                i <= ps.len(),
                goal == check_alternatives(
                    ps@,
                    unlike@,
                    i as nat,
                    Checked { s: self@, ok: res, ids: ids@ },
                ),
            decreases ps.len() - i,
        {
            if i == 0 {
                res = self.check_pattern_onto(&ps[i], res, ids);
            } else {
                let mut own: Vec<Ident> = Vec::new();
                res = self.check_pattern_onto(&ps[i], res, &mut own);
            }
            if 0 < i && i <= unlike.len() {
                res = self.check_fit(&unlike[i - 1], res);
            }
            i = i + 1;
        }
        res
    }

    /// Check several patterns.
    pub fn check_patterns_onto(
        &mut self,
        ps: &Vec<Pattern>,
        ok: bool,
        ids: &mut Vec<Ident>,
    ) -> (res: bool)
        ensures
            ({
                let c = check_patterns(ps@, 0, Checked { s: old(self)@, ok, ids: old(ids)@ });
                final(self)@ == c.s && res == c.ok && final(ids)@ == c.ids
            }),
        decreases ps@, 0nat,
    {
        let mut res: bool = ok;
        let mut i: usize = 0;
        let ghost goal = check_patterns(ps@, 0, Checked { s: self@, ok, ids: ids@ });
        while i < ps.len()
            invariant
                i <= ps.len(),
                goal == check_patterns(ps@, i as nat, Checked { s: self@, ok: res, ids: ids@ }),
            decreases ps.len() - i,
        {
            res = self.check_pattern_onto(&ps[i], res, ids);
            i = i + 1;
        }
        res
    }

    /// Check a constructor pattern: the constructor is known, and its arguments
    /// fit its fields.
    fn type_ctor_pattern(
        &mut self,
        name: Ident,
        args: &Vec<PatternArg>,
        rest: bool,
        faults: &Vec<TypeFault>,
        span: Span,
        ok: bool,
        ids: &mut Vec<Ident>,
        Ghost(p): Ghost<Pattern>,
    ) -> (res: bool)
        requires
            p == (Pattern::Constructor { name, args: *args, rest, faults: *faults, span }),
        ensures
            ({
                let c = check_pattern(p, Checked { s: old(self)@, ok, ids: old(ids)@ });
                final(self)@ == c.s && res == c.ok && final(ids)@ == c.ids
            }),
        decreases p, 0nat,
    {
        proof {
            reveal(check_body);
            let c = Checked { s: self@, ok, ids: ids@ };
            assert(check_pattern(p, c) == check_body(p, c));
        }
        let v: CtorInfo = match self.lookup_ctor(name.name) {
            Some(v) => v,
            None => {
                let message: Message = if self.lookup(name.name).is_some() {
                    Message::NotAConstructor { name: name.name }
                } else {
                    Message::UnknownConstructor { name: name.name }
                };
                self.error(message, name.span);
                return false;
            },
        };
        let doc: Option<StrId> = match self.lookup(name.name) {
            Some(b) => b.doc,
            None => None,
        };
        self.record(Some(v.ty_name), name, doc);
        let fits: bool = self.check_fit(faults, ok);
        if v.shape.arity == 0 {
            if args.len() > 0 {
                self.error(Message::NoArguments { name: name.name, given: args.len() }, span);
                return false;
            }
            return fits;
        }
        let keys: Vec<ArgKey> = keys_of_pattern(args);
        let missing: Option<MissingReport> = if rest {
            None
        } else {
            Some(MissingReport { span, in_pattern: true })
        };
        proof {
            lemma_slotted_in_range(
                self@,
                v.shape,
                true,
                keys@,
                missing,
                args@.len() as int,
            );
        }
        let (by_pos, args_ok): (Vec<Option<usize>>, bool) = self.slot_ctor_args(
            v.shape,
            &keys,
            missing,
            true,
        );
        let mut res: bool = fits && args_ok;
        let mut i: usize = 0;
        let ghost goal = check_slots(args@, by_pos@, 0, Checked { s: self@, ok: res, ids: ids@ });
        while i < by_pos.len()
            invariant
                i <= by_pos.len(),
                decreases_to!(p => args@),
                forall|k: int|
                    0 <= k < by_pos@.len() ==> (#[trigger] by_pos@[k] matches Some(a) ==> a
                        < args@.len()),
                goal == check_slots(
                    args@,
                    by_pos@,
                    i as nat,
                    Checked { s: self@, ok: res, ids: ids@ },
                ),
            decreases by_pos.len() - i,
        {
            if let Some(k) = by_pos[i] {
                match &args[k] {
                    PatternArg::Positional(q) => {
                        res = self.check_pattern_onto(q, res, ids);
                    },
                    PatternArg::Labeled { pattern: q, .. } => {
                        res = self.check_pattern_onto(q, res, ids);
                    },
                }
            }
            i = i + 1;
        }
        res
    }
}

} // verus!

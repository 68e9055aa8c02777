//! Compiling patterns.
use crate::ast::{ArrayPattern, Ident, Pattern, PatternArg, StrId};
use crate::binders::pattern_bound_names;
use crate::gen::{
    alternatives_from, any_slotted, array_from, array_pattern, array_pattern_body, fields_from,
    or_pattern, or_pattern_body, pattern, pattern_body, spread_place, tuple_from, tuple_pattern,
    Matching, OrMatching,
};
use crate::op::{Const, Op};
use crate::shapes::keys_of_pattern;
use crate::slots::{lemma_slotted_in_range, ArgKey};
use crate::state::{Compiler, State};
use crate::values::CtorInfo;
use vstd::prelude::*;

verus! {

fn find_spread(es: &Vec<ArrayPattern>) -> (res: Option<usize>)
    ensures
        match res {
            Some(i) => spread_place(es@, es@.len()) == Some(i as nat) && i < es@.len(),
            None => spread_place(es@, es@.len()) is None,
        },
{
    let mut n: usize = es.len();
    while n > 0
        invariant
            n <= es.len(),
            spread_place(es@, es@.len()) == spread_place(es@, n as nat),
        decreases n,
    {
        if let ArrayPattern::Spread { .. } = &es[n - 1] {
            return Some(n - 1);
        }
        n = n - 1;
    }
    None
}

fn some_slotted(by_pos: &Vec<Option<usize>>) -> (res: bool)
    ensures
        res == any_slotted(by_pos@, by_pos@.len()),
{
    let mut n: usize = by_pos.len();
    while n > 0
        invariant
            n <= by_pos.len(),
            any_slotted(by_pos@, by_pos@.len()) == any_slotted(by_pos@, n as nat),
        decreases n,
    {
        if by_pos[n - 1].is_some() {
            return true;
        }
        n = n - 1;
    }
    false
}

impl Compiler {
    /// Jump to the failure when the top of the stack is false.
    pub fn fail_if_false(&mut self, fails: &mut Vec<usize>)
        ensures
            ({
                let m = (Matching { s: old(self)@, fails: old(fails)@ }).fail_if_false();
                final(self)@ == m.s && final(fails)@ == m.fails
            }),
    {
        let at: usize = self.emit_jump(Op::JumpIfFalse);
        fails.push(at);
    }

    /// Compare the two topmost values and fail when they do not stand in the
    /// relation.
    pub(crate) fn require(&mut self, o: Op, fails: &mut Vec<usize>)
        ensures
            ({
                let m = (Matching { s: old(self)@, fails: old(fails)@ }).require(o);
                final(self)@ == m.s && final(fails)@ == m.fails
            }),
    {
        self.emit(o);
        self.fail_if_false(fails);
    }

    /// Store the top of the stack under a name.
    pub fn store_name(&mut self, name: StrId)
        ensures
            final(self)@ == old(self)@.store_name(name),
    {
        let slot: i32 = self.get_or_create_local(name);
        self.emit_arg(Op::StoreLocal, slot);
    }

    /// Match a boolean constructor. Returns whether the type is the boolean one.
    pub(crate) fn try_emit_bool_match(
        &mut self,
        id: crate::prelude_bindings::TypeId,
        variant: StrId,
        fails: &mut Vec<usize>,
    ) -> (res: bool)
        ensures
            res == old(self)@.is_bool(id),
            ({
                let m = Matching { s: old(self)@, fails: old(fails)@ };
                let n = if res {
                    m.at(m.s.bool_value(variant)).require(Op::Eq)
                } else {
                    m
                };
                final(self)@ == n.s && final(fails)@ == n.fails
            }),
    {
        if !self.try_emit_bool_value(id, variant) {
            return false;
        }
        self.require(Op::Eq, fails);
        true
    }

    /// Match a pattern against the value on top of the stack, which is consumed
    /// on every path. The jumps to take when it does not match are added to
    /// `fails`.
    pub fn emit_pattern(&mut self, p: &Pattern, fails: &mut Vec<usize>)
        ensures
            ({
                let m = pattern(*p, Matching { s: old(self)@, fails: old(fails)@ });
                final(self)@ == m.s && final(fails)@ == m.fails
            }),
        decreases *p, 1nat,
    {
        proof {
            reveal(pattern_body);
            assert(pattern(*p, Matching { s: self@, fails: fails@ }) == pattern_body(*p, Matching { s: self@, fails: fails@ }));
        }
        match p {
            Pattern::Binary { segments, rest, .. } => self.emit_binary_pattern(
                segments,
                *rest,
                fails,
            ),
            Pattern::Wildcard { .. } => self.emit(Op::Pop),
            Pattern::Var { id, .. } => {
                if self.world().names.is(id.name, "_") {
                    self.emit(Op::Pop);
                } else {
                    self.store_name(id.name);
                }
            },
            Pattern::Number { literal: n, .. } => {
                self.push_number(*n);
                self.require(Op::Eq, fails);
            },
            Pattern::Str { value, .. } => {
                self.push_const(Const::Str(*value));
                self.require(Op::Eq, fails);
            },
            Pattern::Range { start, end, .. } => {
                let temp: i32 = self.spill_temp();
                self.emit_arg(Op::PushLocal, temp);
                self.emit_range_bound(start);
                self.require(Op::Gte, fails);
                self.emit_arg(Op::PushLocal, temp);
                self.emit_range_bound(end);
                self.require(Op::Lt, fails);
            },
            Pattern::Tuple { elements, .. } => self.emit_tuple_pattern(elements, fails),
            Pattern::Array { elements, .. } => self.emit_array_pattern(elements, fails),
            Pattern::Constructor { name, args, .. } => self.emit_ctor_pattern(
                *name,
                args,
                fails,
                Ghost(*p),
            ),
            Pattern::Or { patterns, .. } => self.emit_or_pattern(patterns, fails),
        }
    }

    /// Match the elements of a tuple.
    pub(crate) fn emit_tuple_pattern(&mut self, elements: &Vec<Pattern>, fails: &mut Vec<usize>)
        ensures
            ({
                let m = tuple_pattern(elements@, Matching { s: old(self)@, fails: old(fails)@ });
                final(self)@ == m.s && final(fails)@ == m.fails
            }),
        decreases elements@, 0nat,
    {
        let temp: i32 = self.spill_temp();
        let mut i: usize = 0;
        let ghost goal = tuple_from(
            elements@,
            0,
            temp,
            Matching { s: self@, fails: fails@ },
        );
        while i < elements.len()
            invariant
                i <= elements.len(),
                goal == tuple_from(
                    elements@,
                    i as nat,
                    temp,
                    Matching { s: self@, fails: fails@ },
                ),
            decreases elements.len() - i,
        {
            self.emit_arg(Op::PushLocal, temp);
            self.emit_arg(Op::TupleIndex, i as i32);
            self.emit_pattern(&elements[i], fails);
            i = i + 1;
        }
    }

    /// Match the elements of an array, and what a spread takes of the rest.
    pub(crate) fn emit_array_pattern(&mut self, elements: &Vec<ArrayPattern>, fails: &mut Vec<usize>)
        ensures
            ({
                let m = array_pattern(elements@, Matching { s: old(self)@, fails: old(fails)@ });
                final(self)@ == m.s && final(fails)@ == m.fails
            }),
        decreases elements@, 0nat,
    {
        proof {
            reveal(array_pattern_body);
            assert(array_pattern(elements@, Matching { s: self@, fails: fails@ }) == array_pattern_body(elements@, Matching { s: self@, fails: fails@ }));
        }
        let place: Option<usize> = find_spread(elements);
        let count: usize = match place {
            Some(i) => i,
            None => elements.len(),
        };
        let temp: i32 = self.spill_temp();
        self.emit_arg(Op::PushLocal, temp);
        self.emit(Op::ArrayLen);
        self.push_int(count as i64);
        if place.is_some() {
            self.require(Op::Gte, fails);
        } else {
            self.require(Op::Eq, fails);
        }
        let mut i: usize = 0;
        let ghost goal = array_from(
            elements@,
            0,
            count as nat,
            temp,
            Matching { s: self@, fails: fails@ },
        );
        while i < count
            invariant
                i <= count,
                count <= elements.len(),
                goal == array_from(
                    elements@,
                    i as nat,
                    count as nat,
                    temp,
                    Matching { s: self@, fails: fails@ },
                ),
            decreases count - i,
        {
            if let ArrayPattern::Item(q) = &elements[i] {
                self.emit_arg(Op::PushLocal, temp);
                self.emit_arg(Op::ElemAt, i as i32);
                self.emit_pattern(q, fails);
            }
            i = i + 1;
        }
        if let Some(k) = place {
            if let ArrayPattern::Spread { binding: Some(id), .. } = &elements[k] {
                self.emit_arg(Op::PushLocal, temp);
                self.push_int(count as i64);
                self.emit(Op::Drop);
                self.store_name(id.name);
            }
        }
    }

    /// Match the alternatives of an or-pattern.
    pub(crate) fn emit_or_pattern(&mut self, patterns: &Vec<Pattern>, fails: &mut Vec<usize>)
        ensures
            ({
                let m = or_pattern(patterns@, Matching { s: old(self)@, fails: old(fails)@ });
                final(self)@ == m.s && final(fails)@ == m.fails
            }),
        decreases patterns@, 0nat,
    {
        proof {
            reveal(or_pattern_body);
            assert(or_pattern(patterns@, Matching { s: self@, fails: fails@ }) == or_pattern_body(patterns@, Matching { s: self@, fails: fails@ }));
        }
        let temp: i32 = self.spill_temp();
        let mut matched: Vec<usize> = Vec::new();
        let mut i: usize = 0;
        let ghost goal = alternatives_from(
            patterns@,
            0,
            temp,
            OrMatching {
                m: Matching { s: self@, fails: fails@ },
                matched: Seq::empty(),
            },
        );
        while i < patterns.len()
            invariant
                i <= patterns.len(),
                goal == alternatives_from(
                    patterns@,
                    i as nat,
                    temp,
                    OrMatching {
                        m: Matching { s: self@, fails: fails@ },
                        matched: matched@,
                    },
                ),
            decreases patterns.len() - i,
        {
            let mut alt_fails: Vec<usize> = Vec::new();
            self.emit_arg(Op::PushLocal, temp);
            self.emit_pattern(&patterns[i], &mut alt_fails);
            if i == 0 && patterns.len() > 1 {
                let mut ids: Vec<Ident> = Vec::new();
                pattern_bound_names(&self.world().names, &patterns[0], &mut ids);
                self.push_overrides(&ids);
            }
            if i < patterns.len() - 1 {
                let at: usize = self.emit_jump(Op::Jump);
                matched.push(at);
                self.patch_all(&alt_fails);
            } else {
                let ghost before = fails@;
                let ghost added = alt_fails@;
                fails.append(&mut alt_fails);
                assert(fails@ =~= before + added);
            }
            i = i + 1;
        }
        if patterns.len() > 1 {
            self.pop_overrides();
        }
        self.patch_all(&matched);
    }

    /// Match a constructor pattern.
    pub(crate) fn emit_ctor_pattern(
        &mut self,
        name: Ident,
        args: &Vec<PatternArg>,
        fails: &mut Vec<usize>,
        Ghost(p): Ghost<Pattern>,
    )
        requires
            p matches Pattern::Constructor { name: n, args: a, .. } && n == name && a == *args,
        ensures
            ({
                let m = pattern(p, Matching { s: old(self)@, fails: old(fails)@ });
                final(self)@ == m.s && final(fails)@ == m.fails
            }),
        decreases p, 0nat,
    {
        proof {
            reveal(pattern_body);
            assert(pattern(p, Matching { s: self@, fails: fails@ }) == pattern_body(p, Matching { s: self@, fails: fails@ }));
        }
        let v: CtorInfo = match self.lookup_ctor(name.name) {
            Some(v) => v,
            None => {
                self.emit(Op::Pop);
                return;
            },
        };
        if self.try_emit_bool_match(v.type_id, name.name, fails) {
            return;
        }
        let temp: i32 = self.spill_temp();
        self.emit_arg(Op::PushLocal, temp);
        self.emit_match_header(v.type_id, name.name);
        self.require(Op::MatchEnum, fails);
        let arity: usize = v.shape.arity;
        if arity == 0 {
            return;
        }
        let keys: Vec<ArgKey> = keys_of_pattern(args);
        proof {
            lemma_slotted_in_range(self@, v.shape, false, keys@, None, args@.len() as int);
        }
        let (by_pos, _ok): (Vec<Option<usize>>, bool) = self.slot_ctor_args(
            v.shape,
            &keys,
            None,
            false,
        );
        if !some_slotted(&by_pos) {
            return;
        }
        self.emit_arg(Op::PushLocal, temp);
        self.emit(Op::UnwrapEnum);
        let base: i32 = self.alloc_temps(arity as i32);
        let ghost s = self@;
        let mut n: usize = arity;
        while n > 0
            invariant
                n <= arity,
                arity <= u16::MAX,
                s.store_fields(base, arity as nat) == self@.store_fields(base, n as nat),
            decreases n,
        {
            proof {
                reveal(State::store_fields);
            }
            n = n - 1;
            self.emit_arg(Op::StoreLocal, base.wrapping_add(n as i32));
        }
        proof {
            reveal(State::store_fields);
        }
        let mut i: usize = 0;
        let ghost goal = fields_from(
            args@,
            by_pos@,
            0,
            base,
            Matching { s: self@, fails: fails@ },
        );
        while i < by_pos.len()
            invariant
                i <= by_pos.len(),
                by_pos@.len() <= u16::MAX,
                decreases_to!(p => args@),
                forall|k: int|
                    0 <= k < by_pos@.len() ==> (#[trigger] by_pos@[k] matches Some(a) ==> a
                        < args@.len()),
                goal == fields_from(
                    args@,
                    by_pos@,
                    i as nat,
                    base,
                    Matching { s: self@, fails: fails@ },
                ),
            decreases by_pos.len() - i,
        {
            if let Some(k) = by_pos[i] {
                self.emit_arg(Op::PushLocal, base.wrapping_add(i as i32));
                match &args[k] {
                    PatternArg::Positional(q) => self.emit_pattern(q, fails),
                    PatternArg::Labeled { pattern: q, .. } => self.emit_pattern(q, fails),
                }
            }
            i = i + 1;
        }
    }
}

} // verus!

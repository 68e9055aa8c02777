//! What does not depend on what has been produced.
//!
//! A state is muted by taking away what it has produced. Every step of the compiler leads
//! from a muted state to where it leads from the state itself, muted: diagnostics, scopes,
//! references and all that is known are the same whether code is emitted or not.
use crate::ast::{Annotation, Ident, Receiver, Span, StrId, TypeFault, TypeMention};
use crate::diag::{Diagnostic, Message};
use crate::gen::{Arms, Base, BinMatching, Checked, Group, Matching, OrMatching};
use crate::op::{ConstView, FunctionView, Instruction, Op};
use crate::prelude_bindings::TypeId;
use crate::refs::{defid_at, DefId, DefinitionLocation, ReferenceKind};
use crate::state::{Binding, Known, Output, Refs, Sighting, State, VarAccess};
use vstd::prelude::*;

pub mod calls;
pub mod checks;
pub mod exprs;
pub mod matches;
pub mod modules;
pub mod passes;
pub mod patterns;
pub mod pieces;
pub mod recover;
pub mod segments;
pub mod statements;
pub mod steps;

verus! {

impl State {
    /// The state without what it has produced, only checking from here on, without the
    /// points in the output where modules began, and without what is only remembered: who
    /// imports whom, which modules were met, and how the names of types can be taken back.
    /// The names in `pre` count as seen before.
    #[verifier::opaque]
    pub open spec fn muted(self, pre: Seq<Sighting>) -> State {
        State {
            out: Output {
                code: Seq::empty(),
                consts: Seq::empty(),
                fns: Seq::empty(),
                entry: 0,
                check_only: true,
            },
            refs: Refs { met: all_keys(), seen: pre + self.refs.seen, ..self.refs },
            known: Known {
                marks: Map::empty(),
                dependents: Seq::empty(),
                log: Seq::empty(),
                ..self.known
            },
            ..self
        }
    }
}

/// Every key: nothing can be added.
pub open spec fn all_keys() -> Map<StrId, ()> {
    Map::new(|k: StrId| true, |k: StrId| ())
}

pub proof fn lemma_all_keys(key: StrId)
    ensures
        all_keys().insert(key, ()) == all_keys(),
{
    assert(all_keys().insert(key, ()) =~= all_keys());
}

/// As many jumps, all from the same place.
pub open spec fn nowhere(n: nat) -> Seq<usize> {
    Seq::new(n, |i: int| 0usize)
}

impl Matching {
    /// Pattern code under way in a muted state.
    #[verifier::opaque]
    pub open spec fn muted(self, pre: Seq<Sighting>) -> Matching {
        Matching { s: self.s.muted(pre), fails: nowhere(self.fails.len()) }
    }
}

impl BinMatching {
    /// Matching a binary in a muted state.
    pub open spec fn muted(self, pre: Seq<Sighting>) -> BinMatching {
        BinMatching { m: self.m.muted(pre), ..self }
    }
}

impl OrMatching {
    /// An or-pattern under way in a muted state.
    pub open spec fn muted(self, pre: Seq<Sighting>) -> OrMatching {
        OrMatching { m: self.m.muted(pre), matched: nowhere(self.matched.len()) }
    }
}

impl Checked {
    /// A check in a muted state.
    pub open spec fn muted(self, pre: Seq<Sighting>) -> Checked {
        Checked { s: self.s.muted(pre), ..self }
    }
}

impl Arms {
    /// A match under way in a muted state.
    pub open spec fn muted(self, pre: Seq<Sighting>) -> Arms {
        Arms { s: self.s.muted(pre), ends: nowhere(self.ends.len()), ok: self.ok }
    }
}

impl Group {
    /// A step through an array literal in a muted state.
    pub open spec fn muted(self, pre: Seq<Sighting>) -> Group {
        Group { s: self.s.muted(pre), ..self }
    }
}

impl Base {
    /// A record update under way in a muted state.
    pub open spec fn muted(self, pre: Seq<Sighting>) -> Base {
        Base { s: self.s.muted(pre), slot: self.slot }
    }
}

// ---- what is left ----------------------------------------------------------------

pub broadcast proof fn lemma_fields(pre: Seq<Sighting>, s: State)
    ensures
        (#[trigger] s.muted(pre)).loc == s.loc,
        s.muted(pre).refs.module == s.refs.module,
        s.muted(pre).refs.defs == s.refs.defs,
        s.muted(pre).refs.occs == s.refs.occs,
        s.muted(pre).refs.ctors == s.refs.ctors,
        s.muted(pre).refs.params == s.refs.params,
        s.muted(pre).refs.seen == pre + s.refs.seen,
        s.muted(pre).refs.owner == s.refs.owner,
        s.muted(pre).refs.current == s.refs.current,
        s.muted(pre).refs.collect == s.refs.collect,
        s.muted(pre).env == s.env,
        s.muted(pre).unused == s.unused,
        s.muted(pre).labels == s.labels,
        s.muted(pre).diags == s.diags,
        s.muted(pre).world == s.world,
        s.muted(pre).known.types == s.known.types,
        s.muted(pre).known.infos == s.known.infos,
        s.muted(pre).known.variants == s.known.variants,
        s.muted(pre).known.prelude == s.known.prelude,
        s.muted(pre).known.reserved == s.known.reserved,
        s.muted(pre).known.qualifiers == s.known.qualifiers,
        s.muted(pre).known.modules == s.known.modules,
        s.muted(pre).known.stored == s.known.stored,
        s.muted(pre).known.bases == s.known.bases,
        s.muted(pre).known.next == s.known.next,
        s.muted(pre).known.high == s.known.high,
        s.muted(pre).known.origin == s.known.origin,
        s.muted(pre).out.check_only,
{
    reveal(State::muted);
}

pub broadcast proof fn lemma_matching(pre: Seq<Sighting>, m: Matching)
    ensures
        (#[trigger] m.muted(pre)).s == m.s.muted(pre),
        m.muted(pre).fails == nowhere(m.fails.len()),
        m.muted(pre).fails.len() == m.fails.len(),
{
    reveal(Matching::muted);
}

pub broadcast proof fn lemma_at(pre: Seq<Sighting>, m: Matching, s: State)
    ensures
        #[trigger] m.at(s).muted(pre) == m.muted(pre).at(s.muted(pre)),
{
    reveal(Matching::muted);
}

pub broadcast proof fn lemma_checked_misfit(pre: Seq<Sighting>, c: Checked, faults: Seq<TypeFault>)
    ensures
        #[trigger] c.misfit(faults).muted(pre) == c.muted(pre).misfit(faults),
{
    lemma_misfit(pre, c.s, faults);
}

pub broadcast proof fn lemma_checked_fail(
    pre: Seq<Sighting>,
    c: Checked,
    message: Message,
    span: Span,
)
    ensures
        #[trigger] c.fail(message, span).muted(pre) == c.muted(pre).fail(message, span),
{
    lemma_error(pre, c.s, message, span);
}

pub broadcast proof fn lemma_checked_record(pre: Seq<Sighting>, c: Checked, ty: StrId, name: Ident)
    ensures
        #[trigger] c.record(ty, name).muted(pre) == c.muted(pre).record(ty, name),
{
    lemma_lookup(pre, c.s, name.name);
    lemma_record(pre, c.s, Some(ty), name, c.s.doc_of(name.name));
}

/// Matching begins without jumps.
pub proof fn lemma_fresh(pre: Seq<Sighting>, s: State)
    ensures
        (Matching { s, fails: Seq::empty() }).muted(pre) == (Matching {
            s: s.muted(pre),
            fails: Seq::empty(),
        }),
{
    reveal(Matching::muted);
    assert(nowhere(0) =~= Seq::<usize>::empty());
}

/// One more jump, from wherever the code of a muted state ends.
pub proof fn lemma_one_more(pre: Seq<Sighting>, s: State, n: nat)
    ensures
        nowhere(n + 1) == nowhere(n).push(s.muted(pre).pos()),
{
    reveal(State::muted);
    reveal(State::pos);
    assert(nowhere(n + 1) =~= nowhere(n).push(0));
}

/// The jumps of two patterns.
pub proof fn lemma_jumps_of_both(pre: Seq<Sighting>, m: Matching, n: Matching)
    ensures
        (Matching { s: n.s, fails: m.fails + n.fails }).muted(pre) == (Matching {
            s: n.s.muted(pre),
            fails: m.muted(pre).fails + n.muted(pre).fails,
        }),
{
    reveal(Matching::muted);
    assert(nowhere(m.fails.len()) + nowhere(n.fails.len()) =~= nowhere(
        m.fails.len() + n.fails.len(),
    ));
}

/// The jumps of one pattern, in another state.
pub proof fn lemma_jumps_of(pre: Seq<Sighting>, m: Matching, s: State)
    ensures
        (Matching { s, fails: m.fails }).muted(pre) == (Matching {
            s: s.muted(pre),
            fails: m.muted(pre).fails,
        }),
{
    reveal(Matching::muted);
}

pub broadcast proof fn lemma_fail_if_false(pre: Seq<Sighting>, m: Matching)
    ensures
        #[trigger] m.fail_if_false().muted(pre) == m.muted(pre).fail_if_false(),
{
    reveal(Matching::muted);
    reveal(State::muted);
    reveal(State::push);
    reveal(State::pos);
    assert(nowhere(m.fails.len() + 1) =~= nowhere(m.fails.len()).push(0));
}

pub broadcast proof fn lemma_require(pre: Seq<Sighting>, m: Matching, o: Op)
    ensures
        #[trigger] m.require(o).muted(pre) == m.muted(pre).require(o),
{
    lemma_fail_if_false(pre, m.at(m.s.emit(o)));
    lemma_at(pre, m, m.s.emit(o));
    reveal(Matching::muted);
    reveal(State::muted);
    reveal(State::push);
}

pub broadcast proof fn lemma_push(pre: Seq<Sighting>, s: State, ins: Instruction)
    ensures
        #[trigger] s.push(ins).muted(pre) == s.muted(pre),
{
    reveal(State::muted);
    reveal(State::push);
}

pub broadcast proof fn lemma_muted_push(pre: Seq<Sighting>, s: State, ins: Instruction)
    ensures
        #[trigger] s.muted(pre).push(ins) == s.muted(pre),
{
    reveal(State::muted);
    reveal(State::push);
}

pub broadcast proof fn lemma_patch(pre: Seq<Sighting>, s: State, pos: int)
    ensures
        #[trigger] s.patch(pos).muted(pre) == s.muted(pre),
{
    reveal(State::muted);
    reveal(State::patch);
}

pub broadcast proof fn lemma_muted_patch(pre: Seq<Sighting>, s: State, pos: int)
    ensures
        #[trigger] s.muted(pre).patch(pos) == s.muted(pre),
{
    reveal(State::muted);
    reveal(State::patch);
}

pub broadcast proof fn lemma_pool(pre: Seq<Sighting>, s: State, c: ConstView)
    ensures
        #[trigger] s.pool(c).muted(pre) == s.muted(pre),
{
    reveal(State::muted);
    reveal(State::pool);
}

pub broadcast proof fn lemma_muted_pool(pre: Seq<Sighting>, s: State, c: ConstView)
    ensures
        #[trigger] s.muted(pre).pool(c) == s.muted(pre),
{
    reveal(State::muted);
    reveal(State::pool);
}

pub broadcast proof fn lemma_add_fn(pre: Seq<Sighting>, s: State, f: FunctionView)
    ensures
        #[trigger] s.add_fn(f).muted(pre) == s.muted(pre),
{
    reveal(State::muted);
    reveal(State::add_fn);
}

pub broadcast proof fn lemma_muted_add_fn(pre: Seq<Sighting>, s: State, f: FunctionView)
    ensures
        #[trigger] s.muted(pre).add_fn(f) == s.muted(pre),
{
    reveal(State::muted);
    reveal(State::add_fn);
}

pub broadcast proof fn lemma_patch_all(pre: Seq<Sighting>, s: State, at: Seq<usize>, n: nat)
    ensures
        #[trigger] s.patch_all(at, n).muted(pre) == s.muted(pre),
    decreases n,
{
    reveal(State::patch_all);
    if n > 0 {
        lemma_patch_all(pre, s, at, (n - 1) as nat);
        lemma_patch(pre, s.patch_all(at, (n - 1) as nat), at[n - 1] as int);
    }
}

pub broadcast proof fn lemma_muted_patch_all(pre: Seq<Sighting>, s: State, at: Seq<usize>, n: nat)
    ensures
        #[trigger] s.muted(pre).patch_all(at, n) == s.muted(pre),
    decreases n,
{
    reveal(State::patch_all);
    if n > 0 {
        lemma_muted_patch_all(pre, s, at, (n - 1) as nat);
        lemma_muted_patch(pre, s, at[n - 1] as int);
    }
}

pub broadcast proof fn lemma_next_slot(pre: Seq<Sighting>, s: State)
    ensures
        #[trigger] s.muted(pre).next_slot() == s.next_slot(),
{
    reveal(State::muted);
    reveal(State::next_slot);
}

pub broadcast proof fn lemma_slot_of(pre: Seq<Sighting>, s: State, name: StrId)
    ensures
        #[trigger] s.muted(pre).slot_of(name) == s.slot_of(name),
{
    reveal(State::muted);
    reveal(State::slot_of);
}

pub broadcast proof fn lemma_has_local(pre: Seq<Sighting>, s: State, name: StrId)
    ensures
        #[trigger] s.muted(pre).has_local(name) == s.has_local(name),
{
    reveal(State::muted);
    reveal(State::has_local);
}

pub broadcast proof fn lemma_at_module_scope(pre: Seq<Sighting>, s: State)
    ensures
        #[trigger] s.muted(pre).at_module_scope() == s.at_module_scope(),
{
    reveal(State::muted);
    reveal(State::at_module_scope);
}

pub broadcast proof fn lemma_access(pre: Seq<Sighting>, s: State, name: StrId)
    ensures
        #[trigger] s.muted(pre).access(name) == s.access(name),
{
    reveal(State::muted);
    reveal(State::access);
}

pub broadcast proof fn lemma_lookup(pre: Seq<Sighting>, s: State, name: StrId)
    ensures
        #[trigger] s.muted(pre).lookup(name) == s.lookup(name),
{
    reveal(State::muted);
    reveal(State::lookup);
}

pub broadcast proof fn lemma_local_binding(
    pre: Seq<Sighting>,
    s: State,
    span: Span,
    doc: Option<StrId>,
)
    ensures
        #[trigger] s.muted(pre).local_binding(span, doc) == s.local_binding(span, doc),
{
    reveal(State::muted);
    reveal(State::local_binding);
}

pub broadcast proof fn lemma_captured(pre: Seq<Sighting>, s: State)
    ensures
        #[trigger] s.muted(pre).captured() == s.captured(),
{
    reveal(State::muted);
    reveal(State::captured);
}

pub broadcast proof fn lemma_is_bool(pre: Seq<Sighting>, s: State, id: TypeId)
    ensures
        #[trigger] s.muted(pre).is_bool(id) == s.is_bool(id),
{
    reveal(State::muted);
    reveal(State::is_bool);
}

pub broadcast proof fn lemma_field_decl(pre: Seq<Sighting>, s: State, ty: StrId, field: StrId)
    ensures
        #[trigger] s.muted(pre).field_decl(ty, field) == s.field_decl(ty, field),
{
    reveal(State::muted);
    reveal(State::field_decl);
}

pub broadcast proof fn lemma_or_failure(pre: Seq<Sighting>, s: State, left: Receiver)
    ensures
        #[trigger] s.muted(pre).or_failure(left) == s.or_failure(left),
{
    reveal(State::muted);
    reveal(State::or_failure);
}

pub broadcast proof fn lemma_set_tail(pre: Seq<Sighting>, s: State, tail: bool)
    ensures
        #[trigger] s.set_tail(tail).muted(pre) == s.muted(pre).set_tail(tail),
{
    reveal(State::muted);
    reveal(State::set_tail);
}

pub broadcast proof fn lemma_set_next_self(pre: Seq<Sighting>, s: State, name: Option<StrId>)
    ensures
        #[trigger] s.set_next_self(name).muted(pre) == s.muted(pre).set_next_self(name),
{
    reveal(State::muted);
    reveal(State::set_next_self);
}

pub broadcast proof fn lemma_take_slot(pre: Seq<Sighting>, s: State)
    ensures
        #[trigger] s.take_slot().muted(pre) == s.muted(pre).take_slot(),
{
    reveal(State::muted);
    reveal(State::take_slot);
}

pub broadcast proof fn lemma_take_slots(pre: Seq<Sighting>, s: State, n: i32)
    ensures
        #[trigger] s.take_slots(n).muted(pre) == s.muted(pre).take_slots(n),
{
    reveal(State::muted);
    reveal(State::take_slots);
}

pub broadcast proof fn lemma_bind_raw(pre: Seq<Sighting>, s: State, name: StrId, slot: i32)
    ensures
        #[trigger] s.bind_raw(name, slot).muted(pre) == s.muted(pre).bind_raw(name, slot),
{
    reveal(State::muted);
    reveal(State::bind_raw);
}

pub broadcast proof fn lemma_bind(pre: Seq<Sighting>, s: State, name: StrId, slot: i32)
    ensures
        #[trigger] s.bind(name, slot).muted(pre) == s.muted(pre).bind(name, slot),
{
    reveal(State::muted);
    reveal(State::bind);
}

pub broadcast proof fn lemma_reserve(pre: Seq<Sighting>, s: State, name: StrId)
    ensures
        #[trigger] s.reserve(name).muted(pre) == s.muted(pre).reserve(name),
{
    reveal(State::muted);
    reveal(State::reserve);
}

pub broadcast proof fn lemma_push_locals(pre: Seq<Sighting>, s: State)
    ensures
        #[trigger] s.push_locals().muted(pre) == s.muted(pre).push_locals(),
{
    reveal(State::muted);
    reveal(State::push_locals);
}

pub broadcast proof fn lemma_pop_locals(pre: Seq<Sighting>, s: State)
    ensures
        #[trigger] s.pop_locals().muted(pre) == s.muted(pre).pop_locals(),
{
    reveal(State::muted);
    reveal(State::pop_locals);
    reveal(State::pop_unused);
}

pub broadcast proof fn lemma_pop_unused(pre: Seq<Sighting>, s: State)
    ensures
        #[trigger] s.pop_unused().muted(pre) == s.muted(pre).pop_unused(),
{
    reveal(State::muted);
    reveal(State::pop_unused);
}

pub broadcast proof fn lemma_error(pre: Seq<Sighting>, s: State, message: Message, span: Span)
    ensures
        #[trigger] s.error(message, span).muted(pre) == s.muted(pre).error(message, span),
{
    reveal(State::muted);
    reveal(State::error);
}

pub broadcast proof fn lemma_note(pre: Seq<Sighting>, s: State, message: Message, span: Span)
    ensures
        #[trigger] s.note(message, span).muted(pre) == s.muted(pre).note(message, span),
{
    reveal(State::muted);
    reveal(State::note);
}

pub broadcast proof fn lemma_track(pre: Seq<Sighting>, s: State, name: StrId, span: Span)
    ensures
        #[trigger] s.track(name, span).muted(pre) == s.muted(pre).track(name, span),
{
    reveal(State::muted);
    reveal(State::track);
    reveal(State::error);
}

pub broadcast proof fn lemma_mark_used(pre: Seq<Sighting>, s: State, name: StrId)
    ensures
        #[trigger] s.mark_used(name).muted(pre) == s.muted(pre).mark_used(name),
{
    reveal(State::muted);
    reveal(State::mark_used);
}

pub broadcast proof fn lemma_resolve(pre: Seq<Sighting>, s: State, name: StrId)
    ensures
        #[trigger] s.resolve(name).muted(pre) == s.muted(pre).resolve(name),
{
    reveal(State::muted);
    reveal(State::resolve);
    reveal(State::mark_used);
}

pub broadcast proof fn lemma_define(pre: Seq<Sighting>, s: State, name: StrId, b: Binding)
    ensures
        #[trigger] s.define(name, b).muted(pre) == s.muted(pre).define(name, b),
{
    reveal(State::muted);
    reveal(State::define);
}

pub broadcast proof fn lemma_push_env(pre: Seq<Sighting>, s: State)
    ensures
        #[trigger] s.push_env().muted(pre) == s.muted(pre).push_env(),
{
    reveal(State::muted);
    reveal(State::push_env);
}

pub broadcast proof fn lemma_pop_env(pre: Seq<Sighting>, s: State)
    ensures
        #[trigger] s.pop_env().muted(pre) == s.muted(pre).pop_env(),
{
    reveal(State::muted);
    reveal(State::pop_env);
}

pub broadcast proof fn lemma_push_pins(pre: Seq<Sighting>, s: State, ids: Seq<Ident>)
    ensures
        #[trigger] s.push_pins(ids).muted(pre) == s.muted(pre).push_pins(ids),
{
    reveal(State::muted);
    reveal(State::push_pins);
}

pub broadcast proof fn lemma_pop_pins(pre: Seq<Sighting>, s: State)
    ensures
        #[trigger] s.pop_pins().muted(pre) == s.muted(pre).pop_pins(),
{
    reveal(State::muted);
    reveal(State::pop_pins);
}

pub broadcast proof fn lemma_refer(
    pre: Seq<Sighting>,
    s: State,
    span: Span,
    kind: ReferenceKind,
    target: DefId,
)
    ensures
        #[trigger] s.refer(span, kind, target).muted(pre) == s.muted(pre).refer(span, kind, target),
{
    lemma_all_keys(target.module);
    reveal(State::muted);
    reveal(State::refer);
}

pub broadcast proof fn lemma_def(
    pre: Seq<Sighting>,
    s: State,
    dl: DefinitionLocation,
    name: StrId,
    doc: Option<StrId>,
    public: bool,
)
    ensures
        #[trigger] s.def(dl, name, doc, public).muted(pre)
            == s.muted(pre).def(dl, name, doc, public),
{
    lemma_all_keys(defid_at(dl).module);
    reveal(State::muted);
    reveal(State::def);
}

pub broadcast proof fn lemma_record(
    pre: Seq<Sighting>,
    s: State,
    qualifier: Option<StrId>,
    id: Ident,
    doc: Option<StrId>,
)
    ensures
        #[trigger] s.record(qualifier, id, doc).muted(pre)
            == s.muted(pre).record(qualifier, id, doc),
{
    reveal(State::muted);
    reveal(State::record);
    let x = Sighting {
        module: s.refs.current,
        span: id.span,
        qualifier,
        name: id.name,
        doc,
    };
    assert((pre + s.refs.seen).push(x) =~= pre + s.refs.seen.push(x));
}

pub broadcast proof fn lemma_value_def(
    pre: Seq<Sighting>,
    s: State,
    span: Span,
    name: StrId,
    doc: Option<StrId>,
)
    ensures
        #[trigger] s.value_def(span, name, doc).muted(pre)
            == s.muted(pre).value_def(span, name, doc),
{
    lemma_all_keys(s.refs.current);
    reveal(State::muted);
    reveal(State::value_def);
    reveal(State::def);
}

pub broadcast proof fn lemma_misfit(pre: Seq<Sighting>, s: State, faults: Seq<TypeFault>)
    ensures
        #[trigger] s.misfit(faults).muted(pre) == s.muted(pre).misfit(faults),
{
    reveal(State::muted);
    reveal(State::misfit);
}

pub broadcast proof fn lemma_report_all(pre: Seq<Sighting>, s: State, reports: Seq<Diagnostic>)
    ensures
        #[trigger] s.report_all(reports).muted(pre) == s.muted(pre).report_all(reports),
{
    reveal(State::muted);
    reveal(State::report_all);
}

pub broadcast proof fn lemma_enter(pre: Seq<Sighting>, s: State, declared: Option<StrId>)
    ensures
        #[trigger] s.enter(declared).muted(pre) == s.muted(pre).enter(declared),
{
    reveal(State::muted);
    reveal(State::enter);
    reveal(State::push);
}

pub broadcast proof fn lemma_load(pre: Seq<Sighting>, s: State, a: VarAccess)
    ensures
        #[trigger] s.load(a).muted(pre) == s.muted(pre),
        #[trigger] s.muted(pre).load(a) == s.muted(pre),
{
    match a {
        VarAccess::Local(i) => {
            lemma_push(pre, s, crate::op::instr(Op::PushLocal, 0, 0, i));
            lemma_muted_push(pre, s, crate::op::instr(Op::PushLocal, 0, 0, i));
        },
        VarAccess::Capture(i) => {
            lemma_push(pre, s, crate::op::instr(Op::PushCapture, 0, 0, i));
            lemma_muted_push(pre, s, crate::op::instr(Op::PushCapture, 0, 0, i));
        },
        VarAccess::Global(i) => {
            lemma_push(pre, s, crate::op::instr(Op::PushGlobal, 0, 0, i));
            lemma_muted_push(pre, s, crate::op::instr(Op::PushGlobal, 0, 0, i));
        },
        VarAccess::Self_ => {
            lemma_push(pre, s, crate::op::instr(Op::PushSelf, 0, 0, 0));
            lemma_muted_push(pre, s, crate::op::instr(Op::PushSelf, 0, 0, 0));
        },
    }
}

pub broadcast proof fn lemma_register(pre: Seq<Sighting>, s: State, id: Ident, doc: Option<StrId>)
    ensures
        #[trigger] s.register(id, doc).muted(pre) == s.muted(pre).register(id, doc),
{
    let b = s.local_binding(id.span, doc);
    lemma_local_binding(pre, s, id.span, doc);
    let t = s.define(id.name, b);
    let u = t.track(id.name, id.span);
    let r = u.record(None, id, doc);
    lemma_define(pre, s, id.name, b);
    lemma_track(pre, t, id.name, id.span);
    lemma_record(pre, u, None, id, doc);
    lemma_value_def(pre, r, id.span, id.name, doc);
}

pub broadcast proof fn lemma_bind_ident(pre: Seq<Sighting>, s: State, id: Ident)
    ensures
        #[trigger] s.bind_ident(id).muted(pre) == s.muted(pre).bind_ident(id),
{
    lemma_reserve(pre, s, id.name);
    lemma_register(pre, s.reserve(id.name), id, None);
}

pub broadcast proof fn lemma_bind_idents(pre: Seq<Sighting>, s: State, ids: Seq<Ident>, n: nat)
    ensures
        #[trigger] s.bind_idents(ids, n).muted(pre) == s.muted(pre).bind_idents(ids, n),
    decreases n,
{
    reveal(State::bind_idents);
    if n > 0 {
        lemma_bind_idents(pre, s, ids, (n - 1) as nat);
        lemma_bind_ident(pre, s.bind_idents(ids, (n - 1) as nat), ids[n - 1]);
    }
}

pub broadcast proof fn lemma_mention(pre: Seq<Sighting>, s: State, list: Seq<TypeMention>, n: nat)
    ensures
        #[trigger] s.mention(list, n).muted(pre) == s.muted(pre).mention(list, n),
    decreases n,
{
    reveal(State::mention);
    if n > 0 {
        let t = s.mention(list, (n - 1) as nat);
        lemma_mention(pre, s, list, (n - 1) as nat);
        let m = list[n - 1];
        lemma_fields(pre, t);
        if let Some(id) = t.type_in(m.module, m.name) {
            lemma_refer(pre, t, m.span, ReferenceKind::Unqualified, id);
        }
    }
}

pub broadcast proof fn lemma_hydrate(pre: Seq<Sighting>, s: State, a: Annotation)
    ensures
        #[trigger] s.hydrate(a).muted(pre) == s.muted(pre).hydrate(a),
{
    reveal(State::hydrate);
    let t = s.mention(a.mentions@, a.mentions@.len());
    lemma_mention(pre, s, a.mentions@, a.mentions@.len());
    if let Some((fault, span)) = a.fault {
        lemma_error(pre, t, Message::BadAnnotation { fault }, span);
    }
}

pub broadcast proof fn lemma_hydrate_all(
    pre: Seq<Sighting>,
    s: State,
    list: Seq<Annotation>,
    n: nat,
)
    ensures
        #[trigger] s.hydrate_all(list, n).muted(pre) == s.muted(pre).hydrate_all(list, n),
    decreases n,
{
    reveal(State::hydrate_all);
    if n > 0 {
        lemma_hydrate_all(pre, s, list, (n - 1) as nat);
        lemma_hydrate(pre, s.hydrate_all(list, (n - 1) as nat), list[n - 1]);
    }
}

pub broadcast proof fn lemma_bind_params(
    pre: Seq<Sighting>,
    s: State,
    ids: Seq<Ident>,
    list: Seq<Annotation>,
    n: nat,
)
    ensures
        #[trigger] s.bind_params(ids, list, n).muted(pre) == s.muted(pre).bind_params(ids, list, n),
    decreases n,
{
    reveal(State::bind_params);
    if n > 0 {
        let t = s.bind_params(ids, list, (n - 1) as nat);
        lemma_bind_params(pre, s, ids, list, (n - 1) as nat);
        if n - 1 < list.len() {
            lemma_hydrate(pre, t, list[n - 1]);
        }
        lemma_bind_ident(pre, t.hydrate_at(list, n - 1), ids[n - 1]);
    }
}

pub proof fn lemma_load_captured(pre: Seq<Sighting>, s: State, captured: Seq<StrId>, n: nat)
    ensures
        s.load_captured(captured, n).muted(pre) == s.muted(pre).load_captured(captured, n),
    decreases n,
{
    reveal(State::load_captured);
    if n > 0 {
        let t = s.load_captured(captured, (n - 1) as nat);
        let name = captured[n - 1];
        lemma_load_captured(pre, s, captured, (n - 1) as nat);
        lemma_access(pre, t, name);
        lemma_resolve(pre, t, name);
        if let Some(a) = t.access(name) {
            lemma_load(pre, t.resolve(name), a);
        }
    }
}

/// Closing a function gives back the frame around it, whatever was produced in between.
pub broadcast proof fn lemma_finish(
    pre: Seq<Sighting>,
    t: State,
    s: State,
    name: Seq<char>,
    arity: i32,
)
    ensures
        #[trigger] t.finish(s.frame(), name, arity).muted(pre) == t.muted(pre).finish(
            s.muted(pre).frame(),
            name,
            arity,
        ),
{
    reveal(State::finish);
    let (f, g) = (s.frame(), s.muted(pre).frame());
    let a = t.emit(Op::Ret).pop_env().pop_unused();
    let b = t.muted(pre).emit(Op::Ret).pop_env().pop_unused();
    lemma_push(pre, t, crate::op::instr(Op::Ret, 0, 0, 0));
    lemma_muted_push(pre, t, crate::op::instr(Op::Ret, 0, 0, 0));
    lemma_pop_env(pre, t.emit(Op::Ret));
    lemma_pop_unused(pre, t.emit(Op::Ret).pop_env());
    assert(a.muted(pre) == b);
    let u = a.patch(f.jump_over as int);
    let v = b.patch(g.jump_over as int);
    lemma_patch(pre, a, f.jump_over as int);
    lemma_muted_patch(pre, a, g.jump_over as int);
    assert(u.muted(pre) == v);
    let w = u.add_fn(u.closed_fn(f, name, arity));
    let x = v.add_fn(v.closed_fn(g, name, arity));
    lemma_add_fn(pre, u, u.closed_fn(f, name, arity));
    lemma_muted_add_fn(pre, u, v.closed_fn(g, name, arity));
    assert(w.muted(pre) == x);
    assert(w.leave(f).muted(pre) == x.leave(g)) by {
        reveal(State::frame);
        reveal(State::leave);
        reveal(State::muted);
    }
    lemma_captured(pre, u);
    let y = w.leave(f);
    lemma_load_captured(pre, y, u.captured(), u.captured().len());
    let z = y.load_captured(u.captured(), u.captured().len());
    lemma_push(pre, z, crate::op::instr(Op::MakeClosure, 0, 0, y.last_fn()));
    lemma_muted_push(pre, z, crate::op::instr(Op::MakeClosure, 0, 0, x.leave(g).last_fn()));
}

/// What muting leaves of every step.
pub broadcast group group_muting {
    lemma_checked_misfit,
    lemma_checked_fail,
    lemma_checked_record,
    lemma_fields,
    lemma_matching,
    lemma_at,
    lemma_fail_if_false,
    lemma_require,
    lemma_push,
    lemma_muted_push,
    lemma_patch,
    lemma_muted_patch,
    lemma_pool,
    lemma_muted_pool,
    lemma_add_fn,
    lemma_muted_add_fn,
    lemma_patch_all,
    lemma_muted_patch_all,
    lemma_next_slot,
    lemma_slot_of,
    lemma_has_local,
    lemma_at_module_scope,
    lemma_access,
    lemma_lookup,
    lemma_local_binding,
    lemma_captured,
    lemma_is_bool,
    lemma_field_decl,
    lemma_or_failure,
    lemma_set_tail,
    lemma_set_next_self,
    lemma_take_slot,
    lemma_take_slots,
    lemma_bind_raw,
    lemma_bind,
    lemma_reserve,
    lemma_push_locals,
    lemma_pop_locals,
    lemma_pop_unused,
    lemma_error,
    lemma_note,
    lemma_track,
    lemma_mark_used,
    lemma_resolve,
    lemma_define,
    lemma_push_env,
    lemma_pop_env,
    lemma_push_pins,
    lemma_pop_pins,
    lemma_refer,
    lemma_def,
    lemma_record,
    lemma_value_def,
    lemma_misfit,
    lemma_report_all,
    lemma_enter,
    lemma_load,
    lemma_register,
    lemma_bind_ident,
    lemma_bind_idents,
    lemma_hydrate,
    lemma_hydrate_all,
    lemma_bind_params,
    lemma_finish,
}

} // verus!

//! What compiling adds to.
//!
//! A module is compiled, and those it imports with it, by adding to what has been
//! produced, reported, pooled and declared; no step takes anything back.
use crate::ast::{Annotation, Expr, Ident, Span, StrId, TypeFault};
use crate::balance::exprs::lemma_expr;
use crate::diag::Message;
use crate::gen::expr;
use crate::landing::{lands, lemma_lands_on, lemma_same_out};
use crate::loader::ParseFault;
use crate::op::Instruction;
use crate::prelude_bindings::TypeId;
use crate::refs::{DefId, Definition, DefinitionLocation, ReferenceKind, References};
use crate::scopes::{
    begins_with, extends, from_here, leaves, lemma_leaves_extends, lemma_unwound, same_block, steady,
};
use crate::state::{
    entry_of, unwound, Binding, FieldDef, Interface, Origin, State, TypeInfo, VariantInfo,
    Watermark,
};
use vstd::prelude::*;

verus! {

/// Whether two states are in the same scopes, of which only the innermost may differ.
pub open spec fn same_outer(s: State, t: State) -> bool {
    &&& t.env.len() == s.env.len()
    &&& s.env.len() > 0 ==> t.env.drop_last() == s.env.drop_last()
    &&& s.env.len() > 1 ==> t.rooted == s.rooted
}

/// Whether the identities of every module's types begin where they did.
pub open spec fn keeps_bases(s: State, t: State) -> bool {
    forall|k: StrId| #[trigger]
        s.known.bases.dom().contains(k) ==> t.known.bases.dom().contains(k) && t.known.bases[k]
            == s.known.bases[k]
}

/// Whether a state comes from another by adding to it: to the code, whose jumps land
/// in what was added, to what is reported, to the pools of labels and constructors, and
/// to the log of the names of types, by which these names can be taken back. The scopes
/// around the innermost one are as they were.
#[verifier::opaque]
pub open spec fn adds(s: State, t: State) -> bool {
    &&& t.world == s.world
    &&& lands(s, t)
    &&& same_outer(s, t)
    &&& begins_with(t.diags, s.diags)
    &&& begins_with(t.labels, s.labels)
    &&& begins_with(t.known.variants, s.known.variants)
    &&& begins_with(t.known.fields, s.known.fields)
    &&& begins_with(t.known.log, s.known.log)
    &&& keeps_bases(s, t)
    &&& unwound(t.known.types, t.known.log, s.known.log.len()) == s.known.types
}

/// Whether the same modules are loaded, and no more have been compiled.
pub open spec fn same_modules(s: State, t: State) -> bool {
    &&& t.known.modules == s.known.modules
    &&& t.known.marks == s.known.marks
    &&& t.known.count == s.known.count
    &&& t.known.spilled == s.known.spilled
}

/// Whether a state comes from another by adding to it without loading a module.
pub open spec fn grows(s: State, t: State) -> bool {
    adds(s, t) && same_modules(s, t)
}

/// Whether a state comes from another by adding to it and loading modules: those that
/// were loaded are as they were, and none of those under way is loaded.
#[verifier::opaque]
pub open spec fn loads(s: State, t: State, under_way: Seq<StrId>) -> bool {
    &&& adds(s, t)
    &&& forall|k: StrId| #[trigger]
        s.known.modules.dom().contains(k) ==> t.known.modules.dom().contains(k)
            && t.known.modules[k] == s.known.modules[k]
    &&& forall|k: StrId| #[trigger]
        t.known.modules.dom().contains(k) && under_way.contains(k)
            ==> s.known.modules.dom().contains(k)
}

proof fn lemma_begins_self<T>(a: Seq<T>)
    ensures
        begins_with(a, a),
{
    assert(a.take(a.len() as int) =~= a);
}

proof fn lemma_begins_more<T>(a: Seq<T>, b: Seq<T>)
    ensures
        begins_with(a + b, a),
{
    assert((a + b).take(a.len() as int) =~= a);
}

proof fn lemma_begins_on<T>(a: Seq<T>, b: Seq<T>, c: Seq<T>)
    requires
        begins_with(b, a),
        begins_with(c, b),
    ensures
        begins_with(c, a),
{
    assert(c.take(a.len() as int) =~= c.take(b.len() as int).take(a.len() as int));
}

/// A step that touches none of what grows.
proof fn lemma_untouched(s: State, t: State)
    requires
        t.world == s.world,
        t.out == s.out,
        same_outer(s, t),
        keeps_bases(s, t),
        t.diags == s.diags,
        t.labels == s.labels,
        t.known.variants == s.known.variants,
        t.known.fields == s.known.fields,
        t.known.log == s.known.log,
        t.known.types == s.known.types,
        same_modules(s, t),
    ensures
        grows(s, t),
{
    reveal(adds);
    lemma_same_out(s, t);
    lemma_begins_self(s.diags);
    lemma_begins_self(s.labels);
    lemma_begins_self(s.known.variants);
    lemma_begins_self(s.known.log);
    lemma_begins_self(s.known.fields);
}

/// A name of a type that is bound anew can be taken back.
proof fn lemma_type_bound(s: State, t: State, name: StrId, id: TypeId)
    requires
        t.world == s.world,
        t.out == s.out,
        same_outer(s, t),
        keeps_bases(s, t),
        t.diags == s.diags,
        t.labels == s.labels,
        t.known.variants == s.known.variants,
        t.known.fields == s.known.fields,
        t.known.log == s.known.log.push((name, entry_of(s.known.types, name))),
        t.known.types == s.known.types.insert(name, id),
        same_modules(s, t),
    ensures
        grows(s, t),
{
    reveal(adds);
    lemma_same_out(s, t);
    lemma_begins_self(s.diags);
    lemma_begins_self(s.labels);
    lemma_begins_self(s.known.variants);
    lemma_begins_self(s.known.fields);
    assert(t.known.log.take(s.known.log.len() as int) =~= s.known.log);
    assert(t.known.log.drop_last() =~= s.known.log);
    let back = match entry_of(s.known.types, name) {
        Some(prev) => t.known.types.insert(name, prev),
        None => t.known.types.remove(name),
    };
    assert(back =~= s.known.types);
    assert(unwound(s.known.types, s.known.log, s.known.log.len()) == s.known.types);
}

/// What compiling adds to a block grows, where its jumps land.
pub broadcast proof fn lemma_extends_grows(s: State, t: State)
    requires
        #[trigger] extends(s, t),
        #[trigger] lands(s, t),
    ensures
        grows(s, t),
{
    reveal(steady);
    reveal(same_block);
    reveal(adds);
    lemma_begins_self(s.known.variants);
    lemma_begins_self(s.known.log);
    lemma_begins_self(s.known.fields);
}

pub broadcast proof fn lemma_leaves_grows(s: State, t: State)
    requires
        #[trigger] leaves(s, t),
        #[trigger] lands(s, t),
    ensures
        grows(s, t),
{
    lemma_leaves_extends(s, t);
    lemma_extends_grows(s, t);
}

/// What grows in a scope of its own grows around it.
pub proof fn lemma_scope(s: State, t: State)
    requires
        grows(s.push_env(), t),
    ensures
        grows(s, t.pop_env()),
{
    reveal(adds);
    reveal(State::push_env);
    reveal(State::pop_env);
    let o = s.push_env();
    let u = t.pop_env();
    lemma_same_out(s, o);
    lemma_same_out(t, u);
    lemma_lands_on(s, o, t);
    lemma_lands_on(s, t, u);
    assert(o.env.drop_last() =~= s.env);
}

pub broadcast proof fn lemma_grows_self(s: State)
    ensures
        #[trigger] grows(s, s),
{
    lemma_untouched(s, s);
}

pub proof fn lemma_adds_on(a: State, b: State, c: State)
    requires
        adds(a, b),
        adds(b, c),
    ensures
        adds(a, c),
{
    reveal(adds);
    lemma_lands_on(a, b, c);
    lemma_begins_on(a.diags, b.diags, c.diags);
    lemma_begins_on(a.labels, b.labels, c.labels);
    lemma_begins_on(a.known.variants, b.known.variants, c.known.variants);
    lemma_begins_on(a.known.fields, b.known.fields, c.known.fields);
    lemma_begins_on(a.known.log, b.known.log, c.known.log);
    lemma_unwound(c.known.types, c.known.log, a.known.log.len(), b.known.log.len());
}

pub broadcast proof fn lemma_grows_on(a: State, b: State, c: State)
    requires
        #[trigger] from_here(a),
        #[trigger] grows(a, b),
        #[trigger] grows(b, c),
    ensures
        grows(a, c),
{
    lemma_adds_on(a, b, c);
}

/// What grows loads nothing.
pub proof fn lemma_grows_loads(s: State, t: State, under_way: Seq<StrId>)
    requires
        grows(s, t),
    ensures
        loads(s, t, under_way),
{
    reveal(loads);
}

pub proof fn lemma_loads_on(a: State, b: State, c: State, under_way: Seq<StrId>)
    requires
        loads(a, b, under_way),
        loads(b, c, under_way),
    ensures
        loads(a, c, under_way),
{
    reveal(loads);
    lemma_adds_on(a, b, c);
}

/// Taking a block of identities as reserved loads nothing.
pub proof fn lemma_note_ids(s: State, base: u32, reused: bool, under_way: Seq<StrId>)
    ensures
        loads(s, s.note_ids(base, reused), under_way),
{
    reveal(State::note_ids);
    reveal(loads);
    reveal(adds);
    let t = s.note_ids(base, reused);
    lemma_same_out(s, t);
    lemma_begins_self(s.diags);
    lemma_begins_self(s.labels);
    lemma_begins_self(s.known.variants);
    lemma_begins_self(s.known.log);
    lemma_begins_self(s.known.fields);
}

/// Keeping a module that was under way loads it and no other.
pub proof fn lemma_keep(
    s: State,
    t: State,
    under_way: Seq<StrId>,
    key: StrId,
    iface: Interface,
    refs: References,
    mark: Option<Watermark>,
)
    requires
        loads(s, t, under_way.push(key)),
        !s.known.modules.dom().contains(key),
        !under_way.contains(key),
    ensures
        loads(s, t.keep_module(key, iface, refs, mark), under_way),
{
    reveal(loads);
    reveal(State::keep_module);
    let all = under_way.push(key);
    assert(all[under_way.len() as int] == key);
    assert(!t.known.modules.dom().contains(key));
    let u = t.keep_module(key, iface, refs, mark);
    assert(adds(t, u)) by {
        reveal(adds);
        lemma_same_out(t, u);
        lemma_begins_self(t.diags);
        lemma_begins_self(t.labels);
        lemma_begins_self(t.known.variants);
        lemma_begins_self(t.known.log);
        lemma_begins_self(t.known.fields);
    }
    lemma_adds_on(s, t, u);
    assert forall|k: StrId| #[trigger]
        u.known.modules.dom().contains(k) && under_way.contains(k) implies s.known.modules.dom().contains(
        k,
    ) by {
        assert(all[under_way.index_of(k)] == k);
        assert(t.known.modules.dom().contains(k));
    }
}

pub broadcast proof fn lemma_expr_grows(e: Expr, s: State)
    ensures
        grows(s, #[trigger] expr(e, s)),
{
    lemma_expr(e, s);
    crate::landing::exprs::lemma_expr(e, s);
    lemma_leaves_grows(s, expr(e, s));
}

pub broadcast proof fn lemma_hydrate_grows(s: State, a: Annotation)
    ensures
        grows(s, #[trigger] s.hydrate(a)),
{
    crate::pieces::lemma_hydrate(s, a);
    crate::landing::pieces::lemma_hydrate(s, a);
    lemma_leaves_grows(s, s.hydrate(a));
}

pub broadcast proof fn lemma_misfit_grows(s: State, faults: Seq<TypeFault>)
    ensures
        grows(s, #[trigger] s.misfit(faults)),
{
    crate::pieces::lemma_misfit(s, faults);
    crate::landing::pieces::lemma_misfit(s, faults);
    lemma_leaves_grows(s, s.misfit(faults));
}

pub broadcast proof fn lemma_hydrate_all(s: State, list: Seq<Annotation>, n: nat)
    ensures
        grows(s, #[trigger] s.hydrate_all(list, n)),
    decreases n,
{
    reveal(State::hydrate_all);
    lemma_grows_self(s);
    if n > 0 {
        let t = s.hydrate_all(list, (n - 1) as nat);
        lemma_hydrate_all(s, list, (n - 1) as nat);
        lemma_hydrate_grows(t, list[n - 1]);
        lemma_grows_on(s, t, t.hydrate(list[n - 1]));
    }
}

// ---- the steps -----------------------------------------------------------------

pub broadcast proof fn lemma_error(s: State, message: Message, span: Span)
    ensures
        grows(s, #[trigger] s.error(message, span)),
{
    reveal(State::error);
    let t = s.error(message, span);
    reveal(adds);
    lemma_same_out(s, t);
    assert(t.diags.take(s.diags.len() as int) =~= s.diags);
    lemma_begins_self(s.labels);
    lemma_begins_self(s.known.variants);
    lemma_begins_self(s.known.log);
    lemma_begins_self(s.known.fields);
}

pub broadcast proof fn lemma_note(s: State, message: Message, span: Span)
    ensures
        grows(s, #[trigger] s.note(message, span)),
{
    reveal(State::note);
    let t = s.note(message, span);
    reveal(adds);
    lemma_same_out(s, t);
    assert(t.diags.take(s.diags.len() as int) =~= s.diags);
    lemma_begins_self(s.labels);
    lemma_begins_self(s.known.variants);
    lemma_begins_self(s.known.log);
    lemma_begins_self(s.known.fields);
}

pub broadcast proof fn lemma_fault(s: State, key: StrId, fault: ParseFault, at: Span)
    ensures
        grows(s, #[trigger] s.fault(key, fault, at)),
{
    reveal(State::fault);
    let t = s.fault(key, fault, at);
    reveal(adds);
    lemma_same_out(s, t);
    assert(t.diags.take(s.diags.len() as int) =~= s.diags);
    lemma_begins_self(s.labels);
    lemma_begins_self(s.known.variants);
    lemma_begins_self(s.known.log);
    lemma_begins_self(s.known.fields);
}

pub broadcast proof fn lemma_pop_unused(s: State)
    ensures
        grows(s, #[trigger] s.pop_unused()),
{
    reveal(State::pop_unused);
    let t = s.pop_unused();
    reveal(adds);
    lemma_same_out(s, t);
    assert(t.diags.take(s.diags.len() as int) =~= s.diags);
    lemma_begins_self(s.labels);
    lemma_begins_self(s.known.variants);
    lemma_begins_self(s.known.log);
    lemma_begins_self(s.known.fields);
}

pub broadcast proof fn lemma_def(
    s: State,
    dl: DefinitionLocation,
    name: StrId,
    doc: Option<StrId>,
    public: bool,
)
    ensures
        grows(s, #[trigger] s.def(dl, name, doc, public)),
{
    reveal(State::def);
    lemma_untouched(s, s.def(dl, name, doc, public));
}

pub broadcast proof fn lemma_add_field(s: State, f: FieldDef)
    ensures
        grows(s, #[trigger] s.add_field(f)),
{
    reveal(State::add_field);
    reveal(adds);
    let t = s.add_field(f);
    lemma_same_out(s, t);
    assert(t.known.fields.take(s.known.fields.len() as int) =~= s.known.fields);
    lemma_begins_self(s.diags);
    lemma_begins_self(s.labels);
    lemma_begins_self(s.known.variants);
    lemma_begins_self(s.known.log);
}

pub broadcast proof fn lemma_ctor_belongs(s: State, ctor: DefId, ty: DefId)
    ensures
        grows(s, #[trigger] s.ctor_belongs(ctor, ty)),
{
    reveal(State::ctor_belongs);
    lemma_untouched(s, s.ctor_belongs(ctor, ty));
}

pub broadcast proof fn lemma_name_params(s: State, id: DefId, names: Seq<Ident>)
    ensures
        grows(s, #[trigger] s.name_params(id, names)),
{
    reveal(State::name_params);
    lemma_untouched(s, s.name_params(id, names));
}

pub broadcast proof fn lemma_record(
    s: State,
    qualifier: Option<StrId>,
    id: Ident,
    doc: Option<StrId>,
)
    ensures
        grows(s, #[trigger] s.record(qualifier, id, doc)),
{
    reveal(State::record);
    lemma_untouched(s, s.record(qualifier, id, doc));
}

pub broadcast proof fn lemma_add_def(s: State, d: Definition)
    ensures
        grows(s, #[trigger] s.add_def(d)),
{
    reveal(State::add_def);
    lemma_untouched(s, s.add_def(d));
}

pub broadcast proof fn lemma_define(s: State, name: StrId, b: Binding)
    ensures
        grows(s, #[trigger] s.define(name, b)),
{
    reveal(State::define);
    let t = s.define(name, b);
    if s.env.len() > 0 {
        assert(t.env.drop_last() =~= s.env.drop_last());
    }
    lemma_untouched(s, s.define(name, b));
}

pub broadcast proof fn lemma_refer(s: State, span: Span, kind: ReferenceKind, target: DefId)
    ensures
        grows(s, #[trigger] s.refer(span, kind, target)),
{
    reveal(State::refer);
    lemma_untouched(s, s.refer(span, kind, target));
}

pub broadcast proof fn lemma_refer_outside(s: State, span: Span, kind: ReferenceKind, target: DefId)
    ensures
        grows(s, #[trigger] s.refer_outside(span, kind, target)),
{
    reveal(State::refer_outside);
    lemma_untouched(s, s.refer_outside(span, kind, target));
}

pub broadcast proof fn lemma_take_slot(s: State)
    ensures
        grows(s, #[trigger] s.take_slot()),
{
    reveal(State::take_slot);
    lemma_untouched(s, s.take_slot());
}

pub broadcast proof fn lemma_bind_raw(s: State, name: StrId, slot: i32)
    ensures
        grows(s, #[trigger] s.bind_raw(name, slot)),
{
    reveal(State::bind_raw);
    lemma_untouched(s, s.bind_raw(name, slot));
}

pub broadcast proof fn lemma_bind(s: State, name: StrId, slot: i32)
    ensures
        grows(s, #[trigger] s.bind(name, slot)),
{
    reveal(State::bind);
    lemma_untouched(s, s.bind(name, slot));
}

pub broadcast proof fn lemma_set_owner(s: State, owner: Option<DefId>)
    ensures
        grows(s, #[trigger] s.set_owner(owner)),
{
    reveal(State::set_owner);
    lemma_untouched(s, s.set_owner(owner));
}

pub broadcast proof fn lemma_set_walking(s: State, walking: bool)
    ensures
        grows(s, #[trigger] s.set_walking(walking)),
{
    reveal(State::set_walking);
    lemma_untouched(s, s.set_walking(walking));
}

pub broadcast proof fn lemma_push_locals(s: State)
    ensures
        grows(s, #[trigger] s.push_locals()),
{
    reveal(State::push_locals);
    lemma_untouched(s, s.push_locals());
}

pub broadcast proof fn lemma_pop_locals(s: State)
    ensures
        grows(s, #[trigger] s.pop_locals()),
{
    reveal(State::pop_locals);
    reveal(State::pop_unused);
    let t = s.pop_locals();
    reveal(adds);
    lemma_same_out(s, t);
    assert(t.diags.take(s.diags.len() as int) =~= s.diags);
    lemma_begins_self(s.labels);
    lemma_begins_self(s.known.variants);
    lemma_begins_self(s.known.log);
    lemma_begins_self(s.known.fields);
}

pub broadcast proof fn lemma_push(s: State, ins: Instruction)
    requires
        !ins.op.jumps(),
    ensures
        grows(s, #[trigger] s.push(ins)),
{
    reveal(adds);
    reveal(State::push);
    crate::landing::lemma_push(s, ins);
    lemma_begins_self(s.diags);
    lemma_begins_self(s.labels);
    lemma_begins_self(s.known.variants);
    lemma_begins_self(s.known.log);
    lemma_begins_self(s.known.fields);
}

pub broadcast proof fn lemma_type_body(s: State, id: TypeId, info: TypeInfo)
    ensures
        grows(s, #[trigger] s.type_body(id, info)),
{
    reveal(State::type_body);
    lemma_untouched(s, s.type_body(id, info));
}

pub broadcast proof fn lemma_qualify(s: State, qualifier: StrId, key: StrId)
    ensures
        grows(s, #[trigger] s.qualify(qualifier, key)),
{
    reveal(State::qualify);
    lemma_untouched(s, s.qualify(qualifier, key));
}

pub broadcast proof fn lemma_reserve_ids(s: State, key: StrId)
    ensures
        grows(s, #[trigger] s.reserve_ids(key)),
{
    reveal(State::reserve_ids);
    lemma_untouched(s, s.reserve_ids(key));
}

pub broadcast proof fn lemma_skip_ids(s: State)
    ensures
        grows(s, #[trigger] s.skip_ids()),
{
    reveal(State::skip_ids);
    lemma_untouched(s, s.skip_ids());
}

pub broadcast proof fn lemma_depend(s: State, key: StrId)
    ensures
        grows(s, #[trigger] s.depend(key)),
{
    reveal(State::depend);
    lemma_untouched(s, s.depend(key));
}

pub broadcast proof fn lemma_enter_module(s: State, key: StrId, origin: Origin)
    ensures
        grows(s, #[trigger] s.enter_module(key, origin)),
{
    reveal(State::enter_module);
    lemma_untouched(s, s.enter_module(key, origin));
}

pub broadcast proof fn lemma_leave_module(s: State, outer: State)
    ensures
        grows(s, #[trigger] s.leave_module(outer)),
{
    reveal(State::leave_module);
    lemma_untouched(s, s.leave_module(outer));
}

pub broadcast proof fn lemma_pool_labels(s: State, labels: Seq<StrId>)
    ensures
        grows(s, #[trigger] s.pool_labels(labels)),
{
    reveal(State::pool_labels);
    reveal(adds);
    lemma_same_out(s, s.pool_labels(labels));
    lemma_begins_more(s.labels, labels);
    lemma_begins_self(s.diags);
    lemma_begins_self(s.known.variants);
    lemma_begins_self(s.known.log);
    lemma_begins_self(s.known.fields);
}

pub broadcast proof fn lemma_pool_variants(s: State, variants: Seq<VariantInfo>)
    ensures
        grows(s, #[trigger] s.pool_variants(variants)),
{
    reveal(State::pool_variants);
    reveal(adds);
    lemma_same_out(s, s.pool_variants(variants));
    lemma_begins_more(s.known.variants, variants);
    lemma_begins_self(s.diags);
    lemma_begins_self(s.labels);
    lemma_begins_self(s.known.log);
    lemma_begins_self(s.known.fields);
}

pub broadcast proof fn lemma_type_head(s: State, name: StrId, info: TypeInfo)
    ensures
        grows(s, #[trigger] s.type_head(name, info)),
{
    reveal(State::type_head);
    lemma_type_bound(s, s.type_head(name, info), name, TypeId(s.known.next));
}

pub broadcast proof fn lemma_bind_type(s: State, name: StrId, id: TypeId)
    ensures
        grows(s, #[trigger] s.bind_type(name, id)),
{
    reveal(State::bind_type);
    lemma_type_bound(s, s.bind_type(name, id), name, id);
}

/// What the steps of a check do.
pub broadcast group group_growth {
    lemma_extends_grows,
    lemma_leaves_grows,
    lemma_grows_self,
    lemma_grows_on,
    lemma_expr_grows,
    lemma_hydrate_grows,
    lemma_misfit_grows,
    lemma_hydrate_all,
    lemma_error,
    lemma_note,
    lemma_fault,
    lemma_pop_unused,
    lemma_def,
    lemma_add_field,
    lemma_ctor_belongs,
    lemma_name_params,
    lemma_record,
    lemma_add_def,
    lemma_define,
    lemma_refer,
    lemma_refer_outside,
    lemma_take_slot,
    lemma_bind_raw,
    lemma_bind,
    lemma_set_owner,
    lemma_set_walking,
    lemma_push_locals,
    lemma_pop_locals,
    lemma_push,
    lemma_type_body,
    lemma_qualify,
    lemma_reserve_ids,
    lemma_skip_ids,
    lemma_depend,
    lemma_enter_module,
    lemma_leave_module,
    lemma_pool_labels,
    lemma_pool_variants,
    lemma_type_head,
    lemma_bind_type,
}

} // verus!

//! What muting leaves of the steps that the passes, imports and modules are made of.
use crate::ast::{Ident, Span, StrId};
use crate::loader::ParseFault;
use crate::muting::lemma_all_keys;
use crate::prelude_bindings::TypeId;
use crate::refs::{DefId, Definition, ReferenceKind};
use crate::state::{FieldDef, Origin, Sighting, State, TypeInfo, VariantInfo};
use vstd::prelude::*;

verus! {

pub proof fn lemma_type_head(
    pre: Seq<Sighting>,
    post: Seq<Sighting>,
    s: State,
    t: State,
    name: StrId,
    info: TypeInfo,
)
    requires
        s.muted(pre) == t.muted(post),
    ensures
        s.type_head(name, info).muted(pre) == t.type_head(name, info).muted(post),
{
    reveal(State::muted);
    reveal(State::type_head);
    assert(s.muted(pre).refs == t.muted(post).refs);
    assert(s.muted(pre).known == t.muted(post).known);
    assert(s.muted(pre).loc == t.muted(post).loc);
}

pub broadcast proof fn lemma_type_body(pre: Seq<Sighting>, s: State, id: TypeId, info: TypeInfo)
    ensures
        #[trigger] s.type_body(id, info).muted(pre) == s.muted(pre).type_body(id, info),
{
    reveal(State::muted);
    reveal(State::type_body);
}

pub broadcast proof fn lemma_pool_labels(pre: Seq<Sighting>, s: State, labels: Seq<StrId>)
    ensures
        #[trigger] s.pool_labels(labels).muted(pre) == s.muted(pre).pool_labels(labels),
{
    reveal(State::muted);
    reveal(State::pool_labels);
}

pub broadcast proof fn lemma_pool_variants(pre: Seq<Sighting>, s: State, variants: Seq<VariantInfo>)
    ensures
        #[trigger] s.pool_variants(variants).muted(pre) == s.muted(pre).pool_variants(variants),
{
    reveal(State::muted);
    reveal(State::pool_variants);
}

pub broadcast proof fn lemma_set_owner(pre: Seq<Sighting>, s: State, owner: Option<DefId>)
    ensures
        #[trigger] s.set_owner(owner).muted(pre) == s.muted(pre).set_owner(owner),
{
    reveal(State::muted);
    reveal(State::set_owner);
}

pub broadcast proof fn lemma_set_walking(pre: Seq<Sighting>, s: State, walking: bool)
    ensures
        #[trigger] s.set_walking(walking).muted(pre) == s.muted(pre).set_walking(walking),
{
    reveal(State::muted);
    reveal(State::set_walking);
}

pub broadcast proof fn lemma_add_field(pre: Seq<Sighting>, s: State, f: FieldDef)
    ensures
        #[trigger] s.add_field(f).muted(pre) == s.muted(pre).add_field(f),
{
    reveal(State::muted);
    reveal(State::add_field);
}

pub broadcast proof fn lemma_ctor_belongs(pre: Seq<Sighting>, s: State, ctor: DefId, ty: DefId)
    ensures
        #[trigger] s.ctor_belongs(ctor, ty).muted(pre) == s.muted(pre).ctor_belongs(ctor, ty),
{
    reveal(State::muted);
    reveal(State::ctor_belongs);
}

pub broadcast proof fn lemma_name_params(pre: Seq<Sighting>, s: State, id: DefId, names: Seq<Ident>)
    ensures
        #[trigger] s.name_params(id, names).muted(pre) == s.muted(pre).name_params(id, names),
{
    reveal(State::muted);
    reveal(State::name_params);
}

pub broadcast proof fn lemma_add_def(pre: Seq<Sighting>, s: State, def: Definition)
    ensures
        #[trigger] s.add_def(def).muted(pre) == s.muted(pre).add_def(def),
{
    lemma_all_keys(def.id.module);
    reveal(State::muted);
    reveal(State::add_def);
}

pub broadcast proof fn lemma_refer_outside(
    pre: Seq<Sighting>,
    s: State,
    span: Span,
    kind: ReferenceKind,
    target: DefId,
)
    ensures
        #[trigger] s.refer_outside(span, kind, target).muted(pre)
            == s.muted(pre).refer_outside(span, kind, target),
{
    lemma_all_keys(target.module);
    reveal(State::muted);
    reveal(State::refer_outside);
}

pub broadcast proof fn lemma_qualify(pre: Seq<Sighting>, s: State, qualifier: StrId, key: StrId)
    ensures
        #[trigger] s.qualify(qualifier, key).muted(pre) == s.muted(pre).qualify(qualifier, key),
{
    reveal(State::muted);
    reveal(State::qualify);
}

pub proof fn lemma_bind_type(
    pre: Seq<Sighting>,
    post: Seq<Sighting>,
    s: State,
    t: State,
    name: StrId,
    id: TypeId,
)
    requires
        s.muted(pre) == t.muted(post),
    ensures
        s.bind_type(name, id).muted(pre) == t.bind_type(name, id).muted(post),
{
    reveal(State::muted);
    reveal(State::bind_type);
    assert(s.muted(pre).refs == t.muted(post).refs);
    assert(s.muted(pre).known == t.muted(post).known);
    assert(s.muted(pre).loc == t.muted(post).loc);
}

pub broadcast proof fn lemma_depend(pre: Seq<Sighting>, s: State, key: StrId)
    ensures
        #[trigger] s.depend(key).muted(pre) == s.muted(pre),
{
    reveal(State::muted);
    reveal(State::depend);
}

pub broadcast proof fn lemma_fault(
    pre: Seq<Sighting>,
    s: State,
    key: StrId,
    fault: ParseFault,
    at: Span,
)
    ensures
        #[trigger] s.fault(key, fault, at).muted(pre) == s.muted(pre).fault(key, fault, at),
{
    reveal(State::muted);
    reveal(State::fault);
}

pub broadcast proof fn lemma_enter_module(pre: Seq<Sighting>, s: State, key: StrId, origin: Origin)
    ensures
        #[trigger] s.enter_module(key, origin).muted(pre) == s.muted(pre).enter_module(key, origin),
{
    lemma_all_keys(key);
    reveal(State::muted);
    reveal(State::enter_module);
}

pub broadcast proof fn lemma_reserve_ids(pre: Seq<Sighting>, s: State, key: StrId)
    ensures
        #[trigger] s.reserve_ids(key).muted(pre) == s.muted(pre).reserve_ids(key),
{
    reveal(State::muted);
    reveal(State::reserve_ids);
}

pub broadcast proof fn lemma_note_ids(pre: Seq<Sighting>, s: State, base: u32, reused: bool)
    ensures
        #[trigger] s.note_ids(base, reused).muted(pre) == s.muted(pre).note_ids(base, reused),
{
    reveal(State::muted);
    reveal(State::note_ids);
}

pub broadcast proof fn lemma_skip_ids(pre: Seq<Sighting>, s: State)
    ensures
        #[trigger] s.skip_ids().muted(pre) == s.muted(pre).skip_ids(),
{
    reveal(State::muted);
    reveal(State::skip_ids);
}

pub broadcast group group_muting_steps {
    lemma_type_body,
    lemma_pool_labels,
    lemma_pool_variants,
    lemma_set_owner,
    lemma_set_walking,
    lemma_add_field,
    lemma_ctor_belongs,
    lemma_name_params,
    lemma_add_def,
    lemma_refer_outside,
    lemma_qualify,
    lemma_depend,
    lemma_fault,
    lemma_enter_module,
    lemma_reserve_ids,
    lemma_note_ids,
    lemma_skip_ids,
}

} // verus!

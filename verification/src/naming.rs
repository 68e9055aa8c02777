//! What names stand for behind an import.
use crate::ast::{Expr, Ident, ImportDecl, ImportItem, PropertyExpr, StrId};
use crate::gen::QualifiedView;
use crate::imports::{items, last_name, TypeUse, ValueUse};
use crate::loader::{import, load, Source};
use crate::names::text_of;
use crate::refs::{location, EntityKind};
use crate::state::{Binding, ExportedValue, State, VarAccess};
use vstd::prelude::*;

verus! {

/// The name that an item of an import is known under: the one behind `as`, if there is one.
spec fn known_as(item: ImportItem) -> StrId {
    match item.alias {
        Some(a) => a.name,
        None => item.name.name,
    }
}

/// Whether a text is a step of a path and no name.
pub open spec fn is_step(text: Seq<char>) -> bool {
    text == "."@ || text == ".."@
}

/// Entering occurrences binds no name.
proof fn lemma_uses(s: State, key: StrId, values: Seq<ValueUse>, types: Seq<TypeUse>, n: nat)
    ensures
        ({
            let t = s.value_uses(values, n);
            t.env == s.env && t.loc == s.loc && t.known == s.known && t.diags == s.diags
        }),
        ({
            let t = s.type_uses(key, types, n);
            t.env == s.env && t.loc == s.loc && t.known == s.known && t.diags == s.diags
        }),
    decreases n,
{
    reveal(State::value_uses);
    reveal(State::type_uses);
    reveal(State::refer);
    if n > 0 {
        lemma_uses(s, key, values, types, (n - 1) as nat);
    }
}

/// Whether a value that a module exports is bound under a name.
pub open spec fn stands_for(s: State, name: StrId, ev: ExportedValue) -> bool {
    &&& s.lookup(name) matches Some(b) && b.kind == ev.binding.kind && b.doc == ev.binding.doc
    &&& ev.slot matches Some(slot) ==> s.loc.map.dom().contains(name) && s.loc.map[name].slot
        == slot
}

/// Whether a binding is declared where an item of an import says: where the value itself
/// is, or at the alias.
pub open spec fn declared_by(s: State, item: ImportItem, ev: ExportedValue) -> bool {
    s.lookup(
        match item.alias {
            Some(a) => a.name,
            None => item.name.name,
        },
    ) matches Some(b) && b.def == (match item.alias {
        Some(a) => Some(location(a.span, s.refs.current, EntityKind::Value)),
        None => ev.binding.def,
    })
}

/// The items of an import up to `n` bind what item `i` asks for, unless a later one is known
/// under the same name.
proof fn lemma_items_bind(key: StrId, list: Seq<ImportItem>, n: nat, s: State, i: int)
    requires
        s.env.len() > 0,
        s.known.modules.dom().contains(key),
        0 <= i < n <= list.len(),
        forall|k: int| i < k < n ==> known_as(#[trigger] list[k]) != known_as(list[i]),
    ensures
        ({
            let t = items(key, list, n, s).s;
            let iface = s.known.modules[key];
            let name = list[i].name.name;
            &&& iface.values.dom().contains(name) ==> stands_for(
                t,
                known_as(list[i]),
                iface.values[name],
            ) && declared_by(t, list[i], iface.values[name])
            &&& iface.types.dom().contains(name) ==> t.known.types.dom().contains(
                known_as(list[i]),
            ) && t.known.types[known_as(list[i])] == iface.types[name]
        }),
    decreases n,
{
    reveal(items);
    lemma_items_frame(key, list, (n - 1) as nat, s);
    let p = items(key, list, (n - 1) as nat, s);
    let q = p.item(key, list[n - 1]);
    reveal(State::define);
    reveal(State::add_def);
    reveal(State::bind);
    reveal(State::bind_type);
    reveal(State::error);
    reveal(State::lookup);
    assert(q == items(key, list, n, s));
    if i < n - 1 {
        lemma_items_bind(key, list, (n - 1) as nat, s, i);
        assert(known_as(list[n - 1]) != known_as(list[i]));
        assert(q.s.env.drop_last() =~= p.s.env.drop_last());
        assert(q.s.lookup(known_as(list[i])) == p.s.lookup(known_as(list[i]))) by {
            lemma_inner(p.s.env, q.s.env, known_as(list[i]));
        }
    }
}

/// What binding items leaves as it is.
proof fn lemma_items_frame(key: StrId, list: Seq<ImportItem>, n: nat, s: State)
    requires
        s.env.len() > 0,
        n <= list.len(),
    ensures
        ({
            let t = items(key, list, n, s).s;
            &&& t.known.modules == s.known.modules
            &&& t.known.qualifiers == s.known.qualifiers
            &&& t.refs.current == s.refs.current
            &&& t.env.len() == s.env.len()
            &&& t.env.drop_last() == s.env.drop_last()
        }),
    decreases n,
{
    reveal(items);
    if n > 0 {
        lemma_items_frame(key, list, (n - 1) as nat, s);
        let p = items(key, list, (n - 1) as nat, s);
        let q = p.item(key, list[n - 1]);
        reveal(State::define);
        reveal(State::add_def);
        reveal(State::bind);
        reveal(State::bind_type);
        reveal(State::error);
        assert(q.s.env.drop_last() =~= p.s.env.drop_last());
    }
}

/// Scopes that agree on a name give it the same meaning.
proof fn lemma_inner(a: Seq<Map<StrId, Binding>>, b: Seq<Map<StrId, Binding>>, name: StrId)
    requires
        a.len() == b.len(),
        a.len() > 0,
        a.drop_last() == b.drop_last(),
        a.last().dom().contains(name) == b.last().dom().contains(name),
        a.last().dom().contains(name) ==> a.last()[name] == b.last()[name],
    ensures
        crate::state::lookup_in(a, a.len(), name) == crate::state::lookup_in(b, b.len(), name),
{
    lemma_outer(a, b, (a.len() - 1) as nat, name);
}

proof fn lemma_outer(a: Seq<Map<StrId, Binding>>, b: Seq<Map<StrId, Binding>>, n: nat, name: StrId)
    requires
        a.len() == b.len(),
        n < a.len(),
        a.drop_last() == b.drop_last(),
    ensures
        crate::state::lookup_in(a, n, name) == crate::state::lookup_in(b, n, name),
    decreases n,
{
    if n > 0 {
        assert(a.drop_last()[n - 1] == a[n - 1]);
        assert(b.drop_last()[n - 1] == b[n - 1]);
        lemma_outer(a, b, (n - 1) as nat, name);
    }
}

/// What an import of a loaded module leaves known under its qualifier.
proof fn lemma_qualifier(s: State, imp: ImportDecl, name: StrId)
    requires
        s.env.len() > 0,
        name == crate::imports::qualifier_of(s.world.names@, imp),
    ensures
        ({
            let t = s.bind_import(imp);
            &&& t.known.qualifiers == s.known.qualifiers.insert(name, imp.key)
            &&& t.known.modules == s.known.modules
        }),
{
    let t = s.bind_module(imp);
    assert(t.known.qualifiers == s.known.qualifiers.insert(name, imp.key) && t.known.modules
        == s.known.modules && t.env == s.env) by {
        reveal(State::add_def);
        reveal(State::refer_outside);
        reveal(State::qualify);
    }
    lemma_items_frame(imp.key, imp.items@, imp.items@.len(), t);
    let i = items(imp.key, imp.items@, imp.items@.len(), t);
    lemma_uses(i.s, imp.key, i.values, i.types, i.values.len());
    let u = i.s.value_uses(i.values, i.values.len());
    lemma_uses(u, imp.key, i.values, i.types, i.types.len());
}

proof fn lemma_last_name(names: Seq<Seq<char>>, path: Seq<StrId>, n: nat, k: int)
    requires
        0 <= k < n <= path.len(),
        !is_step(text_of(names, path[k])),
        forall|j: int| k < j < n ==> is_step(text_of(names, #[trigger] path[j])),
    ensures
        last_name(names, path, n) == Some(path[k]),
    decreases n,
{
    if k < n - 1 {
        assert(is_step(text_of(names, path[n - 1])));
        lemma_last_name(names, path, (n - 1) as nat, k);
    }
}

proof fn lemma_no_name(names: Seq<Seq<char>>, path: Seq<StrId>, n: nat)
    requires
        n <= path.len(),
        forall|j: int| 0 <= j < n ==> is_step(text_of(names, #[trigger] path[j])),
    ensures
        last_name(names, path, n) is None,
    decreases n,
{
    if n > 0 {
        assert(is_step(text_of(names, path[n - 1])));
        lemma_no_name(names, path, (n - 1) as nat);
    }
}

// ---- laws ----------------------------------------------------------------------

/// Behind an import with an alias, of a module that loads, the alias stands for the module,
/// and every other qualifier stands for what it did.
pub proof fn law_an_alias_stands_for_the_module(
    sources: Seq<Source>,
    loading: Seq<StrId>,
    imp: ImportDecl,
    alias: Ident,
    s: State,
)
    requires
        imp.alias == Some(alias),
        load(sources, loading, imp.key, imp.span, s).0.env.len() > 0,
        load(sources, loading, imp.key, imp.span, s).1,
    ensures
        ({
            let before = load(sources, loading, imp.key, imp.span, s).0;
            let after = import(sources, loading, imp, s);
            &&& after.known.qualifiers.dom().contains(alias.name)
            &&& after.known.qualifiers[alias.name] == imp.key
            &&& forall|other: StrId|
                other != alias.name ==> #[trigger] after.known.qualifiers.dom().contains(other)
                    == before.known.qualifiers.dom().contains(other)
            &&& forall|other: StrId|
                #![trigger after.known.qualifiers[other]]
                other != alias.name && before.known.qualifiers.dom().contains(other)
                    ==> after.known.qualifiers[other] == before.known.qualifiers[other]
        }),
{
    lemma_qualifier(load(sources, loading, imp.key, imp.span, s).0, imp, alias.name);
}

/// Behind an import without an alias the module is known under the last name of its path,
/// and under its key if the path holds no name.
pub proof fn law_a_path_names_the_module(
    sources: Seq<Source>,
    loading: Seq<StrId>,
    imp: ImportDecl,
    s: State,
)
    requires
        imp.alias is None,
        load(sources, loading, imp.key, imp.span, s).0.env.len() > 0,
        load(sources, loading, imp.key, imp.span, s).1,
    ensures
        ({
            let names = load(sources, loading, imp.key, imp.span, s).0.world.names@;
            let path = imp.path@;
            let known = import(sources, loading, imp, s).known.qualifiers;
            &&& forall|k: int|
                0 <= k < path.len() && !is_step(text_of(names, #[trigger] path[k])) && (forall|
                    j: int,
                |
                    k < j < path.len() ==> is_step(text_of(names, #[trigger] path[j])))
                    ==> known.dom().contains(path[k]) && known[path[k]] == imp.key
            &&& (forall|j: int|
                0 <= j < path.len() ==> is_step(text_of(names, #[trigger] path[j])))
                ==> known.dom().contains(imp.key) && known[imp.key] == imp.key
        }),
{
    let t = load(sources, loading, imp.key, imp.span, s).0;
    let names = t.world.names@;
    let path = imp.path@;
    assert forall|k: int|
        0 <= k < path.len() && !is_step(text_of(names, #[trigger] path[k])) && (forall|j: int|
            k < j < path.len() ==> is_step(text_of(names, #[trigger] path[j]))) implies import(
        sources,
        loading,
        imp,
        s,
    ).known.qualifiers.dom().contains(path[k]) && import(
        sources,
        loading,
        imp,
        s,
    ).known.qualifiers[path[k]] == imp.key by {
        lemma_last_name(names, path, path.len(), k);
        lemma_qualifier(t, imp, path[k]);
    }
    if forall|j: int| 0 <= j < path.len() ==> is_step(text_of(names, #[trigger] path[j])) {
        lemma_no_name(names, path, path.len());
        lemma_qualifier(t, imp, imp.key);
    }
}

/// A member of a module is what the module exports under its name, however the module is
/// called: `q.member` and the call `q.member()` mean the exported binding, in the slot it was
/// exported with, and nothing is reported.
pub proof fn law_members_are_exports(
    s: State,
    pa: PropertyExpr,
    qualifier: Ident,
    member: Ident,
    key: StrId,
)
    requires
        *pa.left matches Expr::Name { id, .. } && id == qualifier,
        *pa.right matches Expr::Name { id, .. } && id == member,
        s.known.qualifiers.dom().contains(qualifier.name),
        s.known.qualifiers[qualifier.name] == key,
        s.known.modules.dom().contains(key),
        s.known.modules[key].values.dom().contains(member.name),
    ensures
        ({
            let ev = s.known.modules[key].values[member.name];
            &&& s.qualified(pa).1 == (QualifiedView::Resolved {
                module: key,
                member,
                binding: ev.binding,
                slot: ev.slot,
            })
            &&& s.qualified(pa).0.diags == s.diags
            &&& s.callee(Expr::Property(pa)).0.diags == s.diags
            &&& s.callee(Expr::Property(pa)).1 == Some(
                (
                    member,
                    ev.binding,
                    match ev.slot {
                        Some(i) => Some(VarAccess::Global(i)),
                        None => None,
                    },
                ),
            )
        }),
{
    reveal(State::qualified);
    reveal(State::callee);
    reveal(State::refer);
}

/// A member that a module keeps to itself, or does not have, is an error.
pub proof fn law_other_members_are_reported(
    s: State,
    pa: PropertyExpr,
    qualifier: Ident,
    member: Ident,
    key: StrId,
)
    requires
        *pa.left matches Expr::Name { id, .. } && id == qualifier,
        *pa.right matches Expr::Name { id, .. } && id == member,
        s.known.qualifiers.dom().contains(qualifier.name),
        s.known.qualifiers[qualifier.name] == key,
        s.known.modules.dom().contains(key) ==> !s.known.modules[key].values.dom().contains(
            member.name,
        ),
    ensures
        s.qualified(pa).1 is LookupFailed,
        s.qualified(pa).0.diags.len() == s.diags.len() + 1,
        s.qualified(pa).0.diags.last().severity == crate::diag::Severity::Error,
        s.qualified(pa).0.diags.last().span == member.span,
{
    reveal(State::qualified);
    reveal(State::error);
}

/// An item of an import, of a module that loads, is known behind it under the name behind
/// `as`, or under its own: as the value, in its slot, and as the type that the module exports
/// under its own name. Of two items under one name the later counts.
pub proof fn law_items_stand_for_exports(
    sources: Seq<Source>,
    loading: Seq<StrId>,
    imp: ImportDecl,
    s: State,
    i: int,
)
    requires
        load(sources, loading, imp.key, imp.span, s).0.env.len() > 0,
        load(sources, loading, imp.key, imp.span, s).1,
        load(sources, loading, imp.key, imp.span, s).0.known.modules.dom().contains(imp.key),
        0 <= i < imp.items@.len(),
        forall|k: int|
            i < k < imp.items@.len() ==> (match (#[trigger] imp.items@[k]).alias {
                Some(a) => a.name,
                None => imp.items@[k].name.name,
            }) != (match imp.items@[i].alias {
                Some(a) => a.name,
                None => imp.items@[i].name.name,
            }),
    ensures
        ({
            let iface = load(sources, loading, imp.key, imp.span, s).0.known.modules[imp.key];
            let t = import(sources, loading, imp, s);
            let item = imp.items@[i];
            let name = item.name.name;
            let local = match item.alias {
                Some(a) => a.name,
                None => name,
            };
            &&& iface.values.dom().contains(name) ==> stands_for(t, local, iface.values[name])
                && declared_by(t, item, iface.values[name])
            &&& iface.types.dom().contains(name) ==> t.known.types.dom().contains(local)
                && t.known.types[local] == iface.types[name]
        }),
{
    let a = load(sources, loading, imp.key, imp.span, s).0;
    let b = a.bind_module(imp);
    assert(b.known.modules == a.known.modules && b.env == a.env) by {
        reveal(State::add_def);
        reveal(State::refer_outside);
        reveal(State::qualify);
    }
    assert forall|k: int| i < k < imp.items@.len() implies known_as(#[trigger] imp.items@[k])
        != known_as(imp.items@[i]) by {}
    lemma_items_bind(imp.key, imp.items@, imp.items@.len(), b, i);
    lemma_items_frame(imp.key, imp.items@, imp.items@.len(), b);
    let x = items(imp.key, imp.items@, imp.items@.len(), b);
    lemma_uses(x.s, imp.key, x.values, x.types, x.values.len());
    let u = x.s.value_uses(x.values, x.values.len());
    lemma_uses(u, imp.key, x.values, x.types, x.types.len());
    lemma_same_module(x.s, imp.key, x.values, x.types, x.values.len());
    lemma_same_module(u, imp.key, x.values, x.types, x.types.len());
    reveal(State::lookup);
}

proof fn lemma_same_module(s: State, key: StrId, values: Seq<ValueUse>, types: Seq<TypeUse>, n: nat)
    ensures
        s.value_uses(values, n).refs.current == s.refs.current,
        s.type_uses(key, types, n).refs.current == s.refs.current,
    decreases n,
{
    reveal(State::value_uses);
    reveal(State::type_uses);
    reveal(State::refer);
    if n > 0 {
        lemma_same_module(s, key, values, types, (n - 1) as nat);
    }
}

} // verus!

//! What compiling a program, with all the modules it imports, leaves standing.
use crate::ast::{
    Attribute, CtorDecl, Declaration, Expr, FnBody, Ident, ImportDecl, ImportItem, Node, Span,
    Statement, StrId, TypeBody, TypeDecl,
};
use crate::balance::exprs::{lemma_declared, lemma_expr, lemma_node};
use crate::boot::{nowhere, prelude_from};
use crate::decls::{
    alias_at, alias_edges, aliases, analysed, builtins, call_edges, ctors_of, decl_at, decl_slots,
    export_decls, heads, sorted, type_pass, Exporting, Sorted,
};
use crate::diag::any_error;
use crate::entry::{compiled, entry_module, prelude_taken, result_of, CompileResult, PreludeFrom};
use crate::gen::{expr, node};
use crate::graph::components_of;
use crate::growth::{
    adds, group_growth, grows, lemma_grows_loads, lemma_keep, lemma_loads_on, lemma_note_ids,
    lemma_scope, loads,
};
use crate::imports::{items, TypeUse, ValueUse};
use crate::landing;
use crate::landing::{lands_but, settled};
use crate::loader::{
    import, imports, lemma_place, load, module_body, source_place, Found, ParseFault, Source,
};
use crate::op::Op;
use crate::prelude_bindings::TypeId;
use crate::refs::{defid_at, EntityKind};
use crate::scopes::{begins_with, from_here};
use crate::state::{const_views, Interface, Origin, State};
use crate::workspace::workspace_of;
use vstd::prelude::*;

verus! {

broadcast use group_growth;

/// Whether nothing has been produced between two states while only checking.
pub open spec fn quiet(s: State, t: State) -> bool {
    &&& t.out.check_only == s.out.check_only
    &&& s.out.check_only ==> t.out == s.out
}

// ---- the passes over a module --------------------------------------------------

proof fn lemma_reports(s: State, body: Seq<Node>, n: nat, in_module: bool)
    ensures
        grows(s, s.report_nodes(body, n, in_module)),
    decreases n,
{
    assert(from_here(s));
    reveal(State::report_nodes);
    if n > 0 {
        let t = s.report_nodes(body, (n - 1) as nat, in_module);
        lemma_reports(s, body, (n - 1) as nat, in_module);
        lemma_report_node(t, body[n - 1], sorted(body, (n - 1) as nat), in_module);
    }
}

proof fn lemma_report_node(s: State, node: Node, before: Sorted, in_module: bool)
    ensures
        grows(s, s.report_node(node, before, in_module)),
{
    assert(from_here(s));
    match node {
        Node::Statement(Statement::Declaration { decl, .. }) => match decl {
            Declaration::Type(t) => {
                lemma_attributes(s, t.attributes@, t.attributes@.len(), false);
                let u = s.report_attributes(
                    t.attributes@,
                    t.attributes@.len(),
                    false,
                ).report_duplicate(before.seen_types, t.name).report_reserved(t.name);
                if let TypeBody::Variants { ctors, .. } = t.body {
                    lemma_ctor_names(u, before.seen_values, ctors@, ctors@.len());
                }
            },
            Declaration::Function(f) => {
                lemma_attributes(s, f.attributes@, f.attributes@.len(), true);
            },
            Declaration::Const(_) => {},
        },
        _ => {},
    }
}

proof fn lemma_attributes(s: State, attrs: Seq<Attribute>, n: nat, on_function: bool)
    ensures
        grows(s, s.report_attributes(attrs, n, on_function)),
    decreases n,
{
    assert(from_here(s));
    reveal(State::report_attributes);
    if n > 0 {
        lemma_attributes(s, attrs, (n - 1) as nat, on_function);
    }
}

proof fn lemma_ctor_names(s: State, seen: Map<StrId, Span>, ctors: Seq<CtorDecl>, n: nat)
    ensures
        grows(s, s.report_ctors(seen, ctors, n)),
    decreases n,
{
    assert(from_here(s));
    reveal(State::report_ctors);
    if n > 0 {
        lemma_ctor_names(s, seen, ctors, (n - 1) as nat);
    }
}

proof fn lemma_params(s: State, params: Seq<Ident>, n: nat)
    ensures
        grows(s, s.report_params(params, n)),
    decreases n,
{
    assert(from_here(s));
    reveal(State::report_params);
    if n > 0 {
        lemma_params(s, params, (n - 1) as nat);
    }
}

proof fn lemma_heads(body: Seq<Node>, types: Seq<usize>, n: nat, s: State)
    ensures
        grows(s, heads(body, types, n, s).s),
    decreases n,
{
    assert(from_here(s));
    reveal(heads);
    if n > 0 {
        let h = heads(body, types, (n - 1) as nat, s);
        lemma_heads(body, types, (n - 1) as nat, s);
        if let Some((Declaration::Type(t), _)) = decl_at(body, types[n - 1]) {
            lemma_params(h.s, t.params@, t.params@.len());
        }
    }
}

proof fn lemma_cycle(s: State, body: Seq<Node>, list: Seq<usize>, members: Seq<usize>, n: nat)
    ensures
        grows(s, s.report_cycle(body, list, members, n)),
    decreases n,
{
    assert(from_here(s));
    reveal(State::report_cycle);
    if n > 0 {
        lemma_cycle(s, body, list, members, (n - 1) as nat);
    }
}

proof fn lemma_alias_groups(s: State, body: Seq<Node>, list: Seq<usize>, comps: Seq<Seq<usize>>, n: nat)
    ensures
        grows(s, s.alias_groups(body, list, comps, n)),
    decreases n,
{
    assert(from_here(s));
    reveal(State::alias_groups);
    if n > 0 {
        let t = s.alias_groups(body, list, comps, (n - 1) as nat);
        let c = comps[n - 1];
        lemma_alias_groups(s, body, list, comps, (n - 1) as nat);
        lemma_cycle(t, body, list, c, c.len());
        if let Some((d, _, _)) = alias_at(body, list[c[0] as int]) {
            lemma_params(t, d.params@, d.params@.len());
        }
    }
}

proof fn lemma_builtins(body: Seq<Node>, list: Seq<usize>, n: nat, x: Exporting)
    ensures
        grows(x.s, builtins(body, list, n, x).s),
    decreases n,
{
    assert(from_here(x.s));
    reveal(builtins);
    if n > 0 {
        lemma_builtins(body, list, (n - 1) as nat, x);
    }
}

proof fn lemma_slots(body: Seq<Node>, list: Seq<usize>, n: nat, s: State)
    ensures
        grows(s, decl_slots(body, list, n, s).s),
    decreases n,
{
    assert(from_here(s));
    reveal(decl_slots);
    if n > 0 {
        lemma_slots(body, list, (n - 1) as nat, s);
    }
}

proof fn lemma_signatures(s: State, body: Seq<Node>, list: Seq<usize>, n: nat)
    ensures
        grows(s, s.signatures(body, list, n)),
    decreases n,
{
    assert(from_here(s));
    reveal(State::signatures);
    if n > 0 {
        lemma_signatures(s, body, list, (n - 1) as nat);
    }
}

proof fn lemma_fields(s: State, c: CtorDecl, n: nat, public: bool)
    ensures
        grows(s, s.fields(c, n, public)),
    decreases n,
{
    assert(from_here(s));
    reveal(State::fields);
    if n > 0 {
        lemma_fields(s, c, (n - 1) as nat, public);
    }
}

proof fn lemma_ctors(
    t: TypeDecl,
    id: TypeId,
    ctors: Seq<CtorDecl>,
    n: nat,
    public: bool,
    open: bool,
    x: Exporting,
)
    ensures
        grows(x.s, ctors_of(t, id, ctors, n, public, open, x).x.s),
    decreases n,
{
    assert(from_here(x.s));
    reveal(ctors_of);
    if n > 0 {
        let before = ctors_of(t, id, ctors, (n - 1) as nat, public, open, x);
        lemma_ctors(t, id, ctors, (n - 1) as nat, public, open, x);
        let c = ctors[n - 1];
        lemma_fields(before.x.s, c, c.fields@.len(), open);
    }
}

proof fn lemma_types(body: Seq<Node>, types: Seq<usize>, ids: Seq<TypeId>, n: nat, x: Exporting)
    ensures
        grows(x.s, type_pass(body, types, ids, n, x).s),
    decreases n,
{
    assert(from_here(x.s));
    reveal(type_pass);
    if n > 0 {
        let y = type_pass(body, types, ids, (n - 1) as nat, x);
        lemma_types(body, types, ids, (n - 1) as nat, x);
        if let Some((Declaration::Type(t), public)) = decl_at(body, types[n - 1]) {
            if let TypeBody::Variants { ctors, opaque } = t.body {
                let owner = defid_at(y.s.here_at(t.name.span, EntityKind::Type));
                lemma_ctors(
                    t,
                    ids[n - 1],
                    ctors@,
                    ctors@.len(),
                    public,
                    public && !opaque,
                    y.at(y.s.set_owner(Some(owner))),
                );
            }
        }
    }
}

proof fn lemma_decl_body(s: State, d: Option<(Declaration, bool)>, slot: i32)
    ensures
        grows(s, s.decl_body(d, slot)),
{
    assert(from_here(s));
    match d {
        Some((Declaration::Function(f), public)) => if let FnBody::Block(body) = f.body {
            let dl = s.here_at(f.name.span, EntityKind::Function);
            let t = s.def(dl, f.name.name, f.doc, public).name_params(
                defid_at(dl),
                f.params@,
            ).set_owner(Some(defid_at(dl)));
            lemma_declared(f.name.name, f.params@, body, f.faults@, t);
            landing::exprs::lemma_declared(f.name.name, f.params@, body, f.faults@, t);
        },
        Some((Declaration::Const(c), public)) => {
            let dl = s.here_at(c.name.span, EntityKind::Constant);
            let t = s.def(dl, c.name.name, c.doc, public).set_owner(Some(defid_at(dl)));
            lemma_expr(c.init, t.hydrate(c.annotation));
        },
        _ => {},
    }
}

proof fn lemma_group_bodies(
    s: State,
    body: Seq<Node>,
    list: Seq<usize>,
    slots: Seq<i32>,
    members: Seq<usize>,
    n: nat,
)
    ensures
        grows(s, s.group_bodies(body, list, slots, members, n)),
    decreases n,
{
    assert(from_here(s));
    reveal(State::group_bodies);
    if n > 0 {
        let t = s.group_bodies(body, list, slots, members, (n - 1) as nat);
        let k = members[n - 1] as int;
        lemma_group_bodies(s, body, list, slots, members, (n - 1) as nat);
        lemma_decl_body(t, decl_at(body, list[k]), slots[k]);
    }
}

proof fn lemma_settle(s: State, body: Seq<Node>, list: Seq<usize>, members: Seq<usize>, n: nat)
    ensures
        grows(s, s.settle_group(body, list, members, n)),
    decreases n,
{
    assert(from_here(s));
    reveal(State::settle_group);
    if n > 0 {
        lemma_settle(s, body, list, members, (n - 1) as nat);
    }
}

proof fn lemma_groups(
    s: State,
    body: Seq<Node>,
    list: Seq<usize>,
    slots: Seq<i32>,
    comps: Seq<Seq<usize>>,
    n: nat,
)
    ensures
        grows(s, s.group_pass(body, list, slots, comps, n)),
    decreases n,
{
    assert(from_here(s));
    reveal(State::group_pass);
    if n > 0 {
        let t = s.group_pass(body, list, slots, comps, (n - 1) as nat);
        let c = comps[n - 1];
        lemma_groups(s, body, list, slots, comps, (n - 1) as nat);
        lemma_group_bodies(t, body, list, slots, c, c.len());
        lemma_settle(
            t.group_bodies(body, list, slots, c, c.len()),
            body,
            list,
            c,
            c.len(),
        );
    }
}

proof fn lemma_exports(body: Seq<Node>, list: Seq<usize>, slots: Seq<i32>, n: nat, x: Exporting)
    ensures
        grows(x.s, export_decls(body, list, slots, n, x).s),
    decreases n,
{
    assert(from_here(x.s));
    reveal(export_decls);
    if n > 0 {
        lemma_exports(body, list, slots, (n - 1) as nat, x);
    }
}

proof fn lemma_others(s: State, body: Seq<Node>, others: Seq<usize>, n: nat)
    ensures
        grows(s, s.other_nodes(body, others, n)),
    decreases n,
{
    assert(from_here(s));
    reveal(State::other_nodes);
    if n > 0 {
        let t = s.other_nodes(body, others, (n - 1) as nat);
        lemma_others(s, body, others, (n - 1) as nat);
        lemma_node(body[others[n - 1] as int], t);
        landing::exprs::lemma_node(body[others[n - 1] as int], t);
    }
}

pub proof fn lemma_analysis(body: Seq<Node>, in_module: bool, s: State)
    ensures
        grows(s, analysed(body, in_module, s).s),
{
    assert(from_here(s));
    let sorted = sorted(body, body.len());
    let (types, list) = (sorted.types, sorted.decls);
    let s0 = s.push_locals().report_nodes(body, body.len(), in_module);
    lemma_reports(s.push_locals(), body, body.len(), in_module);
    let h = heads(body, types, types.len(), s0);
    lemma_heads(body, types, types.len(), s0);
    let found = aliases(body, types, types.len());
    let acomps = components_of(
        found.len(),
        alias_edges(body, found, found.len()),
    );
    lemma_alias_groups(h.s, body, found, acomps, acomps.len());
    let s2 = h.s.alias_pass(body, types);
    let x2 = Exporting { s: s2, iface: Interface::none() };
    let x3 = builtins(body, sorted.builtins, sorted.builtins.len(), x2);
    lemma_builtins(body, sorted.builtins, sorted.builtins.len(), x2);
    let t = decl_slots(body, list, list.len(), x3.s);
    lemma_slots(body, list, list.len(), x3.s);
    let s4 = t.s.signatures(body, list, list.len());
    lemma_signatures(t.s, body, list, list.len());
    let x5 = type_pass(body, types, h.ids, types.len(), x3.at(s4));
    lemma_types(body, types, h.ids, types.len(), x3.at(s4));
    let comps = components_of(list.len(), call_edges(body, list, list.len()));
    let s6 = x5.s.group_pass(body, list, t.slots, comps, comps.len());
    lemma_groups(x5.s, body, list, t.slots, comps, comps.len());
    lemma_exports(body, list, t.slots, list.len(), x5.at(s6));
    let x7 = export_decls(body, list, t.slots, list.len(), x5.at(s6));
    lemma_others(x7.s.set_walking(true), body, sorted.others, sorted.others.len());
}

// ---- imports and modules -------------------------------------------------------

proof fn lemma_items(key: StrId, list: Seq<ImportItem>, n: nat, s: State)
    ensures
        grows(s, items(key, list, n, s).s),
    decreases n,
{
    assert(from_here(s));
    reveal(items);
    if n > 0 {
        lemma_items(key, list, (n - 1) as nat, s);
    }
}

proof fn lemma_value_uses(s: State, uses: Seq<ValueUse>, n: nat)
    ensures
        grows(s, s.value_uses(uses, n)),
    decreases n,
{
    assert(from_here(s));
    reveal(State::value_uses);
    if n > 0 {
        lemma_value_uses(s, uses, (n - 1) as nat);
    }
}

proof fn lemma_type_uses(s: State, key: StrId, uses: Seq<TypeUse>, n: nat)
    ensures
        grows(s, s.type_uses(key, uses, n)),
    decreases n,
{
    assert(from_here(s));
    reveal(State::type_uses);
    if n > 0 {
        lemma_type_uses(s, key, uses, (n - 1) as nat);
    }
}

pub proof fn lemma_bind_import(s: State, imp: ImportDecl)
    ensures
        grows(s, s.bind_import(imp)),
{
    assert(from_here(s));
    let t = s.bind_module(imp);
    let i = items(imp.key, imp.items@, imp.items@.len(), t);
    lemma_items(imp.key, imp.items@, imp.items@.len(), t);
    lemma_value_uses(i.s, i.values, i.values.len());
    lemma_type_uses(i.s.value_uses(i.values, i.values.len()), imp.key, i.types, i.types.len());
}

proof fn lemma_faults(s: State, key: StrId, faults: Seq<ParseFault>, n: nat, at: Span)
    ensures
        grows(s, s.faults(key, faults, n, at)),
    decreases n,
{
    assert(from_here(s));
    reveal(State::faults);
    if n > 0 {
        lemma_faults(s, key, faults, (n - 1) as nat, at);
    }
}

proof fn lemma_load(sources: Seq<Source>, loading: Seq<StrId>, key: StrId, at: Span, s: State)
    ensures
        loads(s, load(sources, loading, key, at, s).0, loading),
    decreases sources.len() - loading.len(), 0nat, 0nat,
{
    let t = load(sources, loading, key, at, s).0;
    if s.known.modules.dom().contains(key) || loading.contains(key) {
        lemma_grows_loads(s, t, loading);
    } else {
        match source_place(sources, 0, key) {
            None => lemma_grows_loads(s, t, loading),
            Some(i) => match sources[i as int].found {
                Found::Parsed { body, faults } => if loading.len() < sources.len() {
                    let u = s.faults(key, faults@, faults@.len(), at);
                    lemma_place(sources, 0, key);
                    lemma_faults(s, key, faults@, faults@.len(), at);
                    lemma_grows_loads(s, u, loading);
                    lemma_module(sources, loading, sources[i as int], body@, u);
                    let v = module_body(sources, loading.push(key), sources[i as int], body@, u);
                    lemma_loads_on(s, u, v, loading);
                    lemma_grows_loads(v, v.depend(key), loading);
                    lemma_loads_on(s, v, v.depend(key), loading);
                } else {
                    lemma_grows_loads(s, t, loading);
                },
                _ => lemma_grows_loads(s, t, loading),
            },
        }
    }
}

/// Compiling a module loads it, with what it imports, and none of the modules around
/// it.
proof fn lemma_module(
    sources: Seq<Source>,
    outer: Seq<StrId>,
    source: Source,
    body: Seq<Node>,
    s: State,
)
    requires
        !s.known.modules.dom().contains(source.key),
        !outer.contains(source.key),
    ensures
        loads(s, module_body(sources, outer.push(source.key), source, body, s), outer),
    decreases sources.len() - (outer.len() + 1), 3nat, 0nat,
{
    let loading = outer.push(source.key);
    let t = s.enter_module(source.key, source.origin);
    lemma_grows_loads(s, t, loading);
    lemma_imports(sources, loading, body, 0, t);
    let i = imports(sources, loading, body, 0, t);
    lemma_loads_on(s, t, i, loading);
    let u = i.reserve_ids(source.key);
    lemma_grows_loads(i, u, loading);
    lemma_loads_on(s, i, u, loading);
    lemma_analysis(body, true, u.push_env());
    let x = analysed(body, true, u.push_env());
    let reused = i.known.bases.dom().contains(source.key);
    let p = x.s.pop_env();
    let v = p.note_ids(i.base_for(source.key), reused);
    lemma_scope(u, x.s);
    lemma_grows_loads(u, p, loading);
    lemma_loads_on(s, u, p, loading);
    lemma_note_ids(p, i.base_for(source.key), reused, loading);
    lemma_loads_on(s, p, v, loading);
    let mark = if source.origin == Origin::User {
        Some(u.watermark())
    } else {
        None
    };
    lemma_grows_loads(v, v.leave_module(s), loading);
    lemma_loads_on(s, v, v.leave_module(s), loading);
    lemma_keep(s, v.leave_module(s), outer, source.key, x.iface, v.collected(), mark);
}

pub proof fn lemma_imports(sources: Seq<Source>, loading: Seq<StrId>, body: Seq<Node>, i: nat, s: State)
    ensures
        loads(s, imports(sources, loading, body, i, s), loading),
    decreases sources.len() - loading.len(), 2nat, body.len() - i,
{
    lemma_grows_loads(s, s, loading);
    if i < body.len() {
        if let Node::Statement(Statement::Import(imp)) = body[i as int] {
            let t = import(sources, loading, imp, s);
            lemma_import(sources, loading, imp, s);
            lemma_imports(sources, loading, body, i + 1, t);
            lemma_loads_on(s, t, imports(sources, loading, body, i + 1, t), loading);
        }
    }
}

pub proof fn lemma_import(sources: Seq<Source>, loading: Seq<StrId>, imp: ImportDecl, s: State)
    ensures
        loads(s, import(sources, loading, imp, s), loading),
    decreases sources.len() - loading.len(), 1nat, 0nat,
{
    let t = load(sources, loading, imp.key, imp.span, s).0;
    lemma_load(sources, loading, imp.key, imp.span, s);
    lemma_bind_import(t, imp);
    lemma_grows_loads(t, t.bind_import(imp), loading);
    lemma_loads_on(s, t, t.bind_import(imp), loading);
}

/// Compiling an entry module with everything it imports adds to what is there.
pub proof fn lemma_entry(e: Expr, sources: Seq<Source>, s: State)
    ensures
        loads(s, entry_module(e, sources, s), Seq::empty()),
{
    reveal(entry_module);
    match e {
        Expr::Block { body, .. } => {
            let i = imports(sources, Seq::empty(), body@, 0, s);
            lemma_imports(sources, Seq::empty(), body@, 0, s);
            let t = i.skip_ids();
            lemma_analysis(body@, false, t);
            assert(from_here(i));
            assert(grows(i, analysed(body@, false, t).s));
            lemma_grows_loads(i, analysed(body@, false, t).s, Seq::empty());
            lemma_loads_on(s, i, analysed(body@, false, t).s, Seq::empty());
        },
        _ => lemma_grows_loads(s, expr(e, s), Seq::empty()),
    }
}

// ---- laws ----------------------------------------------------------------------

/// Analysing a module takes no diagnostic back, and produces nothing while only
/// checking.
pub proof fn law_analysis_is_quiet(body: Seq<Node>, in_module: bool, s: State)
    ensures
        quiet(s, analysed(body, in_module, s).s),
        begins_with(analysed(body, in_module, s).s.diags, s.diags),
{
    lemma_analysis(body, in_module, s);
    reveal(loads);
    reveal(adds);
    reveal(lands_but);
}

/// Compiling an entry module with everything it imports takes no diagnostic back, and
/// produces nothing while only checking.
pub proof fn law_checking_an_entry_is_quiet(e: Expr, sources: Seq<Source>, s: State)
    ensures
        quiet(s, entry_module(e, sources, s)),
        begins_with(entry_module(e, sources, s).diags, s.diags),
{
    lemma_entry(e, sources, s);
    reveal(loads);
    reveal(adds);
    reveal(lands_but);
}

/// Every jump that compiling an entry module emits, in it or in a module it imports,
/// lands in the code it emits, as long as addresses fit an operand; and nothing that was
/// emitted before has changed.
pub proof fn law_jumps_land(e: Expr, sources: Seq<Source>, s: State, i: int)
    requires
        !s.out.check_only,
        entry_module(e, sources, s).out.code.len() <= i32::MAX,
        s.out.code.len() <= i < entry_module(e, sources, s).out.code.len(),
    ensures
        ({
            let code = entry_module(e, sources, s).out.code;
            &&& begins_with(code, s.out.code)
            &&& code[i].op.jumps() ==> s.out.code.len() <= code[i].operand <= code.len()
        }),
{
    lemma_entry(e, sources, s);
    reveal(loads);
    reveal(adds);
    reveal(lands_but);
    assert(settled(s.out.code.len(), entry_module(e, sources, s).out.code, i));
}

/// Compiling an entry module, and whatever it imports, binds names in the innermost scope
/// only: the scopes around it, the prelude's among them, are as they were.
pub proof fn law_outer_scopes_stand(e: Expr, sources: Seq<Source>, s: State)
    requires
        s.env.len() > 0,
    ensures
        entry_module(e, sources, s).env.len() == s.env.len(),
        entry_module(e, sources, s).env.drop_last() == s.env.drop_last(),
{
    lemma_entry(e, sources, s);
    reveal(loads);
    reveal(adds);
}

/// The identities of a module's types begin where they did, whatever else is compiled:
/// a change to one module does not shift those of another.
pub proof fn law_identities_stay_in_place(e: Expr, sources: Seq<Source>, s: State, key: StrId)
    requires
        s.known.bases.dom().contains(key),
    ensures
        entry_module(e, sources, s).known.bases.dom().contains(key),
        entry_module(e, sources, s).known.bases[key] == s.known.bases[key],
{
    lemma_entry(e, sources, s);
    reveal(loads);
    reveal(adds);
}

/// A module that is loaded is not compiled again: importing it changes nothing but
/// who imports whom.
pub proof fn law_loaded_modules_are_not_compiled_again(
    sources: Seq<Source>,
    loading: Seq<StrId>,
    key: StrId,
    at: Span,
    s: State,
)
    requires
        s.known.modules.dom().contains(key),
    ensures
        load(sources, loading, key, at, s) == (s.depend(key), true),
        s.depend(key).known.count == s.known.count,
        s.depend(key).known.modules == s.known.modules,
{
    reveal(State::depend);
}

/// Whatever is compiled, the modules that were loaded before offer what they offered.
pub proof fn law_loaded_modules_stand(e: Expr, sources: Seq<Source>, s: State, key: StrId)
    requires
        s.known.modules.dom().contains(key),
    ensures
        entry_module(e, sources, s).known.modules.dom().contains(key),
        entry_module(e, sources, s).known.modules[key] == s.known.modules[key],
{
    lemma_entry(e, sources, s);
    reveal(loads);
}

/// Loading a module does not load one that is under way around it.
pub proof fn law_modules_under_way_are_not_loaded(
    sources: Seq<Source>,
    loading: Seq<StrId>,
    key: StrId,
    at: Span,
    s: State,
    other: StrId,
)
    requires
        loading.contains(other),
        !s.known.modules.dom().contains(other),
    ensures
        !load(sources, loading, key, at, s).0.known.modules.dom().contains(other),
{
    lemma_load(sources, loading, key, at, s);
    reveal(loads);
}

/// Checking a program behind a prelude from source, or behind none, yields no code
/// and no constants, whatever it holds and imports.
pub proof fn law_checks_yield_no_code(
    r: CompileResult,
    e: Expr,
    sources: Seq<Source>,
    prelude: PreludeFrom,
    s: State,
)
    requires
        compiled(r, e, sources, prelude, s),
        s.out.check_only,
        !(prelude is Library),
    ensures
        r.program.code@ == s.out.code,
        const_views(r.program.constants@) == s.out.consts,
{
    let t = choose|t: State| #[trigger]
        prelude_taken(prelude, sources, s, t) && if !(prelude is Itself)
            && any_error(t.diags) {
            result_of(r, t, false)
        } else {
            let u = entry_module(e, sources, t).emit(Op::Halt).close_main();
            result_of(r, u, !s.out.check_only) && workspace_of(r.references, u)
        };
    if let PreludeFrom::Module(key) = prelude {
        reveal(prelude_from);
        reveal(State::adopt);
        reveal(State::bind_prelude);
        reveal(State::error);
        lemma_load(sources, Seq::empty(), key, nowhere(), s);
    }
    reveal(loads);
    reveal(adds);
    reveal(lands_but);
    assert(quiet(s, t));
    law_checking_an_entry_is_quiet(e, sources, t);
    reveal(State::push);
    reveal(State::close_main);
}

} // verus!

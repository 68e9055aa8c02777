//! What the passes over a module leave as it was.
use crate::ast::{
    Attribute, CtorDecl, Declaration, FnBody, Ident, Node, Span, Statement, StrId, TypeBody,
    TypeDecl, TypeExpr,
};
use crate::balance::exprs::{lemma_declared, lemma_node};
use crate::decls::{
    alias_at, alias_edges, aliases, analysed, appended, builtins, call_edges, ctors_of, decl_at,
    decl_slots, export_decls, heads, sorted, type_pass, Exporting, Sorted,
};
use crate::diag::ArenaSlice;
use crate::frames::{
    declares, enough, group_frames, holds, keeps, lemma_declares_on, lemma_declares_self,
    lemma_holds_on, lemma_owned, lemma_type_body, lemma_type_head, since,
};
use crate::gen::{declared_function, expr};
use crate::graph::components_of;
use crate::op::Op;
use crate::prelude_bindings::TypeId;
use crate::refs::{defid_at, EntityKind};
use crate::scopes::{from_here, group_steps, leaves};
use crate::state::{unwound, Interface, State, TypeInfo};
use vstd::prelude::*;

verus! {

broadcast use {group_steps, group_frames};

proof fn lemma_reports(s: State, body: Seq<Node>, n: nat, in_module: bool)
    ensures
        keeps(s, s.report_nodes(body, n, in_module)),
    decreases n,
{
    assert(from_here(s));
    reveal(State::report_nodes);
    if n > 0 {
        let t = s.report_nodes(body, (n - 1) as nat, in_module);
        lemma_reports(s, body, (n - 1) as nat, in_module);
        lemma_report_node(t, body[n - 1], sorted(body, (n - 1) as nat), in_module);
    }
}

proof fn lemma_report_node(s: State, node: Node, before: Sorted, in_module: bool)
    ensures
        keeps(s, s.report_node(node, before, in_module)),
{
    assert(from_here(s));
    match node {
        Node::Statement(Statement::Declaration { decl, .. }) => match decl {
            Declaration::Type(t) => {
                lemma_attributes(s, t.attributes@, t.attributes@.len(), false);
                let u = s.report_attributes(
                    t.attributes@,
                    t.attributes@.len(),
                    false,
                ).report_duplicate(before.seen_types, t.name).report_reserved(t.name);
                if let TypeBody::Variants { ctors, .. } = t.body {
                    lemma_ctor_names(u, before.seen_values, ctors@, ctors@.len());
                }
            },
            Declaration::Function(f) => {
                lemma_attributes(s, f.attributes@, f.attributes@.len(), true);
            },
            Declaration::Const(_) => {},
        },
        _ => {},
    }
}

proof fn lemma_attributes(s: State, attrs: Seq<Attribute>, n: nat, on_function: bool)
    ensures
        keeps(s, s.report_attributes(attrs, n, on_function)),
    decreases n,
{
    assert(from_here(s));
    reveal(State::report_attributes);
    if n > 0 {
        lemma_attributes(s, attrs, (n - 1) as nat, on_function);
    }
}

proof fn lemma_ctor_names(s: State, seen: Map<StrId, Span>, ctors: Seq<CtorDecl>, n: nat)
    ensures
        keeps(s, s.report_ctors(seen, ctors, n)),
    decreases n,
{
    assert(from_here(s));
    reveal(State::report_ctors);
    if n > 0 {
        lemma_ctor_names(s, seen, ctors, (n - 1) as nat);
    }
}

proof fn lemma_params(s: State, params: Seq<Ident>, n: nat)
    ensures
        keeps(s, s.report_params(params, n)),
    decreases n,
{
    assert(from_here(s));
    reveal(State::report_params);
    if n > 0 {
        lemma_params(s, params, (n - 1) as nat);
    }
}

proof fn lemma_cycle(s: State, body: Seq<Node>, list: Seq<usize>, members: Seq<usize>, n: nat)
    ensures
        keeps(s, s.report_cycle(body, list, members, n)),
    decreases n,
{
    assert(from_here(s));
    reveal(State::report_cycle);
    if n > 0 {
        lemma_cycle(s, body, list, members, (n - 1) as nat);
    }
}

proof fn lemma_builtins(body: Seq<Node>, list: Seq<usize>, n: nat, x: Exporting)
    ensures
        keeps(x.s, builtins(body, list, n, x).s),
    decreases n,
{
    assert(from_here(x.s));
    reveal(builtins);
    if n > 0 {
        lemma_builtins(body, list, (n - 1) as nat, x);
    }
}

proof fn lemma_slots(body: Seq<Node>, list: Seq<usize>, n: nat, s: State)
    ensures
        keeps(s, decl_slots(body, list, n, s).s),
    decreases n,
{
    assert(from_here(s));
    reveal(decl_slots);
    if n > 0 {
        lemma_slots(body, list, (n - 1) as nat, s);
    }
}

proof fn lemma_signatures(s: State, body: Seq<Node>, list: Seq<usize>, n: nat)
    ensures
        keeps(s, s.signatures(body, list, n)),
    decreases n,
{
    assert(from_here(s));
    reveal(State::signatures);
    if n > 0 {
        lemma_signatures(s, body, list, (n - 1) as nat);
    }
}

proof fn lemma_fields(s: State, c: CtorDecl, n: nat, public: bool)
    ensures
        keeps(s, s.fields(c, n, public)),
    decreases n,
{
    assert(from_here(s));
    reveal(State::fields);
    if n > 0 {
        lemma_fields(s, c, (n - 1) as nat, public);
    }
}

proof fn lemma_ctors(
    t: TypeDecl,
    id: TypeId,
    ctors: Seq<CtorDecl>,
    n: nat,
    public: bool,
    open: bool,
    x: Exporting,
)
    ensures
        keeps(x.s, ctors_of(t, id, ctors, n, public, open, x).x.s),
    decreases n,
{
    assert(from_here(x.s));
    reveal(ctors_of);
    if n > 0 {
        let before = ctors_of(t, id, ctors, (n - 1) as nat, public, open, x);
        lemma_ctors(t, id, ctors, (n - 1) as nat, public, open, x);
        let c = ctors[n - 1];
        lemma_fields(before.x.s, c, c.fields@.len(), open);
    }
}

proof fn lemma_decl_body(s: State, d: Option<(Declaration, bool)>, slot: i32)
    ensures
        keeps(s, s.decl_body(d, slot)),
{
    assert(from_here(s));
    match d {
        Some((Declaration::Function(f), public)) => if let FnBody::Block(body) = f.body {
            let dl = s.here_at(f.name.span, EntityKind::Function);
            let u = s.def(dl, f.name.name, f.doc, public).name_params(defid_at(dl), f.params@);
            assert(keeps(s, u));
            let owner = Some(defid_at(dl));
            let t = u.set_owner(owner);
            lemma_declared(f.name.name, f.params@, body, f.faults@, t);
            let v = declared_function(f.name.name, f.params@, body, f.faults@, t);
            assert(keeps(t, v));
            lemma_owned(u, owner, v);
            let w = v.set_owner(u.refs.owner);
            assert(keeps(s, w));
            let x = w.record(None, f.name, f.doc);
            assert(leaves(w, x));
            assert(leaves(x, x.emit_arg(Op::StoreLocal, slot)));
            assert(keeps(s, x));
        },
        Some((Declaration::Const(c), public)) => {
            let dl = s.here_at(c.name.span, EntityKind::Constant);
            let u = s.def(dl, c.name.name, c.doc, public);
            assert(keeps(s, u));
            let owner = Some(defid_at(dl));
            let t = u.set_owner(owner);
            let h = t.hydrate(c.annotation);
            assert(from_here(t));
            assert(keeps(t, h));
            assert(keeps(h, expr(c.init, h)));
            let v = expr(c.init, h).misfit(c.faults@);
            assert(keeps(t, v));
            lemma_owned(u, owner, v);
            let w = v.set_owner(u.refs.owner);
            assert(keeps(s, w));
            let x = w.record(None, c.name, c.doc);
            assert(leaves(w, x));
            assert(leaves(x, x.emit_arg(Op::StoreLocal, slot)));
            assert(keeps(s, x));
        },
        _ => {},
    }
}

proof fn lemma_group_bodies(
    s: State,
    body: Seq<Node>,
    list: Seq<usize>,
    slots: Seq<i32>,
    members: Seq<usize>,
    n: nat,
)
    ensures
        keeps(s, s.group_bodies(body, list, slots, members, n)),
    decreases n,
{
    assert(from_here(s));
    reveal(State::group_bodies);
    if n > 0 {
        let t = s.group_bodies(body, list, slots, members, (n - 1) as nat);
        let k = members[n - 1] as int;
        lemma_group_bodies(s, body, list, slots, members, (n - 1) as nat);
        lemma_decl_body(t, decl_at(body, list[k]), slots[k]);
    }
}

proof fn lemma_settle(s: State, body: Seq<Node>, list: Seq<usize>, members: Seq<usize>, n: nat)
    ensures
        keeps(s, s.settle_group(body, list, members, n)),
    decreases n,
{
    assert(from_here(s));
    reveal(State::settle_group);
    if n > 0 {
        lemma_settle(s, body, list, members, (n - 1) as nat);
    }
}

proof fn lemma_groups(
    s: State,
    body: Seq<Node>,
    list: Seq<usize>,
    slots: Seq<i32>,
    comps: Seq<Seq<usize>>,
    n: nat,
)
    ensures
        keeps(s, s.group_pass(body, list, slots, comps, n)),
    decreases n,
{
    assert(from_here(s));
    reveal(State::group_pass);
    if n > 0 {
        let t = s.group_pass(body, list, slots, comps, (n - 1) as nat);
        let c = comps[n - 1];
        lemma_groups(s, body, list, slots, comps, (n - 1) as nat);
        lemma_group_bodies(t, body, list, slots, c, c.len());
        lemma_settle(
            t.group_bodies(body, list, slots, c, c.len()),
            body,
            list,
            c,
            c.len(),
        );
    }
}

proof fn lemma_exports(body: Seq<Node>, list: Seq<usize>, slots: Seq<i32>, n: nat, x: Exporting)
    ensures
        keeps(x.s, export_decls(body, list, slots, n, x).s),
    decreases n,
{
    assert(from_here(x.s));
    reveal(export_decls);
    if n > 0 {
        lemma_exports(body, list, slots, (n - 1) as nat, x);
    }
}

proof fn lemma_others(s: State, body: Seq<Node>, others: Seq<usize>, n: nat)
    ensures
        keeps(s, s.other_nodes(body, others, n)),
    decreases n,
{
    assert(from_here(s));
    reveal(State::other_nodes);
    if n > 0 {
        let t = s.other_nodes(body, others, (n - 1) as nat);
        lemma_others(s, body, others, (n - 1) as nat);
        lemma_node(body[others[n - 1] as int], t);
    }
}

proof fn lemma_heads(body: Seq<Node>, types: Seq<usize>, n: nat, s: State)
    requires
        n <= types.len(),
    ensures
        declares(s, heads(body, types, n, s).s),
        heads(body, types, n, s).ids.len() == n,
        forall|k: int|
            0 <= k < n && enough(s, heads(body, types, n, s).s) && is_new(body, types[k])
                ==> s.known.next <= (#[trigger] heads(body, types, n, s).ids[k]).0 < heads(
                body,
                types,
                n,
                s,
            ).s.known.next,
    decreases n,
{
    reveal(heads);
    lemma_declares_self(s);
    if n > 0 {
        let h = heads(body, types, (n - 1) as nat, s);
        lemma_heads(body, types, (n - 1) as nat, s);
        if let Some((Declaration::Type(t), public)) = decl_at(body, types[n - 1]) {
            if !(t.body is Alias) {
                let u = h.s.report_params(t.params@, t.params@.len());
                lemma_params(h.s, t.params@, t.params@.len());
                lemma_declares_on(s, h.s, u);
                let info = TypeInfo {
                    arity: t.params@.len() as usize,
                    variants: if t.body is External {
                        None
                    } else {
                        Some(ArenaSlice { start: 0, len: 0 })
                    },
                };
                lemma_type_head(s, u, t.name.name, info);
                let v = u.type_head(t.name.name, info);
                let w = v.declare(t.name, t.doc, EntityKind::Type, public);
                assert(keeps(v, w));
                lemma_declares_on(s, v, w);
                assert(heads(body, types, n, s).s == w);
                reveal(declares);
            }
        }
    }
}

proof fn lemma_alias(s: State, t: State, d: Option<(TypeDecl, TypeExpr, bool)>)
    requires
        declares(s, t),
    ensures
        declares(s, t.alias(d)),
{
    if let Some((decl, _, public)) = d {
        let u = t.report_params(decl.params@, decl.params@.len());
        lemma_params(t, decl.params@, decl.params@.len());
        lemma_declares_on(s, t, u);
        let info = TypeInfo { arity: decl.params@.len() as usize, variants: None };
        lemma_type_head(s, u, decl.name.name, info);
        let v = u.type_head(decl.name.name, info);
        assert(from_here(v));
        let owner = Some(defid_at(v.here_at(decl.name.span, EntityKind::Type)));
        let o = match decl.body {
            TypeBody::Alias(_, annotation) => v.set_owner(owner).hydrate(annotation),
            _ => v.set_owner(owner),
        };
        assert(keeps(v.set_owner(owner), o));
        lemma_owned(v, owner, o);
        let w = t.alias(d);
        assert(w == o.set_owner(v.refs.owner).declare(
            decl.name,
            decl.doc,
            EntityKind::Type,
            public,
        ));
        assert(keeps(v, w));
        lemma_declares_on(s, v, w);
    }
}

proof fn lemma_alias_groups(
    s: State,
    t: State,
    body: Seq<Node>,
    list: Seq<usize>,
    comps: Seq<Seq<usize>>,
    n: nat,
)
    requires
        declares(s, t),
    ensures
        declares(s, t.alias_groups(body, list, comps, n)),
    decreases n,
{
    reveal(State::alias_groups);
    if n > 0 {
        let u = t.alias_groups(body, list, comps, (n - 1) as nat);
        let c = comps[n - 1];
        lemma_alias_groups(s, t, body, list, comps, (n - 1) as nat);
        lemma_cycle(u, body, list, c, c.len());
        lemma_declares_on(s, u, u.report_cycle(body, list, c, c.len()));
        lemma_alias(s, u, alias_at(body, list[c[0] as int]));
    }
}

proof fn lemma_type_ctors(s: State, x: Exporting, d: Option<(Declaration, bool)>, id: TypeId)
    requires
        declares(s, x.s),
        (d matches Some((Declaration::Type(t), _)) && !(t.body is Alias)) ==> (enough(s, x.s)
            ==> s.known.next <= id.0 < x.s.known.next),
    ensures
        declares(s, x.type_ctors(d, id).s),
        x.type_ctors(d, id).s.known.ids == x.s.known.ids,
        x.type_ctors(d, id).s.known.next == x.s.known.next,
{
    if let Some((Declaration::Type(t), public)) = d {
        if let TypeBody::Variants { ctors, opaque } = t.body {
            let owner = defid_at(x.s.here_at(t.name.span, EntityKind::Type));
            let y = x.at(x.s.set_owner(Some(owner)));
            assert(from_here(x.s));
            lemma_ctors(t, id, ctors@, ctors@.len(), public, public && !opaque, y);
            let c = ctors_of(t, id, ctors@, ctors@.len(), public, public && !opaque, y);
            let v = c.x.s.set_owner(x.s.refs.owner).pool_variants(c.variants);
            assert(keeps(x.s.set_owner(Some(owner)), c.x.s));
            lemma_owned(x.s, Some(owner), c.x.s);
            assert(keeps(x.s, v));
            lemma_declares_on(s, x.s, v);
            let w = x.type_ctors(d, id).s;
            let info = TypeInfo {
                arity: t.params@.len() as usize,
                variants: Some(
                    appended(
                        c.x.s.set_owner(x.s.refs.owner).known.variants.len(),
                        c.variants.len(),
                    ),
                ),
            };
            lemma_type_body(s, v, id, info);
            assert(w == v.type_body(id, info));
            reveal(State::type_body);
        }
    }
}

proof fn lemma_types(
    s: State,
    body: Seq<Node>,
    types: Seq<usize>,
    ids: Seq<TypeId>,
    n: nat,
    x: Exporting,
)
    requires
        declares(s, x.s),
        n <= types.len(),
        forall|k: int|
            0 <= k < types.len() && enough(s, x.s) && is_new(body, types[k]) ==> s.known.next
                <= (#[trigger] ids[k]).0 < x.s.known.next,
    ensures
        declares(s, type_pass(body, types, ids, n, x).s),
        type_pass(body, types, ids, n, x).s.known.ids == x.s.known.ids,
        type_pass(body, types, ids, n, x).s.known.next == x.s.known.next,
    decreases n,
{
    reveal(type_pass);
    if n > 0 {
        let y = type_pass(body, types, ids, (n - 1) as nat, x);
        lemma_types(s, body, types, ids, (n - 1) as nat, x);
        lemma_type_ctors(s, y, decl_at(body, types[n - 1]), ids[n - 1]);
    }
}

/// Whether a node declares a type that is no alias.
spec fn is_new(body: Seq<Node>, i: usize) -> bool {
    decl_at(body, i) matches Some((Declaration::Type(t), _)) && !(t.body is Alias)
}

/// Analysing a module leaves its frame as it was, and declares new types only.
pub proof fn lemma_analysis(body: Seq<Node>, in_module: bool, s: State)
    ensures
        ({
            let t = analysed(body, in_module, s).s;
            &&& declares(s, t)
            &&& t.loc.map == s.loc.map && t.loc.undo == s.loc.undo
        }),
{
    let sorted = sorted(body, body.len());
    let (types, list) = (sorted.types, sorted.decls);
    let p = s.push_locals();
    assert(from_here(p));
    let s0 = p.report_nodes(body, body.len(), in_module);
    lemma_reports(p, body, body.len(), in_module);
    let h = heads(body, types, types.len(), s0);
    lemma_heads(body, types, types.len(), s0);
    let found = aliases(body, types, types.len());
    let acomps = components_of(found.len(), alias_edges(body, found, found.len()));
    lemma_alias_groups(s0, h.s, body, found, acomps, acomps.len());
    let s2 = h.s.alias_pass(body, types);
    assert(declares(s0, s2));
    let x2 = Exporting { s: s2, iface: Interface::none() };
    let x3 = builtins(body, sorted.builtins, sorted.builtins.len(), x2);
    lemma_builtins(body, sorted.builtins, sorted.builtins.len(), x2);
    let t = decl_slots(body, list, list.len(), x3.s);
    lemma_slots(body, list, list.len(), x3.s);
    let s4 = t.s.signatures(body, list, list.len());
    lemma_signatures(t.s, body, list, list.len());
    assert(from_here(s2));
    assert(keeps(s2, s4));
    lemma_declares_on(s0, s2, s4);
    assert(enough(s0, s4) ==> enough(s0, h.s) && h.s.known.next <= s4.known.next) by {
        lemma_more_aliases(h.s, body, found, acomps, acomps.len());
        reveal(declares);
    }
    let x5 = type_pass(body, types, h.ids, types.len(), x3.at(s4));
    lemma_types(s0, body, types, h.ids, types.len(), x3.at(s4));
    let comps = components_of(list.len(), call_edges(body, list, list.len()));
    let s6 = x5.s.group_pass(body, list, t.slots, comps, comps.len());
    lemma_groups(x5.s, body, list, t.slots, comps, comps.len());
    lemma_exports(body, list, t.slots, list.len(), x5.at(s6));
    let x7 = export_decls(body, list, t.slots, list.len(), x5.at(s6));
    assert(from_here(x5.s));
    assert(keeps(x5.s, x7.s));
    lemma_declares_on(s0, x5.s, x7.s);
    let w = x7.s.set_walking(true);
    lemma_others(w, body, sorted.others, sorted.others.len());
    let o = w.other_nodes(body, sorted.others, sorted.others.len());
    let z = o.set_walking(x7.s.loc.walking);
    assert(keeps(x7.s, z)) by {
        reveal(State::set_walking);
        reveal(holds);
    }
    lemma_declares_on(s0, x7.s, z);
    let f = analysed(body, in_module, s).s;
    assert(f == z.pop_locals());
    reveal(declares);
    assert(keeps(p, s0));
    lemma_holds_on(p, s0, z);
    reveal(holds);
    reveal(State::push_locals);
    reveal(State::pop_locals);
    reveal(State::pop_unused);
    assert(p.unused.drop_last() =~= s.unused);
    assert(p.loc.marks.drop_last() =~= s.loc.marks);
    assert(s.loc.undo.take(s.loc.undo.len() as int) =~= s.loc.undo);
    assert(f.loc.map == s.loc.map);
    assert(f.loc.undo =~= s.loc.undo);
    assert(holds(s, f)) by {
        if s.loc.marks.len() > 0 {
            assert(unwound(s.loc.map, s.loc.undo, s.loc.undo.len()) == s.loc.map);
        }
    }
    assert(since(s, f) == since(s0, z));
}

/// Registering aliases declares types.
proof fn lemma_more_aliases(
    t: State,
    body: Seq<Node>,
    list: Seq<usize>,
    comps: Seq<Seq<usize>>,
    n: nat,
)
    ensures
        t.known.ids.len() <= t.alias_groups(body, list, comps, n).known.ids.len(),
    decreases n,
{
    reveal(State::alias_groups);
    if n > 0 {
        let u = t.alias_groups(body, list, comps, (n - 1) as nat);
        let c = comps[n - 1];
        lemma_more_aliases(t, body, list, comps, (n - 1) as nat);
        lemma_cycle(u, body, list, c, c.len());
        lemma_declares_self(u);
        lemma_alias(u, u, alias_at(body, list[c[0] as int]));
        reveal(declares);
    }
}

} // verus!

//! What muting leaves of the passes over a module.
use crate::ast::{
    Attribute, CtorDecl, Declaration, FnBody, Ident, Node, Span, Statement, StrId, TypeBody,
    TypeDecl, TypeExpr,
};
use crate::decls::{
    alias_at, alias_edges, aliases, analysed, builtins, call_edges, ctors_of, decl_at, decl_slots,
    export_decls, heads, sorted, type_pass, with_ctors, Ctors, Exporting, Heads, Slots, Sorted,
};
use crate::diag::ArenaSlice;
use crate::graph::components_of;
use crate::muting::exprs::{lemma_declared, lemma_expr, lemma_node};
use crate::muting::group_muting;
use crate::muting::pieces::group_muting_pieces;
use crate::muting::steps::{group_muting_steps, lemma_type_head};
use crate::prelude_bindings::TypeId;
use crate::refs::{defid_at, EntityKind};
use crate::state::{Interface, Sighting, State, TypeInfo};
use vstd::prelude::*;

verus! {

broadcast use {group_muting, group_muting_pieces, group_muting_steps};

impl Heads {
    /// Types under way in a muted state.
    pub open spec fn muted(self, pre: Seq<Sighting>) -> Heads {
        Heads { s: self.s.muted(pre), ids: self.ids }
    }
}

impl Exporting {
    /// A module under way in a muted state.
    pub open spec fn muted(self, pre: Seq<Sighting>) -> Exporting {
        Exporting { s: self.s.muted(pre), iface: self.iface }
    }
}

impl Slots {
    /// Declarations under way in a muted state.
    pub open spec fn muted(self, pre: Seq<Sighting>) -> Slots {
        Slots { s: self.s.muted(pre), slots: self.slots }
    }
}

impl Ctors {
    /// Constructors under way in a muted state.
    pub open spec fn muted(self, pre: Seq<Sighting>) -> Ctors {
        Ctors { x: self.x.muted(pre), variants: self.variants }
    }
}

proof fn lemma_attributes(
    pre: Seq<Sighting>,
    s: State,
    attrs: Seq<Attribute>,
    n: nat,
    on_function: bool,
)
    ensures
        s.report_attributes(attrs, n, on_function).muted(pre)
            == s.muted(pre).report_attributes(attrs, n, on_function),
    decreases n,
{
    reveal(State::report_attributes);
    if n > 0 {
        lemma_attributes(pre, s, attrs, (n - 1) as nat, on_function);
        let t = s.report_attributes(attrs, (n - 1) as nat, on_function);
        let a = attrs[n - 1];
        assert(t.report_attribute(a, on_function).muted(pre) == t.muted(pre).report_attribute(
            a,
            on_function,
        ));
    }
}

proof fn lemma_duplicate(pre: Seq<Sighting>, s: State, seen: Map<StrId, Span>, id: Ident)
    ensures
        s.report_duplicate(seen, id).muted(pre) == s.muted(pre).report_duplicate(seen, id),
{
}

proof fn lemma_reserved(pre: Seq<Sighting>, s: State, id: Ident)
    ensures
        s.report_reserved(id).muted(pre) == s.muted(pre).report_reserved(id),
{
}

proof fn lemma_ctor_names(
    pre: Seq<Sighting>,
    s: State,
    seen: Map<StrId, Span>,
    ctors: Seq<CtorDecl>,
    n: nat,
)
    ensures
        s.report_ctors(seen, ctors, n).muted(pre) == s.muted(pre).report_ctors(seen, ctors, n),
    decreases n,
{
    reveal(State::report_ctors);
    if n > 0 {
        lemma_ctor_names(pre, s, seen, ctors, (n - 1) as nat);
        let t = s.report_ctors(seen, ctors, (n - 1) as nat);
        let name = ctors[n - 1].name;
        lemma_reserved(pre, t, name);
        lemma_duplicate(
            pre,
            t.report_reserved(name),
            with_ctors(seen, ctors, (n - 1) as nat),
            name,
        );
    }
}

proof fn lemma_report_node(
    pre: Seq<Sighting>,
    s: State,
    node: Node,
    before: Sorted,
    in_module: bool,
)
    ensures
        s.report_node(node, before, in_module).muted(pre) == s.muted(pre).report_node(
            node,
            before,
            in_module,
        ),
{
    match node {
        Node::Statement(Statement::Declaration { decl, .. }) => match decl {
            Declaration::Type(t) => {
                lemma_attributes(pre, s, t.attributes@, t.attributes@.len(), false);
                let u = s.report_attributes(t.attributes@, t.attributes@.len(), false);
                lemma_duplicate(pre, u, before.seen_types, t.name);
                let v = u.report_duplicate(before.seen_types, t.name);
                lemma_reserved(pre, v, t.name);
                if let TypeBody::Variants { ctors, .. } = t.body {
                    lemma_ctor_names(
            pre,
                        v.report_reserved(t.name),
                        before.seen_values,
                        ctors@,
                        ctors@.len(),
                    );
                }
            },
            Declaration::Function(f) => {
                lemma_attributes(pre, s, f.attributes@, f.attributes@.len(), true);
                let u = s.report_attributes(f.attributes@, f.attributes@.len(), true);
                lemma_duplicate(pre, u, before.seen_values, f.name);
            },
            Declaration::Const(c) => lemma_duplicate(pre, s, before.seen_values, c.name),
        },
        _ => {},
    }
}

proof fn lemma_reports(pre: Seq<Sighting>, s: State, body: Seq<Node>, n: nat, in_module: bool)
    ensures
        s.report_nodes(body, n, in_module).muted(pre)
            == s.muted(pre).report_nodes(body, n, in_module),
    decreases n,
{
    reveal(State::report_nodes);
    if n > 0 {
        lemma_reports(pre, s, body, (n - 1) as nat, in_module);
        let t = s.report_nodes(body, (n - 1) as nat, in_module);
        lemma_report_node(pre, t, body[n - 1], sorted(body, (n - 1) as nat), in_module);
    }
}

proof fn lemma_params(pre: Seq<Sighting>, s: State, params: Seq<Ident>, n: nat)
    ensures
        s.report_params(params, n).muted(pre) == s.muted(pre).report_params(params, n),
    decreases n,
{
    reveal(State::report_params);
    if n > 0 {
        lemma_params(pre, s, params, (n - 1) as nat);
    }
}

proof fn lemma_heads(
    pre: Seq<Sighting>,
    post: Seq<Sighting>,
    body: Seq<Node>,
    types: Seq<usize>,
    n: nat,
    s: State,
    t: State,
)
    requires
        s.muted(pre) == t.muted(post),
    ensures
        heads(body, types, n, s).s.muted(pre) == heads(body, types, n, t).s.muted(post),
        heads(body, types, n, s).ids == heads(body, types, n, t).ids,
    decreases n,
{
    reveal(heads);
    if n > 0 {
        lemma_heads(pre, post, body, types, (n - 1) as nat, s, t);
        let a = heads(body, types, (n - 1) as nat, s).s;
        let b = heads(body, types, (n - 1) as nat, t).s;
        if let Some((Declaration::Type(d), public)) = decl_at(body, types[n - 1]) {
            if !(d.body is Alias) {
                lemma_params(pre, a, d.params@, d.params@.len());
                lemma_params(post, b, d.params@, d.params@.len());
                let u = a.report_params(d.params@, d.params@.len());
                let v = b.report_params(d.params@, d.params@.len());
                assert(u.muted(pre) == v.muted(post));
                assert(u.muted(pre).known == v.muted(post).known);
                let info = TypeInfo {
                    arity: d.params@.len() as usize,
                    variants: if d.body is External {
                        None
                    } else {
                        Some(ArenaSlice { start: 0, len: 0 })
                    },
                };
                lemma_type_head(pre, post, u, v, d.name.name, info);
                let w = u.type_head(d.name.name, info);
                let x = v.type_head(d.name.name, info);
                lemma_declare(pre, post, w, x, d.name, d.doc, EntityKind::Type, public);
            }
        }
    }
}

proof fn lemma_declare(
    pre: Seq<Sighting>,
    post: Seq<Sighting>,
    s: State,
    t: State,
    id: Ident,
    doc: Option<StrId>,
    entity: EntityKind,
    public: bool,
)
    requires
        s.muted(pre) == t.muted(post),
    ensures
        s.declare(id, doc, entity, public).muted(pre) == t.declare(id, doc, entity, public).muted(
            post,
        ),
{
    assert(s.muted(pre).refs.current == t.muted(post).refs.current);
}

proof fn lemma_cycle(
    pre: Seq<Sighting>,
    s: State,
    body: Seq<Node>,
    list: Seq<usize>,
    members: Seq<usize>,
    n: nat,
)
    ensures
        s.report_cycle(body, list, members, n).muted(pre)
            == s.muted(pre).report_cycle(body, list, members, n),
    decreases n,
{
    reveal(State::report_cycle);
    if n > 0 {
        lemma_cycle(pre, s, body, list, members, (n - 1) as nat);
    }
}

proof fn lemma_alias(
    pre: Seq<Sighting>,
    post: Seq<Sighting>,
    s: State,
    t: State,
    d: Option<(TypeDecl, TypeExpr, bool)>,
)
    requires
        s.muted(pre) == t.muted(post),
    ensures
        s.alias(d).muted(pre) == t.alias(d).muted(post),
{
    if let Some((decl, _, public)) = d {
        lemma_params(pre, s, decl.params@, decl.params@.len());
        lemma_params(post, t, decl.params@, decl.params@.len());
        let u = s.report_params(decl.params@, decl.params@.len());
        let v = t.report_params(decl.params@, decl.params@.len());
        let info = TypeInfo { arity: decl.params@.len() as usize, variants: None };
        lemma_type_head(pre, post, u, v, decl.name.name, info);
        let w = u.type_head(decl.name.name, info);
        let x = v.type_head(decl.name.name, info);
        assert(w.muted(pre).refs.current == x.muted(post).refs.current);
        assert(w.muted(pre).refs.owner == x.muted(post).refs.owner);
        let owner = Some(defid_at(w.here_at(decl.name.span, EntityKind::Type)));
        let (a, b) = match decl.body {
            TypeBody::Alias(_, annotation) => (
                w.set_owner(owner).hydrate(annotation),
                x.set_owner(owner).hydrate(annotation),
            ),
            _ => (w.set_owner(owner), x.set_owner(owner)),
        };
        assert(a.muted(pre) == b.muted(post));
        let (c, e) = (a.set_owner(w.refs.owner), b.set_owner(w.refs.owner));
        assert(c.muted(pre) == e.muted(post));
        lemma_declare(pre, post, c, e, decl.name, decl.doc, EntityKind::Type, public);
    }
}

proof fn lemma_alias_groups(
    pre: Seq<Sighting>,
    post: Seq<Sighting>,
    s: State,
    t: State,
    body: Seq<Node>,
    list: Seq<usize>,
    comps: Seq<Seq<usize>>,
    n: nat,
)
    requires
        s.muted(pre) == t.muted(post),
    ensures
        s.alias_groups(body, list, comps, n).muted(pre) == t.alias_groups(
            body,
            list,
            comps,
            n,
        ).muted(post),
    decreases n,
{
    reveal(State::alias_groups);
    if n > 0 {
        lemma_alias_groups(pre, post, s, t, body, list, comps, (n - 1) as nat);
        let u = s.alias_groups(body, list, comps, (n - 1) as nat);
        let v = t.alias_groups(body, list, comps, (n - 1) as nat);
        let c = comps[n - 1];
        lemma_cycle(pre, u, body, list, c, c.len());
        lemma_cycle(post, v, body, list, c, c.len());
        lemma_alias(pre, post, u, v, alias_at(body, list[c[0] as int]));
    }
}

proof fn lemma_builtin(pre: Seq<Sighting>, x: Exporting, d: Option<(Declaration, bool)>)
    ensures
        x.builtin(d).muted(pre) == x.muted(pre).builtin(d),
{
}

proof fn lemma_builtins(pre: Seq<Sighting>, body: Seq<Node>, list: Seq<usize>, n: nat, x: Exporting)
    ensures
        builtins(body, list, n, x).muted(pre) == builtins(body, list, n, x.muted(pre)),
    decreases n,
{
    reveal(builtins);
    if n > 0 {
        lemma_builtins(pre, body, list, (n - 1) as nat, x);
        lemma_builtin(pre, builtins(body, list, (n - 1) as nat, x), decl_at(body, list[n - 1]));
    }
}

proof fn lemma_slots(pre: Seq<Sighting>, body: Seq<Node>, list: Seq<usize>, n: nat, s: State)
    ensures
        decl_slots(body, list, n, s).muted(pre) == decl_slots(body, list, n, s.muted(pre)),
    decreases n,
{
    reveal(decl_slots);
    if n > 0 {
        lemma_slots(pre, body, list, (n - 1) as nat, s);
    }
}

proof fn lemma_signatures(pre: Seq<Sighting>, s: State, body: Seq<Node>, list: Seq<usize>, n: nat)
    ensures
        s.signatures(body, list, n).muted(pre) == s.muted(pre).signatures(body, list, n),
    decreases n,
{
    reveal(State::signatures);
    if n > 0 {
        lemma_signatures(pre, s, body, list, (n - 1) as nat);
    }
}

proof fn lemma_ctor_fields(pre: Seq<Sighting>, s: State, c: CtorDecl, n: nat, public: bool)
    ensures
        s.fields(c, n, public).muted(pre) == s.muted(pre).fields(c, n, public),
    decreases n,
{
    reveal(State::fields);
    if n > 0 {
        lemma_ctor_fields(pre, s, c, (n - 1) as nat, public);
    }
}

proof fn lemma_ctor(
    pre: Seq<Sighting>,
    before: Ctors,
    t: TypeDecl,
    id: TypeId,
    c: CtorDecl,
    i: nat,
    public: bool,
    open: bool,
)
    ensures
        before.with(t, id, c, i, public, open).muted(pre) == before.muted(pre).with(
            t,
            id,
            c,
            i,
            public,
            open,
        ),
{
    lemma_ctor_fields(pre, before.x.s, c, c.fields@.len(), open);
}

proof fn lemma_ctors(
    pre: Seq<Sighting>,
    t: TypeDecl,
    id: TypeId,
    ctors: Seq<CtorDecl>,
    n: nat,
    public: bool,
    open: bool,
    x: Exporting,
)
    ensures
        ctors_of(t, id, ctors, n, public, open, x).muted(pre)
            == ctors_of(t, id, ctors, n, public, open, x.muted(pre)),
    decreases n,
{
    reveal(ctors_of);
    if n > 0 {
        lemma_ctors(pre, t, id, ctors, (n - 1) as nat, public, open, x);
        let before = ctors_of(t, id, ctors, (n - 1) as nat, public, open, x);
        lemma_ctor(pre, before, t, id, ctors[n - 1], (n - 1) as nat, public, open);
    }
}

proof fn lemma_type_ctors(
    pre: Seq<Sighting>,
    x: Exporting,
    d: Option<(Declaration, bool)>,
    id: TypeId,
)
    ensures
        x.type_ctors(d, id).muted(pre) == x.muted(pre).type_ctors(d, id),
{
    if let Some((Declaration::Type(t), public)) = d {
        if let TypeBody::Variants { ctors, opaque } = t.body {
            let owner = defid_at(x.s.here_at(t.name.span, EntityKind::Type));
            let y = x.at(x.s.set_owner(Some(owner)));
            lemma_ctors(pre, t, id, ctors@, ctors@.len(), public, public && !opaque, y);
            assert(y.muted(pre) == x.muted(pre).at(x.muted(pre).s.set_owner(Some(owner))));
        }
    }
}

proof fn lemma_types(
    pre: Seq<Sighting>,
    body: Seq<Node>,
    types: Seq<usize>,
    ids: Seq<TypeId>,
    n: nat,
    x: Exporting,
)
    ensures
        type_pass(body, types, ids, n, x).muted(pre)
            == type_pass(body, types, ids, n, x.muted(pre)),
    decreases n,
{
    reveal(type_pass);
    if n > 0 {
        lemma_types(pre, body, types, ids, (n - 1) as nat, x);
        let y = type_pass(body, types, ids, (n - 1) as nat, x);
        lemma_type_ctors(pre, y, decl_at(body, types[n - 1]), ids[n - 1]);
    }
}

proof fn lemma_decl_body(pre: Seq<Sighting>, s: State, d: Option<(Declaration, bool)>, slot: i32)
    ensures
        s.decl_body(d, slot).muted(pre) == s.muted(pre).decl_body(d, slot),
{
    match d {
        Some((Declaration::Function(f), public)) => if let FnBody::Block(body) = f.body {
            let dl = s.here_at(f.name.span, EntityKind::Function);
            let t = s.def(dl, f.name.name, f.doc, public).name_params(
                defid_at(dl),
                f.params@,
            ).set_owner(Some(defid_at(dl)));
            lemma_declared(pre, f.name.name, f.params@, body, f.faults@, t);
        },
        Some((Declaration::Const(c), public)) => {
            let dl = s.here_at(c.name.span, EntityKind::Constant);
            let t = s.def(dl, c.name.name, c.doc, public).set_owner(Some(defid_at(dl)));
            lemma_expr(pre, c.init, t.hydrate(c.annotation));
        },
        _ => {},
    }
}

proof fn lemma_group_bodies(
    pre: Seq<Sighting>,
    s: State,
    body: Seq<Node>,
    list: Seq<usize>,
    slots: Seq<i32>,
    members: Seq<usize>,
    n: nat,
)
    ensures
        s.group_bodies(body, list, slots, members, n).muted(pre)
            == s.muted(pre).group_bodies(body, list, slots, members, n),
    decreases n,
{
    reveal(State::group_bodies);
    if n > 0 {
        lemma_group_bodies(pre, s, body, list, slots, members, (n - 1) as nat);
        let t = s.group_bodies(body, list, slots, members, (n - 1) as nat);
        let k = members[n - 1] as int;
        lemma_decl_body(pre, t, decl_at(body, list[k]), slots[k]);
    }
}

proof fn lemma_settle(
    pre: Seq<Sighting>,
    s: State,
    body: Seq<Node>,
    list: Seq<usize>,
    members: Seq<usize>,
    n: nat,
)
    ensures
        s.settle_group(body, list, members, n).muted(pre)
            == s.muted(pre).settle_group(body, list, members, n),
    decreases n,
{
    reveal(State::settle_group);
    if n > 0 {
        lemma_settle(pre, s, body, list, members, (n - 1) as nat);
    }
}

proof fn lemma_groups(
    pre: Seq<Sighting>,
    s: State,
    body: Seq<Node>,
    list: Seq<usize>,
    slots: Seq<i32>,
    comps: Seq<Seq<usize>>,
    n: nat,
)
    ensures
        s.group_pass(body, list, slots, comps, n).muted(pre)
            == s.muted(pre).group_pass(body, list, slots, comps, n),
    decreases n,
{
    reveal(State::group_pass);
    if n > 0 {
        lemma_groups(pre, s, body, list, slots, comps, (n - 1) as nat);
        let t = s.group_pass(body, list, slots, comps, (n - 1) as nat);
        let c = comps[n - 1];
        lemma_group_bodies(pre, t, body, list, slots, c, c.len());
        lemma_settle(pre, t.group_bodies(body, list, slots, c, c.len()), body, list, c, c.len());
    }
}

proof fn lemma_others(pre: Seq<Sighting>, s: State, body: Seq<Node>, others: Seq<usize>, n: nat)
    ensures
        s.other_nodes(body, others, n).muted(pre) == s.muted(pre).other_nodes(body, others, n),
    decreases n,
{
    reveal(State::other_nodes);
    if n > 0 {
        lemma_others(pre, s, body, others, (n - 1) as nat);
        let t = s.other_nodes(body, others, (n - 1) as nat);
        lemma_node(pre, body[others[n - 1] as int], t);
    }
}

proof fn lemma_exports(
    pre: Seq<Sighting>,
    body: Seq<Node>,
    list: Seq<usize>,
    slots: Seq<i32>,
    n: nat,
    x: Exporting,
)
    ensures
        export_decls(body, list, slots, n, x).muted(pre)
            == export_decls(body, list, slots, n, x.muted(pre)),
    decreases n,
{
    reveal(export_decls);
    if n > 0 {
        lemma_exports(pre, body, list, slots, (n - 1) as nat, x);
    }
}

/// Two states that are the same once muted are so after a module is analysed, and what it
/// exports is the same.
pub proof fn lemma_analysed(
    pre: Seq<Sighting>,
    post: Seq<Sighting>,
    body: Seq<Node>,
    in_module: bool,
    s: State,
    t: State,
)
    requires
        s.muted(pre) == t.muted(post),
    ensures
        analysed(body, in_module, s).s.muted(pre) == analysed(body, in_module, t).s.muted(post),
        analysed(body, in_module, s).iface == analysed(body, in_module, t).iface,
{
    let sorted = sorted(body, body.len());
    let (types, list) = (sorted.types, sorted.decls);
    let a0 = s.push_locals().report_nodes(body, body.len(), in_module);
    let b0 = t.push_locals().report_nodes(body, body.len(), in_module);
    lemma_reports(pre, s.push_locals(), body, body.len(), in_module);
    lemma_reports(post, t.push_locals(), body, body.len(), in_module);
    assert(a0.muted(pre) == b0.muted(post));
    let g = heads(body, types, types.len(), a0);
    let h = heads(body, types, types.len(), b0);
    lemma_heads(pre, post, body, types, types.len(), a0, b0);
    let found = aliases(body, types, types.len());
    let acomps = components_of(found.len(), alias_edges(body, found, found.len()));
    lemma_alias_groups(pre, post, g.s, h.s, body, found, acomps, acomps.len());
    let a2 = g.s.alias_pass(body, types);
    let b2 = h.s.alias_pass(body, types);
    assert(a2.muted(pre) == b2.muted(post));
    let (x2, y2) = (
        Exporting { s: a2, iface: Interface::none() },
        Exporting { s: b2, iface: Interface::none() },
    );
    let x3 = builtins(body, sorted.builtins, sorted.builtins.len(), x2);
    let y3 = builtins(body, sorted.builtins, sorted.builtins.len(), y2);
    lemma_builtins(pre, body, sorted.builtins, sorted.builtins.len(), x2);
    lemma_builtins(post, body, sorted.builtins, sorted.builtins.len(), y2);
    assert(x3.muted(pre) == y3.muted(post));
    lemma_after(pre, body, x3, g.ids);
    lemma_after(post, body, y3, g.ids);
    assert(analysed(body, in_module, s) == after_builtins(body, x3, g.ids));
    assert(analysed(body, in_module, t) == after_builtins(body, y3, g.ids));
    assert(after_builtins(body, x3, g.ids).muted(pre) == after_builtins(body, y3, g.ids).muted(
        post,
    ));
}

/// What is analysed of a module once its builtins are defined.
spec fn after_builtins(body: Seq<Node>, x3: Exporting, ids: Seq<TypeId>) -> Exporting {
    let sorted = sorted(body, body.len());
    let (types, items) = (sorted.types, sorted.decls);
    let t = decl_slots(body, items, items.len(), x3.s);
    let s4 = t.s.signatures(body, items, items.len());
    let x5 = type_pass(body, types, ids, types.len(), x3.at(s4));
    let comps = components_of(items.len(), call_edges(body, items, items.len()));
    let s6 = x5.s.group_pass(body, items, t.slots, comps, comps.len());
    let x7 = export_decls(body, items, t.slots, items.len(), x5.at(s6));
    let s8 = x7.s.set_walking(true).other_nodes(body, sorted.others, sorted.others.len());
    x7.at(s8.set_walking(x7.s.loc.walking).pop_locals())
}

proof fn lemma_after(pre: Seq<Sighting>, body: Seq<Node>, x3: Exporting, ids: Seq<TypeId>)
    ensures
        after_builtins(body, x3, ids).muted(pre) == after_builtins(body, x3.muted(pre), ids),
{
    let sorted = sorted(body, body.len());
    let (types, list) = (sorted.types, sorted.decls);
    let t = decl_slots(body, list, list.len(), x3.s);
    lemma_slots(pre, body, list, list.len(), x3.s);
    let s4 = t.s.signatures(body, list, list.len());
    lemma_signatures(pre, t.s, body, list, list.len());
    let x5 = type_pass(body, types, ids, types.len(), x3.at(s4));
    lemma_types(pre, body, types, ids, types.len(), x3.at(s4));
    assert(x3.at(s4).muted(pre) == x3.muted(pre).at(s4.muted(pre)));
    let comps = components_of(list.len(), call_edges(body, list, list.len()));
    let s6 = x5.s.group_pass(body, list, t.slots, comps, comps.len());
    lemma_groups(pre, x5.s, body, list, t.slots, comps, comps.len());
    assert(x5.at(s6).muted(pre) == x5.muted(pre).at(s6.muted(pre)));
    lemma_exports(pre, body, list, t.slots, list.len(), x5.at(s6));
    let x7 = export_decls(body, list, t.slots, list.len(), x5.at(s6));
    let w = x7.s.set_walking(true);
    lemma_others(pre, w, body, sorted.others, sorted.others.len());
}

} // verus!

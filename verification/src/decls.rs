//! What the declarations of a module amount to, as functions on its nodes and on
//! compiler states.
//!
//! Declarations may refer to one another in any order, so a module is taken in
//! passes: its nodes are sorted, its types get their heads, aliases and
//! constructors, its functions and constants get their slots, and their bodies are
//! compiled group by group, each behind what it refers to.
//!
//! What one pass finds is kept in lists beside the nodes and never looked up by
//! name, so that two declarations of one name cannot be confused.
use crate::ast::{
    node_span, Attribute, CtorDecl, Declaration, FnBody, Ident, Node, Span, Statement, StrId,
    TypeBody, TypeDecl, TypeExpr,
};
use crate::diag::{ArenaSlice, Message};
use crate::gen::{declared_function, expr, node};
use crate::graph::components_of;
use crate::op::{builtin_op_of, Op};
use crate::prelude_bindings::TypeId;
use crate::refs::{defid_at, location, DefId, DefinitionLocation, EntityKind};
use crate::shadows::Walk;
use crate::state::{
    entry_of, Binding, ExportedValue, FieldDef, Interface, Known, Locals, Origin, Refs, State,
    TypeInfo, ValueKind, VariantInfo,
};
use crate::walk::free;
use vstd::prelude::*;

verus! {

// ---- nodes -----------------------------------------------------------------

/// The declaration at a node, and whether it is public.
pub open spec fn decl_at(body: Seq<Node>, i: usize) -> Option<(Declaration, bool)> {
    match body[i as int] {
        Node::Statement(Statement::Declaration { decl, public }) => Some((decl, public)),
        _ => None,
    }
}

/// The name of a declaration.
pub open spec fn decl_name(d: Declaration) -> Ident {
    match d {
        Declaration::Function(f) => f.name,
        Declaration::Type(t) => t.name,
        Declaration::Const(c) => c.name,
    }
}

/// What the documentation says of a declaration.
pub open spec fn decl_doc(d: Declaration) -> Option<StrId> {
    match d {
        Declaration::Function(f) => f.doc,
        Declaration::Const(c) => c.doc,
        Declaration::Type(t) => t.doc,
    }
}

/// What a declared function takes.
pub open spec fn decl_params(d: Declaration) -> Seq<Ident> {
    match d {
        Declaration::Function(f) => f.params@,
        _ => Seq::empty(),
    }
}

/// The name of the declaration at a node.
pub open spec fn name_at(body: Seq<Node>, i: usize) -> Ident {
    match decl_at(body, i) {
        Some((d, _)) => decl_name(d),
        None => Ident { name: 0, span: node_span(body[i as int]) },
    }
}

/// The nodes of a module sorted: its types, its functions and constants, its
/// builtins and the rest, each by its place, and the names taken so far.
pub struct Sorted {
    pub types: Seq<usize>,
    pub decls: Seq<usize>,
    pub builtins: Seq<usize>,
    pub others: Seq<usize>,
    pub seen_types: Map<StrId, Span>,
    pub seen_values: Map<StrId, Span>,
}

/// The names of the first `n` constructors, added to those taken.
pub open spec fn with_ctors(seen: Map<StrId, Span>, ctors: Seq<CtorDecl>, n: nat) -> Map<
    StrId,
    Span,
>
    decreases n,
{
    if n == 0 {
        seen
    } else {
        with_ctors(seen, ctors, (n - 1) as nat).insert(
            ctors[n - 1].name.name,
            ctors[n - 1].name.span,
        )
    }
}

/// The first `n` nodes sorted. A second declaration of a name is left out.
pub open spec fn sorted(body: Seq<Node>, n: nat) -> Sorted
    decreases n,
{
    if n == 0 {
        Sorted {
            types: Seq::empty(),
            decls: Seq::empty(),
            builtins: Seq::empty(),
            others: Seq::empty(),
            seen_types: Map::empty(),
            seen_values: Map::empty(),
        }
    } else {
        sorted(body, (n - 1) as nat).with(body[n - 1], (n - 1) as usize)
    }
}

impl Sorted {
    /// One more node, at place `i`.
    pub open spec fn with(self, node: Node, i: usize) -> Sorted {
        match node {
            Node::Statement(Statement::Declaration { decl: Declaration::Type(t), .. }) => Sorted {
                types: if self.seen_types.dom().contains(t.name.name) {
                    self.types
                } else {
                    self.types.push(i)
                },
                seen_types: self.seen_types.insert(t.name.name, t.name.span),
                seen_values: match t.body {
                    TypeBody::Variants { ctors, .. } => with_ctors(
                        self.seen_values,
                        ctors@,
                        ctors@.len(),
                    ),
                    _ => self.seen_values,
                },
                ..self
            },
            Node::Statement(Statement::Declaration { decl: Declaration::Function(f), .. }) => {
                let fresh = !self.seen_values.dom().contains(f.name.name);
                Sorted {
                    decls: if fresh && f.body is Block {
                        self.decls.push(i)
                    } else {
                        self.decls
                    },
                    builtins: if fresh && f.body is Vm {
                        self.builtins.push(i)
                    } else {
                        self.builtins
                    },
                    seen_values: self.seen_values.insert(f.name.name, f.name.span),
                    ..self
                }
            },
            Node::Statement(Statement::Declaration { decl: Declaration::Const(c), .. }) => Sorted {
                decls: if self.seen_values.dom().contains(c.name.name) {
                    self.decls
                } else {
                    self.decls.push(i)
                },
                seen_values: self.seen_values.insert(c.name.name, c.name.span),
                ..self
            },
            Node::Statement(Statement::Import(_)) => self,
            _ => Sorted { others: self.others.push(i), ..self },
        }
    }
}

// ---- what is reported of the nodes -----------------------------------------

impl State {
    /// Report a name that is taken, and where.
    pub open spec fn report_duplicate(self, seen: Map<StrId, Span>, id: Ident) -> State {
        if seen.dom().contains(id.name) {
            self.error(Message::AlreadyDefined { name: id.name }, id.span).note(
                Message::FirstDefinition,
                seen[id.name],
            )
        } else {
            self
        }
    }

    /// Report a name that only the prelude may define.
    pub open spec fn report_reserved(self, id: Ident) -> State {
        if self.known.origin != Origin::Prelude && self.known.reserved.dom().contains(id.name) {
            self.error(Message::Reserved { name: id.name }, id.span)
        } else {
            self
        }
    }

    /// Report what is wrong with an attribute.
    pub open spec fn report_attribute(self, a: Attribute, on_function: bool) -> State {
        if self.text(a.name.name) == "vm"@ {
            let s1 = if self.known.origin == Origin::User {
                self.error(Message::VmOutsideStdlib, a.span)
            } else {
                self
            };
            let s2 = if !on_function {
                s1.error(Message::VmOnNonFunction, a.span)
            } else {
                s1
            };
            if a.args != 1 {
                s2.error(Message::VmArguments, a.span)
            } else {
                s2
            }
        } else {
            self.error(Message::UnknownAttribute { name: a.name.name }, a.span)
        }
    }

    /// Report what is wrong with the first `n` attributes.
    #[verifier::opaque]
    pub open spec fn report_attributes(
        self,
        attrs: Seq<Attribute>,
        n: nat,
        on_function: bool,
    ) -> State
        decreases n,
    {
        if n == 0 {
            self
        } else {
            self.report_attributes(attrs, (n - 1) as nat, on_function).report_attribute(
                attrs[n - 1],
                on_function,
            )
        }
    }

    /// Report what is wrong with the names of the first `n` constructors.
    #[verifier::opaque]
    pub open spec fn report_ctors(
        self,
        seen: Map<StrId, Span>,
        ctors: Seq<CtorDecl>,
        n: nat,
    ) -> State
        decreases n,
    {
        if n == 0 {
            self
        } else {
            let before = with_ctors(seen, ctors, (n - 1) as nat);
            self.report_ctors(seen, ctors, (n - 1) as nat).report_reserved(
                ctors[n - 1].name,
            ).report_duplicate(before, ctors[n - 1].name)
        }
    }

    /// Report what is wrong with a node, whose predecessors are sorted. A module
    /// that is imported holds declarations only.
    pub open spec fn report_node(self, node: Node, before: Sorted, in_module: bool) -> State {
        match node {
            Node::Statement(Statement::Declaration { decl: Declaration::Type(t), .. }) => {
                let s1 = self.report_attributes(
                    t.attributes@,
                    t.attributes@.len(),
                    false,
                ).report_duplicate(before.seen_types, t.name).report_reserved(t.name);
                match t.body {
                    TypeBody::Variants { ctors, .. } => s1.report_ctors(
                        before.seen_values,
                        ctors@,
                        ctors@.len(),
                    ),
                    _ => s1,
                }
            },
            Node::Statement(Statement::Declaration { decl: Declaration::Function(f), .. }) => {
                let s1 = self.report_attributes(
                    f.attributes@,
                    f.attributes@.len(),
                    true,
                ).report_duplicate(before.seen_values, f.name);
                match f.body {
                    FnBody::Vm(key) => if !before.seen_values.dom().contains(f.name.name)
                        && builtin_op_of(s1.text(key.name)) is None {
                        s1.error(Message::UnknownBuiltin { name: key.name }, key.span)
                    } else {
                        s1
                    },
                    FnBody::Block(_) => s1,
                }
            },
            Node::Statement(Statement::Declaration { decl: Declaration::Const(c), .. }) =>
                self.report_duplicate(before.seen_values, c.name),
            Node::Statement(Statement::Import(_)) => self,
            _ => if in_module {
                self.error(Message::OnlyDeclarations, node_span(node))
            } else {
                self
            },
        }
    }

    /// Report what is wrong with the first `n` nodes.
    #[verifier::opaque]
    pub open spec fn report_nodes(self, body: Seq<Node>, n: nat, in_module: bool) -> State
        decreases n,
    {
        if n == 0 {
            self
        } else {
            self.report_nodes(body, (n - 1) as nat, in_module).report_node(
                body[n - 1],
                sorted(body, (n - 1) as nat),
                in_module,
            )
        }
    }
}

// ---- types -----------------------------------------------------------------

impl State {
    /// Where something of this module is declared.
    pub open spec fn here_at(self, span: Span, entity: EntityKind) -> DefinitionLocation {
        location(span, self.refs.current, entity)
    }

    /// Enter a definition of this module.
    pub open spec fn declare(
        self,
        id: Ident,
        doc: Option<StrId>,
        entity: EntityKind,
        public: bool,
    ) -> State {
        self.def(self.here_at(id.span, entity), id.name, doc, public)
    }

    /// Give a type's name the next identity.
    #[verifier::opaque]
    pub open spec fn type_head(self, name: StrId, info: TypeInfo) -> State {
        State {
            known: Known {
                types: self.known.types.insert(name, TypeId(self.known.next)),
                log: self.known.log.push((name, entry_of(self.known.types, name))),
                infos: self.known.infos.insert(self.known.next, info),
                ids: self.known.ids.push(self.known.next),
                next: u32::wrapping_add(self.known.next, 1),
                ..self.known
            },
            ..self
        }
    }

    /// Say what a type consists of.
    #[verifier::opaque]
    pub open spec fn type_body(self, id: TypeId, info: TypeInfo) -> State {
        State { known: Known { infos: self.known.infos.insert(id.0, info), ..self.known }, ..self }
    }

    /// Pool labels.
    #[verifier::opaque]
    pub open spec fn pool_labels(self, labels: Seq<StrId>) -> State {
        State { labels: self.labels + labels, ..self }
    }

    /// Pool constructors.
    #[verifier::opaque]
    pub open spec fn pool_variants(self, variants: Seq<VariantInfo>) -> State {
        State { known: Known { variants: self.known.variants + variants, ..self.known }, ..self }
    }

    /// Attribute what is referred to from here on.
    #[verifier::opaque]
    pub open spec fn set_owner(self, owner: Option<DefId>) -> State {
        State { refs: Refs { owner, ..self.refs }, ..self }
    }

    /// Say whether the statements of the module itself are compiled.
    #[verifier::opaque]
    pub open spec fn set_walking(self, walking: bool) -> State {
        State { loc: Locals { walking, ..self.loc }, ..self }
    }

    /// Report the type parameters among the first `n` that repeat one before.
    #[verifier::opaque]
    pub open spec fn report_params(self, params: Seq<Ident>, n: nat) -> State
        decreases n,
    {
        if n == 0 {
            self
        } else {
            let t = self.report_params(params, (n - 1) as nat);
            let p = params[n - 1];
            if crate::gen::has_name(params, (n - 1) as nat, p.name) {
                t.error(Message::DuplicateTypeParameter { name: p.name }, p.span)
            } else {
                t
            }
        }
    }
}

/// The slice that `n` entries behind `len` others make up.
pub open spec fn appended(len: nat, n: nat) -> ArenaSlice {
    ArenaSlice { start: len as u32, len: n as u16 }
}

/// Compiler states with the identities of the types so far.
pub struct Heads {
    pub s: State,
    pub ids: Seq<TypeId>,
}

/// Register the heads of the first `n` types: each gets an identity and no
/// constructors yet; a type from outside has none at all. Aliases have to wait.
#[verifier::opaque]
pub open spec fn heads(body: Seq<Node>, types: Seq<usize>, n: nat, s: State) -> Heads
    decreases n,
{
    if n == 0 {
        Heads { s, ids: Seq::empty() }
    } else {
        heads(body, types, (n - 1) as nat, s).with(decl_at(body, types[n - 1]))
    }
}

impl Heads {
    /// One more type.
    pub open spec fn with(self, d: Option<(Declaration, bool)>) -> Heads {
        match d {
            Some((Declaration::Type(t), public)) => if t.body is Alias {
                Heads { s: self.s, ids: self.ids.push(TypeId(0)) }
            } else {
                let s1 = self.s.report_params(t.params@, t.params@.len());
                let info = TypeInfo {
                    arity: t.params@.len() as usize,
                    variants: if t.body is External {
                        None
                    } else {
                        Some(ArenaSlice { start: 0, len: 0 })
                    },
                };
                Heads {
                    s: s1.type_head(t.name.name, info).declare(
                        t.name,
                        t.doc,
                        EntityKind::Type,
                        public,
                    ),
                    ids: self.ids.push(TypeId(s1.known.next)),
                }
            },
            _ => Heads { s: self.s, ids: self.ids.push(TypeId(0)) },
        }
    }
}

// ---- aliases ---------------------------------------------------------------

/// The names a type mentions, in order.
pub open spec fn type_deps(t: TypeExpr) -> Seq<StrId>
    decreases t, 0nat,
{
    match t {
        TypeExpr::Named { name, args } => seq![name.name] + all_type_deps(args@, args@.len()),
        TypeExpr::Function { params, ret } => {
            let before = all_type_deps(params@, params@.len());
            match ret {
                Some(r) => before + type_deps(*r),
                None => before,
            }
        },
        TypeExpr::Tuple { elements } => all_type_deps(elements@, elements@.len()),
    }
}

/// The names the first `n` of several types mention.
pub open spec fn all_type_deps(ts: Seq<TypeExpr>, n: nat) -> Seq<StrId>
    decreases ts, n,
{
    if n == 0 || n > ts.len() {
        Seq::empty()
    } else {
        all_type_deps(ts, (n - 1) as nat) + type_deps(ts[n - 1])
    }
}

/// The alias at a node: its declaration, what it stands for, and whether it is
/// public.
pub open spec fn alias_at(body: Seq<Node>, i: usize) -> Option<(TypeDecl, TypeExpr, bool)> {
    match decl_at(body, i) {
        Some((Declaration::Type(t), public)) => match t.body {
            TypeBody::Alias(rhs, _) => Some((t, rhs, public)),
            _ => None,
        },
        _ => None,
    }
}

/// The aliases among the first `n` types.
pub open spec fn aliases(body: Seq<Node>, types: Seq<usize>, n: nat) -> Seq<usize>
    decreases n,
{
    if n == 0 {
        Seq::empty()
    } else if alias_at(body, types[n - 1]) is Some {
        aliases(body, types, (n - 1) as nat).push(types[n - 1])
    } else {
        aliases(body, types, (n - 1) as nat)
    }
}

/// The places of the first `n` of several declarations by name; the last of a name
/// counts.
pub open spec fn places(body: Seq<Node>, items: Seq<usize>, n: nat) -> Map<StrId, usize>
    decreases n,
{
    if n == 0 {
        Map::empty()
    } else {
        places(body, items, (n - 1) as nat).insert(
            name_at(body, items[n - 1]).name,
            (n - 1) as usize,
        )
    }
}

/// Edges from one node to those of several others that have a place.
pub open spec fn edges_to(at: Map<StrId, usize>, from: usize, deps: Seq<StrId>, n: nat) -> Seq<
    (usize, usize),
>
    decreases n,
{
    if n == 0 {
        Seq::empty()
    } else if at.dom().contains(deps[n - 1]) {
        edges_to(at, from, deps, (n - 1) as nat).push((from, at[deps[n - 1]]))
    } else {
        edges_to(at, from, deps, (n - 1) as nat)
    }
}

/// The edges from the first `n` aliases to the aliases they mention.
pub open spec fn alias_edges(body: Seq<Node>, items: Seq<usize>, n: nat) -> Seq<(usize, usize)>
    decreases n,
{
    if n == 0 {
        Seq::empty()
    } else {
        let at = places(body, items, items.len());
        let before = alias_edges(body, items, (n - 1) as nat);
        match alias_at(body, items[n - 1]) {
            Some((t, rhs, _)) => {
                let deps = type_deps(rhs);
                before + edges_to(at, at[t.name.name], deps, deps.len())
            },
            None => before,
        }
    }
}

impl State {
    /// Register an alias.
    pub open spec fn alias(self, d: Option<(TypeDecl, TypeExpr, bool)>) -> State {
        match d {
            Some((t, _, public)) => {
                let s1 = self.report_params(t.params@, t.params@.len()).type_head(
                    t.name.name,
                    TypeInfo { arity: t.params@.len() as usize, variants: None },
                );
                let owner = defid_at(s1.here_at(t.name.span, EntityKind::Type));
                let s2 = match t.body {
                    TypeBody::Alias(_, annotation) => s1.set_owner(Some(owner)).hydrate(annotation),
                    _ => s1.set_owner(Some(owner)),
                };
                s2.set_owner(s1.refs.owner).declare(t.name, t.doc, EntityKind::Type, public)
            },
            None => self,
        }
    }

    /// Report the first `n` members of a cycle of aliases.
    #[verifier::opaque]
    pub open spec fn report_cycle(
        self,
        body: Seq<Node>,
        items: Seq<usize>,
        members: Seq<usize>,
        n: nat,
    ) -> State
        decreases n,
    {
        if n == 0 {
            self
        } else {
            let t = self.report_cycle(body, items, members, (n - 1) as nat);
            let id = name_at(body, items[members[n - 1] as int]);
            if places(body, items, items.len())[id.name] == members[n - 1] {
                t.error(Message::RecursiveAlias { name: id.name }, id.span)
            } else {
                t
            }
        }
    }

    /// Register the aliases of the first `n` components: one that stands for
    /// itself, alone or with others, is reported instead.
    #[verifier::opaque]
    pub open spec fn alias_groups(
        self,
        body: Seq<Node>,
        items: Seq<usize>,
        comps: Seq<Seq<usize>>,
        n: nat,
    ) -> State
        decreases n,
    {
        if n == 0 {
            self
        } else {
            let t = self.alias_groups(body, items, comps, (n - 1) as nat);
            let c = comps[n - 1];
            if is_cycle(alias_edges(body, items, items.len()), c) {
                t.report_cycle(body, items, c, c.len())
            } else if places(body, items, items.len())[name_at(body, items[c[0] as int]).name]
                == c[0] {
                t.alias(alias_at(body, items[c[0] as int]))
            } else {
                t
            }
        }
    }

    /// Register the aliases among the types, each behind those it mentions.
    pub open spec fn alias_pass(self, body: Seq<Node>, types: Seq<usize>) -> State {
        let items = aliases(body, types, types.len());
        if items.len() == 0 {
            self
        } else {
            let comps = components_of(items.len(), alias_edges(body, items, items.len()));
            self.alias_groups(body, items, comps, comps.len())
        }
    }
}

/// Whether a component is a cycle: it has several members, or one that leads to
/// itself.
pub open spec fn is_cycle(edges: Seq<(usize, usize)>, c: Seq<usize>) -> bool {
    c.len() > 1 || edges.contains((c[0], c[0]))
}

// ---- exports ---------------------------------------------------------------

impl Interface {
    /// Nothing.
    pub open spec fn none() -> Interface {
        Interface { values: Map::empty(), types: Map::empty(), private_names: Map::empty() }
    }

    /// Export a value, or keep it private.
    pub open spec fn value(
        self,
        name: StrId,
        public: bool,
        binding: Binding,
        slot: Option<i32>,
        doc: Option<StrId>,
        params: ArenaSlice,
    ) -> Interface {
        if public {
            Interface {
                values: self.values.insert(name, ExportedValue { binding, slot, doc, params }),
                ..self
            }
        } else {
            Interface { private_names: self.private_names.insert(name, ()), ..self }
        }
    }

    /// Export a type that is known, or keep it private.
    pub open spec fn ty(self, name: StrId, public: bool, id: Option<TypeId>) -> Interface {
        if public {
            match id {
                Some(id) => Interface { types: self.types.insert(name, id), ..self },
                None => self,
            }
        } else {
            Interface { private_names: self.private_names.insert(name, ()), ..self }
        }
    }
}

/// A module under way: the state and what it exports so far.
pub struct Exporting {
    pub s: State,
    pub iface: Interface,
}

impl Exporting {
    /// The same exports in another state.
    pub open spec fn at(self, s: State) -> Exporting {
        Exporting { s, ..self }
    }

    /// Export a value.
    pub open spec fn value(
        self,
        name: StrId,
        public: bool,
        binding: Binding,
        slot: Option<i32>,
        doc: Option<StrId>,
        params: ArenaSlice,
    ) -> Exporting {
        Exporting { iface: self.iface.value(name, public, binding, slot, doc, params), ..self }
    }

    /// Export a type.
    pub open spec fn ty(self, name: StrId, public: bool) -> Exporting {
        Exporting {
            iface: self.iface.ty(
                name,
                public,
                if self.s.known.types.dom().contains(name) {
                    Some(self.s.known.types[name])
                } else {
                    None
                },
            ),
            ..self
        }
    }
}

// ---- builtins --------------------------------------------------------------

/// Define the builtins among the first `n` that the machine has.
#[verifier::opaque]
pub open spec fn builtins(body: Seq<Node>, items: Seq<usize>, n: nat, x: Exporting) -> Exporting
    decreases n,
{
    if n == 0 {
        x
    } else {
        builtins(body, items, (n - 1) as nat, x).builtin(decl_at(body, items[n - 1]))
    }
}

impl Exporting {
    /// Define a builtin.
    pub open spec fn builtin(self, d: Option<(Declaration, bool)>) -> Exporting {
        match d {
            Some((Declaration::Function(f), public)) => match f.body {
                FnBody::Vm(key) => if builtin_op_of(self.s.text(key.name)) is None {
                    self
                } else {
                    let s = self.s.hydrate_all(f.signature@, f.signature@.len());
                    let dl = s.here_at(f.name.span, EntityKind::Function);
                    let b = Binding {
                        kind: ValueKind::Builtin { key: key.name },
                        def: Some(dl),
                        doc: f.doc,
                    };
                    let t = s.define(f.name.name, b).def(
                        dl,
                        f.name.name,
                        f.doc,
                        public,
                    ).name_params(defid_at(dl), f.params@).record(None, f.name, f.doc);
                    self.at(t.pool_labels(idents(f.params@))).value(
                        f.name.name,
                        public,
                        b,
                        None,
                        f.doc,
                        appended(t.labels.len(), f.params@.len()),
                    )
                },
                FnBody::Block(_) => self,
            },
            _ => self,
        }
    }
}

// ---- slots and signatures --------------------------------------------------

/// Compiler states with the slots of the declarations so far.
pub struct Slots {
    pub s: State,
    pub slots: Seq<i32>,
}

/// Give each of the first `n` declarations a slot of the entry frame.
#[verifier::opaque]
pub open spec fn decl_slots(body: Seq<Node>, items: Seq<usize>, n: nat, s: State) -> Slots
    decreases n,
{
    if n == 0 {
        Slots { s, slots: Seq::empty() }
    } else {
        let t = decl_slots(body, items, (n - 1) as nat, s);
        Slots {
            s: t.s.take_slot().bind_raw(name_at(body, items[n - 1]).name, t.s.next_slot()),
            slots: t.slots.push(t.s.next_slot()),
        }
    }
}

impl State {
    /// What a declared function is bound to.
    pub open spec fn fn_binding(self, id: Ident, doc: Option<StrId>) -> Binding {
        Binding {
            kind: ValueKind::ModuleFn,
            def: Some(self.here_at(id.span, EntityKind::Function)),
            doc,
        }
    }

    /// What a constant is bound to.
    pub open spec fn const_binding(self, id: Ident, doc: Option<StrId>) -> Binding {
        Binding {
            kind: ValueKind::Local,
            def: Some(self.here_at(id.span, EntityKind::Constant)),
            doc,
        }
    }

    /// Define the functions among the first `n` declarations.
    #[verifier::opaque]
    pub open spec fn signatures(self, body: Seq<Node>, items: Seq<usize>, n: nat) -> State
        decreases n,
    {
        if n == 0 {
            self
        } else {
            let t = self.signatures(body, items, (n - 1) as nat);
            match decl_at(body, items[n - 1]) {
                Some((Declaration::Function(f), _)) => {
                    let u = t.hydrate_all(f.signature@, f.signature@.len());
                    u.define(f.name.name, u.fn_binding(f.name, f.doc))
                },
                _ => t,
            }
        }
    }
}

// ---- constructors ----------------------------------------------------------

/// The names of several identifiers.
pub open spec fn idents(ids: Seq<Ident>) -> Seq<StrId> {
    Seq::new(ids.len(), |i: int| ids[i].name)
}

impl State {
    /// Enter the definitions of the first `n` fields of a constructor.
    #[verifier::opaque]
    pub open spec fn fields(self, c: CtorDecl, n: nat, public: bool) -> State
        decreases n,
    {
        if n == 0 {
            self
        } else {
            let s = self.fields(c, (n - 1) as nat, public).hydrate_at(c.annotations@, n - 1);
            let f = c.fields@[n - 1];
            s.add_field(
                FieldDef {
                    ctor: c.name.name,
                    label: f.name,
                    def: s.here_at(f.span, EntityKind::Field),
                },
            ).declare(f, None, EntityKind::Field, public)
        }
    }
}

/// Constructors under way: what has been exported, and the variants so far.
pub struct Ctors {
    pub x: Exporting,
    pub variants: Seq<VariantInfo>,
}

impl Ctors {
    /// One more constructor of a type.
    pub open spec fn with(self, t: TypeDecl, id: TypeId, c: CtorDecl, i: nat, public: bool, open: bool) -> Ctors {
        let s1 = self.x.s.fields(c, c.fields@.len(), open);
        let labels = appended(s1.labels.len(), c.fields@.len());
        let s2 = s1.pool_labels(idents(c.fields@));
        let dl = s2.here_at(c.name.span, EntityKind::Constructor);
        let b = Binding {
            kind: ValueKind::Constructor {
                ty_name: t.name.name,
                type_id: id,
                variant_idx: i as u16,
                arity: c.fields@.len() as u16,
                labels,
            },
            def: Some(dl),
            doc: c.doc,
        };
        let ty = defid_at(s2.here_at(t.name.span, EntityKind::Type));
        let x1 = self.x.at(
            s2.define(c.name.name, b).def(dl, c.name.name, c.doc, open).name_params(
                defid_at(dl),
                c.fields@,
            ).ctor_belongs(defid_at(dl), ty),
        );
        Ctors {
            x: if public {
                x1.value(c.name.name, open, b, None, c.doc, labels)
            } else {
                x1
            },
            variants: self.variants.push(VariantInfo { name: c.name.name, labels }),
        }
    }
}

/// Define the first `n` constructors of a type. Those of an opaque type are known
/// outside as private.
#[verifier::opaque]
pub open spec fn ctors_of(
    t: TypeDecl,
    id: TypeId,
    ctors: Seq<CtorDecl>,
    n: nat,
    public: bool,
    open: bool,
    x: Exporting,
) -> Ctors
    decreases n,
{
    if n == 0 {
        Ctors { x, variants: Seq::empty() }
    } else {
        ctors_of(t, id, ctors, (n - 1) as nat, public, open, x).with(
            t,
            id,
            ctors[n - 1],
            (n - 1) as nat,
            public,
            open,
        )
    }
}

impl Exporting {
    /// Define the constructors of a type and export it. What the constructors
    /// refer to belongs to the type.
    pub open spec fn type_ctors(self, d: Option<(Declaration, bool)>, id: TypeId) -> Exporting {
        match d {
            Some((Declaration::Type(t), public)) => match t.body {
                TypeBody::Variants { ctors, opaque } => {
                    let owner = defid_at(self.s.here_at(t.name.span, EntityKind::Type));
                    let c = ctors_of(
                        t,
                        id,
                        ctors@,
                        ctors@.len(),
                        public,
                        public && !opaque,
                        self.at(self.s.set_owner(Some(owner))),
                    );
                    let s1 = c.x.s.set_owner(self.s.refs.owner);
                    let sl = appended(s1.known.variants.len(), c.variants.len());
                    c.x.at(
                        s1.pool_variants(c.variants).type_body(
                            id,
                            TypeInfo { arity: t.params@.len() as usize, variants: Some(sl) },
                        ),
                    ).ty(t.name.name, public)
                },
                _ => self.ty(t.name.name, public),
            },
            _ => self,
        }
    }
}

/// Define the constructors of the first `n` types.
#[verifier::opaque]
pub open spec fn type_pass(
    body: Seq<Node>,
    types: Seq<usize>,
    ids: Seq<TypeId>,
    n: nat,
    x: Exporting,
) -> Exporting
    decreases n,
{
    if n == 0 {
        x
    } else {
        type_pass(body, types, ids, (n - 1) as nat, x).type_ctors(
            decl_at(body, types[n - 1]),
            ids[n - 1],
        )
    }
}

// ---- the call graph --------------------------------------------------------

/// What a declaration refers to among those with a place. The parameters of a
/// function hide declarations of their names.
pub open spec fn refers_to(at: Map<StrId, usize>, d: Option<(Declaration, bool)>) -> Seq<usize> {
    let w = Walk { targets: at, hidden: Set::empty(), found: Seq::empty() };
    match d {
        Some((Declaration::Function(f), _)) => match f.body {
            FnBody::Block(body) => free(body, w.define_all(f.params@, f.params@.len())).found,
            FnBody::Vm(_) => Seq::empty(),
        },
        Some((Declaration::Const(c), _)) => free(c.init, w).found,
        _ => Seq::empty(),
    }
}

/// Edges from one node to several others.
pub open spec fn fan(from: usize, to: Seq<usize>) -> Seq<(usize, usize)> {
    Seq::new(to.len(), |i: int| (from, to[i]))
}

/// The edges from the first `n` functions and constants to those they refer to.
pub open spec fn call_edges(body: Seq<Node>, items: Seq<usize>, n: nat) -> Seq<(usize, usize)>
    decreases n,
{
    if n == 0 {
        Seq::empty()
    } else {
        let at = places(body, items, items.len());
        let from = at[name_at(body, items[n - 1]).name];
        call_edges(body, items, (n - 1) as nat) + fan(
            from,
            refers_to(at, decl_at(body, items[n - 1])),
        )
    }
}

/// Whether the graphs of a module's declarations are small enough for their
/// 32-bit indices.
pub open spec fn fits(body: Seq<Node>) -> bool {
    let sorted = sorted(body, body.len());
    let items = aliases(body, sorted.types, sorted.types.len());
    &&& body.len() < u32::MAX
    &&& call_edges(body, sorted.decls, sorted.decls.len()).len() < u32::MAX
    &&& alias_edges(body, items, items.len()).len() < u32::MAX
}

// ---- bodies ----------------------------------------------------------------

impl State {
    /// Compile a function or a constant into its slot. What its body refers to
    /// belongs to it.
    pub open spec fn decl_body(self, d: Option<(Declaration, bool)>, slot: i32) -> State {
        match d {
            Some((Declaration::Function(f), public)) => match f.body {
                FnBody::Block(body) => {
                    let dl = self.here_at(f.name.span, EntityKind::Function);
                    let s1 = self.def(dl, f.name.name, f.doc, public).name_params(
                        defid_at(dl),
                        f.params@,
                    );
                    let s2 = declared_function(
                        f.name.name,
                        f.params@,
                        body,
                        f.faults@,
                        s1.set_owner(Some(defid_at(dl))),
                    );
                    s2.set_owner(s1.refs.owner).record(None, f.name, f.doc).emit_arg(
                        Op::StoreLocal,
                        slot,
                    )
                },
                FnBody::Vm(_) => self,
            },
            Some((Declaration::Const(c), public)) => {
                let dl = self.here_at(c.name.span, EntityKind::Constant);
                let s1 = self.def(dl, c.name.name, c.doc, public);
                let s2 = expr(
                    c.init,
                    s1.set_owner(Some(defid_at(dl))).hydrate(c.annotation),
                ).misfit(c.faults@);
                s2.set_owner(s1.refs.owner).record(None, c.name, c.doc).emit_arg(
                    Op::StoreLocal,
                    slot,
                )
            },
            _ => self,
        }
    }

    /// Compile the first `n` members of a group.
    #[verifier::opaque]
    pub open spec fn group_bodies(
        self,
        body: Seq<Node>,
        items: Seq<usize>,
        slots: Seq<i32>,
        members: Seq<usize>,
        n: nat,
    ) -> State
        decreases n,
    {
        if n == 0 {
            self
        } else {
            let k = members[n - 1] as int;
            self.group_bodies(body, items, slots, members, (n - 1) as nat).decl_body(
                decl_at(body, items[k]),
                slots[k],
            )
        }
    }

    /// Define a function or a constant for good.
    pub open spec fn settle(self, d: Option<(Declaration, bool)>) -> State {
        match d {
            Some((Declaration::Function(f), _)) => self.define(f.name.name, self.fn_binding(f.name, f.doc)),
            Some((Declaration::Const(c), _)) => self.define(
                c.name.name,
                self.const_binding(c.name, c.doc),
            ),
            _ => self,
        }
    }

    /// Define the first `n` members of a group for good.
    #[verifier::opaque]
    pub open spec fn settle_group(
        self,
        body: Seq<Node>,
        items: Seq<usize>,
        members: Seq<usize>,
        n: nat,
    ) -> State
        decreases n,
    {
        if n == 0 {
            self
        } else {
            self.settle_group(body, items, members, (n - 1) as nat).settle(
                decl_at(body, items[members[n - 1] as int]),
            )
        }
    }

    /// Compile the first `n` groups. The members of a group are defined for good
    /// once all have been compiled.
    #[verifier::opaque]
    pub open spec fn group_pass(
        self,
        body: Seq<Node>,
        items: Seq<usize>,
        slots: Seq<i32>,
        comps: Seq<Seq<usize>>,
        n: nat,
    ) -> State
        decreases n,
    {
        if n == 0 {
            self
        } else {
            let c = comps[n - 1];
            self.group_pass(body, items, slots, comps, (n - 1) as nat).group_bodies(
                body,
                items,
                slots,
                c,
                c.len(),
            ).settle_group(body, items, c, c.len())
        }
    }

    /// Compile the first `n` nodes that are no declarations.
    #[verifier::opaque]
    pub open spec fn other_nodes(self, body: Seq<Node>, others: Seq<usize>, n: nat) -> State
        decreases n,
    {
        if n == 0 {
            self
        } else {
            node(
                body[others[n - 1] as int],
                self.other_nodes(body, others, (n - 1) as nat),
            )
        }
    }
}

/// Export the first `n` functions and constants with their slots.
#[verifier::opaque]
pub open spec fn export_decls(
    body: Seq<Node>,
    items: Seq<usize>,
    slots: Seq<i32>,
    n: nat,
    x: Exporting,
) -> Exporting
    decreases n,
{
    if n == 0 {
        x
    } else {
        let y = export_decls(body, items, slots, (n - 1) as nat, x);
        match decl_at(body, items[n - 1]) {
            Some((d, public)) => match y.s.lookup(decl_name(d).name) {
                Some(b) => y.at(y.s.pool_labels(idents(decl_params(d)))).value(
                    decl_name(d).name,
                    public,
                    b,
                    Some(slots[n - 1]),
                    decl_doc(d),
                    appended(y.s.labels.len(), decl_params(d).len()),
                ),
                None => y,
            },
            None => y,
        }
    }
}

// ---- the module ------------------------------------------------------------

/// Analyse a module: all passes in their order.
pub open spec fn analysed(body: Seq<Node>, in_module: bool, s: State) -> Exporting {
    let sorted = sorted(body, body.len());
    let (types, items) = (sorted.types, sorted.decls);
    let s0 = s.push_locals().report_nodes(body, body.len(), in_module);
    let h = heads(body, types, types.len(), s0);
    let s2 = h.s.alias_pass(body, types);
    let x3 = builtins(
        body,
        sorted.builtins,
        sorted.builtins.len(),
        Exporting { s: s2, iface: Interface::none() },
    );
    let t = decl_slots(body, items, items.len(), x3.s);
    let s4 = t.s.signatures(body, items, items.len());
    let x5 = type_pass(body, types, h.ids, types.len(), x3.at(s4));
    let comps = components_of(items.len(), call_edges(body, items, items.len()));
    let s6 = x5.s.group_pass(body, items, t.slots, comps, comps.len());
    let x7 = export_decls(body, items, t.slots, items.len(), x5.at(s6));
    let s8 = x7.s.set_walking(true).other_nodes(body, sorted.others, sorted.others.len());
    x7.at(s8.set_walking(x7.s.loc.walking).pop_locals())
}

} // verus!

//! Analysing the declarations of a module.
//!
//! | pass                     | does                                               |
//! |--------------------------|----------------------------------------------------|
//! | sort                     | partition the nodes; report duplicates and misuse  |
//! | heads                    | register the types that are no aliases             |
//! | aliases                  | register the aliases, each behind what it mentions |
//! | builtins                 | define the functions the machine provides          |
//! | slots, signatures        | one slot per function and constant                 |
//! | constructors             | define the constructors of each type               |
//! | groups                   | compile bodies, each group behind its callees      |
//! | exports, other nodes     | export the declarations, compile the rest          |
use crate::ast::{
    node_span, Attribute, CtorDecl, Declaration, FnBody, Ident, Node, Span, Statement, StrId,
    TypeBody, TypeDecl,
};
use crate::decls::{
    alias_at, alias_edges, aliases, analysed, appended, builtins, call_edges, ctors_of, decl_params,
    decl_slots,     export_decls, fits, heads, idents, places, sorted, type_pass, with_ctors, Ctors, Exporting,
    Heads, Slots, Sorted,
};
use crate::diag::{ArenaSlice, Message};
use crate::gen::has_name;
use crate::graph::{components, components_of, edges_in, groups, has_edge, nodes_in, splits};
use crate::op::{builtin_op, Op};
use crate::order::{alias_graph, below, build_call_graph_sccs, decl_ident};
use crate::prelude_bindings::TypeId;
use crate::refs::{def_loc, defid_of, DefId, DefinitionLocation, EntityKind};
use crate::state::{
    Binding, Compiler, ExportedValue, FieldDef, Interface, ModuleInterface, Origin, State, TypeInfo,
    ValueKind, VariantInfo,
};
use petgraph::Directed;
use petgraph::stable_graph::StableGraph;
use std::collections::HashMap;
use vstd::prelude::*;

verus! {

broadcast use vstd::std_specs::hash::group_hash_axioms;

// ---- steps -----------------------------------------------------------------

impl Compiler {
    /// Where something of this module is declared.
    fn here_at(&self, span: Span, entity: EntityKind) -> (dl: DefinitionLocation)
        ensures
            dl == self@.here_at(span, entity),
    {
        proof {
            reveal(Compiler::model);
        }
        def_loc(span, self.current_module, entity)
    }

    /// Enter a definition of this module.
    pub fn store_and_emit_def(
        &mut self,
        id: Ident,
        doc: Option<StrId>,
        entity: EntityKind,
        public: bool,
    )
        ensures
            final(self)@ == old(self)@.declare(id, doc, entity, public),
    {
        let dl: DefinitionLocation = self.here_at(id.span, entity);
        self.emit_def(dl, id.name, doc, public);
    }

    /// Give a type's name the next identity.
    fn register_type_head(&mut self, name: StrId, info: TypeInfo) -> (id: TypeId)
        ensures
            final(self)@ == old(self)@.type_head(name, info),
            id == TypeId(old(self)@.known.next),
    {
        proof {
            reveal(Compiler::model);
            reveal(State::type_head);
        }
        let id: TypeId = TypeId(self.next_type_id);
        let before: Option<TypeId> = self.types.insert(name, id);
        self.type_log.push((name, before));
        self.infos.insert(id.0, info);
        self.info_ids.push(id.0);
        self.next_type_id = self.next_type_id.wrapping_add(1);
        id
    }

    /// Say what a type consists of.
    fn set_type_body(&mut self, id: TypeId, info: TypeInfo)
        ensures
            final(self)@ == old(self)@.type_body(id, info),
    {
        proof {
            reveal(Compiler::model);
            reveal(State::type_body);
        }
        self.infos.insert(id.0, info);
    }

    /// Pool labels.
    fn push_str_ids(&mut self, labels: &mut Vec<StrId>) -> (sl: ArenaSlice)
        ensures
            final(self)@ == old(self)@.pool_labels(old(labels)@),
            sl == appended(old(self)@.labels.len(), old(labels)@.len()),
    {
        proof {
            reveal(Compiler::model);
            reveal(State::pool_labels);
        }
        let sl: ArenaSlice = ArenaSlice {
            start: self.labels.len() as u32,
            len: labels.len() as u16,
        };
        self.labels.append(labels);
        sl
    }

    /// Pool constructors.
    fn push_variants(&mut self, variants: &mut Vec<VariantInfo>) -> (sl: ArenaSlice)
        ensures
            final(self)@ == old(self)@.pool_variants(old(variants)@),
            sl == appended(old(self)@.known.variants.len(), old(variants)@.len()),
    {
        proof {
            reveal(Compiler::model);
            reveal(State::pool_variants);
        }
        let sl: ArenaSlice = ArenaSlice {
            start: self.variants.len() as u32,
            len: variants.len() as u16,
        };
        self.variants.append(variants);
        sl
    }

    /// Attribute what is referred to from here on. Returns whom it was attributed
    /// to before.
    fn replace_owner(&mut self, owner: Option<DefId>) -> (before: Option<DefId>)
        ensures
            final(self)@ == old(self)@.set_owner(owner),
            before == old(self)@.refs.owner,
    {
        proof {
            reveal(Compiler::model);
            reveal(State::set_owner);
        }
        let before: Option<DefId> = self.current_owner;
        self.current_owner = owner;
        before
    }

    /// Say whether the statements of the module itself are compiled. Returns what
    /// was so before.
    fn replace_walking(&mut self, walking: bool) -> (before: bool)
        ensures
            final(self)@ == old(self)@.set_walking(walking),
            before == old(self)@.loc.walking,
    {
        proof {
            reveal(Compiler::model);
            reveal(State::set_walking);
        }
        let before: bool = self.walking_module_statements;
        self.walking_module_statements = walking;
        before
    }

    /// The identity of a type.
    fn lookup_type_info(&self, name: StrId) -> (id: Option<TypeId>)
        ensures
            id == (if self@.known.types.dom().contains(name) {
                Some(self@.known.types[name])
            } else {
                None
            }),
    {
        proof {
            reveal(Compiler::model);
        }
        match self.types.get(&name) {
            Some(id) => Some(*id),
            None => None,
        }
    }

    /// Whether only the prelude may define a name.
    pub fn is_reserved(&self, name: StrId) -> (res: bool)
        ensures
            res == self@.known.reserved.dom().contains(name),
    {
        proof {
            reveal(Compiler::model);
        }
        self.reserved.contains_key(&name)
    }

    /// Where the module comes from.
    fn module_origin(&self) -> (origin: Origin)
        ensures
            origin == self@.known.origin,
    {
        proof {
            reveal(Compiler::model);
        }
        self.origin
    }
}

// ---- sorting ---------------------------------------------------------------

/// Lists of nodes by their places.
pub struct NodeLists {
    pub types: Vec<usize>,
    pub decls: Vec<usize>,
    pub builtins: Vec<usize>,
    pub others: Vec<usize>,
    pub seen_types: HashMap<StrId, Span>,
    pub seen_values: HashMap<StrId, Span>,
}

impl View for NodeLists {
    type V = Sorted;

    open spec fn view(&self) -> Sorted {
        Sorted {
            types: self.types@,
            decls: self.decls@,
            builtins: self.builtins@,
            others: self.others@,
            seen_types: self.seen_types@,
            seen_values: self.seen_values@,
        }
    }
}

impl NodeLists {
    /// Whether all places are before `n`.
    pub open spec fn within(self, n: nat) -> bool {
        &&& below(self.types@, n)
        &&& below(self.decls@, n)
        &&& below(self.builtins@, n)
        &&& below(self.others@, n)
        &&& self.types@.len() <= n
        &&& self.decls@.len() <= n
    }
}

impl Compiler {
    /// Take a name; one that is taken is reported. Returns whether it was.
    pub fn check_duplicate(&mut self, seen: &mut HashMap<StrId, Span>, id: Ident) -> (dup: bool)
        ensures
            final(self)@ == old(self)@.report_duplicate(old(seen)@, id),
            final(seen)@ == old(seen)@.insert(id.name, id.span),
            dup == old(seen)@.dom().contains(id.name),
    {
        match seen.insert(id.name, id.span) {
            Some(prev) => {
                self.error(Message::AlreadyDefined { name: id.name }, id.span);
                self.note(Message::FirstDefinition, prev);
                true
            },
            None => false,
        }
    }

    /// Report a name that only the prelude may define.
    pub fn check_reserved(&mut self, id: Ident)
        ensures
            final(self)@ == old(self)@.report_reserved(id),
    {
        if self.module_origin() != Origin::Prelude && self.is_reserved(id.name) {
            self.error(Message::Reserved { name: id.name }, id.span);
        }
    }

    /// Report unknown attributes, attributes on the wrong kind of declaration, and
    /// those outside the standard library.
    pub fn validate_attributes(&mut self, attrs: &Vec<Attribute>, on_function: bool)
        ensures
            final(self)@ == old(self)@.report_attributes(attrs@, attrs@.len(), on_function),
    {
        proof {
            reveal(State::report_attributes);
        }
        let ghost s = self@;
        let mut n: usize = 0;
        while n < attrs.len()
            invariant
                n <= attrs.len(),
                self@ == s.report_attributes(attrs@, n as nat, on_function),
            decreases attrs.len() - n,
        {
            proof {
                reveal(State::report_attributes);
            }
            let a: &Attribute = &attrs[n];
            if self.world().names.is(a.name.name, "vm") {
                if self.module_origin() == Origin::User {
                    self.error(Message::VmOutsideStdlib, a.span);
                }
                if !on_function {
                    self.error(Message::VmOnNonFunction, a.span);
                }
                if a.args != 1 {
                    self.error(Message::VmArguments, a.span);
                }
            } else {
                self.error(Message::UnknownAttribute { name: a.name.name }, a.span);
            }
            n = n + 1;
        }
    }

    /// Take the names of constructors.
    fn check_ctors(&mut self, seen: &mut HashMap<StrId, Span>, ctors: &Vec<CtorDecl>)
        ensures
            final(self)@ == old(self)@.report_ctors(old(seen)@, ctors@, ctors@.len()),
            final(seen)@ == with_ctors(old(seen)@, ctors@, ctors@.len()),
    {
        proof {
            reveal(State::report_ctors);
        }
        let ghost s = self@;
        let ghost taken = seen@;
        let mut n: usize = 0;
        while n < ctors.len()
            invariant
                n <= ctors.len(),
                self@ == s.report_ctors(taken, ctors@, n as nat),
                seen@ == with_ctors(taken, ctors@, n as nat),
            decreases ctors.len() - n,
        {
            proof {
                reveal(State::report_ctors);
            }
            self.check_reserved(ctors[n].name);
            self.check_duplicate(seen, ctors[n].name);
            n = n + 1;
        }
    }

    /// Sort one node.
    fn sort_node(&mut self, node: &Node, i: usize, in_module: bool, lists: &mut NodeLists)
        requires
            old(lists).within(i as nat),
            i < usize::MAX,
        ensures
            final(self)@ == old(self)@.report_node(*node, old(lists)@, in_module),
            final(lists)@ == old(lists)@.with(*node, i),
            final(lists).within((i + 1) as nat),
    {
        match node {
            Node::Statement(Statement::Declaration { decl, .. }) => match decl {
                Declaration::Type(t) => {
                    self.validate_attributes(&t.attributes, false);
                    let dup: bool = self.check_duplicate(&mut lists.seen_types, t.name);
                    self.check_reserved(t.name);
                    if let TypeBody::Variants { ctors, .. } = &t.body {
                        self.check_ctors(&mut lists.seen_values, ctors);
                    }
                    if !dup {
                        lists.types.push(i);
                    }
                },
                Declaration::Function(f) => {
                    self.validate_attributes(&f.attributes, true);
                    let dup: bool = self.check_duplicate(&mut lists.seen_values, f.name);
                    if !dup {
                        match &f.body {
                            FnBody::Vm(key) => {
                                lists.builtins.push(i);
                                if builtin_op(self.world().names.text(key.name)).is_none() {
                                    self.error(
                                        Message::UnknownBuiltin { name: key.name },
                                        key.span,
                                    );
                                }
                            },
                            FnBody::Block(_) => lists.decls.push(i),
                        }
                    }
                },
                Declaration::Const(c) => {
                    let dup: bool = self.check_duplicate(&mut lists.seen_values, c.name);
                    if !dup {
                        lists.decls.push(i);
                    }
                },
            },
            Node::Statement(Statement::Import(_)) => {},
            _ => self.push_non_decl(node, i, in_module, &mut lists.others),
        }
    }

    /// Keep a node that is no declaration; in an imported module it is reported.
    fn push_non_decl(&mut self, node: &Node, i: usize, in_module: bool, others: &mut Vec<usize>)
        ensures
            final(self)@ == (if in_module {
                old(self)@.error(Message::OnlyDeclarations, node_span(*node))
            } else {
                old(self)@
            }),
            final(others)@ == old(others)@.push(i),
    {
        if in_module {
            self.error(Message::OnlyDeclarations, node.span());
        }
        others.push(i);
    }

    /// Sort the nodes of a module.
    fn sort_nodes(&mut self, body: &Vec<Node>, in_module: bool) -> (lists: NodeLists)
        ensures
            final(self)@ == old(self)@.report_nodes(body@, body@.len(), in_module),
            lists@ == sorted(body@, body@.len()),
            lists.within(body@.len()),
    {
        proof {
            reveal(State::report_nodes);
        }
        let ghost s = self@;
        let mut lists: NodeLists = NodeLists {
            types: Vec::new(),
            decls: Vec::new(),
            builtins: Vec::new(),
            others: Vec::new(),
            seen_types: HashMap::new(),
            seen_values: HashMap::new(),
        };
        let mut n: usize = 0;
        while n < body.len()
            invariant
                n <= body.len(),
                self@ == s.report_nodes(body@, n as nat, in_module),
                lists@ == sorted(body@, n as nat),
                lists.within(n as nat),
            decreases body.len() - n,
        {
            proof {
                reveal(State::report_nodes);
            }
            self.sort_node(&body[n], n, in_module, &mut lists);
            n = n + 1;
        }
        lists
    }
}

// ---- types -----------------------------------------------------------------

fn repeats(params: &Vec<Ident>, n: usize) -> (res: bool)
    requires
        n < params@.len(),
    ensures
        res == has_name(params@, n as nat, params@[n as int].name),
{
    let mut k: usize = n;
    while k > 0
        invariant
            k <= n < params@.len(),
            has_name(params@, n as nat, params@[n as int].name) == has_name(
                params@,
                k as nat,
                params@[n as int].name,
            ),
        decreases k,
    {
        if params[k - 1].name == params[n].name {
            return true;
        }
        k = k - 1;
    }
    false
}

impl Compiler {
    /// Report type parameters that repeat one before.
    fn check_type_params(&mut self, params: &Vec<Ident>)
        ensures
            final(self)@ == old(self)@.report_params(params@, params@.len()),
    {
        proof {
            reveal(State::report_params);
        }
        let ghost s = self@;
        let mut n: usize = 0;
        while n < params.len()
            invariant
                n <= params.len(),
                self@ == s.report_params(params@, n as nat),
            decreases params.len() - n,
        {
            proof {
                reveal(State::report_params);
            }
            if repeats(params, n) {
                self.error(
                    Message::DuplicateTypeParameter { name: params[n].name },
                    params[n].span,
                );
            }
            n = n + 1;
        }
    }

    /// Register the heads of the types that are no aliases.
    fn register_heads(&mut self, body: &Vec<Node>, types: &Vec<usize>) -> (ids: Vec<TypeId>)
        requires
            below(types@, body@.len()),
        ensures
            ({
                let h = heads(body@, types@, types@.len(), old(self)@);
                final(self)@ == h.s && ids@ == h.ids
            }),
            ids@.len() == types@.len(),
    {
        proof {
            reveal(heads);
        }
        let ghost s = self@;
        let mut ids: Vec<TypeId> = Vec::new();
        let mut n: usize = 0;
        while n < types.len()
            invariant
                n <= types.len(),
                below(types@, body@.len()),
                heads(body@, types@, n as nat, s) == (Heads { s: self@, ids: ids@ }),
                ids@.len() == n,
            decreases types.len() - n,
        {
            proof {
                reveal(heads);
            }
            let mut id: TypeId = TypeId(0);
            if let Node::Statement(Statement::Declaration { decl, public }) = &body[types[n]] {
                if let Declaration::Type(t) = decl {
                    let info: Option<TypeInfo> = match &t.body {
                        TypeBody::Alias(_, _) => None,
                        TypeBody::External => Some(TypeInfo { arity: t.params.len(), variants: None }),
                        TypeBody::Variants { .. } => Some(
                            TypeInfo {
                                arity: t.params.len(),
                                variants: Some(ArenaSlice { start: 0, len: 0 }),
                            },
                        ),
                    };
                    if let Some(info) = info {
                        self.check_type_params(&t.params);
                        id = self.register_type_head(t.name.name, info);
                        self.store_and_emit_def(t.name, t.doc, EntityKind::Type, *public);
                    }
                }
            }
            ids.push(id);
            n = n + 1;
        }
        ids
    }
}

// ---- aliases ---------------------------------------------------------------

/// The aliases among the types.
fn find_aliases(body: &Vec<Node>, types: &Vec<usize>) -> (items: Vec<usize>)
    requires
        below(types@, body@.len()),
    ensures
        items@ == aliases(body@, types@, types@.len()),
        below(items@, body@.len()),
        items@.len() <= types@.len(),
        forall|k: int| 0 <= k < items@.len() ==> alias_at(body@, #[trigger] items@[k]) is Some,
{
    let mut items: Vec<usize> = Vec::new();
    let mut n: usize = 0;
    while n < types.len()
        invariant
            n <= types.len(),
            below(types@, body@.len()),
            items@ == aliases(body@, types@, n as nat),
            below(items@, body@.len()),
            items@.len() <= n,
            forall|k: int| 0 <= k < items@.len() ==> alias_at(body@, #[trigger] items@[k]) is Some,
        decreases types.len() - n,
    {
        if let Node::Statement(Statement::Declaration { decl, .. }) = &body[types[n]] {
            if let Declaration::Type(t) = decl {
                if let TypeBody::Alias(_, _) = &t.body {
                    items.push(types[n]);
                }
            }
        }
        n = n + 1;
    }
    items
}

impl Compiler {
    /// Register an alias.
    fn register_alias(&mut self, body: &Vec<Node>, i: usize)
        requires
            i < body@.len(),
        ensures
            final(self)@ == old(self)@.alias(alias_at(body@, i)),
    {
        if let Node::Statement(Statement::Declaration { decl, public }) = &body[i] {
            if let Declaration::Type(t) = decl {
                if let TypeBody::Alias(_, annotation) = &t.body {
                    self.check_type_params(&t.params);
                    self.register_type_head(
                        t.name.name,
                        TypeInfo { arity: t.params.len(), variants: None },
                    );
                    let owner: DefId = defid_of(self.here_at(t.name.span, EntityKind::Type));
                    let outer: Option<DefId> = self.replace_owner(Some(owner));
                    self.hydrate(annotation);
                    let _ = self.replace_owner(outer);
                    self.store_and_emit_def(t.name, t.doc, EntityKind::Type, *public);
                }
            }
        }
    }

    /// Report the members of a cycle of aliases.
    fn report_alias_cycle(
        &mut self,
        body: &Vec<Node>,
        items: &Vec<usize>,
        at: &HashMap<StrId, usize>,
        members: &Vec<usize>,
    )
        requires
            below(items@, body@.len()),
            below(members@, items@.len()),
            items@.len() < u32::MAX,
            at@ == places(body@, items@, items@.len()),
        ensures
            final(self)@ == old(self)@.report_cycle(body@, items@, members@, members@.len()),
    {
        proof {
            reveal(State::report_cycle);
            crate::order::lemma_places(body@, items@, items@.len());
        }
        let ghost s = self@;
        let mut n: usize = 0;
        while n < members.len()
            invariant
                n <= members.len(),
                below(items@, body@.len()),
                below(members@, items@.len()),
                items@.len() < u32::MAX,
                at@ == places(body@, items@, items@.len()),
                self@ == s.report_cycle(body@, items@, members@, n as nat),
            decreases members.len() - n,
        {
            proof {
                reveal(State::report_cycle);
                crate::order::lemma_places(body@, items@, items@.len());
            }
            let id: Ident = decl_ident(body, items[members[n]]);
            if let Some(k) = at.get(&id.name) {
                if *k == members[n] {
                    self.error(Message::RecursiveAlias { name: id.name }, id.span);
                }
            }
            n = n + 1;
        }
    }

    /// Register the aliases, each behind those it mentions. One that stands for
    /// itself, alone or with others, is reported and left out, and the rest are
    /// registered all the same.
    fn register_aliases(&mut self, body: &Vec<Node>, types: &Vec<usize>)
        requires
            below(types@, body@.len()),
            types@.len() < u32::MAX,
            ({
                let items = aliases(body@, types@, types@.len());
                alias_edges(body@, items, items.len()).len() < u32::MAX
            }),
        ensures
            final(self)@ == old(self)@.alias_pass(body@, types@),
    {
        let items: Vec<usize> = find_aliases(body, types);
        if items.len() == 0 {
            return;
        }
        let (graph, at): (StableGraph<(), (), Directed, u32>, HashMap<StrId, usize>) = alias_graph(
            body,
            &items,
        );
        let comps: Vec<Vec<usize>> = components(&graph);
        let ghost all = groups(comps@);
        let ghost s = self@;
        proof {
            reveal(State::alias_groups);
        }
        let mut n: usize = 0;
        while n < comps.len()
            invariant
                n <= comps.len(),
                all == groups(comps@),
                splits(items@.len(), all),
                below(items@, body@.len()),
                at@ == places(body@, items@, items@.len()),
                items@.len() < u32::MAX,
                nodes_in(graph).len() == items@.len(),
                edges_in(graph) == alias_edges(body@, items@, items@.len()),
                self@ == s.alias_groups(body@, items@, all, n as nat),
            decreases comps.len() - n,
        {
            proof {
                reveal(State::alias_groups);
                crate::order::lemma_places(body@, items@, items@.len());
            }
            let c: &Vec<usize> = &comps[n];
            assert(all[n as int] == c@);
            assert forall|i: int| 0 <= i < c@.len() implies (#[trigger] c@[i]) < items@.len() by {
                assert(all[n as int][i] == c@[i]);
            }
            if c.len() > 1 || has_edge(&graph, c[0], c[0]) {
                self.report_alias_cycle(body, &items, &at, c);
            } else {
                let id: Ident = decl_ident(body, items[c[0]]);
                if let Some(k) = at.get(&id.name) {
                    if *k == c[0] {
                        self.register_alias(body, items[c[0]]);
                    }
                }
            }
            n = n + 1;
        }
    }
}

// ---- exports ---------------------------------------------------------------

/// Export a value, or keep it private.
pub fn export_value(
    iface: &mut ModuleInterface,
    name: StrId,
    public: bool,
    binding: Binding,
    slot: Option<i32>,
    doc: Option<StrId>,
    params: ArenaSlice,
)
    ensures
        final(iface)@ == old(iface)@.value(name, public, binding, slot, doc, params),
{
    if public {
        iface.values.insert(name, ExportedValue { binding, slot, doc, params });
    } else {
        iface.private_names.insert(name, ());
    }
}

/// Export a type that is known, or keep it private.
pub fn export_type(iface: &mut ModuleInterface, name: StrId, public: bool, id: Option<TypeId>)
    ensures
        final(iface)@ == old(iface)@.ty(name, public, id),
{
    if public {
        if let Some(id) = id {
            iface.types.insert(name, id);
        }
    } else {
        iface.private_names.insert(name, ());
    }
}

// ---- values ----------------------------------------------------------------

impl Compiler {
    /// Define the builtins.
    fn register_builtins(&mut self, body: &Vec<Node>, items: &Vec<usize>, iface: &mut ModuleInterface)
        requires
            below(items@, body@.len()),
        ensures
            ({
                let x = builtins(
                    body@,
                    items@,
                    items@.len(),
                    Exporting { s: old(self)@, iface: old(iface)@ },
                );
                final(self)@ == x.s && final(iface)@ == x.iface
            }),
    {
        proof {
            reveal(builtins);
        }
        let ghost x = Exporting { s: self@, iface: iface@ };
        let mut n: usize = 0;
        while n < items.len()
            invariant
                n <= items.len(),
                below(items@, body@.len()),
                builtins(body@, items@, n as nat, x) == (Exporting { s: self@, iface: iface@ }),
            decreases items.len() - n,
        {
            proof {
                reveal(builtins);
            }
            if let Node::Statement(Statement::Declaration { decl, public }) = &body[items[n]] {
                if let Declaration::Function(f) = decl {
                    if let FnBody::Vm(key) = &f.body {
                        if builtin_op(self.world().names.text(key.name)).is_some() {
                            self.hydrate_fn_signature(&f.signature);
                            let dl: DefinitionLocation = self.here_at(
                                f.name.span,
                                EntityKind::Function,
                            );
                            let b: Binding = Binding {
                                kind: ValueKind::Builtin { key: key.name },
                                def: Some(dl),
                                doc: f.doc,
                            };
                            self.define(f.name.name, b);
                            self.emit_def(dl, f.name.name, f.doc, *public);
                            self.set_param_names(defid_of(dl), &f.params);
                            self.record(None, f.name, f.doc);
                            let mut names: Vec<StrId> = names_of(&f.params);
                            let params: ArenaSlice = self.push_str_ids(&mut names);
                            export_value(iface, f.name.name, *public, b, None, f.doc, params);
                        }
                    }
                }
            }
            n = n + 1;
        }
    }

    /// Give each declaration a slot of the entry frame.
    fn alloc_decl_slots(&mut self, body: &Vec<Node>, items: &Vec<usize>) -> (slots: Vec<i32>)
        requires
            below(items@, body@.len()),
        ensures
            ({
                let t = decl_slots(body@, items@, items@.len(), old(self)@);
                final(self)@ == t.s && slots@ == t.slots
            }),
            slots@.len() == items@.len(),
    {
        proof {
            reveal(decl_slots);
        }
        let ghost s = self@;
        let mut slots: Vec<i32> = Vec::new();
        let mut n: usize = 0;
        while n < items.len()
            invariant
                n <= items.len(),
                below(items@, body@.len()),
                decl_slots(body@, items@, n as nat, s) == (Slots { s: self@, slots: slots@ }),
                slots@.len() == n,
            decreases items.len() - n,
        {
            proof {
                reveal(decl_slots);
            }
            let slot: i32 = self.alloc_decl_slot(decl_ident(body, items[n]).name);
            slots.push(slot);
            n = n + 1;
        }
        slots
    }

    /// What a declared function is bound to.
    fn fn_binding(&self, id: Ident, doc: Option<StrId>) -> (b: Binding)
        ensures
            b == self@.fn_binding(id, doc),
    {
        Binding {
            kind: ValueKind::ModuleFn,
            def: Some(self.here_at(id.span, EntityKind::Function)),
            doc,
        }
    }

    /// Define the functions.
    fn register_signatures(&mut self, body: &Vec<Node>, items: &Vec<usize>)
        requires
            below(items@, body@.len()),
        ensures
            final(self)@ == old(self)@.signatures(body@, items@, items@.len()),
    {
        proof {
            reveal(State::signatures);
        }
        let ghost s = self@;
        let mut n: usize = 0;
        while n < items.len()
            invariant
                n <= items.len(),
                below(items@, body@.len()),
                self@ == s.signatures(body@, items@, n as nat),
            decreases items.len() - n,
        {
            proof {
                reveal(State::signatures);
            }
            if let Node::Statement(Statement::Declaration { decl, .. }) = &body[items[n]] {
                if let Declaration::Function(f) = decl {
                    self.hydrate_fn_signature(&f.signature);
                    let b: Binding = self.fn_binding(f.name, f.doc);
                    self.define(f.name.name, b);
                }
            }
            n = n + 1;
        }
    }
}

// ---- constructors ----------------------------------------------------------

/// The names of identifiers.
fn names_of(ids: &Vec<Ident>) -> (res: Vec<StrId>)
    ensures
        res@ == idents(ids@),
{
    let mut res: Vec<StrId> = Vec::new();
    let mut n: usize = 0;
    while n < ids.len()
        invariant
            n <= ids.len(),
            res@ == idents(ids@).take(n as int),
        decreases ids.len() - n,
    {
        res.push(ids[n].name);
        n = n + 1;
        assert(res@ =~= idents(ids@).take(n as int));
    }
    assert(res@ =~= idents(ids@));
    res
}

impl Compiler {
    /// Enter the definitions of the fields of a constructor.
    fn register_fields(&mut self, c: &CtorDecl, public: bool)
        ensures
            final(self)@ == old(self)@.fields(*c, c.fields@.len(), public),
    {
        proof {
            reveal(State::fields);
        }
        let ghost s = self@;
        let mut n: usize = 0;
        while n < c.fields.len()
            invariant
                n <= c.fields.len(),
                self@ == s.fields(*c, n as nat, public),
            decreases c.fields.len() - n,
        {
            proof {
                reveal(State::fields);
            }
            if n < c.annotations.len() {
                self.hydrate(&c.annotations[n]);
            }
            let f: Ident = c.fields[n];
            let def: DefinitionLocation = self.here_at(f.span, EntityKind::Field);
            self.add_field(FieldDef { ctor: c.name.name, label: f.name, def });
            self.store_and_emit_def(f, None, EntityKind::Field, public);
            n = n + 1;
        }
    }

    /// Define one constructor of a type. Returns what is known of it.
    fn register_ctor(
        &mut self,
        t: &TypeDecl,
        id: TypeId,
        c: &CtorDecl,
        i: usize,
        public: bool,
        open: bool,
        iface: &mut ModuleInterface,
    ) -> (variant: VariantInfo)
        ensures
            forall|variants: Seq<VariantInfo>|
                #[trigger] (Ctors {
                    x: Exporting { s: old(self)@, iface: old(iface)@ },
                    variants,
                }).with(*t, id, *c, i as nat, public, open) == (Ctors {
                    x: Exporting { s: final(self)@, iface: final(iface)@ },
                    variants: variants.push(variant),
                }),
    {
        self.register_fields(c, open);
        let mut labels: Vec<StrId> = names_of(&c.fields);
        let sl: ArenaSlice = self.push_str_ids(&mut labels);
        let dl: DefinitionLocation = self.here_at(c.name.span, EntityKind::Constructor);
        let ty: DefId = defid_of(self.here_at(t.name.span, EntityKind::Type));
        let b: Binding = Binding {
            kind: ValueKind::Constructor {
                ty_name: t.name.name,
                type_id: id,
                variant_idx: i as u16,
                arity: c.fields.len() as u16,
                labels: sl,
            },
            def: Some(dl),
            doc: c.doc,
        };
        self.define(c.name.name, b);
        self.emit_def(dl, c.name.name, c.doc, open);
        self.set_param_names(defid_of(dl), &c.fields);
        self.set_ctor_of(defid_of(dl), ty);
        if public {
            export_value(iface, c.name.name, open, b, None, c.doc, sl);
        }
        VariantInfo { name: c.name.name, labels: sl }
    }

    /// Define the constructors of a type and export it.
    fn register_constructors(
        &mut self,
        node: &Node,
        id: TypeId,
        iface: &mut ModuleInterface,
    )
        ensures
            ({
                let x = (Exporting { s: old(self)@, iface: old(iface)@ }).type_ctors(
                    match *node {
                        Node::Statement(Statement::Declaration { decl, public }) => Some(
                            (decl, public),
                        ),
                        _ => None,
                    },
                    id,
                );
                final(self)@ == x.s && final(iface)@ == x.iface
            }),
    {
        if let Node::Statement(Statement::Declaration { decl, public }) = node {
            if let Declaration::Type(t) = decl {
                if let TypeBody::Variants { ctors, opaque } = &t.body {
                    let open: bool = *public && !*opaque;
                    let owner: DefId = defid_of(self.here_at(t.name.span, EntityKind::Type));
                    let outer: Option<DefId> = self.replace_owner(Some(owner));
                    let mut variants: Vec<VariantInfo> = Vec::new();
                    let ghost x = Exporting { s: self@, iface: iface@ };
                    proof {
                        reveal(ctors_of);
                    }
                    let mut n: usize = 0;
                    while n < ctors.len()
                        invariant
                            n <= ctors.len(),
                            ctors_of(*t, id, ctors@, n as nat, *public, open, x) == (Ctors {
                                x: Exporting { s: self@, iface: iface@ },
                                variants: variants@,
                            }),
                        decreases ctors.len() - n,
                    {
                        proof {
                            reveal(ctors_of);
                        }
                        let v: VariantInfo = self.register_ctor(
                            t,
                            id,
                            &ctors[n],
                            n,
                            *public,
                            open,
                            iface,
                        );
                        variants.push(v);
                        n = n + 1;
                    }
                    let _ = self.replace_owner(outer);
                    let sl: ArenaSlice = self.push_variants(&mut variants);
                    self.set_type_body(
                        id,
                        TypeInfo { arity: t.params.len(), variants: Some(sl) },
                    );
                }
                let known: Option<TypeId> = self.lookup_type_info(t.name.name);
                export_type(iface, t.name.name, *public, known);
            }
        }
    }

    /// Define the constructors of all types.
    fn register_all_constructors(
        &mut self,
        body: &Vec<Node>,
        types: &Vec<usize>,
        ids: &Vec<TypeId>,
        iface: &mut ModuleInterface,
    )
        requires
            below(types@, body@.len()),
            ids@.len() == types@.len(),
        ensures
            ({
                let x = type_pass(
                    body@,
                    types@,
                    ids@,
                    types@.len(),
                    Exporting { s: old(self)@, iface: old(iface)@ },
                );
                final(self)@ == x.s && final(iface)@ == x.iface
            }),
    {
        proof {
            reveal(type_pass);
        }
        let ghost x = Exporting { s: self@, iface: iface@ };
        let mut n: usize = 0;
        while n < types.len()
            invariant
                n <= types.len(),
                below(types@, body@.len()),
                ids@.len() == types@.len(),
                type_pass(body@, types@, ids@, n as nat, x) == (Exporting {
                    s: self@,
                    iface: iface@,
                }),
            decreases types.len() - n,
        {
            proof {
                reveal(type_pass);
            }
            self.register_constructors(&body[types[n]], ids[n], iface);
            n = n + 1;
        }
    }
}

// ---- bodies ----------------------------------------------------------------

impl Compiler {
    /// Compile a function or a constant into its slot.
    fn compile_decl(&mut self, node: &Node, slot: i32)
        ensures
            final(self)@ == old(self)@.decl_body(
                match *node {
                    Node::Statement(Statement::Declaration { decl, public }) => Some(
                        (decl, public),
                    ),
                    _ => None,
                },
                slot,
            ),
    {
        if let Node::Statement(Statement::Declaration { decl, public }) = node {
            match decl {
                Declaration::Function(f) => {
                    if let FnBody::Block(body) = &f.body {
                        let dl: DefinitionLocation = self.here_at(
                            f.name.span,
                            EntityKind::Function,
                        );
                        self.emit_def(dl, f.name.name, f.doc, *public);
                        self.set_param_names(defid_of(dl), &f.params);
                        let outer: Option<DefId> = self.replace_owner(Some(defid_of(dl)));
                        self.compile_declared_function(f.name.name, &f.params, body, &f.faults);
                        let _ = self.replace_owner(outer);
                        self.record(None, f.name, f.doc);
                        self.emit_arg(Op::StoreLocal, slot);
                    }
                },
                Declaration::Const(c) => {
                    let dl: DefinitionLocation = self.here_at(c.name.span, EntityKind::Constant);
                    self.emit_def(dl, c.name.name, c.doc, *public);
                    let outer: Option<DefId> = self.replace_owner(Some(defid_of(dl)));
                    self.hydrate(&c.annotation);
                    self.compile_expr(&c.init);
                    self.misfit(&c.faults);
                    let _ = self.replace_owner(outer);
                    self.record(None, c.name, c.doc);
                    self.emit_arg(Op::StoreLocal, slot);
                },
                Declaration::Type(_) => {},
            }
        }
    }

    /// Define a function or a constant for good.
    fn settle_decl(&mut self, node: &Node)
        ensures
            final(self)@ == old(self)@.settle(
                match *node {
                    Node::Statement(Statement::Declaration { decl, public }) => Some(
                        (decl, public),
                    ),
                    _ => None,
                },
            ),
    {
        if let Node::Statement(Statement::Declaration { decl, .. }) = node {
            match decl {
                Declaration::Function(f) => {
                    let b: Binding = self.fn_binding(f.name, f.doc);
                    self.define(f.name.name, b);
                },
                Declaration::Const(c) => {
                    let b: Binding = Binding {
                        kind: ValueKind::Local,
                        def: Some(self.here_at(c.name.span, EntityKind::Constant)),
                        doc: c.doc,
                    };
                    self.define(c.name.name, b);
                },
                Declaration::Type(_) => {},
            }
        }
    }

    /// Compile a group, and define its members for good once all are compiled.
    fn compile_group(
        &mut self,
        body: &Vec<Node>,
        items: &Vec<usize>,
        slots: &Vec<i32>,
        members: &Vec<usize>,
    )
        requires
            below(items@, body@.len()),
            below(members@, items@.len()),
            slots@.len() == items@.len(),
        ensures
            final(self)@ == old(self)@.group_bodies(
                body@,
                items@,
                slots@,
                members@,
                members@.len(),
            ).settle_group(body@, items@, members@, members@.len()),
    {
        let ghost s = self@;
        proof {
            reveal(State::group_bodies);
            reveal(State::settle_group);
        }
        let mut n: usize = 0;
        while n < members.len()
            invariant
                n <= members.len(),
                below(items@, body@.len()),
                below(members@, items@.len()),
                slots@.len() == items@.len(),
                self@ == s.group_bodies(body@, items@, slots@, members@, n as nat),
            decreases members.len() - n,
        {
            proof {
                reveal(State::group_bodies);
            }
            self.compile_decl(&body[items[members[n]]], slots[members[n]]);
            n = n + 1;
        }
        let ghost t = self@;
        let mut k: usize = 0;
        while k < members.len()
            invariant
                k <= members.len(),
                below(items@, body@.len()),
                below(members@, items@.len()),
                self@ == t.settle_group(body@, items@, members@, k as nat),
            decreases members.len() - k,
        {
            proof {
                reveal(State::settle_group);
            }
            self.settle_decl(&body[items[members[k]]]);
            k = k + 1;
        }
    }

    /// Compile the functions and constants, group by group.
    fn compile_groups(&mut self, body: &Vec<Node>, items: &Vec<usize>, slots: &Vec<i32>)
        requires
            below(items@, body@.len()),
            slots@.len() == items@.len(),
            items@.len() < u32::MAX,
            call_edges(body@, items@, items@.len()).len() < u32::MAX,
        ensures
            ({
                let comps = components_of(
                    items@.len(),
                    call_edges(body@, items@, items@.len()),
                );
                final(self)@ == old(self)@.group_pass(body@, items@, slots@, comps, comps.len())
            }),
    {
        let sccs: Vec<Vec<usize>> = build_call_graph_sccs(body, items);
        let ghost all = groups(sccs@);
        let ghost s = self@;
        proof {
            reveal(State::group_pass);
        }
        let mut n: usize = 0;
        while n < sccs.len()
            invariant
                n <= sccs.len(),
                all == groups(sccs@),
                splits(items@.len(), all),
                below(items@, body@.len()),
                slots@.len() == items@.len(),
                self@ == s.group_pass(body@, items@, slots@, all, n as nat),
            decreases sccs.len() - n,
        {
            proof {
                reveal(State::group_pass);
            }
            let c: &Vec<usize> = &sccs[n];
            assert(all[n as int] == c@);
            assert forall|i: int| 0 <= i < c@.len() implies (#[trigger] c@[i]) < items@.len() by {
                assert(all[n as int][i] == c@[i]);
            }
            self.compile_group(body, items, slots, c);
            n = n + 1;
        }
    }

    /// Export the functions and constants with their slots.
    fn export_all(
        &mut self,
        body: &Vec<Node>,
        items: &Vec<usize>,
        slots: &Vec<i32>,
        iface: &mut ModuleInterface,
    )
        requires
            below(items@, body@.len()),
            slots@.len() == items@.len(),
        ensures
            ({
                let x = export_decls(
                    body@,
                    items@,
                    slots@,
                    items@.len(),
                    Exporting { s: old(self)@, iface: old(iface)@ },
                );
                final(self)@ == x.s && final(iface)@ == x.iface
            }),
    {
        proof {
            reveal(export_decls);
        }
        let ghost x = Exporting { s: self@, iface: iface@ };
        let mut n: usize = 0;
        while n < items.len()
            invariant
                n <= items.len(),
                below(items@, body@.len()),
                slots@.len() == items@.len(),
                export_decls(body@, items@, slots@, n as nat, x) == (Exporting {
                    s: self@,
                    iface: iface@,
                }),
            decreases items.len() - n,
        {
            proof {
                reveal(export_decls);
            }
            if let Node::Statement(Statement::Declaration { decl, public }) = &body[items[n]] {
                let name: StrId = decl_ident(body, items[n]).name;
                let (doc, names): (Option<StrId>, Vec<StrId>) = match decl {
                    Declaration::Function(f) => (f.doc, names_of(&f.params)),
                    Declaration::Const(c) => (c.doc, Vec::new()),
                    Declaration::Type(t) => (t.doc, Vec::new()),
                };
                assert(names@ =~= idents(decl_params(*decl)));
                let mut names: Vec<StrId> = names;
                if let Some(b) = self.lookup(name) {
                    let params: ArenaSlice = self.push_str_ids(&mut names);
                    export_value(iface, name, *public, b, Some(slots[n]), doc, params);
                }
            }
            n = n + 1;
        }
    }

    /// Compile the nodes that are no declarations.
    fn compile_others(&mut self, body: &Vec<Node>, others: &Vec<usize>)
        requires
            below(others@, body@.len()),
        ensures
            final(self)@ == old(self)@.other_nodes(body@, others@, others@.len()),
    {
        proof {
            reveal(State::other_nodes);
        }
        let ghost s = self@;
        let mut n: usize = 0;
        while n < others.len()
            invariant
                n <= others.len(),
                below(others@, body@.len()),
                self@ == s.other_nodes(body@, others@, n as nat),
            decreases others.len() - n,
        {
            proof {
                reveal(State::other_nodes);
            }
            self.compile_node(&body[others[n]]);
            n = n + 1;
        }
    }

    /// Analyse a module and compile it. Returns what it exports. A module that is
    /// imported holds declarations only.
    pub fn analyse_module(&mut self, body: &Vec<Node>, in_module: bool) -> (iface: ModuleInterface)
        requires
            fits(body@),
        ensures
            ({
                let x = analysed(body@, in_module, old(self)@);
                final(self)@ == x.s && iface@ == x.iface
            }),
    {
        let mut iface: ModuleInterface = ModuleInterface {
            values: HashMap::new(),
            types: HashMap::new(),
            private_names: HashMap::new(),
        };
        assert(iface@ == Interface::none());
        self.push_local_scope();
        let lists: NodeLists = self.sort_nodes(body, in_module);
        let ids: Vec<TypeId> = self.register_heads(body, &lists.types);
        self.register_aliases(body, &lists.types);
        self.register_builtins(body, &lists.builtins, &mut iface);
        let slots: Vec<i32> = self.alloc_decl_slots(body, &lists.decls);
        self.register_signatures(body, &lists.decls);
        self.register_all_constructors(body, &lists.types, &ids, &mut iface);
        self.compile_groups(body, &lists.decls, &slots);
        self.export_all(body, &lists.decls, &slots, &mut iface);
        let outer: bool = self.replace_walking(true);
        self.compile_others(body, &lists.others);
        let _ = self.replace_walking(outer);
        self.pop_local_scope();
        iface
    }
}

} // verus!

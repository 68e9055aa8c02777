//! What an import brings into a module whose source has been loaded.
use crate::ast::{ImportDecl, ImportItem, Span, StrId};
use crate::diag::Message;
use crate::names::{text_of, Interner};
use crate::prelude_bindings::TypeId;
use crate::refs::{
    def_loc, defid_at, defid_of, defined, type_named, DefId, Definition, DefinitionLocation,
    EntityKind, Occurrence, ReferenceKind,
};
use crate::state::{entry_of, Binding, Compiler, ExportedValue, Known, Refs, State};
use vstd::prelude::*;

verus! {

broadcast use vstd::std_specs::hash::group_hash_axioms;

/// The last of the first `n` path segments that is a name.
pub open spec fn last_name(names: Seq<Seq<char>>, path: Seq<StrId>, n: nat) -> Option<StrId>
    decreases n,
{
    if n == 0 {
        None
    } else if text_of(names, path[n - 1]) != "."@ && text_of(names, path[n - 1]) != ".."@ {
        Some(path[n - 1])
    } else {
        last_name(names, path, (n - 1) as nat)
    }
}

/// The name that a module is known under where it is imported: its alias, or the
/// last name of its path, or its key.
pub open spec fn qualifier_of(names: Seq<Seq<char>>, imp: ImportDecl) -> StrId {
    match imp.alias {
        Some(a) => a.name,
        None => match last_name(names, imp.path@, imp.path@.len()) {
            Some(name) => name,
            None => imp.key,
        },
    }
}

/// The span that stands for the import's binding.
pub open spec fn binding_span(imp: ImportDecl) -> Span {
    match imp.alias {
        Some(a) => a.span,
        None => imp.span,
    }
}

impl State {
    /// Enter a definition that does not count as an occurrence.
    #[verifier::opaque]
    pub open spec fn add_def(self, def: Definition) -> State {
        State {
            refs: Refs {
                defs: defined(self.refs.defs, def),
                met: self.refs.met.insert(def.id.module, ()),
                ..self.refs
            },
            ..self
        }
    }

    /// Enter an occurrence that belongs to no definition.
    #[verifier::opaque]
    pub open spec fn refer_outside(self, span: Span, kind: ReferenceKind, target: DefId) -> State {
        State {
            refs: Refs {
                occs: self.refs.occs.push(Occurrence { owner: None, span, kind, target }),
                met: self.refs.met.insert(target.module, ()),
                ..self.refs
            },
            ..self
        }
    }

    /// Know a module under a qualifier.
    #[verifier::opaque]
    pub open spec fn qualify(self, qualifier: StrId, key: StrId) -> State {
        State {
            known: Known {
                qualifiers: self.known.qualifiers.insert(qualifier, key),
                ..self.known
            },
            ..self
        }
    }

    /// Know a type under a name.
    #[verifier::opaque]
    pub open spec fn bind_type(self, name: StrId, id: TypeId) -> State {
        State {
            known: Known {
                types: self.known.types.insert(name, id),
                log: self.known.log.push((name, entry_of(self.known.types, name))),
                ..self.known
            },
            ..self
        }
    }

    /// The identity of a definition in this module.
    pub open spec fn own_id(self, span: Span, entity: EntityKind) -> DefId {
        DefId { module: self.refs.current, span, entity }
    }

    /// Bind the module of an import under its qualifier.
    pub open spec fn bind_module(self, imp: ImportDecl) -> State {
        let id = self.own_id(binding_span(imp), EntityKind::ModuleAlias);
        let qualifier = qualifier_of(self.world.names@, imp);
        let s1 = self.add_def(
            Definition { id, name: qualifier, doc: None, public: false, alias_of: None },
        ).refer_outside(
            imp.path_span,
            ReferenceKind::Import,
            DefId { module: imp.key, span: imp.path_span, entity: EntityKind::ModuleAlias },
        );
        let s2 = match imp.alias {
            Some(a) => s1.refer_outside(a.span, ReferenceKind::Alias, id),
            None => s1,
        };
        s2.qualify(qualifier, imp.key)
    }

    /// The identity of a type that a module declares.
    pub open spec fn type_in(self, key: StrId, name: StrId) -> Option<DefId> {
        if key == self.refs.current {
            type_named(self.refs.defs, self.refs.defs.len(), name)
        } else if self.known.stored.dom().contains(key) {
            let defs = self.known.stored[key].defs;
            type_named(defs, defs.len(), name)
        } else {
            None
        }
    }

    /// Enter an occurrence of a type.
    pub open spec fn type_use(self, key: StrId, u: TypeUse) -> State {
        match self.type_in(key, u.name) {
            Some(id) => self.refer(u.span, u.kind, id),
            None => self,
        }
    }
}

/// An occurrence of a type to be entered.
#[derive(Debug, Clone, Copy)]
pub struct TypeUse {
    pub span: Span,
    pub kind: ReferenceKind,
    pub name: StrId,
}

/// An occurrence of a value to be entered.
#[derive(Debug, Clone, Copy)]
pub struct ValueUse {
    pub span: Span,
    pub kind: ReferenceKind,
    pub def: DefinitionLocation,
}

/// Items under way: the state, and the occurrences to be entered once all items are
/// bound.
pub struct Items {
    pub s: State,
    pub values: Seq<ValueUse>,
    pub types: Seq<TypeUse>,
}

/// The name an item is known under here.
pub open spec fn local_name(item: ImportItem) -> StrId {
    match item.alias {
        Some(a) => a.name,
        None => item.name.name,
    }
}

impl Items {
    /// The same occurrences in another state.
    pub open spec fn at(self, s: State) -> Items {
        Items { s, ..self }
    }

    /// Bind an imported value. An alias is a definition of its own, so that
    /// renaming the value leaves it alone.
    pub open spec fn value(self, item: ImportItem, ev: ExportedValue) -> Items {
        let values = match ev.binding.def {
            Some(dl) => self.values.push(
                ValueUse { span: item.name.span, kind: ReferenceKind::Unqualified, def: dl },
            ),
            None => self.values,
        };
        let local = local_name(item);
        let i1 = match item.alias {
            Some(a) => {
                let dl = self.s.here_at(a.span, EntityKind::Value);
                Items {
                    s: self.s.define(local, Binding { def: Some(dl), ..ev.binding }).add_def(
                        Definition {
                            id: defid_at(dl),
                            name: local,
                            doc: None,
                            public: false,
                            alias_of: match ev.binding.def {
                                Some(canonical) => Some(defid_at(canonical)),
                                None => None,
                            },
                        },
                    ),
                    values: values.push(
                        ValueUse { span: a.span, kind: ReferenceKind::Alias, def: dl },
                    ),
                    types: self.types,
                }
            },
            None => Items { s: self.s.define(local, ev.binding), values, types: self.types },
        };
        match ev.slot {
            Some(slot) => i1.at(i1.s.bind(local, slot)),
            None => i1,
        }
    }

    /// Bind an imported type.
    pub open spec fn ty(self, item: ImportItem, id: TypeId) -> Items {
        let types = self.types.push(
            TypeUse {
                span: item.name.span,
                kind: ReferenceKind::Unqualified,
                name: item.name.name,
            },
        );
        Items {
            s: self.s.bind_type(local_name(item), id),
            values: self.values,
            types: match item.alias {
                Some(a) => types.push(
                    TypeUse { span: a.span, kind: ReferenceKind::Alias, name: item.name.name },
                ),
                None => types,
            },
        }
    }

    /// Bind one item. A name may stand for a value and a type at once; one that
    /// stands for neither is reported.
    pub open spec fn item(self, key: StrId, item: ImportItem) -> Items {
        if !self.s.known.modules.dom().contains(key) {
            self
        } else {
            let iface = self.s.known.modules[key];
            let name = item.name.name;
            let has_value = iface.values.dom().contains(name);
            let has_type = iface.types.dom().contains(name);
            let i1 = if has_value {
                self.value(item, iface.values[name])
            } else {
                self
            };
            let i2 = if has_type {
                i1.ty(item, iface.types[name])
            } else {
                i1
            };
            if has_value || has_type {
                i2
            } else if iface.private_names.dom().contains(name) {
                i2.at(
                    i2.s.error(
                        Message::PrivateMember { member: name, module: key },
                        item.name.span,
                    ),
                )
            } else {
                i2.at(
                    i2.s.error(Message::NoMember { module: key, member: name }, item.name.span),
                )
            }
        }
    }
}

/// Bind the first `n` items.
#[verifier::opaque]
pub open spec fn items(key: StrId, list: Seq<ImportItem>, n: nat, s: State) -> Items
    decreases n,
{
    if n == 0 {
        Items { s, values: Seq::empty(), types: Seq::empty() }
    } else {
        items(key, list, (n - 1) as nat, s).item(key, list[n - 1])
    }
}

impl State {
    /// Enter the first `n` occurrences of values.
    #[verifier::opaque]
    pub open spec fn value_uses(self, uses: Seq<ValueUse>, n: nat) -> State
        decreases n,
    {
        if n == 0 {
            self
        } else {
            let u = uses[n - 1];
            self.value_uses(uses, (n - 1) as nat).refer(u.span, u.kind, defid_at(u.def))
        }
    }

    /// Enter the first `n` occurrences of types.
    #[verifier::opaque]
    pub open spec fn type_uses(self, key: StrId, uses: Seq<TypeUse>, n: nat) -> State
        decreases n,
    {
        if n == 0 {
            self
        } else {
            self.type_uses(key, uses, (n - 1) as nat).type_use(key, uses[n - 1])
        }
    }

    /// Bind what an import of a loaded module brings.
    pub open spec fn bind_import(self, imp: ImportDecl) -> State {
        let i = items(imp.key, imp.items@, imp.items@.len(), self.bind_module(imp));
        i.s.value_uses(i.values, i.values.len()).type_uses(imp.key, i.types, i.types.len())
    }
}

/// The name that a module is known under where it is imported.
pub fn import_qualifier(names: &Interner, imp: &ImportDecl) -> (res: StrId)
    ensures
        res == qualifier_of(names@, *imp),
{
    if let Some(a) = imp.alias {
        return a.name;
    }
    let mut n: usize = imp.path.len();
    while n > 0
        invariant
            n <= imp.path.len(),
            imp.alias is None,
            last_name(names@, imp.path@, imp.path@.len()) == last_name(
                names@,
                imp.path@,
                n as nat,
            ),
        decreases n,
    {
        if !names.is(imp.path[n - 1], ".") && !names.is(imp.path[n - 1], "..") {
            return imp.path[n - 1];
        }
        n = n - 1;
    }
    imp.key
}

impl Compiler {
    /// The key of the module being compiled.
    pub fn module_key(&self) -> (key: StrId)
        ensures
            key == self@.refs.current,
    {
        proof {
            reveal(Compiler::model);
        }
        self.current_module
    }

    fn add_def(&mut self, def: Definition)
        ensures
            final(self)@ == old(self)@.add_def(def),
    {
        proof {
            reveal(Compiler::model);
            reveal(State::add_def);
        }
        self.met.insert(def.id.module, ());
        self.module_refs.add_definition(def);
    }

    fn refer_outside(&mut self, span: Span, kind: ReferenceKind, target: DefId)
        ensures
            final(self)@ == old(self)@.refer_outside(span, kind, target),
    {
        proof {
            reveal(Compiler::model);
            reveal(State::refer_outside);
        }
        self.met.insert(target.module, ());
        self.module_refs.add_reference(Occurrence { owner: None, span, kind, target });
    }

    /// Know a module under a qualifier.
    fn qualify(&mut self, qualifier: StrId, key: StrId)
        ensures
            final(self)@ == old(self)@.qualify(qualifier, key),
    {
        proof {
            reveal(Compiler::model);
            reveal(State::qualify);
        }
        self.qualifiers.insert(qualifier, key);
    }

    /// Know a type under a name.
    fn store_type_info(&mut self, name: StrId, id: TypeId)
        ensures
            final(self)@ == old(self)@.bind_type(name, id),
    {
        proof {
            reveal(Compiler::model);
            reveal(State::bind_type);
        }
        let before: Option<TypeId> = self.types.insert(name, id);
        self.type_log.push((name, before));
    }

    /// Bind the module of an import under its qualifier.
    fn bind_module(&mut self, imp: &ImportDecl)
        ensures
            final(self)@ == old(self)@.bind_module(*imp),
    {
        let qualifier: StrId = import_qualifier(&self.world().names, imp);
        let span: Span = match imp.alias {
            Some(a) => a.span,
            None => imp.span,
        };
        let id: DefId = DefId {
            module: self.module_key(),
            span,
            entity: EntityKind::ModuleAlias,
        };
        self.add_def(Definition { id, name: qualifier, doc: None, public: false, alias_of: None });
        self.refer_outside(
            imp.path_span,
            ReferenceKind::Import,
            DefId { module: imp.key, span: imp.path_span, entity: EntityKind::ModuleAlias },
        );
        if let Some(a) = imp.alias {
            self.refer_outside(a.span, ReferenceKind::Alias, id);
        }
        self.qualify(qualifier, imp.key);
    }

    /// The identity of a type that a module declares.
    pub fn type_defid_in_module(&self, key: StrId, name: StrId) -> (res: Option<DefId>)
        ensures
            res == self@.type_in(key, name),
    {
        proof {
            reveal(Compiler::model);
        }
        if key == self.current_module {
            self.module_refs.type_defid(name)
        } else {
            match self.stored.get(&key) {
                Some(refs) => refs.type_defid(name),
                None => None,
            }
        }
    }

    /// Enter an occurrence of a type.
    pub fn record_type_use(&mut self, key: StrId, u: TypeUse)
        ensures
            final(self)@ == old(self)@.type_use(key, u),
    {
        if let Some(id) = self.type_defid_in_module(key, u.name) {
            self.record_ref(u.span, u.kind, id);
        }
    }

    /// Bind an imported value.
    fn bind_imported_value(&mut self, item: &ImportItem, ev: ExportedValue, uses: &mut Vec<ValueUse>)
        ensures
            forall|types: Seq<TypeUse>|
                #[trigger] (Items { s: old(self)@, values: old(uses)@, types }).value(*item, ev)
                    == (Items { s: final(self)@, values: final(uses)@, types }),
    {
        if let Some(dl) = ev.binding.def {
            uses.push(
                ValueUse { span: item.name.span, kind: ReferenceKind::Unqualified, def: dl },
            );
        }
        let local: StrId = match item.alias {
            Some(a) => a.name,
            None => item.name.name,
        };
        match item.alias {
            Some(a) => {
                let dl: DefinitionLocation = def_loc(a.span, self.module_key(), EntityKind::Value);
                self.define(local, Binding { def: Some(dl), ..ev.binding });
                let alias_of: Option<DefId> = match ev.binding.def {
                    Some(canonical) => Some(defid_of(canonical)),
                    None => None,
                };
                self.add_def(
                    Definition { id: defid_of(dl), name: local, doc: None, public: false, alias_of },
                );
                uses.push(ValueUse { span: a.span, kind: ReferenceKind::Alias, def: dl });
            },
            None => self.define(local, ev.binding),
        }
        if let Some(slot) = ev.slot {
            self.bind_local(local, slot);
        }
    }

    /// Bind an imported type.
    fn bind_imported_type(&mut self, item: &ImportItem, id: TypeId, uses: &mut Vec<TypeUse>)
        ensures
            forall|values: Seq<ValueUse>|
                #[trigger] (Items { s: old(self)@, values, types: old(uses)@ }).ty(*item, id)
                    == (Items { s: final(self)@, values, types: final(uses)@ }),
    {
        let local: StrId = match item.alias {
            Some(a) => a.name,
            None => item.name.name,
        };
        self.store_type_info(local, id);
        uses.push(
            TypeUse {
                span: item.name.span,
                kind: ReferenceKind::Unqualified,
                name: item.name.name,
            },
        );
        if let Some(a) = item.alias {
            uses.push(TypeUse { span: a.span, kind: ReferenceKind::Alias, name: item.name.name });
        }
    }

    /// What a module has under a name: a value, a type, or something private. None
    /// when the module is not there.
    fn member(&self, key: StrId, name: StrId) -> (res: Option<
        (Option<ExportedValue>, Option<TypeId>, bool),
    >)
        ensures
            match res {
                None => !self@.known.modules.dom().contains(key),
                Some((value, ty, private)) => {
                    let iface = self@.known.modules[key];
                    &&& self@.known.modules.dom().contains(key)
                    &&& value == (if iface.values.dom().contains(name) {
                        Some(iface.values[name])
                    } else {
                        None
                    })
                    &&& ty == (if iface.types.dom().contains(name) {
                        Some(iface.types[name])
                    } else {
                        None
                    })
                    &&& private == iface.private_names.dom().contains(name)
                },
            },
    {
        proof {
            reveal(Compiler::model);
        }
        match self.modules.get(&key) {
            None => None,
            Some(iface) => {
                let value: Option<ExportedValue> = match iface.values.get(&name) {
                    Some(ev) => Some(*ev),
                    None => None,
                };
                let ty: Option<TypeId> = match iface.types.get(&name) {
                    Some(id) => Some(*id),
                    None => None,
                };
                Some((value, ty, iface.private_names.contains_key(&name)))
            },
        }
    }

    /// Bind one item.
    fn bind_item(
        &mut self,
        key: StrId,
        item: &ImportItem,
        values: &mut Vec<ValueUse>,
        types: &mut Vec<TypeUse>,
    )
        ensures
            (Items { s: old(self)@, values: old(values)@, types: old(types)@ }).item(key, *item)
                == (Items { s: final(self)@, values: final(values)@, types: final(types)@ }),
    {
        let found: Option<(Option<ExportedValue>, Option<TypeId>, bool)> = self.member(
            key,
            item.name.name,
        );
        if let Some((value, ty, private)) = found {
            if let Some(ev) = value {
                self.bind_imported_value(item, ev, values);
            }
            if let Some(id) = ty {
                self.bind_imported_type(item, id, types);
            }
            if value.is_none() && ty.is_none() {
                let name: StrId = item.name.name;
                if private {
                    self.error(
                        Message::PrivateMember { member: name, module: key },
                        item.name.span,
                    );
                } else {
                    self.error(Message::NoMember { module: key, member: name }, item.name.span);
                }
            }
        }
    }

    /// Bind what an import of a loaded module brings: the module under its
    /// qualifier, and each item under its name.
    pub fn bind_import(&mut self, imp: &ImportDecl)
        ensures
            final(self)@ == old(self)@.bind_import(*imp),
    {
        self.bind_module(imp);
        let ghost s = self@;
        proof {
            reveal(items);
            reveal(State::value_uses);
            reveal(State::type_uses);
        }
        let mut values: Vec<ValueUse> = Vec::new();
        let mut types: Vec<TypeUse> = Vec::new();
        let mut n: usize = 0;
        while n < imp.items.len()
            invariant
                n <= imp.items.len(),
                items(imp.key, imp.items@, n as nat, s) == (Items {
                    s: self@,
                    values: values@,
                    types: types@,
                }),
            decreases imp.items.len() - n,
        {
            proof {
                reveal(items);
            }
            self.bind_item(imp.key, &imp.items[n], &mut values, &mut types);
            n = n + 1;
        }
        let ghost t = self@;
        let mut i: usize = 0;
        while i < values.len()
            invariant
                i <= values.len(),
                self@ == t.value_uses(values@, i as nat),
            decreases values.len() - i,
        {
            proof {
                reveal(State::value_uses);
            }
            let u: ValueUse = values[i];
            self.record_ref(u.span, u.kind, defid_of(u.def));
            i = i + 1;
        }
        let ghost v = self@;
        let mut k: usize = 0;
        while k < types.len()
            invariant
                k <= types.len(),
                self@ == v.type_uses(imp.key, types@, k as nat),
            decreases types.len() - k,
        {
            proof {
                reveal(State::type_uses);
            }
            self.record_type_use(imp.key, types[k]);
            k = k + 1;
        }
    }
}

} // verus!

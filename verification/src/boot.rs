//! What a compiler starts from: nothing, a prelude loaded from source, or a
//! standard library compiled beforehand.
use crate::ast::{Span, StrId};
use crate::diag::Message;
use crate::loader::{all_fit, load, under_way, Source};
use crate::names::id_of;
use crate::op::Program;
use crate::prelude_bindings::{
    ctor_name_of, first_fault, holds_scope, latest, named, type_name_of, PreludeBindings,
    PreludeCtor, PreludeScope, PreludeType, ScopeType, ScopeValue, TypeId,
};
use crate::refs::ModuleReferences;
use crate::state::{
    const_views, fn_views, Binding, Compiler, ExportedValue, Interface, Known, Locals,
    ModuleInterface, Origin, Output, Refs, State, TypeInfo, ValueKind, VariantInfo, World,
};
use crate::tables::{key_list, lists_keys};
use std::collections::{HashMap, VecDeque};
use vstd::prelude::*;

verus! {

broadcast use vstd::std_specs::hash::group_hash_axioms;

/// The place of what is not in any text.
pub open spec fn nowhere() -> Span {
    Span { start_line: 0, start_column: 0, end_line: 0, end_column: 0 }
}

/// Whether a state is that of a new compiler for a module: one scope without
/// names, and nothing else. What it collects counts as the entry module's.
pub open spec fn starts(s: State, world: World, module: StrId, origin: Origin, check_only: bool) -> bool {
    &&& s.out == (Output {
        code: Seq::empty(),
        consts: Seq::empty(),
        fns: Seq::empty(),
        entry: 0,
        check_only,
    })
    &&& s.loc == (Locals {
        map: Map::empty(),
        undo: Seq::empty(),
        marks: Seq::empty(),
        overrides: Seq::empty(),
        outer: Seq::empty(),
        count: 0,
        captures: Map::empty(),
        capture_names: Seq::empty(),
        binding: None,
        next_self: None,
        tail: false,
        walking: false,
        binds: Seq::empty(),
    })
    &&& s.refs == (Refs {
        module: world.main,
        defs: Seq::empty(),
        occs: Seq::empty(),
        ctors: Seq::empty(),
        params: Seq::empty(),
        met: Map::empty().insert(world.main, ()),
        seen: Seq::empty(),
        owner: None,
        current: module,
        collect: false,
    })
    &&& s.env == seq![Map::<StrId, Binding>::empty()]
    &&& s.rooted == Map::<StrId, usize>::empty()
    &&& s.unused == Seq::<Seq<(StrId, Span)>>::empty()
    &&& s.labels == Seq::<StrId>::empty()
    &&& s.diags == Seq::<crate::diag::Diagnostic>::empty()
    &&& s.known == (Known {
        types: Map::empty(),
        infos: Map::empty(),
        variants: Seq::empty(),
        fields: Seq::empty(),
        ids: Seq::empty(),
        bases: Map::empty(),
        high: 0,
        spilled: false,
        next: 1,
        log: Seq::empty(),
        prelude: None,
        reserved: Map::empty(),
        qualifiers: Map::empty(),
        modules: Map::empty(),
        stored: Map::empty(),
        marks: Map::empty(),
        dependents: Seq::empty(),
        count: 0,
        origin,
    })
    &&& s.world == world
}

/// A new compiler for a module. The first type it declares has identity 1.
pub fn new_compiler(world: World, module: StrId, origin: Origin, check_only: bool) -> (c: Compiler)
    ensures
        starts(c@, world, module, origin, check_only),
{
    let mut env: Vec<HashMap<StrId, Binding>> = Vec::new();
    env.push(HashMap::new());
    let mut met: HashMap<StrId, ()> = HashMap::new();
    met.insert(world.main, ());
    let c: Compiler = Compiler {
        program: Program::default(),
        locals: HashMap::new(),
        undo_log: Vec::new(),
        scope_marks: Vec::new(),
        or_bind_overrides: Vec::new(),
        unused: Vec::new(),
        outer_scopes: Vec::new(),
        local_count: 0,
        captures: HashMap::new(),
        capture_names: Vec::new(),
        current_binding: None,
        next_fn_self_name: None,
        in_tail_position: false,
        current_owner: None,
        env,
        rooted: HashMap::new(),
        labels: Vec::new(),
        module_refs: ModuleReferences::new(world.main),
        recorded: Vec::new(),
        met,
        diagnostics: Vec::new(),
        current_module: module,
        check_only,
        collect_local_defs: false,
        walking_module_statements: false,
        toplevel_binds: VecDeque::new(),
        types: HashMap::new(),
        infos: HashMap::new(),
        variants: Vec::new(),
        field_defs: Vec::new(),
        info_ids: Vec::new(),
        id_bases: HashMap::new(),
        id_high_water: 0,
        id_range_overflow: false,
        next_type_id: 1,
        type_log: Vec::new(),
        prelude: None,
        reserved: HashMap::new(),
        qualifiers: HashMap::new(),
        modules: HashMap::new(),
        stored: HashMap::new(),
        marks: HashMap::new(),
        dependents: Vec::new(),
        compile_count: 0,
        origin,
        world,
    };
    proof {
        reveal(Compiler::model);
        assert(c@.env =~= seq![Map::<StrId, Binding>::empty()]);
        assert(c@.out.consts =~= Seq::empty());
        assert(c@.out.fns =~= Seq::empty());
        assert(c@.loc.overrides =~= Seq::empty());
        assert(c@.loc.outer =~= Seq::empty());
        assert(c@.loc.marks =~= Seq::empty());
        assert(c@.unused =~= Seq::empty());
        assert(c@.known.modules =~= Map::empty());
        assert(c@.known.stored =~= Map::empty());
    }
    c
}

// ---- the prelude from source -----------------------------------------------

/// The names that a prelude reserves: its types and its constructors.
pub open spec fn reserves(iface: Interface, name: StrId) -> bool {
    ||| iface.types.dom().contains(name)
    ||| iface.values.dom().contains(name) && iface.values[name].binding.kind is Constructor
}

/// A scope with the exported values of a module added.
pub open spec fn with_values(scope: Map<StrId, Binding>, values: Map<StrId, ExportedValue>) -> Map<
    StrId,
    Binding,
> {
    Map::new(
        |k: StrId| scope.dom().contains(k) || values.dom().contains(k),
        |k: StrId|
            if values.dom().contains(k) {
                values[k].binding
            } else {
                scope[k]
            },
    )
}

/// How the names of a scope came to it, with the exported values of a module added, of
/// which those that are new come behind `at` others.
pub open spec fn with_stamps(
    rooted: Map<StrId, usize>,
    scope: Map<StrId, Binding>,
    values: Map<StrId, ExportedValue>,
    at: usize,
) -> Map<StrId, usize> {
    Map::new(
        |k: StrId|
            rooted.dom().contains(k) || values.dom().contains(k) && !scope.dom().contains(k),
        |k: StrId|
            if values.dom().contains(k) && !scope.dom().contains(k) {
                at
            } else {
                rooted[k]
            },
    )
}

impl State {
    /// Make the values of a loaded module known without an import, and reserve
    /// the names of its types and constructors.
    #[verifier::opaque]
    pub open spec fn adopt(self, key: StrId) -> State {
        let iface = self.known.modules[key];
        State {
            env: if self.env.len() > 0 {
                self.env.update(
                    self.env.len() - 1,
                    with_values(self.env.last(), iface.values),
                )
            } else {
                self.env
            },
            rooted: if self.env.len() == 1 {
                with_stamps(self.rooted, self.env[0], iface.values, self.root_len())
            } else {
                self.rooted
            },
            known: Known {
                reserved: Map::new(
                    |k: StrId| self.known.reserved.dom().contains(k) || reserves(iface, k),
                    |k: StrId| (),
                ),
                ..self.known
            },
            ..self
        }
    }

    /// Settle the prelude's bindings.
    #[verifier::opaque]
    pub open spec fn bind_prelude(self, b: PreludeBindings) -> State {
        State { known: Known { prelude: Some(b), ..self.known }, ..self }
    }

    /// The type in scope under a text.
    pub open spec fn scope_type(self, text: Seq<char>) -> Option<ScopeType> {
        match id_of(self.world.names@, 0, text) {
            Some(name) => if self.known.types.dom().contains(name)
                && self.known.infos.dom().contains(self.known.types[name].0) {
                Some(
                    ScopeType {
                        id: self.known.types[name],
                        arity: self.known.infos[self.known.types[name].0].arity,
                    },
                )
            } else {
                None
            },
            None => None,
        }
    }

    /// The value in scope under a text.
    pub open spec fn scope_value(self, text: Seq<char>) -> Option<ScopeValue> {
        match id_of(self.world.names@, 0, text) {
            Some(name) => match self.lookup(name) {
                Some(b) => match b.kind {
                    ValueKind::Constructor { type_id, variant_idx, arity, .. } => Some(
                        ScopeValue::Constructor { type_id, variant_idx, arity },
                    ),
                    _ => Some(ScopeValue::Other),
                },
                None => None,
            },
            None => None,
        }
    }
}

/// Whether a scope says of every prelude name what a state knows of it.
pub open spec fn scope_of(scope: PreludeScope, s: State) -> bool {
    &&& forall|t: PreludeType|
        latest(scope.types@, scope.types@.len(), #[trigger] type_name_of(t)@) == s.scope_type(
            type_name_of(t)@,
        )
    &&& forall|c: PreludeCtor|
        latest(scope.values@, scope.values@.len(), #[trigger] ctor_name_of(c)@) == s.scope_value(
            ctor_name_of(c)@,
        )
}

/// Whether capturing the prelude takes one state to another: the first fault is
/// reported, or all is bound.
pub open spec fn captures(s: State, t: State) -> bool {
    exists|scope: PreludeScope| #[trigger]
        scope_of(scope, s) && (match first_fault(scope, 0) {
            Some(e) => t == s.error(Message::Prelude { fault: e }, nowhere()),
            None => exists|b: PreludeBindings|
                holds_scope(b, scope) && named(b) && t == #[trigger] s.bind_prelude(b),
        })
}

/// Whether loading the prelude from source takes one state to another.
#[verifier::opaque]
pub open spec fn prelude_from(sources: Seq<Source>, key: StrId, s: State, t: State) -> bool {
    let (u, ok) = load(sources, Seq::empty(), key, nowhere(), s);
    if ok && u.known.modules.dom().contains(key) {
        captures(u.adopt(key), t)
    } else {
        t == u
    }
}

/// The values that a module exports.
fn exported(iface: &ModuleInterface) -> (res: Vec<(StrId, Binding)>)
    ensures
        forall|i: int|
            0 <= i < res@.len() ==> iface.values@.dom().contains((#[trigger] res@[i]).0)
                && res@[i].1 == iface.values@[res@[i].0].binding,
        forall|k: StrId| #[trigger]
            iface.values@.dom().contains(k) ==> exists|i: int|
                0 <= i < res@.len() && (#[trigger] res@[i]).0 == k,
{
    let keys: Vec<StrId> = key_list(&iface.values);
    let mut res: Vec<(StrId, Binding)> = Vec::new();
    let mut i: usize = 0;
    while i < keys.len()
        invariant
            i <= keys.len(),
            lists_keys(keys@, iface.values@),
            res@.len() == i,
            forall|j: int| 0 <= j < i ==> (#[trigger] res@[j]).0 == keys@[j],
            forall|j: int|
                0 <= j < i ==> iface.values@.dom().contains((#[trigger] res@[j]).0) && res@[j].1
                    == iface.values@[res@[j].0].binding,
        decreases keys.len() - i,
    {
        assert(keys@.contains(keys@[i as int]));
        if let Some(ev) = iface.values.get(&keys[i]) {
            res.push((keys[i], ev.binding));
        }
        i = i + 1;
    }
    proof {
        assert forall|k: StrId| #[trigger] iface.values@.dom().contains(k) implies exists|i: int|
            0 <= i < res@.len() && (#[trigger] res@[i]).0 == k by {
            assert(keys@.contains(k));
            let j = choose|j: int| 0 <= j < keys@.len() && keys@[j] == k;
            assert(res@[j].0 == k);
        }
    }
    res
}

impl Compiler {
    /// Make the values of a loaded module known without an import.
    fn adopt_prelude(&mut self, key: StrId)
        requires
            old(self)@.known.modules.dom().contains(key),
        ensures
            final(self)@ == old(self)@.adopt(key),
    {
        proof {
            reveal(Compiler::model);
            reveal(State::adopt);
        }
        let ghost s = self@;
        let ghost iface = s.known.modules[key];
        let (types, values): (Vec<StrId>, Vec<(StrId, Binding)>) = match self.modules.get(&key) {
            Some(m) => (key_list(&m.types), exported(m)),
            None => (Vec::new(), Vec::new()),
        };
        let mut i: usize = 0;
        while i < types.len()
            invariant
                i <= types.len(),
                self@ == (State {
                    known: Known { reserved: self@.known.reserved, ..s.known },
                    ..s
                }),
                forall|k: StrId| #[trigger]
                    self@.known.reserved.dom().contains(k) <==> s.known.reserved.dom().contains(k)
                        || types@.take(i as int).contains(k),
            decreases types.len() - i,
        {
            proof {
                reveal(Compiler::model);
            }
            let ghost before = self@.known.reserved;
            self.reserved.insert(types[i], ());
            i = i + 1;
            proof {
                assert(types@.take(i as int) =~= types@.take(i - 1).push(types@[i - 1]));
                assert forall|k: StrId| #[trigger]
                    self@.known.reserved.dom().contains(k) <==> s.known.reserved.dom().contains(k)
                        || types@.take(i as int).contains(k) by {
                    assert(before.dom().contains(k) <==> s.known.reserved.dom().contains(k)
                        || types@.take(i - 1).contains(k));
                    assert(types@.take(i as int).contains(k) <==> types@.take(i - 1).contains(k)
                        || k == types@[i - 1]) by {
                        if k == types@[i - 1] {
                            assert(types@.take(i as int)[i - 1] == k);
                        }
                        if types@.take(i - 1).contains(k) {
                            let j = types@.take(i - 1).index_of(k);
                            assert(types@.take(i as int)[j] == k);
                        }
                    }
                }
            }
        }
        let ghost t = self@;
        assert(types@.take(i as int) =~= types@);
        assert(forall|k: StrId| #[trigger]
            t.known.reserved.dom().contains(k) <==> s.known.reserved.dom().contains(k)
                || iface.types.dom().contains(k));
        let at: usize = self.root_len();
        let mut n: usize = 0;
        while n < values.len()
            invariant
                n <= values.len(),
                self@ == (State {
                    env: self@.env,
                    rooted: self@.rooted,
                    known: Known { reserved: self@.known.reserved, ..s.known },
                    ..s
                }),
                self@.env.len() == s.env.len(),
                s.env.len() == 0 ==> self@.env == s.env,
                s.env.len() != 1 ==> self@.rooted == s.rooted,
                s.env.len() == 1 ==> forall|k: StrId| #[trigger]
                    self@.rooted.dom().contains(k) <==> s.rooted.dom().contains(k) || listed(
                        values@,
                        n as nat,
                        k,
                    ) && !s.env[0].dom().contains(k),
                s.env.len() == 1 ==> forall|k: StrId|
                    #![trigger self@.rooted[k]]
                    self@.rooted.dom().contains(k) ==> self@.rooted[k] == (if listed(
                        values@,
                        n as nat,
                        k,
                    ) && !s.env[0].dom().contains(k) {
                        at
                    } else {
                        s.rooted[k]
                    }),
                s.env.len() > 0 ==> self@.env == s.env.update(s.env.len() - 1, self@.env.last()),
                forall|j: int|
                    0 <= j < values@.len() ==> iface.values.dom().contains(
                        (#[trigger] values@[j]).0,
                    ) && values@[j].1 == iface.values[values@[j].0].binding,
                s.env.len() > 0 ==> forall|k: StrId|
                    #![trigger self@.env.last().dom().contains(k)]
                    self@.env.last().dom().contains(k) <==> s.env.last().dom().contains(k) || listed(
                        values@,
                        n as nat,
                        k,
                    ),
                s.env.len() > 0 ==> forall|k: StrId|
                    #![trigger self@.env.last()[k]]
                    self@.env.last().dom().contains(k) ==> self@.env.last()[k] == (if listed(
                        values@,
                        n as nat,
                        k,
                    ) {
                        iface.values[k].binding
                    } else {
                        s.env.last()[k]
                    }),
                forall|k: StrId| #[trigger]
                    self@.known.reserved.dom().contains(k) <==> t.known.reserved.dom().contains(k)
                        || (listed(values@, n as nat, k)
                        && iface.values[k].binding.kind is Constructor),
            decreases values.len() - n,
        {
            proof {
                reveal(Compiler::model);
            }
            let ghost before = self@;
            let (name, b): (StrId, Binding) = values[n];
            if let ValueKind::Constructor { .. } = b.kind {
                self.reserved.insert(name, ());
            }
            let ghost mid = self@;
            self.define_at(name, b, at);
            proof {
                assert forall|k: StrId| listed(values@, (n + 1) as nat, k) == (listed(
                    values@,
                    n as nat,
                    k,
                ) || k == name) by {
                    if k == name {
                        assert(values@[n as int].0 == k);
                    }
                }
                if s.env.len() > 0 {
                    assert(self@.env =~= s.env.update(s.env.len() - 1, self@.env.last()));
                    assert(self@.env.last() == before.env.last().insert(name, b));
                }
                assert(self@.known.reserved == mid.known.reserved);
                assert forall|k: StrId| #[trigger]
                    self@.known.reserved.dom().contains(k) <==> t.known.reserved.dom().contains(k)
                        || (listed(values@, (n + 1) as nat, k)
                        && iface.values[k].binding.kind is Constructor) by {
                    assert(before.known.reserved.dom().contains(k)
                        <==> t.known.reserved.dom().contains(k) || (listed(values@, n as nat, k)
                        && iface.values[k].binding.kind is Constructor));
                }
            }
            n = n + 1;
        }
        proof {
            reveal(State::adopt);
            assert forall|k: StrId| listed(values@, values@.len(), k)
                == iface.values.dom().contains(k) by {
                if iface.values.dom().contains(k) {
                    let j = choose|j: int| 0 <= j < values@.len() && (#[trigger] values@[j]).0 == k;
                    assert(values@[j].0 == k);
                }
            }
            assert(self@.known.reserved =~= s.adopt(key).known.reserved);
            if s.env.len() > 0 {
                assert(self@.env.last() =~= with_values(s.env.last(), iface.values));
            }
            assert(self@.env =~= s.adopt(key).env);
            assert(self@.rooted =~= s.adopt(key).rooted);
        }
    }

    /// The type in scope under a text.
    fn scope_type(&self, text: &str) -> (res: Option<ScopeType>)
        ensures
            res == self@.scope_type(text@),
    {
        proof {
            reveal(Compiler::model);
        }
        let name: StrId = match self.world.names.find(text) {
            Some(name) => name,
            None => {
                return None;
            },
        };
        match self.types.get(&name) {
            Some(id) => match self.infos.get(&id.0) {
                Some(info) => Some(ScopeType { id: *id, arity: info.arity }),
                None => None,
            },
            None => None,
        }
    }

    /// The value in scope under a text.
    fn scope_value(&self, text: &str) -> (res: Option<ScopeValue>)
        ensures
            res == self@.scope_value(text@),
    {
        let name: StrId = match self.world().names.find(text) {
            Some(name) => name,
            None => {
                return None;
            },
        };
        match self.lookup(name) {
            Some(b) => match b.kind {
                ValueKind::Constructor { type_id, variant_idx, arity, .. } => Some(
                    ScopeValue::Constructor { type_id, variant_idx, arity },
                ),
                _ => Some(ScopeValue::Other),
            },
            None => None,
        }
    }
}

/// Whether a name is among the first `n` of several bindings.
pub open spec fn listed(values: Seq<(StrId, Binding)>, n: nat, name: StrId) -> bool {
    exists|i: int| 0 <= i < n && (#[trigger] values[i]).0 == name
}

proof fn lemma_latest<T>(entries: Seq<(String, T)>, n: nat, name: Seq<char>)
    requires
        n <= entries.len(),
    ensures
        match latest(entries, n, name) {
            Some(v) => exists|i: int|
                0 <= i < n && (#[trigger] entries[i]).0@ == name && entries[i].1 == v,
            None => forall|i: int| 0 <= i < n ==> (#[trigger] entries[i]).0@ != name,
        },
    decreases n,
{
    if n > 0 && entries[n - 1].0@ != name {
        lemma_latest(entries, (n - 1) as nat, name);
    }
}

/// Whether every entry says what a state knows of its name.
spec fn truthful(scope: PreludeScope, s: State) -> bool {
    &&& forall|i: int|
        0 <= i < scope.types@.len() ==> s.scope_type((#[trigger] scope.types@[i]).0@) == Some(
            scope.types@[i].1,
        )
    &&& forall|i: int|
        0 <= i < scope.values@.len() ==> s.scope_value((#[trigger] scope.values@[i]).0@) == Some(
            scope.values@[i].1,
        )
}

/// Whether a type that is known has an entry.
spec fn has_type(scope: PreludeScope, s: State, t: PreludeType) -> bool {
    s.scope_type(type_name_of(t)@) is Some ==> exists|i: int|
        0 <= i < scope.types@.len() && (#[trigger] scope.types@[i]).0@ == type_name_of(t)@
}

/// Whether a constructor that is known has an entry.
spec fn has_ctor(scope: PreludeScope, s: State, c: PreludeCtor) -> bool {
    s.scope_value(ctor_name_of(c)@) is Some ==> exists|i: int|
        0 <= i < scope.values@.len() && (#[trigger] scope.values@[i]).0@ == ctor_name_of(c)@
}

proof fn lemma_scope_of(scope: PreludeScope, s: State)
    requires
        truthful(scope, s),
        forall|t: PreludeType| has_type(scope, s, t),
        forall|c: PreludeCtor| has_ctor(scope, s, c),
    ensures
        scope_of(scope, s),
{
    assert forall|t: PreludeType|
        latest(scope.types@, scope.types@.len(), #[trigger] type_name_of(t)@) == s.scope_type(
            type_name_of(t)@,
        ) by {
        assert(has_type(scope, s, t));
        lemma_latest(scope.types@, scope.types@.len(), type_name_of(t)@);
    }
    assert forall|c: PreludeCtor|
        latest(scope.values@, scope.values@.len(), #[trigger] ctor_name_of(c)@) == s.scope_value(
            ctor_name_of(c)@,
        ) by {
        assert(has_ctor(scope, s, c));
        lemma_latest(scope.values@, scope.values@.len(), ctor_name_of(c)@);
    }
}

impl Compiler {
    /// Enter a type of the prelude into a scope, if it is known.
    fn show_type(&self, scope: &mut PreludeScope, t: PreludeType)
        requires
            truthful(*old(scope), self@),
        ensures
            truthful(*final(scope), self@),
            has_type(*final(scope), self@, t),
            forall|u: PreludeType|
                has_type(*old(scope), self@, u) ==> has_type(*final(scope), self@, u),
            final(scope).values@ == old(scope).values@,
    {
        let ghost before = *scope;
        if let Some(info) = self.scope_type(t.name()) {
            scope.add_type(t.name(), info);
            proof {
                let n = before.types@.len() as int;
                assert forall|i: int| 0 <= i < n implies scope.types@[i] == before.types@[i] by {
                    assert(scope.types@.drop_last()[i] == before.types@[i]);
                }
                assert(scope.types@[n] == scope.types@.last());
                assert forall|i: int| 0 <= i < scope.types@.len() implies self@.scope_type(
                    (#[trigger] scope.types@[i]).0@,
                ) == Some(scope.types@[i].1) by {
                    if i < n {
                        assert(scope.types@[i] == before.types@[i]);
                        assert(self@.scope_type(before.types@[i].0@) == Some(before.types@[i].1));
                    }
                }
                assert forall|u: PreludeType| has_type(before, self@, u) implies has_type(
                    *scope,
                    self@,
                    u,
                ) by {
                    if self@.scope_type(type_name_of(u)@) is Some {
                        let i = choose|i: int|
                            0 <= i < before.types@.len() && (#[trigger] before.types@[i]).0@
                                == type_name_of(u)@;
                        assert(scope.types@[i].0@ == type_name_of(u)@);
                    }
                }
            }
        }
    }

    /// Enter a constructor of the prelude into a scope, if it is known.
    fn show_ctor(&self, scope: &mut PreludeScope, c: PreludeCtor)
        requires
            truthful(*old(scope), self@),
        ensures
            truthful(*final(scope), self@),
            has_ctor(*final(scope), self@, c),
            forall|u: PreludeCtor|
                has_ctor(*old(scope), self@, u) ==> has_ctor(*final(scope), self@, u),
            final(scope).types@ == old(scope).types@,
    {
        let ghost before = *scope;
        if let Some(v) = self.scope_value(c.name()) {
            scope.add_value(c.name(), v);
            proof {
                let n = before.values@.len() as int;
                assert forall|i: int| 0 <= i < n implies scope.values@[i] == before.values@[i] by {
                    assert(scope.values@.drop_last()[i] == before.values@[i]);
                }
                assert(scope.values@[n] == scope.values@.last());
                assert forall|i: int| 0 <= i < scope.values@.len() implies self@.scope_value(
                    (#[trigger] scope.values@[i]).0@,
                ) == Some(scope.values@[i].1) by {
                    if i < n {
                        assert(scope.values@[i] == before.values@[i]);
                        assert(self@.scope_value(before.values@[i].0@) == Some(
                            before.values@[i].1,
                        ));
                    }
                }
                assert forall|u: PreludeCtor| has_ctor(before, self@, u) implies has_ctor(
                    *scope,
                    self@,
                    u,
                ) by {
                    if self@.scope_value(ctor_name_of(u)@) is Some {
                        let i = choose|i: int|
                            0 <= i < before.values@.len() && (#[trigger] before.values@[i]).0@
                                == ctor_name_of(u)@;
                        assert(scope.values@[i].0@ == ctor_name_of(u)@);
                    }
                }
            }
        }
    }

    /// What is known of the prelude's names.
    fn prelude_scope(&self) -> (scope: PreludeScope)
        ensures
            scope_of(scope, self@),
    {
        let mut scope: PreludeScope = PreludeScope::new();
        self.show_type(&mut scope, PreludeType::Int);
        self.show_type(&mut scope, PreludeType::Float);
        self.show_type(&mut scope, PreludeType::String);
        self.show_type(&mut scope, PreludeType::Bool);
        self.show_type(&mut scope, PreludeType::Array);
        self.show_type(&mut scope, PreludeType::Binary);
        self.show_type(&mut scope, PreludeType::Nil);
        self.show_type(&mut scope, PreludeType::Option);
        self.show_type(&mut scope, PreludeType::Result);
        let ghost typed = scope;
        assert(forall|t: PreludeType| has_type(typed, self@, t));
        self.show_ctor(&mut scope, PreludeCtor::TrueCtor);
        self.show_ctor(&mut scope, PreludeCtor::FalseCtor);
        self.show_ctor(&mut scope, PreludeCtor::NilCtor);
        self.show_ctor(&mut scope, PreludeCtor::SomeCtor);
        self.show_ctor(&mut scope, PreludeCtor::NoneCtor);
        self.show_ctor(&mut scope, PreludeCtor::OkCtor);
        self.show_ctor(&mut scope, PreludeCtor::ErrCtor);
        proof {
            assert forall|t: PreludeType| has_type(scope, self@, t) by {
                assert(has_type(typed, self@, t));
            }
            lemma_scope_of(scope, self@);
        }
        scope
    }

    /// Settle the prelude's bindings.
    fn bind_prelude(&mut self, b: PreludeBindings)
        ensures
            final(self)@ == old(self)@.bind_prelude(b),
    {
        proof {
            reveal(Compiler::model);
            reveal(State::bind_prelude);
        }
        self.prelude = Some(b);
    }

    /// Load the prelude from source: its values are known everywhere without an
    /// import, the names of its types and constructors are reserved, and its
    /// bindings are captured. A prelude of another shape is reported.
    pub fn register_prelude(&mut self, sources: &Vec<Source>, key: StrId)
        requires
            all_fit(sources@),
        ensures
            prelude_from(sources@, key, old(self)@, final(self)@),
    {
        proof {
            reveal(prelude_from);
        }
        let at: Span = Span { start_line: 0, start_column: 0, end_line: 0, end_column: 0 };
        let mut loading: Vec<StrId> = Vec::new();
        assert(under_way(sources@, loading@));
        if !self.load_module(sources, &mut loading, key, at) || !self.is_loaded(key) {
            return;
        }
        self.adopt_prelude(key);
        let ghost u = self@;
        let scope: PreludeScope = self.prelude_scope();
        match PreludeBindings::capture(&scope) {
            Ok(b) => {
                self.bind_prelude(b);
                assert(scope_of(scope, u) && holds_scope(b, scope) && named(b) && self@
                    == u.bind_prelude(b));
            },
            Err(e) => {
                self.error(Message::Prelude { fault: e }, at);
                assert(scope_of(scope, u));
            },
        }
    }
}

// ---- a library compiled beforehand -----------------------------------------

/// What a standard library compiled beforehand brings: its program, the names of
/// its slots in the entry frame, its types, pools and modules, and the values known
/// without an import.
#[derive(Debug)]
pub struct Seed {
    pub program: Program,
    pub slots: Vec<StrId>,
    pub prelude: PreludeBindings,
    pub next_type_id: u32,
    pub types: Vec<(StrId, TypeId, TypeInfo)>,
    pub variants: Vec<VariantInfo>,
    pub labels: Vec<StrId>,
    pub values: Vec<(StrId, Binding)>,
    pub reserved: Vec<StrId>,
    pub modules: Vec<(StrId, ModuleInterface)>,
}

/// The names of the first `n` types added to those known.
pub open spec fn seed_types(m: Map<StrId, TypeId>, types: Seq<(StrId, TypeId, TypeInfo)>, n: nat) -> Map<
    StrId,
    TypeId,
>
    decreases n,
{
    if n == 0 {
        m
    } else {
        seed_types(m, types, (n - 1) as nat).insert(types[n - 1].0, types[n - 1].1)
    }
}

/// What is known of the first `n` types added to what is known.
pub open spec fn seed_infos(
    m: Map<u32, TypeInfo>,
    types: Seq<(StrId, TypeId, TypeInfo)>,
    n: nat,
) -> Map<u32, TypeInfo>
    decreases n,
{
    if n == 0 {
        m
    } else {
        seed_infos(m, types, (n - 1) as nat).insert(types[n - 1].1.0, types[n - 1].2)
    }
}

/// The first `n` names added to those reserved.
pub open spec fn seed_reserved(m: Map<StrId, ()>, names: Seq<StrId>, n: nat) -> Map<StrId, ()>
    decreases n,
{
    if n == 0 {
        m
    } else {
        seed_reserved(m, names, (n - 1) as nat).insert(names[n - 1], ())
    }
}

/// The first `n` modules added to those loaded.
pub open spec fn seed_modules(
    m: Map<StrId, Interface>,
    modules: Seq<(StrId, ModuleInterface)>,
    n: nat,
) -> Map<StrId, Interface>
    decreases n,
{
    if n == 0 {
        m
    } else {
        seed_modules(m, modules, (n - 1) as nat).insert(modules[n - 1].0, modules[n - 1].1@)
    }
}

impl State {
    /// Bind the first `n` slots of the entry frame.
    #[verifier::opaque]
    pub open spec fn seed_slots(self, slots: Seq<StrId>, n: nat) -> State
        decreases n,
    {
        if n == 0 {
            self
        } else {
            self.seed_slots(slots, (n - 1) as nat).bind(slots[n - 1], (n - 1) as i32)
        }
    }

    /// Define the first `n` values.
    #[verifier::opaque]
    pub open spec fn seed_values(self, values: Seq<(StrId, Binding)>, n: nat) -> State
        decreases n,
    {
        if n == 0 {
            self
        } else {
            self.seed_values(values, (n - 1) as nat).define(values[n - 1].0, values[n - 1].1)
        }
    }

    /// Take over everything of a seed but its slots and values.
    #[verifier::opaque]
    pub open spec fn seed_known(self, seed: Seed) -> State {
        State {
            out: Output {
                code: seed.program.code@,
                consts: const_views(seed.program.constants@),
                fns: fn_views(seed.program.functions@),
                ..self.out
            },
            loc: Locals { count: seed.slots@.len() as i32, ..self.loc },
            labels: seed.labels@,
            known: Known {
                types: seed_types(self.known.types, seed.types@, seed.types@.len()),
                infos: seed_infos(self.known.infos, seed.types@, seed.types@.len()),
                variants: seed.variants@,
                next: seed.next_type_id,
                prelude: Some(seed.prelude),
                reserved: seed_reserved(self.known.reserved, seed.reserved@, seed.reserved@.len()),
                modules: seed_modules(self.known.modules, seed.modules@, seed.modules@.len()),
                ..self.known
            },
            ..self
        }
    }

    /// Take over a seed.
    pub open spec fn seeded(self, seed: Seed) -> State {
        self.seed_known(seed).seed_slots(seed.slots@, seed.slots@.len()).seed_values(
            seed.values@,
            seed.values@.len(),
        )
    }
}

impl Compiler {
    fn seed_types(&mut self, types: &Vec<(StrId, TypeId, TypeInfo)>)
        ensures
            ({
                let (s, t) = (old(self)@, final(self)@);
                t == (State {
                    known: Known {
                        types: seed_types(s.known.types, types@, types@.len()),
                        infos: seed_infos(s.known.infos, types@, types@.len()),
                        ..s.known
                    },
                    ..s
                })
            }),
    {
        let ghost s = self@;
        let mut n: usize = 0;
        while n < types.len()
            invariant
                n <= types.len(),
                self@ == (State {
                    known: Known {
                        types: seed_types(s.known.types, types@, n as nat),
                        infos: seed_infos(s.known.infos, types@, n as nat),
                        ..s.known
                    },
                    ..s
                }),
            decreases types.len() - n,
        {
            proof {
                reveal(Compiler::model);
            }
            let (name, id, info): (StrId, TypeId, TypeInfo) = types[n];
            self.types.insert(name, id);
            self.infos.insert(id.0, info);
            n = n + 1;
        }
    }

    fn seed_reserved(&mut self, names: &Vec<StrId>)
        ensures
            ({
                let (s, t) = (old(self)@, final(self)@);
                t == (State {
                    known: Known {
                        reserved: seed_reserved(s.known.reserved, names@, names@.len()),
                        ..s.known
                    },
                    ..s
                })
            }),
    {
        let ghost s = self@;
        let mut n: usize = 0;
        while n < names.len()
            invariant
                n <= names.len(),
                self@ == (State {
                    known: Known {
                        reserved: seed_reserved(s.known.reserved, names@, n as nat),
                        ..s.known
                    },
                    ..s
                }),
            decreases names.len() - n,
        {
            proof {
                reveal(Compiler::model);
            }
            self.reserved.insert(names[n], ());
            n = n + 1;
        }
    }

    fn seed_modules(&mut self, modules: Vec<(StrId, ModuleInterface)>)
        ensures
            ({
                let (s, t) = (old(self)@, final(self)@);
                t == (State {
                    known: Known {
                        modules: seed_modules(s.known.modules, modules@, modules@.len()),
                        ..s.known
                    },
                    ..s
                })
            }),
    {
        let ghost s = self@;
        let ghost all = modules@;
        let mut modules: Vec<(StrId, ModuleInterface)> = modules;
        let len: usize = modules.len();
        let mut n: usize = 0;
        while n < len
            invariant
                n <= len,
                len == all.len(),
                modules@ == all.skip(n as int),
                self@ == (State {
                    known: Known {
                        modules: seed_modules(s.known.modules, all, n as nat),
                        ..s.known
                    },
                    ..s
                }),
            decreases len - n,
        {
            proof {
                reveal(Compiler::model);
            }
            let ghost before = self@;
            let (key, iface): (StrId, ModuleInterface) = modules.remove(0);
            self.modules.insert(key, iface);
            n = n + 1;
            proof {
                assert(modules@ =~= all.skip(n as int));
                assert(self@.known.modules =~= before.known.modules.insert(key, iface@));
            }
        }
    }

    /// Take over a standard library compiled beforehand. Nothing has been compiled
    /// yet.
    pub fn seed_static(&mut self, seed: Seed)
        ensures
            final(self)@ == old(self)@.seeded(seed),
    {
        let ghost s = self@;
        let ghost whole = seed;
        let Seed {
            program,
            slots,
            prelude,
            next_type_id,
            types,
            variants,
            labels,
            values,
            reserved,
            modules,
        } = seed;
        self.seed_types(&types);
        self.seed_reserved(&reserved);
        self.seed_modules(modules);
        proof {
            reveal(Compiler::model);
            reveal(State::seed_known);
            reveal(State::seed_slots);
            reveal(State::seed_values);
        }
        self.prelude = Some(prelude);
        self.next_type_id = next_type_id;
        self.variants = variants;
        self.labels = labels;
        self.program.code = program.code;
        self.program.functions = program.functions;
        self.program.constants = program.constants;
        self.local_count = slots.len() as i32;
        assert(self@ == s.seed_known(whole));
        let ghost t = self@;
        let mut n: usize = 0;
        while n < slots.len()
            invariant
                n <= slots.len(),
                self@ == t.seed_slots(slots@, n as nat),
            decreases slots.len() - n,
        {
            proof {
                reveal(State::seed_slots);
            }
            self.bind_local(slots[n], n as i32);
            n = n + 1;
        }
        let ghost u = self@;
        let mut k: usize = 0;
        while k < values.len()
            invariant
                k <= values.len(),
                self@ == u.seed_values(values@, k as nat),
            decreases values.len() - k,
        {
            proof {
                reveal(State::seed_values);
            }
            let (name, b): (StrId, Binding) = values[k];
            self.define(name, b);
            k = k + 1;
        }
    }
}

} // verus!

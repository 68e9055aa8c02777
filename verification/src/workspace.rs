//! What has been collected in all modules, for questions across them.
use crate::ast::StrId;
use crate::refs::{
    defid_at, defid_of, defined, DefId, Definition, DefinitionLocation, ModuleReferences,
    Occurrence, References,
};
use crate::state::{Compiler, Interface, ModuleInterface, State};
use crate::tables::{key_list, lists_keys};
use std::collections::HashMap;
use vstd::prelude::*;

verus! {

broadcast use vstd::std_specs::hash::group_hash_axioms;

/// The definitions and occurrences of the entry module and of all others by key.
#[derive(Debug)]
pub struct Workspace {
    pub main: ModuleReferences,
    pub modules: HashMap<StrId, ModuleReferences>,
    /// The modules that can be asked about, those without references among them.
    pub keys: HashMap<StrId, ()>,
}

/// Whether a module exports a value under a name whose declaration is known.
pub open spec fn exports_def(iface: Interface, name: StrId) -> bool {
    iface.values.dom().contains(name) && iface.values[name].binding.def is Some
}

/// Whether a list holds the declarations of a module's exported values, each once.
pub open spec fn lists_defs(defs: Seq<(StrId, DefinitionLocation)>, iface: Interface) -> bool {
    &&& forall|i: int|
        0 <= i < defs.len() ==> exports_def(iface, (#[trigger] defs[i]).0)
            && iface.values[defs[i].0].binding.def == Some(defs[i].1)
    &&& forall|i: int, j: int|
        0 <= i < j < defs.len() ==> (#[trigger] defs[i]).0 != (#[trigger] defs[j]).0
    &&& forall|name: StrId| #[trigger]
        exports_def(iface, name) ==> exists|i: int|
            0 <= i < defs.len() && (#[trigger] defs[i]).0 == name
}

/// The definitions that the first `n` declarations stand for. All are public.
pub open spec fn synthesised(defs: Seq<(StrId, DefinitionLocation)>, n: nat) -> Seq<Definition>
    decreases n,
{
    if n == 0 {
        Seq::empty()
    } else {
        defined(
            synthesised(defs, (n - 1) as nat),
            Definition {
                id: defid_at(defs[n - 1].1),
                name: defs[n - 1].0,
                doc: None,
                public: true,
                alias_of: None,
            },
        )
    }
}

/// Whether references are those made up for a module of which only the interface is
/// there. They belong to the module that its declarations name.
pub open spec fn made_up(refs: References, iface: Interface) -> bool {
    exists|defs: Seq<(StrId, DefinitionLocation)>| #[trigger]
        lists_defs(defs, iface) && defs.len() > 0 && refs == (References {
            module: defs[0].1.module,
            defs: synthesised(defs, defs.len()),
            occs: Seq::empty(),
            ctors: Seq::empty(),
            params: Seq::empty(),
        })
}

/// Whether nothing has been collected in a workspace.
pub open spec fn is_blank(w: Workspace, module: StrId) -> bool {
    &&& w.main@ == (References {
        module,
        defs: Seq::empty(),
        occs: Seq::empty(),
        ctors: Seq::empty(),
        params: Seq::empty(),
    })
    &&& w.modules@ == Map::<StrId, ModuleReferences>::empty()
    &&& w.keys@ == Map::<StrId, ()>::empty()
}

/// A workspace in which nothing has been collected.
pub fn blank_workspace(module: StrId) -> (w: Workspace)
    ensures
        is_blank(w, module),
{
    Workspace {
        main: ModuleReferences::new(module),
        modules: HashMap::new(),
        keys: HashMap::new(),
    }
}

/// Whether a workspace holds what has been collected in the current module and in
/// every loaded one, and what can be made up for the others.
#[verifier::opaque]
pub open spec fn workspace_of(w: Workspace, s: State) -> bool {
    &&& w.main@ == s.collected()
    &&& forall|key: StrId| #[trigger]
        w.keys@.dom().contains(key) <==> s.refs.met.dom().contains(key)
            || s.known.modules.dom().contains(key)
    &&& forall|key: StrId| #[trigger]
        w.modules@.dom().contains(key) <==> s.known.stored.dom().contains(key)
            || s.known.modules.dom().contains(key) && exists|name: StrId|
            exports_def(s.known.modules[key], name)
    &&& forall|key: StrId| #[trigger]
        w.modules@.dom().contains(key) ==> if s.known.stored.dom().contains(key) {
            w.modules@[key]@ == s.known.stored[key]
        } else {
            made_up(w.modules@[key]@, s.known.modules[key])
        }
}

/// A copy of references.
fn copy_refs(refs: &ModuleReferences) -> (res: ModuleReferences)
    ensures
        res@ == refs@,
{
    let mut definitions: Vec<Definition> = Vec::new();
    let mut n: usize = 0;
    while n < refs.definitions.len()
        invariant
            n <= refs.definitions.len(),
            definitions@ == refs.definitions@.take(n as int),
        decreases refs.definitions.len() - n,
    {
        definitions.push(refs.definitions[n]);
        n = n + 1;
        assert(definitions@ =~= refs.definitions@.take(n as int));
    }
    assert(definitions@ =~= refs.definitions@);
    let mut occurrences: Vec<Occurrence> = Vec::new();
    let mut k: usize = 0;
    while k < refs.occurrences.len()
        invariant
            k <= refs.occurrences.len(),
            occurrences@ == refs.occurrences@.take(k as int),
        decreases refs.occurrences.len() - k,
    {
        occurrences.push(refs.occurrences[k]);
        k = k + 1;
        assert(occurrences@ =~= refs.occurrences@.take(k as int));
    }
    assert(occurrences@ =~= refs.occurrences@);
    let mut ctors: Vec<(DefId, DefId)> = Vec::new();
    let mut m: usize = 0;
    while m < refs.ctors.len()
        invariant
            m <= refs.ctors.len(),
            ctors@ == refs.ctors@.take(m as int),
        decreases refs.ctors.len() - m,
    {
        ctors.push(refs.ctors[m]);
        m = m + 1;
        assert(ctors@ =~= refs.ctors@.take(m as int));
    }
    assert(ctors@ =~= refs.ctors@);
    let mut params: Vec<(DefId, StrId)> = Vec::new();
    let mut p: usize = 0;
    while p < refs.params.len()
        invariant
            p <= refs.params.len(),
            params@ == refs.params@.take(p as int),
        decreases refs.params.len() - p,
    {
        params.push(refs.params[p]);
        p = p + 1;
        assert(params@ =~= refs.params@.take(p as int));
    }
    assert(params@ =~= refs.params@);
    ModuleReferences { module: refs.module, definitions, occurrences, ctors, params }
}

/// The declarations of a module's exported values.
fn exported_defs(iface: &ModuleInterface) -> (defs: Vec<(StrId, DefinitionLocation)>)
    ensures
        lists_defs(defs@, iface@),
{
    let keys: Vec<StrId> = key_list(&iface.values);
    let mut defs: Vec<(StrId, DefinitionLocation)> = Vec::new();
    let mut n: usize = 0;
    while n < keys.len()
        invariant
            n <= keys.len(),
            lists_keys(keys@, iface.values@),
            forall|i: int|
                0 <= i < defs@.len() ==> exports_def(iface@, (#[trigger] defs@[i]).0)
                    && iface@.values[defs@[i].0].binding.def == Some(defs@[i].1),
            forall|i: int|
                0 <= i < defs@.len() ==> exists|k: int|
                    0 <= k < n && keys@[k] == (#[trigger] defs@[i]).0,
            forall|i: int, j: int|
                0 <= i < j < defs@.len() ==> (#[trigger] defs@[i]).0 != (#[trigger] defs@[j]).0,
            forall|k: int|
                0 <= k < n && exports_def(iface@, #[trigger] keys@[k]) ==> exists|i: int|
                    0 <= i < defs@.len() && (#[trigger] defs@[i]).0 == keys@[k],
        decreases keys.len() - n,
    {
        let ghost before = defs@;
        if let Some(ev) = iface.values.get(&keys[n]) {
            if let Some(dl) = ev.binding.def {
                defs.push((keys[n], dl));
                assert(defs@[before.len() as int].0 == keys@[n as int]);
            }
        }
        proof {
            assert forall|k: int|
                0 <= k < n + 1 && exports_def(iface@, #[trigger] keys@[k]) implies exists|i: int|
                0 <= i < defs@.len() && (#[trigger] defs@[i]).0 == keys@[k] by {
                if k < n {
                    let i = choose|i: int|
                        0 <= i < before.len() && (#[trigger] before[i]).0 == keys@[k];
                    assert(defs@[i].0 == keys@[k]);
                }
            }
        }
        n = n + 1;
    }
    proof {
        assert forall|name: StrId| #[trigger] exports_def(iface@, name) implies exists|i: int|
            0 <= i < defs@.len() && (#[trigger] defs@[i]).0 == name by {
            assert(keys@.contains(name));
            let k = choose|k: int| 0 <= k < keys@.len() && keys@[k] == name;
            assert(exports_def(iface@, keys@[k]));
        }
    }
    defs
}

/// Make up references for a module out of the declarations it exports. Without any
/// there is nothing to make up.
pub fn synth_refs_from_interface(defs: &Vec<(StrId, DefinitionLocation)>) -> (res: Option<
    ModuleReferences,
>)
    ensures
        match res {
            None => defs@.len() == 0,
            Some(refs) => defs@.len() > 0 && refs@ == (References {
                module: defs@[0].1.module,
                defs: synthesised(defs@, defs@.len()),
                occs: Seq::empty(),
                ctors: Seq::empty(),
                params: Seq::empty(),
            }),
        },
{
    if defs.len() == 0 {
        return None;
    }
    let mut refs: ModuleReferences = ModuleReferences::new(defs[0].1.module);
    let mut n: usize = 0;
    while n < defs.len()
        invariant
            n <= defs.len(),
            defs@.len() > 0,
            refs.module == defs@[0].1.module,
            refs.definitions@ == synthesised(defs@, n as nat),
            refs.occurrences@ == Seq::<Occurrence>::empty(),
            refs.ctors@ == Seq::<(DefId, DefId)>::empty(),
            refs.params@ == Seq::<(DefId, StrId)>::empty(),
        decreases defs.len() - n,
    {
        let (name, dl): (StrId, DefinitionLocation) = defs[n];
        refs.add_definition(
            Definition { id: defid_of(dl), name, doc: None, public: true, alias_of: None },
        );
        n = n + 1;
    }
    Some(refs)
}

/// Add keys to a table.
fn enter_keys(keys: &mut HashMap<StrId, ()>, list: &Vec<StrId>)
    ensures
        forall|key: StrId| #[trigger]
            final(keys)@.dom().contains(key) <==> old(keys)@.dom().contains(key)
                || list@.contains(key),
{
    let mut n: usize = 0;
    assert(list@.take(0) =~= Seq::empty());
    while n < list.len()
        invariant
            n <= list.len(),
            forall|key: StrId| #[trigger]
                keys@.dom().contains(key) <==> old(keys)@.dom().contains(key) || list@.take(
                    n as int,
                ).contains(key),
        decreases list.len() - n,
    {
        let ghost before = list@.take(n as int);
        keys.insert(list[n], ());
        n = n + 1;
        proof {
            assert(list@.take(n as int) =~= before.push(list@[n - 1]));
            assert forall|key: StrId| list@.take(n as int).contains(key) == (before.contains(key)
                || key == list@[n - 1]) by {
                let now = list@.take(n as int);
                if before.contains(key) {
                    let i = choose|i: int| 0 <= i < before.len() && before[i] == key;
                    assert(now[i] == key);
                }
                if key == list@[n - 1] {
                    assert(now[n - 1] == key);
                }
            }
        }
    }
    assert(list@.take(n as int) =~= list@);
}

/// Whether a module has references: collected ones, or some to make up.
spec fn has_refs(s: State, key: StrId) -> bool {
    s.known.stored.dom().contains(key) || s.known.modules.dom().contains(key)
        && exists|name: StrId| exports_def(s.known.modules[key], name)
}

/// Whether references are right for a module.
spec fn right_refs(refs: References, s: State, key: StrId) -> bool {
    if s.known.stored.dom().contains(key) {
        refs == s.known.stored[key]
    } else {
        made_up(refs, s.known.modules[key])
    }
}

impl Compiler {
    /// The references of a loaded module.
    fn module_references(&self, key: StrId) -> (res: Option<ModuleReferences>)
        ensures
            res is Some == has_refs(self@, key),
            res matches Some(refs) ==> right_refs(refs@, self@, key),
    {
        proof {
            reveal(Compiler::model);
        }
        if let Some(refs) = self.stored.get(&key) {
            return Some(copy_refs(refs));
        }
        match self.modules.get(&key) {
            None => None,
            Some(iface) => {
                let defs: Vec<(StrId, DefinitionLocation)> = exported_defs(iface);
                let res: Option<ModuleReferences> = synth_refs_from_interface(&defs);
                proof {
                    assert(self@.known.modules[key] == iface@);
                    if defs@.len() > 0 {
                        assert(exports_def(iface@, defs@[0].0));
                    }
                    assert(lists_defs(defs@, iface@));
                }
                res
            },
        }
    }

    /// Gather what has been collected in all modules. A module of which only the
    /// interface is there gets what its exports say.
    pub fn build_reference_graph(&self) -> (w: Workspace)
        ensures
            workspace_of(w, self@),
    {
        proof {
            reveal(workspace_of);
        }
        let mut modules: HashMap<StrId, ModuleReferences> = HashMap::new();
        let loaded: Vec<StrId> = key_list(&self.modules);
        let kept: Vec<StrId> = key_list(&self.stored);
        let ghost s = self@;
        proof {
            reveal(Compiler::model);
        }
        let mut n: usize = 0;
        while n < loaded.len()
            invariant
                n <= loaded.len(),
                self@ == s,
                forall|key: StrId| #[trigger]
                    modules@.dom().contains(key) ==> has_refs(s, key) && right_refs(
                        modules@[key]@,
                        s,
                        key,
                    ),
                forall|k: int|
                    0 <= k < n ==> (has_refs(s, #[trigger] loaded@[k])
                        ==> modules@.dom().contains(loaded@[k])),
            decreases loaded.len() - n,
        {
            if let Some(refs) = self.module_references(loaded[n]) {
                modules.insert(loaded[n], refs);
            }
            n = n + 1;
        }
        let mut k: usize = 0;
        while k < kept.len()
            invariant
                k <= kept.len(),
                self@ == s,
                forall|key: StrId| #[trigger]
                    modules@.dom().contains(key) ==> has_refs(s, key) && right_refs(
                        modules@[key]@,
                        s,
                        key,
                    ),
                forall|i: int|
                    0 <= i < loaded@.len() ==> (has_refs(s, #[trigger] loaded@[i])
                        ==> modules@.dom().contains(loaded@[i])),
                forall|i: int|
                    0 <= i < k ==> (has_refs(s, #[trigger] kept@[i]) ==> modules@.dom().contains(
                        kept@[i],
                    )),
            decreases kept.len() - k,
        {
            if let Some(refs) = self.module_references(kept[k]) {
                modules.insert(kept[k], refs);
            }
            k = k + 1;
        }
        let main: ModuleReferences = copy_refs(&self.module_refs);
        let met: Vec<StrId> = key_list(&self.met);
        let mut keys: HashMap<StrId, ()> = HashMap::new();
        enter_keys(&mut keys, &met);
        enter_keys(&mut keys, &loaded);
        let w: Workspace = Workspace { main, modules, keys };
        proof {
            assert forall|key: StrId| #[trigger] w.keys@.dom().contains(key)
                == (s.refs.met.dom().contains(key) || s.known.modules.dom().contains(key)) by {
                assert(met@.contains(key) == s.refs.met.dom().contains(key));
                assert(loaded@.contains(key) == s.known.modules.dom().contains(key));
            }
            assert forall|key: StrId| has_refs(s, key) implies #[trigger] w.modules@.dom().contains(
                key,
            ) by {
                if s.known.stored.dom().contains(key) {
                    assert(kept@.contains(key));
                    let i = choose|i: int| 0 <= i < kept@.len() && kept@[i] == key;
                    assert(has_refs(s, kept@[i]));
                } else {
                    assert(loaded@.contains(key));
                    let i = choose|i: int| 0 <= i < loaded@.len() && loaded@[i] == key;
                    assert(has_refs(s, loaded@[i]));
                }
            }
        }
        w
    }
}

} // verus!

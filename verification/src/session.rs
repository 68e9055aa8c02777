//! Checking a program again and again, recompiling only what changed.
//!
//! A session keeps the modules it has compiled. Before each check it forgets those
//! that changed and everything compiled after them, winds the compiler back to
//! where the first of them began, and goes on from there.
use crate::ast::{Expr, Span, StrId};
use crate::boot::{new_compiler, starts, Seed};
use crate::decls::analysed;
use crate::diag::any_error;
use crate::entry::{entry_fits, entry_module, reports_of, CompileResult, Report};
use crate::gen::expr;
use crate::growth::{adds, loads};
use crate::landing::lands_but;
use crate::loader::{all_fit, imports, under_way, Source};
use crate::op::Program;
use crate::quiet::lemma_entry;
use crate::refs::{narrower, span_contains, span_narrower, within, ModuleReferences};
use crate::scopes::begins_with;
use crate::state::{
    entry_of, references, unwound, Binding, Compiler, Interface, Known, LocalSlot, Locals, Origin,
    Output, Refs, Sighting, State, TypeInfo, Watermark, World,
};
use crate::tables::{key_list, lists_keys};
use crate::workspace::{blank_workspace, is_blank, workspace_of, Workspace};
use std::collections::HashMap;
use vstd::prelude::*;

verus! {

broadcast use vstd::std_specs::hash::group_hash_axioms;

/// The first `n` entries of a list, or all.
pub open spec fn cut<T>(s: Seq<T>, n: nat) -> Seq<T> {
    if n < s.len() {
        s.take(n as int)
    } else {
        s
    }
}

/// The locals in slots below `count`, bound outside all blocks.
pub open spec fn kept_locals(map: Map<StrId, LocalSlot>, count: i32) -> Map<StrId, LocalSlot> {
    Map::new(
        |k: StrId| map.dom().contains(k) && map[k].slot < count,
        |k: StrId| LocalSlot { slot: map[k].slot, depth: 0 },
    )
}

/// The names that came to the outermost scope behind fewer than `n` others.
pub open spec fn kept_roots(rooted: Map<StrId, usize>, n: usize) -> Map<StrId, usize> {
    Map::new(
        |k: StrId| rooted.dom().contains(k) && rooted[k] < n,
        |k: StrId| rooted[k],
    )
}

/// The outermost scope alone, without the names that came to it behind `n` others or more.
/// A name that was there keeps what it was last bound to.
pub open spec fn root_only(
    env: Seq<Map<StrId, Binding>>,
    rooted: Map<StrId, usize>,
    n: usize,
) -> Seq<Map<StrId, Binding>> {
    if env.len() == 0 {
        env
    } else {
        seq![
            Map::new(
                |k: StrId|
                    env[0].dom().contains(k) && !(rooted.dom().contains(k) && rooted[k] >= n),
                |k: StrId| env[0][k],
            ),
        ]
    }
}

/// What is known of the types without those declared behind the first `n`.
pub open spec fn without(infos: Map<u32, TypeInfo>, ids: Seq<u32>, n: nat) -> Map<u32, TypeInfo>
    decreases ids.len(),
{
    if ids.len() <= n {
        infos
    } else {
        without(infos.remove(ids.last()), ids.drop_last(), n)
    }
}

impl State {
    /// Wind back to a watermark: what has been produced and bound since is gone,
    /// and nothing is under way. The modules are left as they are. A scope for the
    /// next round is laid over the outermost one.
    #[verifier::opaque]
    pub open spec fn reset(self, w: Watermark) -> State {
        State {
            out: Output {
                code: cut(self.out.code, w.code as nat),
                consts: cut(self.out.consts, w.constants as nat),
                fns: cut(self.out.fns, w.functions as nat),
                ..self.out
            },
            loc: Locals {
                map: kept_locals(self.loc.map, w.local_count),
                undo: Seq::empty(),
                marks: Seq::empty(),
                outer: Seq::empty(),
                count: w.local_count,
                captures: Map::empty(),
                capture_names: Seq::empty(),
                binding: None,
                tail: false,
                ..self.loc
            },
            refs: Refs {
                module: self.world.main,
                defs: Seq::empty(),
                occs: Seq::empty(),
                ctors: Seq::empty(),
                params: Seq::empty(),
                seen: Seq::empty(),
                owner: None,
                current: self.world.main,
                ..self.refs
            },
            env: root_only(self.env, self.rooted, w.root).push(Map::empty()),
            rooted: kept_roots(self.rooted, w.root),
            unused: Seq::empty(),
            labels: cut(self.labels, w.labels as nat),
            diags: cut(self.diags, w.diagnostics as nat),
            known: Known {
                types: unwound(self.known.types, self.known.log, w.type_log as nat),
                log: cut(self.known.log, w.type_log as nat),
                infos: without(self.known.infos, self.known.ids, w.infos as nat),
                ids: cut(self.known.ids, w.infos as nat),
                variants: cut(self.known.variants, w.variants as nat),
                fields: cut(self.known.fields, w.fields as nat),
                next: w.next_type_id,
                qualifiers: Map::empty(),
                ..self.known
            },
            world: self.world,
        }
    }

    /// Whether a module of the user began at a stamp or after it.
    pub open spec fn began_since(self, key: StrId, stamp: u32) -> bool {
        self.known.marks.dom().contains(key) && self.known.marks[key].stamp >= stamp
    }

    /// Forget the modules that began at a stamp or after it.
    #[verifier::opaque]
    pub open spec fn forget(self, stamp: u32) -> State {
        State {
            known: Known {
                modules: self.known.modules.restrict(
                    Set::new(|k: StrId| !self.began_since(k, stamp)),
                ),
                stored: self.known.stored.restrict(
                    Set::new(|k: StrId| !self.began_since(k, stamp)),
                ),
                marks: self.known.marks.restrict(
                    Set::new(|k: StrId| !self.began_since(k, stamp)),
                ),
                ..self.known
            },
            ..self
        }
    }

    /// Let every module reserve its identities anew.
    #[verifier::opaque]
    pub open spec fn clear_ids(self) -> State {
        State {
            known: Known { bases: Map::empty(), high: 0, spilled: false, ..self.known },
            ..self
        }
    }

    /// Begin again from a point with every module of the user forgotten.
    pub open spec fn start_over(self, w: Watermark) -> State {
        self.forget(0).clear_ids().reset(w)
    }

    /// Forget a module that changed, and everything compiled after it began. Its
    /// importers are among that, since each began later.
    pub open spec fn invalidate(self, key: StrId) -> State {
        if self.known.marks.dom().contains(key) {
            self.forget(self.known.marks[key].stamp)
        } else {
            self
        }
    }
}

/// The earlier of two points.
pub open spec fn earlier(a: Watermark, b: Watermark) -> Watermark {
    if b.stamp < a.stamp {
        b
    } else {
        a
    }
}

/// Whether a point is where the first of the modules began.
pub open spec fn is_earliest(marks: Map<StrId, Watermark>, w: Watermark) -> bool {
    &&& exists|k: StrId| #[trigger] marks.dom().contains(k) && marks[k] == w
    &&& forall|k: StrId| #[trigger] marks.dom().contains(k) ==> w.stamp <= marks[k].stamp
}

/// The later of two points.
pub open spec fn later(a: Watermark, b: Watermark) -> Watermark {
    if b.stamp > a.stamp {
        b
    } else {
        a
    }
}

/// A session under way: its state, and the point to wind back to.
pub struct Floor {
    pub s: State,
    pub at: Watermark,
}

/// Forget the first `n` modules that changed. The point to wind back to is the
/// earliest of those where they began.
pub open spec fn invalidated(dirty: Seq<StrId>, n: nat, f: Floor) -> Floor
    decreases n,
{
    if n == 0 {
        f
    } else {
        let g = invalidated(dirty, (n - 1) as nat, f);
        let key = dirty[n - 1];
        Floor {
            s: g.s.invalidate(key),
            at: if g.s.known.marks.dom().contains(key) {
                earlier(g.at, g.s.known.marks[key])
            } else {
                g.at
            },
        }
    }
}

fn earlier_mark(a: Watermark, b: Watermark) -> (w: Watermark)
    ensures
        w == earlier(a, b),
{
    if b.stamp < a.stamp {
        b
    } else {
        a
    }
}

fn later_mark(a: Watermark, b: Watermark) -> (w: Watermark)
    ensures
        w == later(a, b),
{
    if b.stamp > a.stamp {
        b
    } else {
        a
    }
}

impl Compiler {
    /// Go back to the outermost scope, with the names that came to it behind fewer than `n`
    /// others.
    fn keep_roots(&mut self, n: usize)
        ensures
            final(self)@ == (State {
                env: root_only(old(self)@.env, old(self)@.rooted, n),
                rooted: kept_roots(old(self)@.rooted, n),
                ..old(self)@
            }),
    {
        let ghost s = self@;
        proof {
            reveal(Compiler::model);
        }
        self.env.truncate(1);
        let keys: Vec<StrId> = key_list(&self.rooted);
        let mut i: usize = 0;
        while i < keys.len()
            invariant
                i <= keys.len(),
                lists_keys(keys@, s.rooted),
                self@ == (State { env: self@.env, rooted: self@.rooted, ..s }),
                self@.env.len() == (if s.env.len() == 0 {
                    0
                } else {
                    1int
                }),
                forall|k: StrId| #[trigger]
                    self@.rooted.dom().contains(k) <==> s.rooted.dom().contains(k) && !(
                    s.rooted[k] >= n && keys@.take(i as int).contains(k)),
                forall|k: StrId|
                    #![trigger self@.rooted[k]]
                    self@.rooted.dom().contains(k) ==> self@.rooted[k] == s.rooted[k],
                s.env.len() > 0 ==> forall|k: StrId| #[trigger]
                    self@.env[0].dom().contains(k) <==> s.env[0].dom().contains(k) && !(
                    s.rooted.dom().contains(k) && s.rooted[k] >= n && keys@.take(
                        i as int,
                    ).contains(k)),
                s.env.len() > 0 ==> forall|k: StrId|
                    #![trigger self@.env[0][k]]
                    self@.env[0].dom().contains(k) ==> self@.env[0][k] == s.env[0][k],
            decreases keys.len() - i,
        {
            let ghost before = self@;
            proof {
                reveal(Compiler::model);
                assert(keys@.contains(keys@[i as int]));
                let (a, b) = (keys@.take(i as int), keys@.take(i + 1));
                assert(b =~= a.push(keys@[i as int]));
                assert forall|k: StrId| #[trigger] b.contains(k) == (a.contains(k) || k
                    == keys@[i as int]) by {
                    if k == keys@[i as int] {
                        assert(b[i as int] == k);
                    }
                    if a.contains(k) {
                        let j = choose|j: int| 0 <= j < a.len() && a[j] == k;
                        assert(b[j] == k);
                    }
                }
                if before.rooted.dom().contains(keys@[i as int]) {
                    assert(before.rooted[keys@[i as int]] == s.rooted[keys@[i as int]]);
                }
            }
            let name: StrId = keys[i];
            let late: bool = match self.rooted.get(&name) {
                Some(at) => *at >= n,
                None => false,
            };
            if late {
                self.rooted.remove(&name);
                if self.env.len() > 0 {
                    assert(self@.env[0] == self.env@[0]@);
                    self.env[0].remove(&name);
                    assert(self@.env[0] == before.env[0].remove(name));
                }
            }
            i = i + 1;
        }
        proof {
            assert(keys@.take(i as int) =~= keys@);
            assert(self@.rooted =~= kept_roots(s.rooted, n));
            if s.env.len() > 0 {
                assert(self@.env[0] =~= root_only(s.env, s.rooted, n)[0]);
            }
            assert(self@.env =~= root_only(s.env, s.rooted, n));
        }
    }

    fn keep_locals(&mut self, count: i32)
        ensures
            ({
                let (s, t) = (old(self)@, final(self)@);
                t == (State {
                    loc: Locals { map: kept_locals(s.loc.map, count), ..s.loc },
                    ..s
                })
            }),
    {
        let keys: Vec<StrId> = key_list(&self.locals);
        let ghost s = self@;
        proof {
            reveal(Compiler::model);
            assert forall|i: int| 0 <= i < keys@.len() implies s.loc.map.dom().contains(
                #[trigger] keys@[i],
            ) by {
                assert(keys@.contains(keys@[i]));
            }
        }
        let mut n: usize = 0;
        while n < keys.len()
            invariant
                n <= keys.len(),
                lists_keys(keys@, s.loc.map),
                self@ == (State { loc: Locals { map: self@.loc.map, ..s.loc }, ..s }),
                forall|k: StrId| #[trigger]
                    self@.loc.map.dom().contains(k) ==> s.loc.map.dom().contains(k),
                forall|i: int|
                    n <= i < keys@.len() ==> self@.loc.map.dom().contains(#[trigger] keys@[i])
                        && self@.loc.map[keys@[i]] == s.loc.map[keys@[i]],
                forall|i: int|
                    0 <= i < n ==> (self@.loc.map.dom().contains(#[trigger] keys@[i])
                        == kept_locals(s.loc.map, count).dom().contains(keys@[i])) && (
                    self@.loc.map.dom().contains(keys@[i]) ==> self@.loc.map[keys@[i]]
                        == kept_locals(s.loc.map, count)[keys@[i]]),
            decreases keys.len() - n,
        {
            proof {
                reveal(Compiler::model);
                assert(keys@.contains(keys@[n as int]));
            }
            let name: StrId = keys[n];
            let slot: i32 = match self.locals.get(&name) {
                Some(e) => e.slot,
                None => count,
            };
            if slot < count {
                self.locals.insert(name, LocalSlot { slot, depth: 0 });
            } else {
                self.locals.remove(&name);
            }
            n = n + 1;
        }
        proof {
            reveal(Compiler::model);
            assert forall|k: StrId| self@.loc.map.dom().contains(k) == kept_locals(
                s.loc.map,
                count,
            ).dom().contains(k) by {
                if s.loc.map.dom().contains(k) {
                    assert(keys@.contains(k));
                    let i = choose|i: int| 0 <= i < keys@.len() && keys@[i] == k;
                    assert(self@.loc.map.dom().contains(keys@[i]) == kept_locals(
                        s.loc.map,
                        count,
                    ).dom().contains(keys@[i]));
                }
            }
            assert forall|k: StrId| self@.loc.map.dom().contains(k) implies self@.loc.map[k]
                == kept_locals(s.loc.map, count)[k] by {
                assert(s.loc.map.dom().contains(k));
                assert(keys@.contains(k));
                let i = choose|i: int| 0 <= i < keys@.len() && keys@[i] == k;
                assert(self@.loc.map.dom().contains(keys@[i]));
            }
            assert(self@.loc.map =~= kept_locals(s.loc.map, count));
        }
    }

    fn forget_infos(&mut self, mark: usize)
        ensures
            ({
                let (s, t) = (old(self)@, final(self)@);
                t == (State {
                    known: Known {
                        infos: without(s.known.infos, s.known.ids, mark as nat),
                        ids: cut(s.known.ids, mark as nat),
                        ..s.known
                    },
                    ..s
                })
            }),
    {
        let ghost s = self@;
        proof {
            reveal(Compiler::model);
        }
        while self.info_ids.len() > mark
            invariant
                self@ == (State {
                    known: Known { infos: self@.known.infos, ids: self@.known.ids, ..s.known },
                    ..s
                }),
                without(self@.known.infos, self@.known.ids, mark as nat) == without(
                    s.known.infos,
                    s.known.ids,
                    mark as nat,
                ),
                self@.known.ids.len() <= s.known.ids.len(),
                self@.known.ids == s.known.ids.take(self@.known.ids.len() as int),
                self@.known.ids.len() >= mark || self@.known.ids == s.known.ids,
                self.info_ids@ == self@.known.ids,
            decreases self.info_ids.len(),
        {
            proof {
                reveal(Compiler::model);
            }
            let ghost before = self@;
            if let Some(id) = self.info_ids.pop() {
                self.infos.remove(&id);
                assert(self@.known.ids =~= before.known.ids.drop_last());
                assert(self@.known.ids =~= s.known.ids.take(self@.known.ids.len() as int));
            }
        }
        proof {
            reveal(Compiler::model);
            assert(self@.known.ids =~= cut(s.known.ids, mark as nat));
        }
    }

    fn unwind_types(&mut self, mark: usize)
        ensures
            ({
                let (s, t) = (old(self)@, final(self)@);
                t == (State {
                    known: Known {
                        types: unwound(s.known.types, s.known.log, mark as nat),
                        log: cut(s.known.log, mark as nat),
                        ..s.known
                    },
                    ..s
                })
            }),
    {
        let ghost s = self@;
        proof {
            reveal(Compiler::model);
            assert(s.known.log.take(s.known.log.len() as int) =~= s.known.log);
        }
        while self.type_log.len() > mark
            invariant
                self@ == (State {
                    known: Known { types: self@.known.types, log: self@.known.log, ..s.known },
                    ..s
                }),
                unwound(self@.known.types, self@.known.log, mark as nat) == unwound(
                    s.known.types,
                    s.known.log,
                    mark as nat,
                ),
                self@.known.log == s.known.log.take(self@.known.log.len() as int),
                self@.known.log.len() <= s.known.log.len(),
                self@.known.log.len() >= mark || self@.known.log == s.known.log,
                self.type_log@ == self@.known.log,
            decreases self.type_log.len(),
        {
            proof {
                reveal(Compiler::model);
            }
            let ghost before = self@;
            if let Some((name, prev)) = self.type_log.pop() {
                match prev {
                    Some(id) => {
                        self.types.insert(name, id);
                    },
                    None => {
                        self.types.remove(&name);
                    },
                }
                assert(self@.known.log =~= before.known.log.drop_last());
                assert(self@.known.log =~= s.known.log.take(self@.known.log.len() as int));
            }
        }
        proof {
            reveal(Compiler::model);
            assert(self@.known.log =~= cut(s.known.log, mark as nat));
        }
    }

    /// Wind back to a watermark.
    pub fn reset_to(&mut self, w: &Watermark)
        ensures
            final(self)@ == old(self)@.reset(*w),
    {
        let ghost s = self@;
        self.keep_locals(w.local_count);
        self.forget_infos(w.infos);
        self.unwind_types(w.type_log);
        self.keep_roots(w.root);
        proof {
            reveal(Compiler::model);
            reveal(State::reset);
        }
        self.env.push(HashMap::new());
        self.program.code.truncate(w.code);
        self.program.functions.truncate(w.functions);
        self.program.constants.truncate(w.constants);
        self.local_count = w.local_count;
        self.undo_log.clear();
        self.scope_marks.clear();
        self.unused.clear();
        self.outer_scopes.clear();
        self.captures.clear();
        self.capture_names.clear();
        self.current_binding = None;
        self.in_tail_position = false;
        self.current_owner = None;
        self.labels.truncate(w.labels);
        self.diagnostics.truncate(w.diagnostics);
        self.variants.truncate(w.variants);
        self.field_defs.truncate(w.fields);
        self.next_type_id = w.next_type_id;
        self.qualifiers.clear();
        self.module_refs = ModuleReferences::new(self.world.main);
        self.recorded.clear();
        self.current_module = self.world.main;
        proof {
            let t = s.reset(*w);
            assert(self@.env =~= t.env);
            assert(self@.out.code =~= t.out.code);
            assert(self@.out.fns =~= t.out.fns);
            assert(self@.out.consts =~= t.out.consts);
            assert(self@.labels =~= t.labels);
            assert(self@.diags =~= t.diags);
            assert(self@.known.variants =~= t.known.variants);
            assert(self@.known.fields =~= t.known.fields);
            assert(self@.unused =~= t.unused);
            assert(self@.loc.outer =~= t.loc.outer);
            assert(self@.loc.marks =~= t.loc.marks);
        }
    }

    /// Forget the modules that began at a stamp or after it.
    fn forget(&mut self, stamp: u32)
        ensures
            final(self)@ == old(self)@.forget(stamp),
    {
        let keys: Vec<StrId> = key_list(&self.marks);
        let ghost s = self@;
        proof {
            reveal(Compiler::model);
            reveal(State::forget);
        }
        let mut n: usize = 0;
        while n < keys.len()
            invariant
                n <= keys.len(),
                lists_keys(keys@, s.known.marks),
                self@ == (State {
                    known: Known {
                        modules: self@.known.modules,
                        stored: self@.known.stored,
                        marks: self@.known.marks,
                        ..s.known
                    },
                    ..s
                }),
                forall|k: StrId| #[trigger]
                    gone(s, keys@, n as nat, stamp, k) == (s.began_since(k, stamp) && keys@.take(
                        n as int,
                    ).contains(k)),
                forall|k: StrId| #[trigger]
                    self@.known.modules.dom().contains(k) == (s.known.modules.dom().contains(k)
                        && !gone(s, keys@, n as nat, stamp, k)),
                forall|k: StrId| #[trigger]
                    self@.known.stored.dom().contains(k) == (s.known.stored.dom().contains(k)
                        && !gone(s, keys@, n as nat, stamp, k)),
                forall|k: StrId| #[trigger]
                    self@.known.marks.dom().contains(k) == (s.known.marks.dom().contains(k)
                        && !gone(s, keys@, n as nat, stamp, k)),
                forall|k: StrId| #[trigger]
                    self@.known.modules.dom().contains(k) ==> self@.known.modules[k]
                        == s.known.modules[k],
                forall|k: StrId| #[trigger]
                    self@.known.stored.dom().contains(k) ==> self@.known.stored[k]
                        == s.known.stored[k],
                forall|k: StrId| #[trigger]
                    self@.known.marks.dom().contains(k) ==> self@.known.marks[k]
                        == s.known.marks[k],
            decreases keys.len() - n,
        {
            proof {
                reveal(Compiler::model);
                assert(keys@.contains(keys@[n as int]));
                assert(keys@.take(n + 1) =~= keys@.take(n as int).push(keys@[n as int]));
                assert forall|k: StrId| #[trigger]
                    keys@.take(n + 1).contains(k) == (keys@.take(n as int).contains(k) || k
                        == keys@[n as int]) by {
                    if k == keys@[n as int] {
                        assert(keys@.take(n + 1)[n as int] == k);
                    }
                    if keys@.take(n as int).contains(k) {
                        let i = keys@.take(n as int).index_of(k);
                        assert(keys@.take(n + 1)[i] == k);
                    }
                }
                assert(!keys@.take(n as int).contains(keys@[n as int]));
            }
            let ghost before = self@;
            let key: StrId = keys[n];
            let since: bool = match self.marks.get(&key) {
                Some(w) => w.stamp >= stamp,
                None => false,
            };
            assert(since == s.began_since(key, stamp)) by {
                assert(before.known.marks.dom().contains(key) == (s.known.marks.dom().contains(key)
                    && !gone(s, keys@, n as nat, stamp, key)));
            }
            if since {
                self.modules.remove(&key);
                self.stored.remove(&key);
                self.marks.remove(&key);
                assert(self@.known.modules =~= before.known.modules.remove(key));
                assert(self@.known.stored =~= before.known.stored.remove(key));
            }
            n = n + 1;
        }
        proof {
            reveal(Compiler::model);
            reveal(State::forget);
            assert(keys@.take(n as int) =~= keys@);
            assert forall|k: StrId| gone(s, keys@, n as nat, stamp, k) == s.began_since(k, stamp) by {
                if s.began_since(k, stamp) {
                    assert(keys@.contains(k));
                }
            }
            let t = s.forget(stamp);
            assert(self@.known.modules =~= t.known.modules);
            assert(self@.known.stored =~= t.known.stored);
            assert(self@.known.marks =~= t.known.marks);
        }
    }

    /// Let every module reserve its identities anew.
    fn reset_id_bases(&mut self)
        ensures
            final(self)@ == old(self)@.clear_ids(),
    {
        proof {
            reveal(Compiler::model);
            reveal(State::clear_ids);
        }
        self.id_bases.clear();
        self.id_high_water = 0;
        self.id_range_overflow = false;
    }

    /// Whether a module has outgrown the identities it had reserved.
    fn has_spilled(&self) -> (res: bool)
        ensures
            res == self@.known.spilled,
    {
        proof {
            reveal(Compiler::model);
        }
        self.id_range_overflow
    }

    /// Forget every module of the user. Returns where the first of them began.
    fn invalidate_all(&mut self) -> (first: Option<Watermark>)
        ensures
            final(self)@ == old(self)@.forget(0),
            match first {
                Some(w) => is_earliest(old(self)@.known.marks, w),
                None => forall|k: StrId| !(#[trigger] old(self)@.known.marks.dom().contains(k)),
            },
    {
        let keys: Vec<StrId> = key_list(&self.marks);
        let mut first: Option<Watermark> = None;
        let ghost marks = self@.known.marks;
        proof {
            reveal(Compiler::model);
        }
        let mut n: usize = 0;
        while n < keys.len()
            invariant
                n <= keys.len(),
                lists_keys(keys@, marks),
                self.marks@ == marks,
                match first {
                    Some(w) => (exists|k: StrId| #[trigger] marks.dom().contains(k) && marks[k]
                        == w) && forall|i: int|
                        0 <= i < n ==> w.stamp <= marks[#[trigger] keys@[i]].stamp,
                    None => n == 0,
                },
            decreases keys.len() - n,
        {
            assert(keys@.contains(keys@[n as int]));
            if let Some(w) = self.marks.get(&keys[n]) {
                first = match first {
                    Some(f) => if w.stamp < f.stamp {
                        Some(*w)
                    } else {
                        Some(f)
                    },
                    None => Some(*w),
                };
            }
            n = n + 1;
        }
        proof {
            assert forall|k: StrId| #[trigger] marks.dom().contains(k) implies (first matches Some(
                w,
            ) && w.stamp <= marks[k].stamp) by {
                assert(keys@.contains(k));
                let i = choose|i: int| 0 <= i < keys@.len() && keys@[i] == k;
                assert(keys@[i] == k);
            }
        }
        self.forget(0);
        first
    }

    /// Forget a module that changed, and everything compiled after it began.
    /// Returns where it began, if it is one of the user's.
    pub fn invalidate(&mut self, key: StrId) -> (mark: Option<Watermark>)
        ensures
            final(self)@ == old(self)@.invalidate(key),
            mark == (if old(self)@.known.marks.dom().contains(key) {
                Some(old(self)@.known.marks[key])
            } else {
                None
            }),
    {
        proof {
            reveal(Compiler::model);
        }
        let mark: Option<Watermark> = match self.marks.get(&key) {
            Some(w) => Some(*w),
            None => None,
        };
        if let Some(w) = mark {
            self.forget(w.stamp);
        }
        mark
    }
}

/// Whether a module is among the first `n` keys and began at a stamp or after it.
spec fn gone(s: State, keys: Seq<StrId>, n: nat, stamp: u32, key: StrId) -> bool {
    s.began_since(key, stamp) && keys.take(n as int).contains(key)
}

// ---- the session -----------------------------------------------------------

/// What inference found at some place: the type in words.
#[derive(Debug, Clone, Copy, PartialEq, Eq, Structural)]
pub struct TypeNote {
    pub module: StrId,
    pub span: Span,
    pub ty: StrId,
}

/// A name that stands at some place, with its type in words.
#[derive(Debug, Clone, Copy, PartialEq, Eq, Structural)]
pub struct HoverFact {
    pub module: StrId,
    pub span: Span,
    /// The type that a field or a constructor belongs to.
    pub qualifier: Option<StrId>,
    pub name: StrId,
    pub ty: StrId,
    pub doc: Option<StrId>,
}

/// The first of the notes from `i` on that is of a place.
pub open spec fn note_at(notes: Seq<TypeNote>, i: nat, module: StrId, span: Span) -> Option<
    TypeNote,
>
    decreases notes.len() - i,
{
    if i >= notes.len() {
        None
    } else if notes[i as int].module == module && notes[i as int].span == span {
        Some(notes[i as int])
    } else {
        note_at(notes, i + 1, module, span)
    }
}

/// What can be shown of the first `n` names: those of whose places there is a note.
pub open spec fn facts_of(seen: Seq<Sighting>, notes: Seq<TypeNote>, n: nat) -> Seq<HoverFact>
    decreases n,
{
    if n == 0 {
        Seq::empty()
    } else {
        let before = facts_of(seen, notes, (n - 1) as nat);
        let x = seen[n - 1];
        match note_at(notes, 0, x.module, x.span) {
            Some(t) => before.push(
                HoverFact {
                    module: x.module,
                    span: x.span,
                    qualifier: x.qualifier,
                    name: x.name,
                    ty: t.ty,
                    doc: x.doc,
                },
            ),
            None => before,
        }
    }
}

fn find_note(notes: &Vec<TypeNote>, module: StrId, span: Span) -> (res: Option<TypeNote>)
    ensures
        res == note_at(notes@, 0, module, span),
{
    let mut i: usize = 0;
    while i < notes.len()
        invariant
            i <= notes.len(),
            note_at(notes@, 0, module, span) == note_at(notes@, i as nat, module, span),
        decreases notes.len() - i,
    {
        if notes[i].module == module && notes[i].span == span {
            return Some(notes[i]);
        }
        i = i + 1;
    }
    None
}

/// Among the first `n` facts of a module that hold a position, the narrowest; the
/// first of several equally narrow ones.
pub open spec fn tightest_fact(facts: Seq<HoverFact>, n: nat, module: StrId, line: i32, col: i32) -> Option<
    int,
>
    decreases n,
{
    if n == 0 {
        None
    } else {
        let before = tightest_fact(facts, (n - 1) as nat, module, line, col);
        let f = facts[n - 1];
        if f.module != module || !within(f.span, line, col) {
            before
        } else {
            match before {
                Some(i) => if narrower(f.span, facts[i].span) {
                    Some(n - 1)
                } else {
                    before
                },
                None => Some(n - 1),
            }
        }
    }
}

/// A compiler for checking a program again and again.
pub struct IncrementalSession {
    pub c: Compiler,
    /// Where the session began.
    pub seed: Watermark,
    /// Where the entry module began in the last check.
    pub last_entry: Option<Watermark>,
    pub graph: Workspace,
    pub type_facts: Vec<HoverFact>,
    /// The file each module was loaded from.
    pub paths: Vec<(StrId, StrId)>,
    /// Texts that stand in for files, by path.
    pub overlays: HashMap<StrId, StrId>,
}

/// The first loaded module among the first files with a path, from `i` on.
pub open spec fn module_from(paths: Seq<(StrId, StrId)>, i: nat, path: StrId, loaded: Map<
    StrId,
    Interface,
>) -> Option<StrId>
    decreases paths.len() - i,
{
    if i >= paths.len() {
        None
    } else if paths[i as int].1 == path && loaded.dom().contains(paths[i as int].0) {
        Some(paths[i as int].0)
    } else {
        module_from(paths, i + 1, path, loaded)
    }
}

/// The entry module compiled in a session, and the point to go back to when only it
/// has changed: behind its imports, but without the types they bring.
pub struct EntryRun {
    pub s: State,
    pub mark: Watermark,
}

/// Compile the entry module in a session.
#[verifier::opaque]
pub open spec fn entry_run(e: Expr, sources: Seq<Source>, s: State) -> EntryRun {
    match e {
        Expr::Block { body, .. } => {
            let t = imports(sources, Seq::empty(), body@, 0, s).skip_ids();
            EntryRun {
                s: analysed(body@, false, t).s,
                mark: Watermark { type_log: s.watermark().type_log, ..t.watermark() },
            }
        },
        _ => EntryRun { s: expr(e, s), mark: s.watermark() },
    }
}

impl IncrementalSession {
    /// The point to wind back to before changes are taken into account.
    pub open spec fn base(self) -> Watermark {
        match self.last_entry {
            Some(w) => w,
            None => self.seed,
        }
    }

    /// Whether the session stands where a run of the entry module ended, and a result is
    /// the run's. What can be shown of the names it met is joined from the notes.
    pub open spec fn answers(self, r: CompileResult, run: EntryRun, notes: Seq<TypeNote>) -> bool {
        let diags = run.s.diags;
        &&& self.c@ == run.s && self.last_entry == Some(run.mark)
        &&& workspace_of(self.graph, run.s) && workspace_of(r.references, run.s)
        &&& reports_of(r.diagnostics@, diags, diags.len(), run.s.world.names@, run.s.labels)
        &&& r.success == !any_error(diags)
        &&& self.type_facts@ == facts_of(run.s.refs.seen, notes, run.s.refs.seen.len())
        &&& r.program.code@.len() == 0 && r.program.functions@.len() == 0
        &&& r.program.constants@.len() == 0 && r.program.entry == run.s.out.entry
    }

    /// The state that a check starts from, with these modules changed.
    pub open spec fn start(self, dirty: Seq<StrId>) -> State {
        let f = invalidated(dirty, dirty.len(), Floor { s: self.c@, at: self.base() });
        f.s.reset(later(f.at, self.seed))
    }
}

/// Collect the definitions of local binders too.
fn collecting(c: Compiler) -> (res: Compiler)
    ensures
        res@ == (State { refs: Refs { collect: true, ..c@.refs }, ..c@ }),
{
    proof {
        reveal(Compiler::model);
    }
    let mut c: Compiler = c;
    c.collect_local_defs = true;
    c
}

impl IncrementalSession {
    /// A session on top of a standard library compiled beforehand. It checks only,
    /// and collects the definitions of local binders too.
    pub fn new(world: World, seed: Seed) -> (res: IncrementalSession)
        ensures
            exists|s: State| #[trigger]
                starts(s, world, world.main, Origin::User, true) && res.c@ == (State {
                    refs: Refs { collect: true, ..s.refs },
                    ..s
                }).seeded(seed),
            res.seed == res.c@.watermark(),
            res.last_entry is None,
            is_blank(res.graph, world.main),
            res.type_facts@.len() == 0,
            res.paths@.len() == 0,
            res.overlays@ == Map::<StrId, StrId>::empty(),
    {
        let main: StrId = world.main;
        let c: Compiler = new_compiler(world, main, Origin::User, true);
        assert(starts(c@, world, world.main, Origin::User, true));
        let mut c: Compiler = collecting(c);
        c.seed_static(seed);
        let seed: Watermark = c.watermark();
        IncrementalSession {
            c,
            seed,
            last_entry: None,
            graph: blank_workspace(main),
            type_facts: Vec::new(),
            paths: Vec::new(),
            overlays: HashMap::new(),
        }
    }

    /// Where the identities of a module's types begin, if it has been compiled.
    pub fn module_id_base(&self, key: StrId) -> (res: Option<u32>)
        ensures
            res == entry_of(self.c@.known.bases, key),
    {
        proof {
            reveal(Compiler::model);
        }
        match self.c.id_bases.get(&key) {
            Some(base) => Some(*base),
            None => None,
        }
    }

    /// How many modules have been compiled so far.
    pub fn compile_count(&self) -> (count: u32)
        ensures
            count == self.c@.known.count,
    {
        proof {
            reveal(Compiler::model);
        }
        self.c.compile_count
    }

    /// What was collected in the last check.
    pub fn reference_graph(&self) -> (graph: &Workspace)
        ensures
            *graph == self.graph,
    {
        &self.graph
    }

    /// The loaded module that came from a file.
    pub fn module_path_for_source(&self, path: StrId) -> (key: Option<StrId>)
        ensures
            key == module_from(self.paths@, 0, path, self.c@.known.modules),
    {
        let mut i: usize = 0;
        while i < self.paths.len()
            invariant
                i <= self.paths.len(),
                module_from(self.paths@, 0, path, self.c@.known.modules) == module_from(
                    self.paths@,
                    i as nat,
                    path,
                    self.c@.known.modules,
                ),
            decreases self.paths.len() - i,
        {
            let (key, p): (StrId, StrId) = self.paths[i];
            if p == path && self.c.is_loaded(key) {
                return Some(key);
            }
            i = i + 1;
        }
        None
    }

    /// Forget the module that came from a file, so that the next check compiles it
    /// again from the file.
    pub fn invalidate_path(&mut self, path: StrId)
        ensures
            final(self).overlays@ == old(self).overlays@.remove(path),
            ({
                let (before, after) = (*old(self), *final(self));
                let key = module_from(before.paths@, 0, path, before.c@.known.modules);
                &&& after.seed == before.seed && after.graph == before.graph
                &&& after.type_facts == before.type_facts && after.paths == before.paths
                &&& match key {
                    Some(k) => after.c@ == before.c@.invalidate(k) && after.last_entry == (
                    if before.c@.known.marks.dom().contains(k) {
                        let w = before.c@.known.marks[k];
                        Some(
                            later(
                                match before.last_entry {
                                    Some(last) => earlier(last, w),
                                    None => w,
                                },
                                before.seed,
                            ),
                        )
                    } else {
                        before.last_entry
                    }),
                    None => after.c@ == before.c@ && after.last_entry == before.last_entry,
                }
            }),
    {
        self.overlays.remove(&path);
        if let Some(key) = self.module_path_for_source(path) {
            if let Some(w) = self.c.invalidate(key) {
                let floor: Watermark = match self.last_entry {
                    Some(last) => earlier_mark(last, w),
                    None => w,
                };
                self.last_entry = Some(later_mark(floor, self.seed));
            }
        }
    }

    /// Let a text stand in for a file.
    pub fn set_overlay(&mut self, path: StrId, text: StrId)
        ensures
            final(self).overlays@ == old(self).overlays@.insert(path, text),
            ({
                let (before, after) = (*old(self), *final(self));
                &&& after.c == before.c && after.seed == before.seed
                &&& after.last_entry == before.last_entry && after.graph == before.graph
                &&& after.type_facts == before.type_facts && after.paths == before.paths
            }),
    {
        self.overlays.insert(path, text);
    }

    /// Forget the modules that changed. Returns the point to wind back to.
    fn take_changes(&mut self, dirty: &Vec<StrId>) -> (floor: Watermark)
        ensures
            ({
                let (before, after) = (*old(self), *final(self));
                let f = invalidated(
                    dirty@,
                    dirty@.len(),
                    Floor { s: before.c@, at: before.base() },
                );
                &&& after.c@ == f.s && floor == f.at
                &&& after.seed == before.seed && after.paths == before.paths
                &&& after.overlays == before.overlays
            }),
    {
        let mut floor: Watermark = match self.last_entry {
            Some(w) => w,
            None => self.seed,
        };
        let ghost before = *self;
        let ghost f = Floor { s: self.c@, at: floor };
        let mut n: usize = 0;
        while n < dirty.len()
            invariant
                n <= dirty.len(),
                invalidated(dirty@, n as nat, f) == (Floor { s: self.c@, at: floor }),
                self.seed == before.seed && self.paths == before.paths,
                self.overlays == before.overlays,
            decreases dirty.len() - n,
        {
            if let Some(w) = self.c.invalidate(dirty[n]) {
                floor = earlier_mark(floor, w);
            }
            n = n + 1;
        }
        floor
    }

    /// Compile the entry module, and remember the point to go back to.
    fn compile_entry(&mut self, e: &Expr, sources: &Vec<Source>)
        requires
            entry_fits(*e),
            all_fit(sources@),
        ensures
            ({
                let (before, after) = (*old(self), *final(self));
                let run = entry_run(*e, sources@, before.c@);
                &&& after.c@ == run.s && after.last_entry == Some(run.mark)
                &&& after.seed == before.seed && after.paths == before.paths
                &&& after.overlays == before.overlays
            }),
    {
        proof {
            reveal(entry_run);
        }
        match e {
            Expr::Block { body, .. } => {
                let before: Watermark = self.c.watermark();
                let mut loading: Vec<StrId> = Vec::new();
                assert(under_way(sources@, loading@));
                self.c.process_imports(sources, &mut loading, body);
                self.c.bump_type_ids_past_reserved();
                let behind: Watermark = self.c.watermark();
                self.last_entry = Some(Watermark { type_log: before.type_log, ..behind });
                let _ = self.c.analyse_module(body, false);
            },
            _ => {
                self.last_entry = Some(self.c.watermark());
                self.c.compile_expr(e);
            },
        }
    }

    /// Check the program again. `dirty` names the modules whose sources changed since, and
    /// `notes` what inference found at which place. Where a module that was compiled again has
    /// outgrown the identities it had reserved, every module of the user is compiled anew.
    pub fn check(
        &mut self,
        e: &Expr,
        sources: &Vec<Source>,
        dirty: &Vec<StrId>,
        notes: Vec<TypeNote>,
    ) -> (r: CompileResult)
        requires
            entry_fits(*e),
            all_fit(sources@),
        ensures
            ({
                let (before, after) = (*old(self), *final(self));
                let run = entry_run(*e, sources@, before.start(dirty@));
                &&& after.seed == before.seed && after.overlays == before.overlays
                &&& after.paths == before.paths
                &&& if run.s.known.spilled && exists|k: StrId| #[trigger]
                    run.s.known.marks.dom().contains(k) {
                    exists|w: Watermark| #[trigger]
                        is_earliest(run.s.known.marks, w) && after.answers(
                            r,
                            entry_run(*e, sources@, run.s.start_over(later(w, before.seed))),
                            notes@,
                        )
                } else {
                    after.answers(r, run, notes@)
                }
            }),
    {
        let floor: Watermark = self.take_changes(dirty);
        let floor: Watermark = later_mark(floor, self.seed);
        self.c.reset_to(&floor);
        self.compile_entry(e, sources);
        let ghost run = entry_run(*e, sources@, old(self).start(dirty@));
        let ghost mut last = run;
        if self.c.has_spilled() {
            let ghost marks = self.c@.known.marks;
            if let Some(w) = self.c.invalidate_all() {
                self.c.reset_id_bases();
                let floor: Watermark = later_mark(w, self.seed);
                self.c.reset_to(&floor);
                self.compile_entry(e, sources);
                proof {
                    last = entry_run(
                        *e,
                        sources@,
                        run.s.start_over(later(w, old(self).seed)),
                    );
                    assert(is_earliest(marks, w));
                }
            } else {
                proof {
                    reveal(State::forget);
                    let t = run.s.forget(0);
                    assert(t.known.modules =~= run.s.known.modules);
                    assert(t.known.stored =~= run.s.known.stored);
                    assert(t.known.marks =~= run.s.known.marks);
                }
            }
        }
        assert(self.c@ == last.s && self.last_entry == Some(last.mark));
        self.graph = self.c.build_reference_graph();
        self.type_facts = self.c.finalize_references(&notes);
        let references: Workspace = self.c.build_reference_graph();
        let diagnostics: Vec<Report> = self.c.reports();
        let success: bool = !self.c.has_failed();
        let mut program: Program = Program::default();
        program.entry = self.c.entry_index();
        let r: CompileResult = CompileResult { program, diagnostics, references, success };
        assert(self.answers(r, last, notes@));
        r
    }

    /// Remember which file each module was loaded from.
    pub fn set_paths(&mut self, paths: Vec<(StrId, StrId)>)
        ensures
            final(self).paths == paths,
            ({
                let (before, after) = (*old(self), *final(self));
                &&& after.c == before.c && after.seed == before.seed
                &&& after.last_entry == before.last_entry && after.graph == before.graph
                &&& after.type_facts == before.type_facts && after.overlays == before.overlays
            }),
    {
        self.paths = paths;
    }

    /// The module that a question is about: the one asked for, where it has been met, though
    /// nothing may be known of it, and the entry module otherwise.
    pub open spec fn asked(self, module: StrId) -> StrId {
        if self.graph.keys@.dom().contains(module) {
            module
        } else {
            self.graph.main.module
        }
    }

    fn module_for(&self, module: StrId) -> (res: StrId)
        ensures
            res == self.asked(module),
    {
        if self.graph.keys.contains_key(&module) {
            module
        } else {
            self.graph.main.module
        }
    }

    /// What is known of the narrowest thing at a position.
    pub fn hover(&self, module: StrId, line: i32, col: i32) -> (res: Option<HoverFact>)
        ensures
            res == match tightest_fact(
                self.type_facts@,
                self.type_facts@.len(),
                self.asked(module),
                line,
                col,
            ) {
                Some(i) => Some(self.type_facts@[i]),
                None => None,
            },
    {
        let m: StrId = self.module_for(module);
        let mut best: Option<usize> = None;
        let mut n: usize = 0;
        while n < self.type_facts.len()
            invariant
                n <= self.type_facts.len(),
                match best {
                    Some(i) => tightest_fact(self.type_facts@, n as nat, m, line, col) == Some(
                        i as int,
                    ) && i < n,
                    None => tightest_fact(self.type_facts@, n as nat, m, line, col) is None,
                },
            decreases self.type_facts.len() - n,
        {
            let f: HoverFact = self.type_facts[n];
            if f.module == m && span_contains(&f.span, line, col) {
                match best {
                    Some(i) => {
                        if span_narrower(&f.span, &self.type_facts[i].span) {
                            best = Some(n);
                        }
                    },
                    None => {
                        best = Some(n);
                    },
                }
            }
            n = n + 1;
        }
        match best {
            Some(i) => Some(self.type_facts[i]),
            None => None,
        }
    }
}

impl Compiler {
    /// What can be shown of the names that were met.
    fn finalize_references(&self, notes: &Vec<TypeNote>) -> (facts: Vec<HoverFact>)
        ensures
            facts@ == facts_of(self@.refs.seen, notes@, self@.refs.seen.len()),
    {
        proof {
            reveal(Compiler::model);
        }
        let mut facts: Vec<HoverFact> = Vec::new();
        let mut n: usize = 0;
        while n < self.recorded.len()
            invariant
                n <= self.recorded.len(),
                facts@ == facts_of(self.recorded@, notes@, n as nat),
            decreases self.recorded.len() - n,
        {
            let x: Sighting = self.recorded[n];
            if let Some(t) = find_note(notes, x.module, x.span) {
                facts.push(
                    HoverFact {
                        module: x.module,
                        span: x.span,
                        qualifier: x.qualifier,
                        name: x.name,
                        ty: t.ty,
                        doc: x.doc,
                    },
                );
            }
            n = n + 1;
        }
        facts
    }

    /// The index of the function that runs first.
    fn entry_index(&self) -> (entry: i32)
        ensures
            entry == self@.out.entry,
    {
        proof {
            reveal(Compiler::model);
        }
        self.program.entry
    }
}

// ---- laws --------------------------------------------------------------------

/// Whether one state comes from another by adding to what has been produced,
/// declared and reported.
pub open spec fn adds_to(s: State, t: State) -> bool {
    &&& begins_with(t.out.code, s.out.code)
    &&& begins_with(t.out.consts, s.out.consts)
    &&& begins_with(t.out.fns, s.out.fns)
    &&& begins_with(t.labels, s.labels)
    &&& begins_with(t.diags, s.diags)
    &&& begins_with(t.known.variants, s.known.variants)
    &&& begins_with(t.known.fields, s.known.fields)
    &&& begins_with(t.known.log, s.known.log)
    &&& unwound(t.known.types, t.known.log, s.known.log.len()) == s.known.types
}

/// Whether the lists of a state fit into memory.
pub open spec fn fits_memory(s: State) -> bool {
    &&& s.out.code.len() <= usize::MAX
    &&& s.out.consts.len() <= usize::MAX
    &&& s.out.fns.len() <= usize::MAX
    &&& s.labels.len() <= usize::MAX
    &&& s.diags.len() <= usize::MAX
    &&& s.known.variants.len() <= usize::MAX
    &&& s.known.fields.len() <= usize::MAX
    &&& s.known.log.len() <= usize::MAX
    &&& s.known.ids.len() <= usize::MAX
    &&& s.env.len() > 0 ==> s.env[0].dom().len() <= usize::MAX
}

/// Whether every name of the outermost scope came to it behind fewer others than it holds.
pub open spec fn well_rooted(s: State) -> bool {
    s.env.len() > 0 ==> s.env[0].dom().finite() && forall|k: StrId| #[trigger]
        s.rooted.dom().contains(k) ==> s.env[0].dom().contains(k) && s.rooted[k]
            < s.env[0].dom().len()
}

/// Winding back to where the compiler once was gives back what it had produced,
/// declared and reported then.
pub proof fn law_winding_back(s: State, t: State)
    requires
        adds_to(s, t),
        fits_memory(s),
    ensures
        ({
            let u = t.reset(s.watermark());
            &&& u.out.code == s.out.code && u.out.consts == s.out.consts
            &&& u.out.fns == s.out.fns
            &&& u.labels == s.labels && u.diags == s.diags
            &&& u.known.variants == s.known.variants
            &&& u.known.fields == s.known.fields
            &&& u.known.types == s.known.types && u.known.log == s.known.log
            &&& u.known.next == s.known.next && u.loc.count == s.loc.count
        }),
{
    reveal(State::reset);
    reveal(State::watermark);
}

/// A run is undone by winding back to where it began: what is produced, reported,
/// pooled and declared is what it was, whatever was compiled and imported, and the
/// outermost scope, over which nothing else was laid, is as it was. This holds while only
/// checking, and of code whose addresses fit an operand.
pub proof fn law_a_run_is_undone(e: Expr, sources: Seq<Source>, s: State)
    requires
        s.out.check_only || entry_run(e, sources, s).s.out.code.len() <= i32::MAX,
        fits_memory(s),
    ensures
        ({
            let u = entry_run(e, sources, s).s.reset(s.watermark());
            &&& u.out.code == s.out.code && u.out.consts == s.out.consts
            &&& u.out.fns == s.out.fns
            &&& u.labels == s.labels && u.diags == s.diags
            &&& u.known.variants == s.known.variants
            &&& u.known.fields == s.known.fields
            &&& u.known.types == s.known.types && u.known.log == s.known.log
            &&& u.known.next == s.known.next && u.loc.count == s.loc.count
            &&& u.world == s.world
            &&& s.env.len() == 2 && s.env[1] == Map::<StrId, Binding>::empty() && well_rooted(s)
                ==> u.env == s.env && u.rooted == s.rooted
        }),
{
    let t = entry_run(e, sources, s).s;
    reveal(entry_run);
    reveal(entry_module);
    assert(t == entry_module(e, sources, s));
    lemma_entry(e, sources, s);
    reveal(loads);
    reveal(adds);
    reveal(lands_but);
    assert(s.out.code.take(s.out.code.len() as int) =~= s.out.code);
    law_winding_back(s, t);
    reveal(State::reset);
    let u = t.reset(s.watermark());
    if s.env.len() == 2 && s.env[1] == Map::<StrId, Binding>::empty() && well_rooted(s) {
        reveal(State::watermark);
        assert(t.env.drop_last()[0] == s.env.drop_last()[0]);
        assert(t.env[0] == s.env[0] && t.rooted == s.rooted);
        assert(u.env[0] =~= s.env[0]);
        assert(u.env =~= s.env);
        assert(u.rooted =~= s.rooted);
    }
}

/// A new compiler's names are in order.
pub proof fn law_new_compilers_are_in_order(
    s: State,
    world: World,
    module: StrId,
    origin: Origin,
    check_only: bool,
)
    requires
        starts(s, world, module, origin, check_only),
    ensures
        well_rooted(s),
{
}

/// Names stay in order whatever is defined.
pub proof fn law_names_stay_in_order(s: State, name: StrId, b: Binding)
    requires
        well_rooted(s),
        fits_memory(s),
    ensures
        well_rooted(s.define(name, b)),
{
    reveal(State::define);
    if s.env.len() == 1 {
        let t = s.define(name, b);
        assert(t.env[0] == s.env[0].insert(name, b));
        assert(t.env[0].dom() =~= s.env[0].dom().insert(name));
    } else if s.env.len() > 1 {
        assert(s.define(name, b).env[0] == s.env[0]);
    }
}

/// Winding back keeps names in order.
pub proof fn law_names_are_in_order_after_winding_back(s: State, t: State)
    requires
        well_rooted(s),
        fits_memory(s),
        t.env.len() > 0 && s.env.len() > 0,
        forall|k: StrId| #[trigger]
            s.env[0].dom().contains(k) ==> t.env[0].dom().contains(k) && !(t.rooted.dom().contains(
                k,
            ) && t.rooted[k] >= s.env[0].dom().len()),
        well_rooted(t),
    ensures
        well_rooted(t.reset(s.watermark())),
{
    reveal(State::reset);
    reveal(State::watermark);
    let u = t.reset(s.watermark());
    assert(s.env[0].dom().subset_of(u.env[0].dom()));
    assert(u.env[0].dom().subset_of(t.env[0].dom()));
    vstd::set_lib::lemma_len_subset(u.env[0].dom(), t.env[0].dom());
    vstd::set_lib::lemma_len_subset(s.env[0].dom(), u.env[0].dom());
}

/// What is defined in the outermost scope, and was not there, is gone after winding back.
pub proof fn law_names_defined_since_are_gone(s: State, values: Seq<(StrId, Binding)>, n: nat)
    requires
        s.env.len() == 1,
        well_rooted(s),
        n <= values.len(),
        forall|i: int| 0 <= i < n ==> !s.env[0].dom().contains((#[trigger] values[i]).0),
        s.env[0].dom().len() + n <= usize::MAX,
    ensures
        ({
            let u = s.seed_values(values, n).reset(s.watermark());
            u.env == s.env.push(Map::empty()) && u.rooted == s.rooted
        }),
{
    lemma_names_since(s, values, n);
    reveal(State::reset);
    reveal(State::watermark);
    let t = s.seed_values(values, n);
    let u = t.reset(s.watermark());
    assert(u.env[0] =~= s.env[0]);
    assert(u.env =~= s.env.push(Map::empty()));
    assert(u.rooted =~= s.rooted);
}

proof fn lemma_names_since(s: State, values: Seq<(StrId, Binding)>, n: nat)
    requires
        s.env.len() == 1,
        well_rooted(s),
        n <= values.len(),
        forall|i: int| 0 <= i < n ==> !s.env[0].dom().contains((#[trigger] values[i]).0),
        s.env[0].dom().len() + n <= usize::MAX,
    ensures
        ({
            let t = s.seed_values(values, n);
            let len = s.env[0].dom().len();
            &&& t.env.len() == 1 && t.env[0].dom().finite()
            &&& len <= t.env[0].dom().len() <= len + n
            &&& forall|k: StrId| #[trigger]
                s.env[0].dom().contains(k) ==> t.env[0].dom().contains(k) && t.env[0][k]
                    == s.env[0][k]
            &&& forall|k: StrId| #[trigger]
                t.env[0].dom().contains(k) && !s.env[0].dom().contains(k)
                    ==> t.rooted.dom().contains(k) && t.rooted[k] >= len
            &&& forall|k: StrId| #[trigger]
                t.rooted.dom().contains(k) && t.rooted[k] < len ==> s.rooted.dom().contains(k)
                    && s.rooted[k] == t.rooted[k]
            &&& forall|k: StrId| #[trigger]
                s.env[0].dom().contains(k) && t.rooted.dom().contains(k)
                    ==> s.rooted.dom().contains(k) && s.rooted[k] == t.rooted[k]
            &&& forall|k: StrId| #[trigger]
                s.rooted.dom().contains(k) && s.env[0].dom().contains(k)
                    ==> t.rooted.dom().contains(k) && t.rooted[k] == s.rooted[k]
        }),
    decreases n,
{
    reveal(State::seed_values);
    if n > 0 {
        lemma_names_since(s, values, (n - 1) as nat);
        reveal(State::define);
        let p = s.seed_values(values, (n - 1) as nat);
        let t = s.seed_values(values, n);
        let (name, b) = values[n - 1];
        assert(t == p.define(name, b));
        assert(t.env[0] == p.env[0].insert(name, b));
        assert(t.env[0].dom() =~= p.env[0].dom().insert(name));
    }
}

/// Winding back twice to one point is winding back once.
pub proof fn law_winding_back_twice(s: State, w: Watermark)
    requires
        s.env.len() > 0,
    ensures
        s.reset(w).reset(w) == s.reset(w),
{
    reveal(State::reset);
    let t = s.reset(w);
    let u = t.reset(w);
    assert(u.out.code =~= t.out.code);
    assert(u.out.consts =~= t.out.consts);
    assert(u.out.fns =~= t.out.fns);
    assert(u.diags =~= t.diags);
    assert(u.labels =~= t.labels);
    assert(u.rooted =~= t.rooted);
    assert(u.env[0] =~= t.env[0]);
    assert(u.env =~= t.env);
    assert(u.loc.map =~= t.loc.map);
    assert(u.known.variants =~= t.known.variants);
    assert(u.known.fields =~= t.known.fields);
    assert(u.known.ids =~= t.known.ids);
    assert(u.known.log =~= t.known.log);
    assert(u.known.types =~= t.known.types);
    assert(u.known.infos =~= t.known.infos);
}

/// Forgetting a module forgets it and whatever began after it, and nothing that
/// began before.
pub proof fn law_forgetting(s: State, key: StrId, other: StrId)
    requires
        s.known.marks.dom().contains(key),
        s.known.modules.dom().contains(other),
    ensures
        !s.invalidate(key).known.modules.dom().contains(key),
        s.invalidate(key).known.modules.dom().contains(other) == !s.began_since(
            other,
            s.known.marks[key].stamp,
        ),
{
    reveal(State::forget);
}

/// A module that is forgotten and compiled again numbers its types from where it did.
pub proof fn law_identities_begin_where_they_did(s: State, key: StrId)
    requires
        s.known.marks.dom().contains(key),
    ensures
        s.invalidate(key).reset(s.known.marks[key]).known.next == s.known.marks[key].next_type_id,
{
    reveal(State::reset);
}

/// The fact that hover shows holds the position, and none of the same module that
/// does is narrower.
pub proof fn law_hover_is_tightest(
    facts: Seq<HoverFact>,
    n: nat,
    module: StrId,
    line: i32,
    col: i32,
    k: int,
)
    requires
        n <= facts.len(),
        0 <= k < n,
        facts[k].module == module,
        within(facts[k].span, line, col),
    ensures
        tightest_fact(facts, n, module, line, col) matches Some(i) && 0 <= i < n
            && facts[i].module == module && within(facts[i].span, line, col) && !narrower(
            facts[k].span,
            facts[i].span,
        ),
    decreases n,
{
    lemma_tightest_valid(facts, (n - 1) as nat, module, line, col);
    if k < n - 1 {
        law_hover_is_tightest(facts, (n - 1) as nat, module, line, col, k);
    }
}

proof fn lemma_tightest_valid(facts: Seq<HoverFact>, n: nat, module: StrId, line: i32, col: i32)
    ensures
        tightest_fact(facts, n, module, line, col) matches Some(i) ==> 0 <= i < n
            && facts[i].module == module && within(facts[i].span, line, col),
    decreases n,
{
    if n > 0 {
        lemma_tightest_valid(facts, (n - 1) as nat, module, line, col);
    }
}

} // verus!

//! A check that is repeated says the same.
use crate::again;
use crate::again::{imports_found, imports_loaded};
use crate::ast::{Expr, ImportDecl, ImportItem, Node, Span, Statement, StrId};
use crate::decls::analysed;
use crate::diag::any_error;
use crate::entry::CompileResult;
use crate::frames;
use crate::frames::{declares, enough, holds};
use crate::growth::{adds, grows, loads};
use crate::imports::{items, Items, TypeUse, ValueUse};
use crate::landing::lands_but;
use crate::loader::{import, imports, load, Source};
use crate::muting;
use crate::muting::passes::lemma_analysed;
use crate::quiet;
use crate::session::{
    entry_run, fits_memory, invalidated, kept_locals, well_rooted, without, Floor,
    IncrementalSession, TypeNote,
};
use crate::state::{
    Binding, GlobalSlot, Interface, Known, LocalSlot, Locals, Sighting, State, TypeInfo, Watermark,
};
use vstd::prelude::*;

verus! {

// ---- binding imports ------------------------------------------------------------

/// What an import may find different without taking notice: locals bound before, the next
/// identity, and the slots that are queued.
pub struct Before {
    pub map: Map<StrId, LocalSlot>,
    pub next: u32,
    pub binds: Seq<GlobalSlot>,
}

impl State {
    /// The state with other things before it.
    #[verifier::opaque]
    pub open spec fn behind(self, b: Before) -> State {
        State {
            loc: Locals {
                map: b.map.union_prefer_right(self.loc.map),
                binds: b.binds,
                ..self.loc
            },
            known: Known { next: b.next, ..self.known },
            ..self
        }
    }

    /// Whether what is bound is bound outside all blocks, and not by the statements of a
    /// module.
    pub open spec fn outermost(self) -> bool {
        self.loc.marks.len() == 0 && !self.loc.walking
    }
}

impl Items {
    /// Items under way with other things before them.
    pub open spec fn behind(self, b: Before) -> Items {
        Items { s: self.s.behind(b), ..self }
    }
}

/// Whether binding imports has changed nothing but scopes, locals, references and the names
/// of types and modules.
pub open spec fn only_binds(s: State, t: State) -> bool {
    &&& t.loc == (Locals { map: t.loc.map, ..s.loc })
    &&& t.refs.collect == s.refs.collect
    &&& t.refs.seen == s.refs.seen
    &&& t.unused == s.unused
    &&& t.labels == s.labels
    &&& t.known == (Known {
        types: t.known.types,
        log: t.known.log,
        qualifiers: t.known.qualifiers,
        dependents: t.known.dependents,
        ..s.known
    })
    &&& t.world == s.world
}

/// Whether every local is in a slot of the frame that was handed out, outside all blocks.
pub open spec fn in_frame(s: State) -> bool {
    forall|k: StrId| #[trigger]
        s.loc.map.dom().contains(k) ==> s.loc.map[k].slot < s.loc.count && s.loc.map[k].depth == 0
}

/// Whether the slots of exported values were handed out.
pub open spec fn exports_in_frame(s: State) -> bool {
    forall|key: StrId, name: StrId|
        #![trigger s.known.modules[key].values[name]]
        s.known.modules.dom().contains(key) && s.known.modules[key].values.dom().contains(name)
            ==> (s.known.modules[key].values[name].slot matches Some(i) ==> i < s.loc.count)
}

proof fn lemma_item(i: Items, key: StrId, item: ImportItem, b: Before)
    requires
        i.s.outermost(),
    ensures
        i.behind(b).item(key, item) == i.item(key, item).behind(b),
        only_binds(i.s, i.item(key, item).s),
        in_frame(i.s) && exports_in_frame(i.s) ==> in_frame(i.item(key, item).s),
{
    reveal(State::behind);
    reveal(State::define);
    reveal(State::add_def);
    reveal(State::bind);
    reveal(State::bind_type);
    reveal(State::error);
    let l = i.behind(b).item(key, item);
    let r = i.item(key, item).behind(b);
    assert(l.s.loc.map =~= r.s.loc.map);
    assert(l.s == r.s);
}

proof fn lemma_items(key: StrId, list: Seq<ImportItem>, n: nat, s: State, b: Before)
    requires
        s.outermost(),
    ensures
        items(key, list, n, s.behind(b)) == items(key, list, n, s).behind(b),
        only_binds(s, items(key, list, n, s).s),
        in_frame(s) && exports_in_frame(s) ==> in_frame(items(key, list, n, s).s),
    decreases n,
{
    reveal(items);
    if n > 0 {
        lemma_items(key, list, (n - 1) as nat, s, b);
        lemma_item(items(key, list, (n - 1) as nat, s), key, list[n - 1], b);
    }
}

proof fn lemma_uses(
    s: State,
    key: StrId,
    values: Seq<ValueUse>,
    types: Seq<TypeUse>,
    n: nat,
    b: Before,
)
    ensures
        s.behind(b).value_uses(values, n) == s.value_uses(values, n).behind(b),
        only_binds(s, s.value_uses(values, n)),
        s.value_uses(values, n).loc == s.loc,
        s.behind(b).type_uses(key, types, n) == s.type_uses(key, types, n).behind(b),
        only_binds(s, s.type_uses(key, types, n)),
        s.type_uses(key, types, n).loc == s.loc,
    decreases n,
{
    reveal(State::behind);
    reveal(State::value_uses);
    reveal(State::type_uses);
    reveal(State::refer);
    if n > 0 {
        lemma_uses(s, key, values, types, (n - 1) as nat, b);
    }
}

proof fn lemma_bind_import(s: State, imp: ImportDecl, b: Before)
    requires
        s.outermost(),
    ensures
        s.behind(b).bind_import(imp) == s.bind_import(imp).behind(b),
        only_binds(s, s.bind_import(imp)),
        in_frame(s) && exports_in_frame(s) ==> in_frame(s.bind_import(imp)),
{
    let t = s.bind_module(imp);
    assert(s.behind(b).bind_module(imp) == t.behind(b) && only_binds(s, t) && t.loc == s.loc) by {
        reveal(State::behind);
        reveal(State::add_def);
        reveal(State::refer_outside);
        reveal(State::qualify);
    }
    lemma_items(imp.key, imp.items@, imp.items@.len(), t, b);
    let i = items(imp.key, imp.items@, imp.items@.len(), t);
    lemma_uses(i.s, imp.key, i.values, i.types, i.values.len(), b);
    let u = i.s.value_uses(i.values, i.values.len());
    lemma_uses(u, imp.key, i.values, i.types, i.types.len(), b);
}

proof fn lemma_imports(
    sources: Seq<Source>,
    others: Seq<Source>,
    body: Seq<Node>,
    i: nat,
    s: State,
    b: Before,
)
    requires
        s.outermost(),
        imports_loaded(body, i, s.known.modules),
    ensures
        ({
            let t = imports(sources, Seq::empty(), body, i, s);
            &&& imports(others, Seq::empty(), body, i, s.behind(b)) == t.behind(b)
            &&& only_binds(s, t)
            &&& in_frame(s) && exports_in_frame(s) ==> in_frame(t)
        }),
    decreases body.len() - i,
{
    let none = Seq::<StrId>::empty();
    assert(s.behind(b).known.modules == s.known.modules) by {
        reveal(State::behind);
    }
    if i < body.len() {
        if let Node::Statement(Statement::Import(imp)) = body[i as int] {
            let d = s.depend(imp.key);
            assert(load(sources, none, imp.key, imp.span, s) == (d, true));
            assert(load(others, none, imp.key, imp.span, s.behind(b)) == (
                s.behind(b).depend(imp.key),
                true,
            ));
            assert(s.behind(b).depend(imp.key) == d.behind(b) && only_binds(s, d) && d.loc == s.loc)
                by {
                reveal(State::behind);
                reveal(State::depend);
            }
            lemma_bind_import(d, imp, b);
            let u = d.bind_import(imp);
            assert(import(sources, none, imp, s) == u);
            assert(import(others, none, imp, s.behind(b)) == u.behind(b));
            lemma_imports(sources, others, body, i + 1, u, b);
            assert(imports(sources, none, body, i, s) == imports(sources, none, body, i + 1, u));
            assert(imports(others, none, body, i, s.behind(b)) == imports(
                others,
                none,
                body,
                i + 1,
                u.behind(b),
            ));
        }
    }
}

// ---- winding back ---------------------------------------------------------------

/// What is left of the types is what was known of those not forgotten.
proof fn lemma_without(infos: Map<u32, TypeInfo>, ids: Seq<u32>, n: nat)
    ensures
        forall|id: u32| #[trigger]
            without(infos, ids, n).dom().contains(id) <==> infos.dom().contains(id)
                && !declared_behind(ids, n, id),
        forall|id: u32|
            #![trigger without(infos, ids, n)[id]]
            without(infos, ids, n).dom().contains(id) ==> without(infos, ids, n)[id] == infos[id],
    decreases ids.len(),
{
    if ids.len() > n {
        let (less, fewer) = (infos.remove(ids.last()), ids.drop_last());
        lemma_without(less, fewer, n);
        let w = without(less, fewer, n);
        assert(without(infos, ids, n) == w);
        assert forall|id: u32| #[trigger] declared_behind(ids, n, id) == (declared_behind(
            fewer,
            n,
            id,
        ) || id == ids.last()) by {
            if declared_behind(fewer, n, id) {
                let k = choose|k: int| n <= k < fewer.len() && #[trigger] fewer[k] == id;
                assert(ids[k] == id);
            }
            if id == ids.last() {
                assert(ids[ids.len() - 1] == id);
            }
            if declared_behind(ids, n, id) {
                let k = choose|k: int| n <= k < ids.len() && #[trigger] ids[k] == id;
                if k < fewer.len() {
                    assert(fewer[k] == id);
                }
            }
        }
        assert forall|id: u32| #[trigger] w.dom().contains(id) == (infos.dom().contains(id)
            && !declared_behind(ids, n, id)) by {
            assert(w.dom().contains(id) == (less.dom().contains(id) && !declared_behind(
                fewer,
                n,
                id,
            )));
        }
        assert forall|id: u32|
            #![trigger w[id]]
            w.dom().contains(id) implies w[id] == infos[id] by {
            assert(w[id] == less[id]);
            assert(less.dom().contains(id));
        }
    }
}

/// Whether a type was declared behind the first `n`.
spec fn declared_behind(ids: Seq<u32>, n: nat, id: u32) -> bool {
    exists|k: int| n <= k < ids.len() && #[trigger] ids[k] == id
}

/// Whether the identities of all types that are known are below those that come next.
pub open spec fn ids_below(s: State) -> bool {
    forall|id: u32| #[trigger]
        s.known.infos.dom().contains(id) ==> id < s.known.next || id < s.known.high
}

/// Forgetting the types declared since leaves those known before.
proof fn lemma_infos_forgotten(s: State, t: State)
    requires
        declares(s, t),
        enough(s, t),
        forall|id: u32| #[trigger] s.known.infos.dom().contains(id) ==> id < s.known.next,
    ensures
        without(t.known.infos, t.known.ids, s.known.ids.len()) == s.known.infos,
{
    reveal(declares);
    let n = s.known.ids.len();
    lemma_without(t.known.infos, t.known.ids, n);
    let w = without(t.known.infos, t.known.ids, n);
    assert forall|id: u32| #[trigger] w.dom().contains(id) == s.known.infos.dom().contains(id) by {
        if id < s.known.next {
            if declared_behind(t.known.ids, n, id) {
                let k = choose|k: int|
                    n <= k < t.known.ids.len() && #[trigger] t.known.ids[k] == id;
                assert(t.known.ids[k] as int == s.known.next + (k - n));
            }
            assert(t.known.infos.dom().contains(id) == s.known.infos.dom().contains(id));
        } else if t.known.infos.dom().contains(id) {
            let k = n + (id - s.known.next);
            assert(t.known.ids[k] as int == s.known.next + (k - n));
            assert(declared_behind(t.known.ids, n, id));
        }
    }
    assert(w =~= s.known.infos);
}

/// Whether nothing is under way: no block is open, no function is being compiled and no
/// name is bound but in the outermost scope.
pub open spec fn rests(s: State) -> bool {
    &&& s.env.len() == 2 && s.env[1] == Map::<StrId, Binding>::empty()
    &&& s.loc.undo.len() == 0 && s.loc.marks.len() == 0 && s.loc.outer.len() == 0
    &&& s.loc.captures == Map::<StrId, i32>::empty() && s.loc.capture_names.len() == 0
    &&& s.loc.binding is None && s.loc.next_self is None
    &&& !s.loc.tail && !s.loc.walking
    &&& s.refs.module == s.world.main && s.refs.current == s.world.main && s.refs.owner is None
    &&& s.refs.defs.len() == 0 && s.refs.occs.len() == 0 && s.refs.seen.len() == 0
    &&& s.refs.ctors.len() == 0 && s.refs.params.len() == 0
    &&& s.unused.len() == 0
    &&& s.known.qualifiers == Map::<StrId, StrId>::empty()
}

/// Whether a state is one that a check can begin in: nothing is under way and nothing is
/// produced, what is bound and exported is in slots that were handed out, and names and
/// identities are in order.
pub open spec fn ready(s: State) -> bool {
    &&& rests(s)
    &&& s.out.check_only
    &&& in_frame(s)
    &&& exports_in_frame(s)
    &&& ids_below(s)
    &&& well_rooted(s)
    &&& fits_memory(s)
}

/// What is wound back rests, with its locals in slots that were handed out.
pub proof fn law_what_is_wound_back_rests(s: State, w: Watermark)
    requires
        s.env.len() > 0,
        s.loc.next_self is None,
        !s.loc.walking,
    ensures
        rests(s.reset(w)),
        in_frame(s.reset(w)),
{
    reveal(State::reset);
}

/// A state without locals.
spec fn bare(s: State) -> State {
    State { loc: Locals { map: Map::empty(), ..s.loc }, ..s }
}

/// What a state had before it lost its locals.
spec fn lost(s: State) -> Before {
    Before { map: s.loc.map, next: s.known.next, binds: s.loc.binds }
}

proof fn lemma_bare(s: State)
    ensures
        bare(s).behind(lost(s)) == s,
{
    reveal(State::behind);
    assert(s.loc.map.union_prefer_right(Map::empty()) =~= s.loc.map);
}

/// What is wound back from where a program was analysed is, but for what is not read again,
/// where its imports were bound.
proof fn lemma_wound_back(s: State, j: State, f: State, mark: Watermark)
    requires
        ready(s),
        only_binds(
            s,
            State {
                loc: Locals { binds: s.loc.binds, ..j.loc },
                known: Known { next: s.known.next, ..j.known },
                ..j
            },
        ),
        j.diags == s.diags,
        adds(s, j),
        grows(j, f),
        declares(j, f),
        f.loc.map == j.loc.map,
        in_frame(j),
        j.known.next == (if s.known.high > s.known.next {
            s.known.high
        } else {
            s.known.next
        }),
        enough(j, f),
        mark == (Watermark { type_log: s.watermark().type_log, ..j.watermark() }),
    ensures
        ({
            let t = f.reset(mark);
            &&& t.muted(Seq::empty()) == bare(s).behind(lost(t)).muted(Seq::empty())
            &&& t.loc.map == j.loc.map
            &&& t.known.next == j.known.next
            &&& ready(t)
        }),
{
    let t = f.reset(mark);
    reveal(State::reset);
    reveal(State::watermark);
    reveal(State::muted);
    reveal(State::behind);
    reveal(holds);
    assert(adds(j, f));
    lemma_infos_forgotten(j, f);
    assert(t.known.infos == s.known.infos);
    assert(adds(s, f)) by {
        crate::growth::lemma_adds_on(s, j, f);
    }
    reveal(declares);
    reveal(adds);
    assert(kept_locals(f.loc.map, j.loc.count) =~= j.loc.map);
    assert(t.loc.map.union_prefer_right(Map::empty()) =~= t.loc.map);
    assert(t.labels =~= s.labels);
    assert(t.diags =~= s.diags);
    assert(t.known.variants =~= s.known.variants);
    assert(t.known.fields =~= s.known.fields);
    assert(t.known.log =~= s.known.log);
    assert(t.known.ids =~= s.known.ids);
    assert(f.env.drop_last()[0] == j.env.drop_last()[0]);
    assert(j.env.drop_last()[0] == s.env.drop_last()[0]);
    assert(t.env[0] =~= s.env[0]);
    assert(t.env =~= s.env);
    assert(t.rooted =~= s.rooted);
    let z = bare(s).behind(lost(t));
    assert(s.loc.undo =~= Seq::empty() && s.loc.marks =~= Seq::empty());
    assert(s.loc.outer =~= Seq::empty() && s.loc.capture_names =~= Seq::empty());
    assert(s.unused =~= Seq::empty());
    assert(s.refs.defs =~= Seq::empty() && s.refs.occs =~= Seq::empty());
    assert(s.refs.ctors =~= Seq::empty() && s.refs.params =~= Seq::empty());
    assert(s.refs.seen =~= Seq::empty());
    assert(t.muted(Seq::empty()).loc == z.muted(Seq::empty()).loc);
    assert(t.muted(Seq::empty()).refs == z.muted(Seq::empty()).refs);
    assert(t.muted(Seq::empty()).known == z.muted(Seq::empty()).known);
    reveal(lands_but);
    assert(t.out.code =~= s.out.code);
    assert(t.out.consts =~= s.out.consts);
    assert(t.out.fns =~= s.out.fns);
}

/// Checking a program again from where a check left off says the same, whatever the sources
/// say, if the first of the two found all modules loaded and no error; and what it begins in
/// is again a state to begin in.
pub proof fn law_a_repeated_check_says_the_same(
    body: Vec<Node>,
    span: Span,
    sources: Seq<Source>,
    s: State,
    later_sources: Seq<Source>,
)
    requires
        ready(s),
        imports_loaded(body@, 0, s.known.modules),
        ({
            let run = entry_run(Expr::Block { body, span }, sources, s);
            &&& !any_error(run.s.diags)
            &&& (if s.known.high > s.known.next {
                s.known.high
            } else {
                s.known.next
            }) + (run.s.known.ids.len() - s.known.ids.len()) <= u32::MAX
        }),
    ensures
        ({
            let e = Expr::Block { body, span };
            let run = entry_run(e, sources, s);
            let t = run.s.reset(run.mark);
            &&& ready(t)
            &&& entry_run(e, later_sources, t).s.diags == run.s.diags
        }),
{
    reveal(entry_run);
    let none = Seq::<StrId>::empty();
    let e = Expr::Block { body, span };
    let run = entry_run(e, sources, s);
    let i = imports(sources, none, body@, 0, s);
    let j = i.skip_ids();
    let f = analysed(body@, false, j).s;
    assert(run.s == f);
    lemma_bare(s);
    let z = bare(s);
    lemma_imports(sources, sources, body@, 0, z, lost(s));
    lemma_imports(sources, sources, body@, 0, s, lost(s));
    let d = imports(sources, none, body@, 0, z);
    assert(i == d.behind(lost(s)));
    quiet::lemma_imports(sources, none, body@, 0, s);
    quiet::lemma_analysis(body@, false, j);
    frames::passes::lemma_analysis(body@, false, j);
    assert(grows(i, j)) by {
        crate::growth::lemma_skip_ids(i);
    }
    assert(adds(s, i)) by {
        reveal(loads);
    }
    assert(adds(s, j)) by {
        crate::growth::lemma_adds_on(s, i, j);
    }
    again::lemma_imports_find(sources, body@, 0, s);
    assert(!any_error(i.diags)) by {
        crate::growth::lemma_adds_on(i, j, f);
        reveal(adds);
        if any_error(i.diags) {
            again::lemma_error_stays(i.diags, f.diags);
        }
    }
    assert(i.known.modules == s.known.modules);
    again::lemma_imports_silent(sources, body@, 0, s);
    reveal(State::skip_ids);
    lemma_wound_back(s, j, f, run.mark);
    let t = f.reset(run.mark);
    let zt = z.behind(lost(t));
    muting::modules::lemma_imports(Seq::empty(), later_sources, none, body@, 0, t, zt);
    lemma_imports(sources, later_sources, body@, 0, z, lost(t));
    let k = imports(later_sources, none, body@, 0, t);
    assert(k.muted(Seq::empty()) == d.behind(lost(t)).muted(Seq::empty()));
    let l = k.skip_ids();
    assert(l.muted(Seq::empty()) == j.muted(Seq::empty())) by {
        muting::steps::lemma_skip_ids(Seq::empty(), k);
        muting::steps::lemma_skip_ids(Seq::empty(), d.behind(lost(t)));
        assert(l.muted(Seq::empty()) == d.behind(lost(t)).skip_ids().muted(Seq::empty()));
        reveal(State::behind);
        assert(d.behind(lost(t)).loc.map =~= i.loc.map);
        assert(d.behind(lost(t)).skip_ids() == j);
    }
    lemma_analysed(Seq::empty(), Seq::empty(), body@, false, j, l);
    muting::lemma_fields(Seq::empty(), f);
    muting::lemma_fields(Seq::empty(), analysed(body@, false, l).s);
}

// ---- behind modules that were compiled -------------------------------------------

proof fn lemma_found_is_loaded(body: Seq<Node>, i: nat, modules: Map<StrId, Interface>)
    requires
        imports_found(body, i, modules),
    ensures
        imports_loaded(body, i, modules),
    decreases body.len() - i,
{
    if i < body.len() {
        if let Node::Statement(Statement::Import(_)) = body[i as int] {
            lemma_found_is_loaded(body, i + 1, modules);
        }
    }
}

/// Whether imports have left the same in two states: the same names in scope and the same
/// locals, the same types and modules under the same names, and the same references.
pub open spec fn bound_alike(s: State, t: State) -> bool {
    &&& t.env == s.env && t.rooted == s.rooted && t.unused == s.unused
    &&& t.loc == (Locals { binds: t.loc.binds, ..s.loc })
    &&& t.known.types == s.known.types && t.known.qualifiers == s.known.qualifiers
    &&& t.collected() == s.collected()
    &&& t.refs.owner == s.refs.owner && t.refs.current == s.refs.current
}

/// Checking a program again says the same though the first of two checks has compiled the
/// modules it imports, whatever the sources say, if compiling has left nothing behind: if
/// what the imports leave is the same in both.
pub proof fn law_a_check_behind_compiled_modules_says_the_same(
    body: Vec<Node>,
    span: Span,
    sources: Seq<Source>,
    s: State,
    later_sources: Seq<Source>,
)
    requires
        ({
            let i = imports(sources, Seq::empty(), body@, 0, s);
            let run = entry_run(Expr::Block { body, span }, sources, s);
            let t = run.s.reset(run.mark);
            &&& !any_error(run.s.diags)
            &&& !i.loc.walking
            &&& ids_below(i)
            &&& fits_memory(i)
            &&& (if i.known.high > i.known.next {
                i.known.high
            } else {
                i.known.next
            }) + (run.s.known.ids.len() - i.known.ids.len()) <= u32::MAX
            &&& bound_alike(i, imports(later_sources, Seq::empty(), body@, 0, t))
        }),
    ensures
        ({
            let e = Expr::Block { body, span };
            let run = entry_run(e, sources, s);
            entry_run(e, later_sources, run.s.reset(run.mark)).s.diags == run.s.diags
        }),
{
    reveal(entry_run);
    let none = Seq::<StrId>::empty();
    let run = entry_run(Expr::Block { body, span }, sources, s);
    let i = imports(sources, none, body@, 0, s);
    let j = i.skip_ids();
    let f = analysed(body@, false, j).s;
    let t = f.reset(run.mark);
    let k = imports(later_sources, none, body@, 0, t);
    let l = k.skip_ids();
    assert(run.s == f);
    quiet::lemma_analysis(body@, false, j);
    frames::passes::lemma_analysis(body@, false, j);
    assert(grows(i, j)) by {
        crate::growth::lemma_skip_ids(i);
    }
    again::lemma_imports_find(sources, body@, 0, s);
    assert(!any_error(i.diags)) by {
        crate::growth::lemma_adds_on(i, j, f);
        reveal(adds);
        if any_error(i.diags) {
            again::lemma_error_stays(i.diags, f.diags);
        }
    }
    assert(t.known.modules == i.known.modules && t.outermost()) by {
        reveal(State::reset);
        reveal(State::skip_ids);
        reveal(declares);
        reveal(holds);
    }
    lemma_found_is_loaded(body@, 0, t.known.modules);
    lemma_imports(later_sources, later_sources, body@, 0, t, lost(t));
    again::lemma_imports_silent(later_sources, body@, 0, t);
    assert(only_binds(t, k));
    assert(enough(j, f)) by {
        reveal(State::skip_ids);
    }
    assert(l.muted(j.refs.seen) == j.muted(Seq::empty())) by {
        lemma_second_start(s, i, j, f, run.mark, k, l);
    }
    lemma_analysed(Seq::empty(), j.refs.seen, body@, false, j, l);
    muting::lemma_fields(Seq::empty(), f);
    muting::lemma_fields(j.refs.seen, analysed(body@, false, l).s);
}

proof fn lemma_second_start(
    s: State,
    i: State,
    j: State,
    f: State,
    mark: Watermark,
    k: State,
    l: State,
)
    requires
        j == i.skip_ids(),
        l == k.skip_ids(),
        mark == (Watermark { type_log: s.watermark().type_log, ..j.watermark() }),
        grows(j, f),
        declares(j, f),
        enough(j, f),
        ids_below(i),
        fits_memory(i),
        only_binds(f.reset(mark), k),
        k.diags == f.reset(mark).diags,
        bound_alike(i, k),
    ensures
        l.muted(j.refs.seen) == j.muted(Seq::empty()),
{
    let t = f.reset(mark);
    reveal(State::skip_ids);
    lemma_infos_forgotten(j, f);
    reveal(State::reset);
    reveal(State::watermark);
    reveal(declares);
    reveal(holds);
    reveal(adds);
    assert(t.labels =~= j.labels);
    assert(t.diags =~= j.diags);
    assert(t.known.variants =~= j.known.variants);
    assert(t.known.fields =~= j.known.fields);
    assert(t.known.ids =~= j.known.ids);
    assert(t.refs.seen =~= Seq::empty());
    reveal(State::muted);
    let (a, b) = (l.muted(j.refs.seen), j.muted(Seq::empty()));
    assert(j.refs.seen + k.refs.seen =~= j.refs.seen);
    assert(Seq::<Sighting>::empty() + j.refs.seen =~= j.refs.seen);
    assert(a.loc == b.loc);
    assert(k.collected() == i.collected());
    assert(a.refs == b.refs);
    assert(a.known == b.known);
}

/// The second of two checks of one program, with no module changed in between, succeeds where
/// the first did, and reports the same, if the first has found all modules loaded. One that it
/// compiles may leave something behind: the names it imports stay in scope and its types stay
/// known, but only until the next check begins, so that what the program finds of these at
/// first it may not find again.
pub proof fn law_a_second_check_succeeds(
    first: IncrementalSession,
    second: IncrementalSession,
    body: Vec<Node>,
    span: Span,
    sources: Seq<Source>,
    s: State,
    later_sources: Seq<Source>,
    r: CompileResult,
    notes: Seq<TypeNote>,
)
    requires
        ready(s),
        imports_loaded(body@, 0, s.known.modules),
        ({
            let run = entry_run(Expr::Block { body, span }, sources, s);
            &&& first.c@ == run.s && first.last_entry == Some(run.mark)
            &&& first.seed.stamp <= run.mark.stamp
            &&& !any_error(run.s.diags)
            &&& (if s.known.high > s.known.next {
                s.known.high
            } else {
                s.known.next
            }) + (run.s.known.ids.len() - s.known.ids.len()) <= u32::MAX
        }),
        second.answers(
            r,
            entry_run(Expr::Block { body, span }, later_sources, first.start(Seq::empty())),
            notes,
        ),
    ensures
        r.success,
        second.c@.diags == first.c@.diags,
        ready(first.start(Seq::empty())),
{
    law_a_repeated_check_says_the_same(body, span, sources, s, later_sources);
    let run = entry_run(Expr::Block { body, span }, sources, s);
    assert(invalidated(Seq::empty(), 0, Floor { s: first.c@, at: first.base() }) == (Floor {
        s: first.c@,
        at: first.base(),
    }));
    assert(first.start(Seq::empty()) == run.s.reset(run.mark));
}

/// The second of two checks of one program, with no module changed in between, succeeds where
/// the first did, and reports the same, though the first has compiled modules, if these have
/// left nothing behind.
pub proof fn law_a_second_check_behind_compiled_modules_succeeds(
    first: IncrementalSession,
    second: IncrementalSession,
    body: Vec<Node>,
    span: Span,
    sources: Seq<Source>,
    s: State,
    later_sources: Seq<Source>,
    r: CompileResult,
    notes: Seq<TypeNote>,
)
    requires
        ({
            let i = imports(sources, Seq::empty(), body@, 0, s);
            let run = entry_run(Expr::Block { body, span }, sources, s);
            let t = first.start(Seq::empty());
            &&& first.c@ == run.s && first.last_entry == Some(run.mark)
            &&& first.seed.stamp <= run.mark.stamp
            &&& !any_error(run.s.diags)
            &&& !i.loc.walking
            &&& ids_below(i)
            &&& fits_memory(i)
            &&& (if i.known.high > i.known.next {
                i.known.high
            } else {
                i.known.next
            }) + (run.s.known.ids.len() - i.known.ids.len()) <= u32::MAX
            &&& bound_alike(i, imports(later_sources, Seq::empty(), body@, 0, t))
        }),
        second.answers(
            r,
            entry_run(Expr::Block { body, span }, later_sources, first.start(Seq::empty())),
            notes,
        ),
    ensures
        r.success,
        second.c@.diags == first.c@.diags,
{
    let run = entry_run(Expr::Block { body, span }, sources, s);
    assert(invalidated(Seq::empty(), 0, Floor { s: first.c@, at: first.base() }) == (Floor {
        s: first.c@,
        at: first.base(),
    }));
    assert(first.start(Seq::empty()) == run.s.reset(run.mark));
    law_a_check_behind_compiled_modules_says_the_same(body, span, sources, s, later_sources);
}

} // verus!

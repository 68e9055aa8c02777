//! What muting leaves of imports, modules and whole programs: a check and a compilation
//! of one program say the same.
use crate::ast::{Expr, ImportDecl, ImportItem, Node, Span, Statement, StrId};
use crate::boot::{captures, nowhere, prelude_from, scope_of, starts, Seed};
use crate::decls::analysed;
use crate::diag::{any_error, Message};
use crate::entry::{compiled, entry_module, prelude_taken, result_of, CompileResult, PreludeFrom};
use crate::imports::{items, local_name, Items, TypeUse, ValueUse};
use crate::loader::{import, imports, load, module_body, source_place, Found, ParseFault, Source};
use crate::muting::exprs::lemma_expr;
use crate::muting::group_muting;
use crate::muting::passes::lemma_analysed;
use crate::muting::pieces::group_muting_pieces;
use crate::muting::steps::{group_muting_steps, lemma_bind_type};
use crate::op::Op;
use crate::prelude_bindings::{
    captured_type, ctor_in_scope, ctor_name_of, ctor_order, ctor_type_of, first_fault, holds_scope,
    named,
    type_name_of, type_order, PreludeBindings, PreludeCtor, PreludeScope, PreludeType,
};
use crate::refs::{defid_at, References};
use crate::state::{Binding, Interface, Origin, Sighting, State, Watermark, World};
use crate::workspace::{is_blank, workspace_of};
use vstd::prelude::*;

verus! {

broadcast use {group_muting, group_muting_pieces, group_muting_steps};

impl Items {
    /// Items under way in a muted state.
    pub open spec fn muted(self, pre: Seq<Sighting>) -> Items {
        Items { s: self.s.muted(pre), ..self }
    }
}

// ---- imports -------------------------------------------------------------------

proof fn lemma_item(
    pre: Seq<Sighting>,
    post: Seq<Sighting>,
    i: Items,
    k: Items,
    key: StrId,
    item: ImportItem,
)
    requires
        i.muted(pre) == k.muted(post),
    ensures
        i.item(key, item).muted(pre) == k.item(key, item).muted(post),
{
    assert(i.s.muted(pre).known == k.s.muted(post).known);
    assert(i.s.muted(pre).refs.current == k.s.muted(post).refs.current);
    if i.s.known.modules.dom().contains(key) {
        let iface = i.s.known.modules[key];
        let name = item.name.name;
        let (a, b) = if iface.values.dom().contains(name) {
            (i.value(item, iface.values[name]), k.value(item, iface.values[name]))
        } else {
            (i, k)
        };
        assert(a.s.muted(pre) == b.s.muted(post));
        assert(a.values == b.values && a.types == b.types);
        if iface.types.dom().contains(name) {
            lemma_bind_type(pre, post, a.s, b.s, local_name(item), iface.types[name]);
        }
    }
}

proof fn lemma_items(
    pre: Seq<Sighting>,
    post: Seq<Sighting>,
    key: StrId,
    list: Seq<ImportItem>,
    n: nat,
    s: State,
    t: State,
)
    requires
        s.muted(pre) == t.muted(post),
    ensures
        items(key, list, n, s).muted(pre) == items(key, list, n, t).muted(post),
    decreases n,
{
    reveal(items);
    if n > 0 {
        lemma_items(pre, post, key, list, (n - 1) as nat, s, t);
        lemma_item(
            pre,
            post,
            items(key, list, (n - 1) as nat, s),
            items(key, list, (n - 1) as nat, t),
            key,
            list[n - 1],
        );
    }
}

proof fn lemma_value_uses(pre: Seq<Sighting>, s: State, uses: Seq<ValueUse>, n: nat)
    ensures
        s.value_uses(uses, n).muted(pre) == s.muted(pre).value_uses(uses, n),
    decreases n,
{
    reveal(State::value_uses);
    if n > 0 {
        lemma_value_uses(pre, s, uses, (n - 1) as nat);
        let t = s.value_uses(uses, (n - 1) as nat);
        let u = uses[n - 1];
        assert(t.refer(u.span, u.kind, defid_at(u.def)).muted(pre) == t.muted(pre).refer(
            u.span,
            u.kind,
            defid_at(u.def),
        ));
    }
}

proof fn lemma_type_uses(pre: Seq<Sighting>, s: State, key: StrId, uses: Seq<TypeUse>, n: nat)
    ensures
        s.type_uses(key, uses, n).muted(pre) == s.muted(pre).type_uses(key, uses, n),
    decreases n,
{
    reveal(State::type_uses);
    if n > 0 {
        lemma_type_uses(pre, s, key, uses, (n - 1) as nat);
    }
}

proof fn lemma_bind_import(
    pre: Seq<Sighting>,
    post: Seq<Sighting>,
    s: State,
    t: State,
    imp: ImportDecl,
)
    requires
        s.muted(pre) == t.muted(post),
    ensures
        s.bind_import(imp).muted(pre) == t.bind_import(imp).muted(post),
{
    assert(s.muted(pre).refs.current == t.muted(post).refs.current);
    assert(s.muted(pre).world == t.muted(post).world);
    let (u, v) = (s.bind_module(imp), t.bind_module(imp));
    assert(u.muted(pre) == s.muted(pre).bind_module(imp));
    assert(v.muted(post) == t.muted(post).bind_module(imp));
    lemma_items(pre, post, imp.key, imp.items@, imp.items@.len(), u, v);
    let i = items(imp.key, imp.items@, imp.items@.len(), u);
    let k = items(imp.key, imp.items@, imp.items@.len(), v);
    lemma_value_uses(pre, i.s, i.values, i.values.len());
    lemma_value_uses(post, k.s, i.values, i.values.len());
    let a = i.s.value_uses(i.values, i.values.len());
    let b = k.s.value_uses(i.values, i.values.len());
    lemma_type_uses(pre, a, imp.key, i.types, i.types.len());
    lemma_type_uses(post, b, imp.key, i.types, i.types.len());
}

proof fn lemma_faults(
    pre: Seq<Sighting>,
    s: State,
    key: StrId,
    faults: Seq<ParseFault>,
    n: nat,
    at: Span,
)
    ensures
        s.faults(key, faults, n, at).muted(pre) == s.muted(pre).faults(key, faults, n, at),
    decreases n,
{
    reveal(State::faults);
    if n > 0 {
        lemma_faults(pre, s, key, faults, (n - 1) as nat, at);
    }
}

// ---- modules -------------------------------------------------------------------

proof fn lemma_leave_module(pre: Seq<Sighting>, s: State, outer: State)
    ensures
        s.leave_module(outer).muted(pre) == s.muted(pre).leave_module(outer.muted(pre)),
{
    reveal(State::muted);
    reveal(State::leave_module);
}

/// Where a module began is not kept.
proof fn lemma_keep_module(
    pre: Seq<Sighting>,
    s: State,
    key: StrId,
    iface: Interface,
    refs: References,
    mark: Option<Watermark>,
)
    ensures
        s.keep_module(key, iface, refs, mark).muted(pre) == s.muted(pre).keep_module(
            key,
            iface,
            refs,
            None,
        ),
{
    reveal(State::muted);
    reveal(State::keep_module);
}

proof fn lemma_load(
    pre: Seq<Sighting>,
    sources: Seq<Source>,
    loading: Seq<StrId>,
    key: StrId,
    at: Span,
    s: State,
    t: State,
)
    requires
        s.muted(pre) == t.muted(pre),
    ensures
        load(sources, loading, key, at, s).0.muted(pre)
            == load(sources, loading, key, at, t).0.muted(pre),
        load(sources, loading, key, at, s).1 == load(sources, loading, key, at, t).1,
    decreases sources.len() - loading.len(), 0nat, 0nat,
{
    assert(s.muted(pre).known.modules == t.muted(pre).known.modules);
    if !s.known.modules.dom().contains(key) && !loading.contains(key) {
        if let Some(i) = source_place(sources, 0, key) {
            if let Found::Parsed { body, faults } = sources[i as int].found {
                if loading.len() < sources.len() {
                    let u = s.faults(key, faults@, faults@.len(), at);
                    let v = t.faults(key, faults@, faults@.len(), at);
                    lemma_faults(pre, s, key, faults@, faults@.len(), at);
                    lemma_faults(pre, t, key, faults@, faults@.len(), at);
                    lemma_module(pre, sources, loading.push(key), sources[i as int], body@, u, v);
                }
            }
        }
    }
}

proof fn lemma_module(
    pre: Seq<Sighting>,
    sources: Seq<Source>,
    loading: Seq<StrId>,
    source: Source,
    body: Seq<Node>,
    s: State,
    t: State,
)
    requires
        s.muted(pre) == t.muted(pre),
    ensures
        module_body(sources, loading, source, body, s).muted(pre) == module_body(
            sources,
            loading,
            source,
            body,
            t,
        ).muted(pre),
    decreases sources.len() - loading.len(), 3nat, 0nat,
{
    let s0 = s.enter_module(source.key, source.origin);
    let t0 = t.enter_module(source.key, source.origin);
    assert(s0.muted(pre) == t0.muted(pre));
    lemma_imports(pre, sources, loading, body, 0, s0, t0);
    let s1 = imports(sources, loading, body, 0, s0);
    let t1 = imports(sources, loading, body, 0, t0);
    assert(s1.muted(pre).known.bases == t1.muted(pre).known.bases);
    assert(s1.muted(pre).known.high == t1.muted(pre).known.high);
    assert(s1.muted(pre).known.next == t1.muted(pre).known.next);
    assert(s1.base_for(source.key) == t1.base_for(source.key));
    let reused = s1.known.bases.dom().contains(source.key);
    let s2 = s1.reserve_ids(source.key).push_env();
    let t2 = t1.reserve_ids(source.key).push_env();
    assert(s2.muted(pre) == t2.muted(pre));
    lemma_analysed(pre, pre, body, true, s2, t2);
    let x = analysed(body, true, s2);
    let y = analysed(body, true, t2);
    let s3 = x.s.pop_env().note_ids(s1.base_for(source.key), reused);
    let t3 = y.s.pop_env().note_ids(s1.base_for(source.key), reused);
    assert(x.muted(pre) == y.muted(pre));
    assert(s3.muted(pre) == t3.muted(pre));
    assert(s3.muted(pre).refs == t3.muted(pre).refs);
    lemma_leave_module(pre, s3, s);
    lemma_leave_module(pre, t3, t);
    let m = if source.origin == Origin::User {
        Some(s1.reserve_ids(source.key).watermark())
    } else {
        None
    };
    let n = if source.origin == Origin::User {
        Some(t1.reserve_ids(source.key).watermark())
    } else {
        None
    };
    lemma_keep_module(pre, s3.leave_module(s), source.key, x.iface, s3.collected(), m);
    lemma_keep_module(pre, t3.leave_module(t), source.key, y.iface, t3.collected(), n);
}

pub proof fn lemma_imports(
    pre: Seq<Sighting>,
    sources: Seq<Source>,
    loading: Seq<StrId>,
    body: Seq<Node>,
    i: nat,
    s: State,
    t: State,
)
    requires
        s.muted(pre) == t.muted(pre),
    ensures
        imports(sources, loading, body, i, s).muted(pre) == imports(
            sources,
            loading,
            body,
            i,
            t,
        ).muted(pre),
    decreases sources.len() - loading.len(), 2nat, body.len() - i,
{
    if i < body.len() {
        if let Node::Statement(Statement::Import(imp)) = body[i as int] {
            let u = import(sources, loading, imp, s);
            let v = import(sources, loading, imp, t);
            lemma_import(pre, sources, loading, imp, s, t);
            lemma_imports(pre, sources, loading, body, i + 1, u, v);
        }
    }
}

proof fn lemma_import(
    pre: Seq<Sighting>,
    sources: Seq<Source>,
    loading: Seq<StrId>,
    imp: ImportDecl,
    s: State,
    t: State,
)
    requires
        s.muted(pre) == t.muted(pre),
    ensures
        import(sources, loading, imp, s).muted(pre) == import(sources, loading, imp, t).muted(pre),
    decreases sources.len() - loading.len(), 1nat, 0nat,
{
    lemma_load(pre, sources, loading, imp.key, imp.span, s, t);
    lemma_bind_import(
        pre,
        pre,
        load(sources, loading, imp.key, imp.span, s).0,
        load(sources, loading, imp.key, imp.span, t).0,
        imp,
    );
}

proof fn lemma_entry(pre: Seq<Sighting>, e: Expr, sources: Seq<Source>, s: State, t: State)
    requires
        s.muted(pre) == t.muted(pre),
    ensures
        entry_module(e, sources, s).muted(pre) == entry_module(e, sources, t).muted(pre),
{
    reveal(entry_module);
    match e {
        Expr::Block { body, .. } => {
            lemma_imports(pre, sources, Seq::empty(), body@, 0, s, t);
            let u = imports(sources, Seq::empty(), body@, 0, s).skip_ids();
            let v = imports(sources, Seq::empty(), body@, 0, t).skip_ids();
            assert(u.muted(pre) == v.muted(pre));
            lemma_analysed(pre, pre, body@, false, u, v);
            assert(analysed(body@, false, u).muted(pre) == analysed(body@, false, v).muted(pre));
        },
        _ => {
            lemma_expr(pre, e, s);
            lemma_expr(pre, e, t);
        },
    }
}

// ---- the prelude ---------------------------------------------------------------

proof fn lemma_adopt(pre: Seq<Sighting>, s: State, key: StrId)
    ensures
        s.adopt(key).muted(pre) == s.muted(pre).adopt(key),
{
    reveal(State::muted);
    reveal(State::adopt);
}

proof fn lemma_bind_prelude(pre: Seq<Sighting>, s: State, b: PreludeBindings)
    ensures
        s.bind_prelude(b).muted(pre) == s.muted(pre).bind_prelude(b),
{
    reveal(State::muted);
    reveal(State::bind_prelude);
}

/// Whether two scopes say the same of every name of the prelude.
spec fn agree(a: PreludeScope, b: PreludeScope) -> bool {
    &&& forall|p: PreludeType| #[trigger] captured_type(a, p) == captured_type(b, p)
    &&& forall|c: PreludeCtor| #[trigger] ctor_in_scope(a, c) == ctor_in_scope(b, c)
}

proof fn lemma_scopes(pre: Seq<Sighting>, a: PreludeScope, b: PreludeScope, s: State, t: State)
    requires
        s.muted(pre) == t.muted(pre),
        scope_of(a, s),
        scope_of(b, t),
    ensures
        agree(a, b),
{
    let m = s.muted(pre);
    assert(s.known.types == m.known.types && t.known.types == m.known.types);
    assert(s.known.infos == m.known.infos && t.known.infos == m.known.infos);
    assert(s.world == m.world && t.world == m.world);
    assert(s.env == m.env && t.env == m.env);
    assert forall|p: PreludeType| #[trigger] captured_type(a, p) == captured_type(b, p) by {
        assert(s.scope_type(type_name_of(p)@) == t.scope_type(type_name_of(p)@));
    }
    assert forall|c: PreludeCtor| #[trigger] ctor_in_scope(a, c) == ctor_in_scope(b, c) by {
        let p = ctor_type_of(c);
        assert(captured_type(a, p) == captured_type(b, p));
        reveal(State::lookup);
        assert(s.scope_value(ctor_name_of(c)@) == t.scope_value(ctor_name_of(c)@));
    }
}

proof fn lemma_first_fault(pre: Seq<Sighting>, a: PreludeScope, b: PreludeScope, n: nat)
    requires
        agree(a, b),
    ensures
        first_fault(a, n) == first_fault(b, n),
    decreases 16 - n,
{
    if n < 9 {
        assert(captured_type(a, type_order()[n as int]) == captured_type(b, type_order()[n as int]));
        lemma_first_fault(pre, a, b, n + 1);
    } else if n < 16 {
        assert(ctor_in_scope(a, ctor_order()[n - 9]) == ctor_in_scope(b, ctor_order()[n - 9]));
        lemma_first_fault(pre, a, b, n + 1);
    }
}

proof fn lemma_same_bindings(
    pre: Seq<Sighting>,
    x: PreludeBindings,
    y: PreludeBindings,
    a: PreludeScope,
    b: PreludeScope,
)
    requires
        agree(a, b),
        holds_scope(x, a) && named(x),
        holds_scope(y, b) && named(y),
    ensures
        x == y,
{
    assert(captured_type(a, PreludeType::Int) == captured_type(b, PreludeType::Int));
    assert(captured_type(a, PreludeType::Float) == captured_type(b, PreludeType::Float));
    assert(captured_type(a, PreludeType::String) == captured_type(b, PreludeType::String));
    assert(captured_type(a, PreludeType::Bool) == captured_type(b, PreludeType::Bool));
    assert(captured_type(a, PreludeType::Array) == captured_type(b, PreludeType::Array));
    assert(captured_type(a, PreludeType::Binary) == captured_type(b, PreludeType::Binary));
    assert(captured_type(a, PreludeType::Nil) == captured_type(b, PreludeType::Nil));
    assert(captured_type(a, PreludeType::Option) == captured_type(b, PreludeType::Option));
    assert(captured_type(a, PreludeType::Result) == captured_type(b, PreludeType::Result));
    assert(ctor_in_scope(a, PreludeCtor::TrueCtor) == ctor_in_scope(b, PreludeCtor::TrueCtor));
    assert(ctor_in_scope(a, PreludeCtor::FalseCtor) == ctor_in_scope(b, PreludeCtor::FalseCtor));
    assert(ctor_in_scope(a, PreludeCtor::NilCtor) == ctor_in_scope(b, PreludeCtor::NilCtor));
    assert(ctor_in_scope(a, PreludeCtor::SomeCtor) == ctor_in_scope(b, PreludeCtor::SomeCtor));
    assert(ctor_in_scope(a, PreludeCtor::NoneCtor) == ctor_in_scope(b, PreludeCtor::NoneCtor));
    assert(ctor_in_scope(a, PreludeCtor::OkCtor) == ctor_in_scope(b, PreludeCtor::OkCtor));
    assert(ctor_in_scope(a, PreludeCtor::ErrCtor) == ctor_in_scope(b, PreludeCtor::ErrCtor));
}

/// Capturing the prelude comes to the same, whatever scope says what is in it.
proof fn lemma_captures(pre: Seq<Sighting>, s: State, t: State, u: State, v: State)
    requires
        s.muted(pre) == t.muted(pre),
        captures(s, u),
        captures(t, v),
    ensures
        u.muted(pre) == v.muted(pre),
{
    let a = choose|scope: PreludeScope| #[trigger]
        scope_of(scope, s) && (match first_fault(scope, 0) {
            Some(e) => u == s.error(Message::Prelude { fault: e }, nowhere()),
            None => exists|b: PreludeBindings|
                holds_scope(b, scope) && named(b) && u == #[trigger] s.bind_prelude(b),
        });
    let b = choose|scope: PreludeScope| #[trigger]
        scope_of(scope, t) && (match first_fault(scope, 0) {
            Some(e) => v == t.error(Message::Prelude { fault: e }, nowhere()),
            None => exists|b: PreludeBindings|
                holds_scope(b, scope) && named(b) && v == #[trigger] t.bind_prelude(b),
        });
    lemma_scopes(pre, a, b, s, t);
    lemma_first_fault(pre, a, b, 0);
    if first_fault(a, 0) is None {
        let x = choose|x: PreludeBindings|
            holds_scope(x, a) && named(x) && u == #[trigger] s.bind_prelude(x);
        let y = choose|y: PreludeBindings|
            holds_scope(y, b) && named(y) && v == #[trigger] t.bind_prelude(y);
        lemma_same_bindings(pre, x, y, a, b);
        lemma_bind_prelude(pre, s, x);
        lemma_bind_prelude(pre, t, x);
    }
}

proof fn lemma_seed_slots(pre: Seq<Sighting>, s: State, slots: Seq<StrId>, n: nat)
    ensures
        s.seed_slots(slots, n).muted(pre) == s.muted(pre).seed_slots(slots, n),
    decreases n,
{
    reveal(State::seed_slots);
    if n > 0 {
        lemma_seed_slots(pre, s, slots, (n - 1) as nat);
    }
}

proof fn lemma_seed_values(pre: Seq<Sighting>, s: State, values: Seq<(StrId, Binding)>, n: nat)
    ensures
        s.seed_values(values, n).muted(pre) == s.muted(pre).seed_values(values, n),
    decreases n,
{
    reveal(State::seed_values);
    if n > 0 {
        lemma_seed_values(pre, s, values, (n - 1) as nat);
    }
}

proof fn lemma_seeded(pre: Seq<Sighting>, s: State, t: State, seed: Seed)
    requires
        s.muted(pre) == t.muted(pre),
    ensures
        s.seeded(seed).muted(pre) == t.seeded(seed).muted(pre),
{
    let u = s.seed_known(seed);
    let v = t.seed_known(seed);
    assert(u.muted(pre) == v.muted(pre)) by {
        reveal(State::muted);
        reveal(State::seed_known);
    }
    lemma_seed_slots(pre, u, seed.slots@, seed.slots@.len());
    lemma_seed_slots(pre, v, seed.slots@, seed.slots@.len());
    lemma_seed_values(
            pre,
        u.seed_slots(seed.slots@, seed.slots@.len()),
        seed.values@,
        seed.values@.len(),
    );
    lemma_seed_values(
            pre,
        v.seed_slots(seed.slots@, seed.slots@.len()),
        seed.values@,
        seed.values@.len(),
    );
}

proof fn lemma_prelude(
    pre: Seq<Sighting>,
    prelude: PreludeFrom,
    sources: Seq<Source>,
    s: State,
    t: State,
    u: State,
    v: State,
)
    requires
        s.muted(pre) == t.muted(pre),
        prelude_taken(prelude, sources, s, u),
        prelude_taken(prelude, sources, t, v),
    ensures
        u.muted(pre) == v.muted(pre),
{
    match prelude {
        PreludeFrom::Itself => {},
        PreludeFrom::Library(seed) => lemma_seeded(pre, s, t, seed),
        PreludeFrom::Module(key) => {
            reveal(prelude_from);
            lemma_load(pre, sources, Seq::empty(), key, nowhere(), s, t);
            let (x, ok) = load(sources, Seq::empty(), key, nowhere(), s);
            let (y, _) = load(sources, Seq::empty(), key, nowhere(), t);
            assert(x.muted(pre).known.modules == y.muted(pre).known.modules);
            if ok && x.known.modules.dom().contains(key) {
                lemma_adopt(pre, x, key);
                lemma_adopt(pre, y, key);
                lemma_captures(pre, x.adopt(key), y.adopt(key), u, v);
            }
        },
    }
}

// ---- laws ----------------------------------------------------------------------

/// What a program is told, what its scopes hold and what has been collected of it do not
/// depend on what is produced: two states that differ in nothing else lead to the same.
pub proof fn law_output_decides_nothing(e: Expr, sources: Seq<Source>, s: State, t: State)
    requires
        t == (State { out: t.out, ..s }),
    ensures
        ({
            let u = entry_module(e, sources, s);
            let v = entry_module(e, sources, t);
            &&& u.diags == v.diags
            &&& u.labels == v.labels
            &&& u.env == v.env
            &&& u.collected() == v.collected()
            &&& u.refs.seen == v.refs.seen
            &&& u.known.types == v.known.types
            &&& u.known.modules == v.known.modules
            &&& u.known.stored == v.known.stored
            &&& u.world == v.world
        }),
{
    let pre = Seq::<Sighting>::empty();
    assert(s.muted(pre) == t.muted(pre)) by {
        reveal(State::muted);
    }
    lemma_entry(pre, e, sources, s, t);
    let u = entry_module(e, sources, s).muted(pre);
    assert(u == entry_module(e, sources, t).muted(pre));
    assert(u.diags == entry_module(e, sources, s).diags);
    let (a, b) = (entry_module(e, sources, s).refs.seen, entry_module(e, sources, t).refs.seen);
    assert(pre + a =~= a && pre + b =~= b);
}

/// A check and a compilation of one program, behind the same prelude, say the same: as
/// many reports, each of the same place, severity and wording; and where one succeeds,
/// so does the other.
pub proof fn law_a_check_says_what_a_compilation_says(
    e: Expr,
    sources: Seq<Source>,
    world: World,
    module: StrId,
    origin: Origin,
    prelude: PreludeFrom,
    s: State,
    built: CompileResult,
    t: State,
    checked: CompileResult,
)
    requires
        starts(s, world, module, origin, false),
        compiled(built, e, sources, prelude, s),
        starts(t, world, module, origin, true),
        compiled(checked, e, sources, prelude, t),
    ensures
        built.success == checked.success,
        built.diagnostics@.len() == checked.diagnostics@.len(),
        forall|i: int|
            0 <= i < built.diagnostics@.len() ==> {
                let (a, b) = (#[trigger] built.diagnostics@[i], checked.diagnostics@[i]);
                &&& a.span == b.span
                &&& a.severity == b.severity
                &&& a.message@ == b.message@
            },
{
    let pre = Seq::<Sighting>::empty();
    assert(s.muted(pre) == t.muted(pre)) by {
        reveal(State::muted);
    }
    let u = choose|u: State| #[trigger]
        prelude_taken(prelude, sources, s, u) && behind(built, e, sources, prelude, s, u);
    let v = choose|v: State| #[trigger]
        prelude_taken(prelude, sources, t, v) && behind(checked, e, sources, prelude, t, v);
    lemma_prelude(pre, prelude, sources, s, t, u, v);
    assert(u.muted(pre).diags == v.muted(pre).diags);
    assert(u.muted(pre).labels == v.muted(pre).labels);
    assert(u.muted(pre).world == v.muted(pre).world);
    lemma_entry(pre, e, sources, u, v);
    let x = entry_module(e, sources, u);
    let y = entry_module(e, sources, v);
    assert(x.muted(pre).diags == y.muted(pre).diags);
    assert(x.muted(pre).labels == y.muted(pre).labels);
    assert(x.muted(pre).world == y.muted(pre).world);
    reveal(State::push);
    reveal(State::close_main);
}

/// What a result holds once the prelude has been taken.
spec fn behind(
    r: CompileResult,
    e: Expr,
    sources: Seq<Source>,
    prelude: PreludeFrom,
    s: State,
    t: State,
) -> bool {
    if !(prelude is Itself) && any_error(t.diags) {
        result_of(r, t, false) && is_blank(r.references, t.world.main)
    } else {
        let u = entry_module(e, sources, t).emit(Op::Halt).close_main();
        result_of(r, u, !s.out.check_only) && workspace_of(r.references, u)
    }
}

} // verus!

//! What compiling leaves alone.
//!
//! Every step of the compiler leaves the scopes it did not open as they were, never
//! takes a diagnostic back, and produces nothing while only checking.
use crate::ast::{Ident, Span, StrId};
use crate::diag::Message;
use crate::op::{ConstView, FunctionView, Instruction, Op};
use crate::refs::{DefId, ReferenceKind};
use crate::state::{unwound, used, Binding, Locals, State, VarAccess};
use vstd::prelude::*;

verus! {

/// Whether one list begins with another.
pub open spec fn begins_with<T>(longer: Seq<T>, shorter: Seq<T>) -> bool {
    shorter.len() <= longer.len() && longer.take(shorter.len() as int) == shorter
}

/// Whether compiling went from one state to another without touching what is not
/// its own: the world, what is known of types and modules, the diagnostics and
/// labels so far, and the module being compiled. While only checking the output
/// stays as it is.
#[verifier::opaque]
pub open spec fn steady(s: State, t: State) -> bool {
    &&& t.world == s.world
    &&& t.known == s.known
    &&& t.out.check_only == s.out.check_only
    &&& s.out.check_only ==> t.out == s.out
    &&& begins_with(t.diags, s.diags)
    &&& begins_with(t.labels, s.labels)
    &&& t.refs.module == s.refs.module
    &&& t.refs.current == s.refs.current
    &&& t.refs.owner == s.refs.owner
    &&& t.refs.collect == s.refs.collect
    &&& t.loc.walking == s.loc.walking
    &&& s.loc.next_self is None ==> t.loc.next_self is None
}

/// Whether an instruction gives up its frame for that of a function.
pub open spec fn gives_up(o: Op) -> bool {
    o == Op::TailCall || o == Op::TailCallSelf
}

/// Whether an address is in a function entered behind the first `from`.
pub open spec fn in_function(fns: Seq<FunctionView>, from: nat, i: int) -> bool {
    exists|k: int|
        from <= k < fns.len() && (#[trigger] fns[k]).code_start <= i < fns[k].code_start
            + fns[k].code_len
}

/// Whether the code that was added gives up no frame but those of the functions that were
/// entered with it, unless it stands in tail position. No operation emitted before has
/// become another.
pub open spec fn own_calls(s: State, t: State) -> bool {
    &&& s.out.code.len() <= t.out.code.len()
    &&& forall|i: int|
        0 <= i < s.out.code.len() ==> #[trigger] t.out.code[i].op == s.out.code[i].op
    &&& begins_with(t.out.fns, s.out.fns)
    &&& t.out.code.len() <= i32::MAX ==> forall|i: int|
        s.out.code.len() <= i < t.out.code.len() && gives_up(#[trigger] t.out.code[i].op)
            ==> s.loc.tail || in_function(t.out.fns, s.out.fns.len(), i)
}

/// Whether two states are in the same blocks, and the names bound since in the
/// innermost one can be unbound again.
#[verifier::opaque]
pub open spec fn same_block(s: State, t: State) -> bool {
    &&& t.loc.marks == s.loc.marks
    &&& t.loc.outer == s.loc.outer
    &&& t.loc.overrides == s.loc.overrides
    &&& t.loc.tail ==> s.loc.tail
    &&& own_calls(s, t)
    &&& t.loc.binding == s.loc.binding
    &&& s.loc.outer.len() == 0 ==> t.loc.captures == s.loc.captures && t.loc.capture_names
        == s.loc.capture_names
    &&& t.unused.len() == s.unused.len()
    &&& t.env.len() == s.env.len()
    &&& s.env.len() > 0 ==> t.env.drop_last() == s.env.drop_last()
    &&& s.env.len() > 1 ==> t.rooted == s.rooted
    &&& begins_with(t.loc.undo, s.loc.undo)
    &&& s.loc.marks.len() > 0 ==> unwound(t.loc.map, t.loc.undo, s.loc.undo.len()) == s.loc.map
}

/// Whether two states are in the same scope: every name is bound to the same slot
/// and denotes the same thing.
#[verifier::opaque]
pub open spec fn same_scope(s: State, t: State) -> bool {
    &&& t.loc.marks == s.loc.marks
    &&& t.loc.outer == s.loc.outer
    &&& t.loc.overrides == s.loc.overrides
    &&& t.loc.tail ==> s.loc.tail
    &&& own_calls(s, t)
    &&& t.loc.binding == s.loc.binding
    &&& s.loc.outer.len() == 0 ==> t.loc.captures == s.loc.captures && t.loc.capture_names
        == s.loc.capture_names
    &&& t.unused.len() == s.unused.len()
    &&& t.env == s.env
    &&& s.env.len() > 0 ==> t.rooted == s.rooted
    &&& t.loc.undo == s.loc.undo
    &&& t.loc.map == s.loc.map
}

/// Whether compiling left the scope as it was.
pub open spec fn leaves(s: State, t: State) -> bool {
    steady(s, t) && same_scope(s, t)
}

/// Whether compiling added to the innermost block at most.
pub open spec fn extends(s: State, t: State) -> bool {
    steady(s, t) && same_block(s, t)
}

proof fn lemma_begins<T>(a: Seq<T>, b: Seq<T>, c: Seq<T>)
    requires
        begins_with(b, a),
        begins_with(c, b),
    ensures
        begins_with(c, a),
{
    assert(c.take(a.len() as int) =~= c.take(b.len() as int).take(a.len() as int));
}

/// Unwinding in two goes is unwinding in one.
pub proof fn lemma_unwound<V>(map: Map<StrId, V>, undo: Seq<(StrId, Option<V>)>, k: nat, m: nat)
    requires
        k <= m <= undo.len(),
    ensures
        unwound(map, undo, k) == unwound(unwound(map, undo, m), undo.take(m as int), k),
    decreases undo.len(),
{
    if undo.len() == m {
        assert(undo.take(m as int) =~= undo);
    } else {
        let back = match undo.last().1 {
            Some(prev) => map.insert(undo.last().0, prev),
            None => map.remove(undo.last().0),
        };
        lemma_unwound(back, undo.drop_last(), k, m);
        assert(undo.drop_last().take(m as int) =~= undo.take(m as int));
    }
}

// ---- going on ----------------------------------------------------------------

pub broadcast proof fn lemma_leaves_self(s: State)
    ensures
        #[trigger] leaves(s, s),
{
    reveal(steady);
    reveal(same_scope);
    assert(s.diags.take(s.diags.len() as int) =~= s.diags);
    assert(s.labels.take(s.labels.len() as int) =~= s.labels);
    assert(s.out.fns.take(s.out.fns.len() as int) =~= s.out.fns);
}

proof fn lemma_own_calls_on(a: State, b: State, c: State)
    requires
        own_calls(a, b),
        own_calls(b, c),
        b.loc.tail ==> a.loc.tail,
    ensures
        own_calls(a, c),
{
    lemma_begins(a.out.fns, b.out.fns, c.out.fns);
    assert forall|i: int| 0 <= i < a.out.code.len() implies #[trigger] c.out.code[i].op
        == a.out.code[i].op by {
        assert(b.out.code[i].op == a.out.code[i].op);
    }
    if c.out.code.len() <= i32::MAX {
        assert forall|i: int|
            a.out.code.len() <= i < c.out.code.len() && gives_up(
                #[trigger] c.out.code[i].op,
            ) implies a.loc.tail || in_function(c.out.fns, a.out.fns.len(), i) by {
            if i < b.out.code.len() {
                assert(gives_up(b.out.code[i].op));
                if !a.loc.tail {
                    let k = choose|k: int|
                        a.out.fns.len() <= k < b.out.fns.len() && (
                        #[trigger] b.out.fns[k]).code_start <= i < b.out.fns[k].code_start
                            + b.out.fns[k].code_len;
                    assert(c.out.fns.take(b.out.fns.len() as int)[k] == c.out.fns[k]);
                }
            } else if !a.loc.tail {
                let k = choose|k: int|
                    b.out.fns.len() <= k < c.out.fns.len() && (#[trigger] c.out.fns[k]).code_start
                        <= i < c.out.fns[k].code_start + c.out.fns[k].code_len;
                assert(a.out.fns.len() <= k);
            }
        }
    }
}

proof fn lemma_steady_on(a: State, b: State, c: State)
    requires
        steady(a, b),
        steady(b, c),
    ensures
        steady(a, c),
{
    reveal(steady);
    lemma_begins(a.diags, b.diags, c.diags);
    lemma_begins(a.labels, b.labels, c.labels);
}

/// A state to reckon from.
pub open spec fn from_here(s: State) -> bool {
    true
}

pub broadcast proof fn lemma_leaves_on(a: State, b: State, c: State)
    requires
        #[trigger] from_here(a),
        #[trigger] leaves(a, b),
        #[trigger] leaves(b, c),
    ensures
        leaves(a, c),
{
    lemma_steady_on(a, b, c);
    reveal(same_scope);
    lemma_own_calls_on(a, b, c);
}

pub broadcast proof fn lemma_leaves_extends(a: State, b: State)
    requires
        #[trigger] leaves(a, b),
    ensures
        extends(a, b),
{
    reveal(same_scope);
    reveal(same_block);
    assert(b.loc.undo.take(a.loc.undo.len() as int) =~= a.loc.undo);
}

pub broadcast proof fn lemma_extends_on(a: State, b: State, c: State)
    requires
        #[trigger] from_here(a),
        #[trigger] extends(a, b),
        #[trigger] extends(b, c),
    ensures
        extends(a, c),
{
    lemma_steady_on(a, b, c);
    reveal(same_block);
    lemma_own_calls_on(a, b, c);
    lemma_begins(a.loc.undo, b.loc.undo, c.loc.undo);
    if a.loc.marks.len() > 0 {
        lemma_unwound(c.loc.map, c.loc.undo, a.loc.undo.len(), b.loc.undo.len());
    }
}

// ---- steps -------------------------------------------------------------------

pub broadcast proof fn lemma_push(s: State, ins: Instruction)
    requires
        gives_up(ins.op) ==> s.loc.tail,
    ensures
        leaves(s, #[trigger] s.push(ins)),
{
    reveal(steady);
    reveal(same_scope);
    reveal(State::push);
    lemma_leaves_self(s);
}

pub broadcast proof fn lemma_patch(s: State, pos: int)
    ensures
        leaves(s, #[trigger] s.patch(pos)),
{
    reveal(steady);
    reveal(same_scope);
    reveal(State::patch);
    lemma_leaves_self(s);
}

pub broadcast proof fn lemma_patch_all(s: State, at: Seq<usize>, n: nat)
    ensures
        leaves(s, #[trigger] s.patch_all(at, n)),
    decreases n,
{
    reveal(State::patch_all);
    lemma_leaves_self(s);
    if n > 0 {
        let t = s.patch_all(at, (n - 1) as nat);
        lemma_patch_all(s, at, (n - 1) as nat);
        lemma_patch(t, at[n - 1] as int);
        lemma_leaves_on(s, t, t.patch(at[n - 1] as int));
    }
}

pub broadcast proof fn lemma_pool(s: State, c: ConstView)
    ensures
        leaves(s, #[trigger] s.pool(c)),
{
    reveal(steady);
    reveal(same_scope);
    reveal(State::pool);
    lemma_leaves_self(s);
}

pub broadcast proof fn lemma_add_fn(s: State, f: FunctionView)
    ensures
        leaves(s, #[trigger] s.add_fn(f)),
{
    reveal(steady);
    reveal(same_scope);
    reveal(State::add_fn);
    lemma_leaves_self(s);
    assert(s.out.fns.push(f).take(s.out.fns.len() as int) =~= s.out.fns);
}

pub broadcast proof fn lemma_set_tail(s: State, tail: bool)
    requires
        tail ==> s.loc.tail,
    ensures
        leaves(s, #[trigger] s.set_tail(tail)),
{
    reveal(steady);
    reveal(same_scope);
    reveal(State::set_tail);
    lemma_leaves_self(s);
}

/// What is compiled in another position that may stand there leaves what it would in its own,
/// and so does going back to a position.
pub proof fn lemma_positioned(s: State, tail: bool, t: State)
    requires
        tail ==> s.loc.tail,
    ensures
        leaves(s.set_tail(tail), t) ==> leaves(s, t.set_tail(false)),
        extends(s.set_tail(tail), t) ==> extends(s, t.set_tail(false)),
        leaves(s, t) ==> leaves(s, t.set_tail(tail)),
        extends(s, t) ==> extends(s, t.set_tail(tail)),
{
    reveal(steady);
    reveal(same_scope);
    reveal(same_block);
    reveal(State::set_tail);
}

/// The last instruction may give up the frame where the code behind which it stands may.
pub proof fn lemma_push_last(s: State, t: State, ins: Instruction)
    requires
        leaves(s, t),
        gives_up(ins.op) ==> s.loc.tail,
    ensures
        leaves(s, t.push(ins)),
{
    if gives_up(ins.op) {
        let u = t.set_tail(true);
        lemma_positioned(s, true, t);
        assert(u.loc.tail) by {
            reveal(State::set_tail);
        }
        lemma_push(u, ins);
        lemma_leaves_on(s, u, u.push(ins));
        lemma_positioned(s, t.loc.tail, u.push(ins));
        reveal(State::set_tail);
        reveal(State::push);
        reveal(same_scope);
        assert(u.push(ins).set_tail(t.loc.tail) == t.push(ins));
    } else {
        lemma_push(t, ins);
        lemma_leaves_on(s, t, t.push(ins));
    }
}

/// What is compiled outside tail position is the same in it.
pub proof fn lemma_raised(s: State, tail: bool, t: State)
    requires
        !s.loc.tail,
    ensures
        leaves(s, t) ==> leaves(s.set_tail(tail), t),
        extends(s, t) ==> extends(s.set_tail(tail), t),
{
    reveal(steady);
    reveal(same_scope);
    reveal(same_block);
    reveal(State::set_tail);
}

/// What is compiled under a name of its own leaves what it would without.
pub proof fn lemma_named(s: State, name: Option<StrId>, t: State)
    requires
        leaves(s.set_next_self(name), t),
    ensures
        leaves(s, t.set_next_self(s.loc.next_self)),
{
    reveal(steady);
    reveal(same_scope);
    reveal(State::set_next_self);
}

pub broadcast proof fn lemma_take_slot(s: State)
    ensures
        leaves(s, #[trigger] s.take_slot()),
{
    reveal(steady);
    reveal(same_scope);
    reveal(State::take_slot);
    lemma_leaves_self(s);
}

pub broadcast proof fn lemma_take_slots(s: State, n: i32)
    ensures
        leaves(s, #[trigger] s.take_slots(n)),
{
    reveal(steady);
    reveal(same_scope);
    reveal(State::take_slots);
    lemma_leaves_self(s);
}

pub broadcast proof fn lemma_error(s: State, message: Message, span: Span)
    ensures
        leaves(s, #[trigger] s.error(message, span)),
{
    reveal(steady);
    reveal(same_scope);
    reveal(State::error);
    lemma_leaves_self(s);
    let t = s.error(message, span);
    assert(t.diags.take(s.diags.len() as int) =~= s.diags);
}

proof fn lemma_used_len(unused: Seq<Seq<(StrId, Span)>>, n: nat, name: StrId)
    requires
        n <= unused.len(),
    ensures
        used(unused, n, name).len() == unused.len(),
    decreases n,
{
    if n > 0 {
        lemma_used_len(unused, (n - 1) as nat, name);
    }
}

pub broadcast proof fn lemma_track(s: State, name: StrId, span: Span)
    ensures
        leaves(s, #[trigger] s.track(name, span)),
{
    reveal(steady);
    reveal(same_scope);
    reveal(State::track);
    reveal(State::error);
    lemma_leaves_self(s);
    let t = s.track(name, span);
    assert(t.diags.take(s.diags.len() as int) =~= s.diags);
}

pub broadcast proof fn lemma_resolve(s: State, name: StrId)
    ensures
        leaves(s, #[trigger] s.resolve(name)),
{
    reveal(steady);
    reveal(same_scope);
    reveal(State::resolve);
    reveal(State::mark_used);
    lemma_leaves_self(s);
    lemma_used_len(s.unused, s.unused.len(), name);
}

pub broadcast proof fn lemma_mark_used(s: State, name: StrId)
    ensures
        leaves(s, #[trigger] s.mark_used(name)),
{
    reveal(steady);
    reveal(same_scope);
    reveal(State::mark_used);
    lemma_leaves_self(s);
    lemma_used_len(s.unused, s.unused.len(), name);
}

pub broadcast proof fn lemma_refer(s: State, span: Span, kind: ReferenceKind, target: DefId)
    ensures
        leaves(s, #[trigger] s.refer(span, kind, target)),
{
    reveal(steady);
    reveal(same_scope);
    reveal(State::refer);
    lemma_leaves_self(s);
}

pub broadcast proof fn lemma_record(
    s: State,
    qualifier: Option<StrId>,
    id: Ident,
    doc: Option<StrId>,
)
    ensures
        leaves(s, #[trigger] s.record(qualifier, id, doc)),
{
    reveal(steady);
    reveal(same_scope);
    reveal(State::record);
    lemma_leaves_self(s);
}

pub broadcast proof fn lemma_value_def(s: State, span: Span, name: StrId, doc: Option<StrId>)
    ensures
        leaves(s, #[trigger] s.value_def(span, name, doc)),
{
    reveal(steady);
    reveal(same_scope);
    reveal(State::value_def);
    reveal(State::def);
    lemma_leaves_self(s);
}

pub broadcast proof fn lemma_define(s: State, name: StrId, b: Binding)
    ensures
        extends(s, #[trigger] s.define(name, b)),
{
    reveal(steady);
    reveal(same_block);
    reveal(State::define);
    lemma_leaves_self(s);
    lemma_leaves_extends(s, s);
    let t = s.define(name, b);
    if s.env.len() > 0 {
        assert(t.env.drop_last() =~= s.env.drop_last());
    }
}

proof fn lemma_bind_raw_block(l: Locals, name: StrId, slot: i32)
    requires
        l.marks.len() > 0,
    ensures
        unwound(l.bind_raw(name, slot).map, l.bind_raw(name, slot).undo, l.undo.len()) == l.map,
        begins_with(l.bind_raw(name, slot).undo, l.undo),
{
    let t = l.bind_raw(name, slot);
    assert(t.undo.take(l.undo.len() as int) =~= l.undo);
    assert(t.undo.drop_last() =~= l.undo);
    assert(t.undo.len() > l.undo.len());
    let back = match t.undo.last().1 {
        Some(prev) => t.map.insert(t.undo.last().0, prev),
        None => t.map.remove(t.undo.last().0),
    };
    assert(back =~= l.map);
    reveal_with_fuel(unwound, 2);
}

pub broadcast proof fn lemma_bind(s: State, name: StrId, slot: i32)
    ensures
        extends(s, #[trigger] s.bind(name, slot)),
{
    reveal(steady);
    reveal(same_block);
    reveal(State::bind);
    lemma_leaves_self(s);
    lemma_leaves_extends(s, s);
    if s.loc.marks.len() > 0 {
        lemma_bind_raw_block(s.loc, name, slot);
    }
}

pub broadcast proof fn lemma_reserve(s: State, name: StrId)
    ensures
        extends(s, #[trigger] s.reserve(name)),
{
    reveal(State::reserve);
    lemma_leaves_self(s);
    lemma_leaves_extends(s, s);
    let t = s.take_slot();
    lemma_take_slot(s);
    lemma_leaves_extends(s, t);
    lemma_bind(t, name, s.loc.count);
    lemma_extends_on(s, t, t.bind(name, s.loc.count));
    reveal(State::take_slot);
    reveal(State::bind);
    if s.loc.pinned(name) is Some || s.loc.rebinds(name) {
        assert(s.reserve(name) == s);
    } else {
        assert(s.reserve(name) == t.bind(name, s.loc.count));
    }
}

pub broadcast proof fn lemma_bind_idents(s: State, ids: Seq<Ident>, n: nat)
    ensures
        extends(s, #[trigger] s.bind_idents(ids, n)),
    decreases n,
{
    reveal(State::bind_idents);
    lemma_leaves_self(s);
    lemma_leaves_extends(s, s);
    if n > 0 {
        let t = s.bind_idents(ids, (n - 1) as nat);
        lemma_bind_idents(s, ids, (n - 1) as nat);
        lemma_bind_ident(t, ids[n - 1]);
        lemma_extends_on(s, t, t.bind_ident(ids[n - 1]));
    }
}

pub proof fn lemma_bind_ident(s: State, id: Ident)
    ensures
        extends(s, s.bind_ident(id)),
{
    let t = s.reserve(id.name);
    lemma_reserve(s, id.name);
    lemma_register(t, id, None);
    lemma_extends_on(s, t, t.register(id, None));
}

pub proof fn lemma_register(s: State, id: Ident, doc: Option<StrId>)
    ensures
        extends(s, s.register(id, doc)),
{
    let b = s.local_binding(id.span, doc);
    let t = s.define(id.name, b);
    let u = t.track(id.name, id.span);
    let r = u.record(None, id, doc);
    let v = r.value_def(id.span, id.name, doc);
    lemma_define(s, id.name, b);
    lemma_track(t, id.name, id.span);
    lemma_leaves_extends(t, u);
    lemma_record(u, None, id, doc);
    lemma_leaves_extends(u, r);
    lemma_value_def(r, id.span, id.name, doc);
    lemma_leaves_extends(r, v);
    lemma_extends_on(s, t, u);
    lemma_extends_on(s, u, r);
    lemma_extends_on(s, r, v);
}

pub broadcast proof fn lemma_load_captured(s: State, captured: Seq<StrId>, n: nat)
    ensures
        leaves(s, #[trigger] s.load_captured(captured, n)),
    decreases n,
{
    reveal(State::load_captured);
    lemma_leaves_self(s);
    if n > 0 {
        let t = s.load_captured(captured, (n - 1) as nat);
        let u = t.resolve(captured[n - 1]);
        lemma_load_captured(s, captured, (n - 1) as nat);
        lemma_resolve(t, captured[n - 1]);
        lemma_leaves_on(s, t, u);
        if let Some(a) = t.access(captured[n - 1]) {
            lemma_load(u, a);
            lemma_leaves_on(s, u, u.load(a));
        }
    }
}

pub proof fn lemma_load(s: State, a: VarAccess)
    ensures
        leaves(s, s.load(a)),
{
    match a {
        VarAccess::Local(i) => lemma_push(s, crate::op::instr(Op::PushLocal, 0, 0, i)),
        VarAccess::Capture(i) => lemma_push(s, crate::op::instr(Op::PushCapture, 0, 0, i)),
        VarAccess::Global(i) => lemma_push(s, crate::op::instr(Op::PushGlobal, 0, 0, i)),
        VarAccess::Self_ => lemma_push(s, crate::op::instr(Op::PushSelf, 0, 0, 0)),
    }
}

// ---- blocks, pins and functions ----------------------------------------------

/// Opening a block, compiling in it, and closing it leaves the scope as it was:
/// every name bound in the block is bound to what it was bound to before.
pub proof fn lemma_block(s: State, t: State)
    requires
        extends(s.push_block(), t),
    ensures
        leaves(s, t.pop_block()),
{
    reveal(steady);
    reveal(same_scope);
    reveal(same_block);
    reveal(State::push_env);
    reveal(State::pop_env);
    reveal(State::push_locals);
    reveal(State::pop_locals);
    reveal(State::pop_unused);
    let o = s.push_block();
    let u = t.pop_block();
    assert(o.env.drop_last() =~= s.env);
    assert(u.env =~= s.env);
    assert(o.loc.marks.last() == s.loc.undo.len());
    assert(t.loc.marks.drop_last() =~= s.loc.marks);
    assert(u.loc.undo =~= s.loc.undo) by {
        assert(t.loc.undo.take(s.loc.undo.len() as int) == s.loc.undo);
    }
    assert(u.loc.map == s.loc.map);
    assert(u.diags.take(s.diags.len() as int) =~= t.diags.take(s.diags.len() as int));
}

/// Pinning names, compiling, and lifting the pins adds to the innermost block at
/// most.
pub proof fn lemma_pins(s: State, ids: Seq<Ident>, t: State)
    requires
        extends(s.push_pins(ids), t),
    ensures
        extends(s, t.pop_pins()),
{
    reveal(steady);
    reveal(same_block);
    reveal(State::push_pins);
    reveal(State::pop_pins);
    let o = s.push_pins(ids);
    assert(o.loc.overrides.drop_last() =~= s.loc.overrides);
}

/// A function that is closed holds its own tail calls.
proof fn lemma_closed(
    s: State,
    declared: Option<StrId>,
    ret: State,
    w: State,
    name: Seq<char>,
    arity: i32,
)
    requires
        own_calls(s.enter(declared), ret),
        ret.out.check_only == s.out.check_only,
        s.out.check_only ==> ret.out == s.out,
        !s.out.check_only ==> ret.out.code.len() > 0 && ret.out.code.last().op == Op::Ret
            && ret.out.code.len() >= s.out.code.len() + 2,
        ({
            let u = ret.pop_env().pop_unused().patch(s.frame().jump_over as int);
            w == u.add_fn(u.closed_fn(s.frame(), name, arity))
        }),
    ensures
        own_calls(s, w),
{
    let o = s.enter(declared);
    let f = s.frame();
    let u = ret.pop_env().pop_unused().patch(f.jump_over as int);
    reveal(State::enter);
    reveal(State::frame);
    reveal(State::pop_env);
    reveal(State::pop_unused);
    reveal(State::patch);
    reveal(State::add_fn);
    reveal(State::closed_fn);
    let c = u.closed_fn(f, name, arity);
    assert(o.out.fns == s.out.fns);
    if s.out.check_only {
        assert(w.out == s.out);
        lemma_leaves_self(s);
        reveal(same_scope);
    } else {
        assert(w.out.fns == ret.out.fns.push(c));
        assert(w.out.fns.take(s.out.fns.len() as int) =~= ret.out.fns.take(
            s.out.fns.len() as int,
        ));
        assert forall|i: int| 0 <= i < w.out.code.len() implies #[trigger] w.out.code[i].op
            == ret.out.code[i].op by {}
        assert forall|i: int| 0 <= i < s.out.code.len() implies #[trigger] w.out.code[i].op
            == s.out.code[i].op by {
            assert(ret.out.code[i].op == o.out.code[i].op);
        }
        if w.out.code.len() <= i32::MAX {
            assert forall|i: int|
                s.out.code.len() <= i < w.out.code.len() && gives_up(
                    #[trigger] w.out.code[i].op,
                ) implies in_function(w.out.fns, s.out.fns.len(), i) by {
                assert(ret.out.code[s.out.code.len() as int].op == o.out.code[s.out.code.len() as int].op);
                assert(i != s.out.code.len());
                assert(i != w.out.code.len() - 1);
                let k = w.out.fns.len() - 1;
                assert(w.out.fns[k] == c);
                assert(c.code_start == s.out.code.len() + 1);
                assert(c.code_len == w.out.code.len() - s.out.code.len() - 2);
            }
        }
    }
}

/// Entering a function, compiling its body, and closing it leaves the scope as it
/// was.
pub proof fn lemma_function(
    s: State,
    declared: Option<StrId>,
    t: State,
    name: Seq<char>,
    arity: i32,
)
    requires
        extends(s.enter(declared), t),
    ensures
        leaves(s, t.finish(s.frame(), name, arity)),
{
    reveal(State::finish);
    let f = s.frame();
    let ret = t.emit(Op::Ret);
    let closed = ret.pop_env().pop_unused();
    let u = closed.patch(f.jump_over as int);
    let w = u.add_fn(u.closed_fn(f, name, arity));
    let x = w.leave(f);
    assert(leaves(s, x)) by {
        lemma_push(t, crate::op::instr(Op::Ret, 0, 0, 0));
        lemma_leaves_extends(t, ret);
        lemma_extends_on(s.enter(declared), t, ret);
        lemma_patch(closed, f.jump_over as int);
        lemma_add_fn(u, u.closed_fn(f, name, arity));
        lemma_leaves_on(closed, u, w);
        reveal(steady);
        reveal(same_scope);
        reveal(same_block);
        reveal(State::enter);
        reveal(State::frame);
        reveal(State::leave);
        reveal(State::pop_env);
        reveal(State::pop_unused);
        let o = s.enter(declared);
        lemma_leaves_self(s);
        lemma_leaves_self(ret);
        lemma_leaves_self(w);
        assert(steady(s, o));
        assert(closed.diags.take(ret.diags.len() as int) =~= ret.diags);
        assert(steady(ret, closed));
        assert(steady(w, x));
        lemma_steady_on(s, o, ret);
        lemma_steady_on(s, ret, closed);
        lemma_steady_on(s, closed, w);
        lemma_steady_on(s, w, x);
        assert(o.env.drop_last() =~= s.env);
        assert(closed.env =~= s.env);
        assert(w.env == s.env);
        assert(o.loc.outer.drop_last() =~= s.loc.outer);
        assert(x.loc.outer =~= s.loc.outer);
        assert(own_calls(s, x)) by {
            reveal(State::push);
            lemma_closed(s, declared, ret, w, name, arity);
        }
        assert(x.loc.map == s.loc.map);
        assert(x.loc.marks =~= s.loc.marks);
        assert(x.loc.undo =~= s.loc.undo) by {
            assert(ret.loc.undo.take(s.loc.undo.len() as int) == s.loc.undo);
        }
    }
    let names = u.captured();
    let y = x.load_captured(names, names.len());
    lemma_load_captured(x, names, names.len());
    lemma_push(y, crate::op::instr(Op::MakeClosure, 0, 0, x.last_fn()));
    lemma_leaves_on(s, x, y);
    lemma_leaves_on(s, y, y.emit_arg(Op::MakeClosure, x.last_fn()));
}

/// The steps that leave the scope as it was.
pub broadcast group group_steps {
    lemma_leaves_self,
    lemma_leaves_on,
    lemma_leaves_extends,
    lemma_extends_on,
    lemma_push,
    lemma_patch,
    lemma_patch_all,
    lemma_pool,
    lemma_add_fn,
    lemma_set_tail,
    lemma_take_slot,
    lemma_take_slots,
    lemma_error,
    lemma_track,
    lemma_resolve,
    lemma_mark_used,
    lemma_refer,
    lemma_record,
    lemma_value_def,
    lemma_define,
    lemma_bind,
    lemma_reserve,
    lemma_bind_idents,
    lemma_load_captured,
}

} // verus!

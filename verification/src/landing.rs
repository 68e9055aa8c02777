//! Where jumps land.
//!
//! Every jump is emitted before the place it leads to is known, and is patched once
//! that place is reached. When an expression has been compiled all its jumps land in
//! its own code, and nothing that was emitted before has changed.
use crate::ast::{Ident, Span, StrId};
use crate::diag::{Diagnostic, Message};
use crate::gen::Matching;
use crate::op::{ConstView, FunctionView, Instruction, Op};
use crate::refs::{DefId, ReferenceKind};
use crate::scopes::{begins_with, from_here};
use crate::state::{Binding, FrameView, State, VarAccess};
use vstd::prelude::*;

pub mod calls;
pub mod checks;
pub mod exprs;
pub mod matches;
pub mod patterns;
pub mod pieces;
pub mod recover;
pub mod segments;
pub mod statements;

verus! {

/// Whether an instruction leads nowhere before `from` and nowhere behind the code.
pub open spec fn settled(from: nat, code: Seq<Instruction>, i: int) -> bool {
    code[i].op.jumps() ==> from <= code[i].operand <= code.len()
}

/// Whether code has been added between two states, all of whose jumps land in what
/// was added, but for the jumps at the open places. The constants and functions there
/// were are still there. This speaks of code whose addresses fit an operand.
#[verifier::opaque]
pub open spec fn lands_but(s: State, t: State, open: Set<int>) -> bool {
    &&& t.out.check_only == s.out.check_only
    &&& s.out.check_only ==> t.out == s.out
    &&& s.out.code.len() <= t.out.code.len()
    &&& begins_with(t.out.consts, s.out.consts)
    &&& begins_with(t.out.fns, s.out.fns)
    &&& !s.out.check_only && t.out.code.len() <= i32::MAX ==> {
        &&& begins_with(t.out.code, s.out.code)
        &&& forall|i: int|
            s.out.code.len() <= i < t.out.code.len() ==> #[trigger] settled(
                s.out.code.len(),
                t.out.code,
                i,
            ) || open.contains(i)
        &&& forall|i: int| #[trigger]
            open.contains(i) ==> s.out.code.len() <= i < t.out.code.len()
    }
}

/// Whether code has been added between two states, all of whose jumps land in what
/// was added.
pub open spec fn lands(s: State, t: State) -> bool {
    lands_but(s, t, Set::empty())
}

/// The places in a list from `from` on.
pub open spec fn places(list: Seq<usize>, from: nat) -> Set<int> {
    Set::new(|p: int| exists|j: int| from <= j < list.len() && #[trigger] list[j] as int == p)
}

/// Whether code has been added whose only open jumps are those to the failure.
#[verifier::opaque]
pub open spec fn misses(m: Matching, n: Matching) -> bool {
    &&& begins_with(n.fails, m.fails)
    &&& lands_but(m.s, n.s, places(n.fails, m.fails.len()))
}

// ---- going on ------------------------------------------------------------------

proof fn lemma_begins_self<T>(a: Seq<T>)
    ensures
        begins_with(a, a),
{
    assert(a.take(a.len() as int) =~= a);
}

proof fn lemma_begins_on<T>(a: Seq<T>, b: Seq<T>, c: Seq<T>)
    requires
        begins_with(b, a),
        begins_with(c, b),
    ensures
        begins_with(c, a),
{
    assert(c.take(a.len() as int) =~= c.take(b.len() as int).take(a.len() as int));
}

/// A step that produces nothing.
pub proof fn lemma_same_out(s: State, t: State)
    requires
        t.out == s.out,
    ensures
        lands(s, t),
{
    reveal(lands_but);
    lemma_begins_self(s.out.code);
    lemma_begins_self(s.out.consts);
    lemma_begins_self(s.out.fns);
}

pub broadcast proof fn lemma_lands_self(s: State)
    ensures
        #[trigger] lands(s, s),
{
    lemma_same_out(s, s);
}

/// Code behind code leaves open what either leaves open.
pub proof fn lemma_on(a: State, b: State, c: State, first: Set<int>, second: Set<int>)
    requires
        lands_but(a, b, first),
        lands_but(b, c, second),
    ensures
        lands_but(a, c, first.union(second)),
{
    reveal(lands_but);
    lemma_begins_on(a.out.consts, b.out.consts, c.out.consts);
    lemma_begins_on(a.out.fns, b.out.fns, c.out.fns);
    if !a.out.check_only && c.out.code.len() <= i32::MAX {
        lemma_begins_on(a.out.code, b.out.code, c.out.code);
        let open = first.union(second);
        assert forall|i: int|
            a.out.code.len() <= i < c.out.code.len() implies #[trigger] settled(
            a.out.code.len(),
            c.out.code,
            i,
        ) || open.contains(i) by {
            if i < b.out.code.len() {
                assert(c.out.code.take(b.out.code.len() as int)[i] == b.out.code[i]);
                assert(settled(a.out.code.len(), b.out.code, i) || first.contains(i));
            } else {
                assert(settled(b.out.code.len(), c.out.code, i) || second.contains(i));
            }
        }
    }
}

pub broadcast proof fn lemma_lands_on(a: State, b: State, c: State)
    requires
        #[trigger] from_here(a),
        #[trigger] lands(a, b),
        #[trigger] lands(b, c),
    ensures
        lands(a, c),
{
    lemma_on(a, b, c, Set::empty(), Set::empty());
    assert(Set::<int>::empty().union(Set::empty()) =~= Set::<int>::empty());
}

/// Closed code in front of open code.
pub proof fn lemma_lead(a: State, b: State, c: State, open: Set<int>)
    requires
        lands(a, b),
        lands_but(b, c, open),
    ensures
        lands_but(a, c, open),
{
    lemma_on(a, b, c, Set::empty(), open);
    assert(Set::<int>::empty().union(open) =~= open);
}

/// Closed code behind open code.
pub proof fn lemma_trail(a: State, b: State, c: State, open: Set<int>)
    requires
        lands_but(a, b, open),
        lands(b, c),
    ensures
        lands_but(a, c, open),
{
    lemma_on(a, b, c, open, Set::empty());
    assert(open.union(Set::empty()) =~= open);
}

/// An instruction that jumps is open.
pub proof fn lemma_jump(s: State, ins: Instruction)
    ensures
        lands_but(s, s.push(ins), set![s.pos() as int]),
{
    reveal(lands_but);
    reveal(State::push);
    reveal(State::pos);
    let t = s.push(ins);
    lemma_begins_self(s.out.consts);
    lemma_begins_self(s.out.fns);
    assert(s.out.code.push(ins).take(s.out.code.len() as int) =~= s.out.code);
}

/// A jump that is patched is open no more.
pub proof fn lemma_patch(a: State, b: State, open: Set<int>, p: int)
    requires
        lands_but(a, b, open),
        !a.out.check_only && b.out.code.len() <= i32::MAX ==> a.out.code.len() <= p,
    ensures
        lands_but(a, b.patch(p), open.remove(p)),
{
    reveal(lands_but);
    reveal(State::patch);
    let t = b.patch(p);
    if !a.out.check_only && t.out.code.len() <= i32::MAX {
        assert(t.out.code.take(a.out.code.len() as int) =~= a.out.code) by {
            assert(b.out.code.take(a.out.code.len() as int) == a.out.code);
            assert forall|i: int| 0 <= i < a.out.code.len() implies t.out.code[i]
                == a.out.code[i] by {
                assert(b.out.code.take(a.out.code.len() as int)[i] == b.out.code[i]);
            }
        }
        assert forall|i: int|
            a.out.code.len() <= i < t.out.code.len() implies #[trigger] settled(
            a.out.code.len(),
            t.out.code,
            i,
        ) || open.remove(p).contains(i) by {
            assert(settled(a.out.code.len(), b.out.code, i) || open.contains(i));
        }
    }
}

/// Patching an open jump leaves open at most the rest.
pub proof fn lemma_patch_open(a: State, b: State, open: Set<int>, p: int, rest: Set<int>)
    requires
        lands_but(a, b, open),
        open.contains(p),
        forall|i: int| #[trigger] rest.contains(i) ==> open.contains(i),
        forall|i: int| #[trigger] open.contains(i) ==> i == p || rest.contains(i),
    ensures
        lands_but(a, b.patch(p), rest),
{
    assert(!a.out.check_only && b.out.code.len() <= i32::MAX ==> a.out.code.len() <= p) by {
        reveal(lands_but);
    }
    lemma_patch(a, b, open, p);
    reveal(lands_but);
    reveal(State::patch);
    assert forall|i: int| #[trigger] open.remove(p).contains(i) implies rest.contains(i) by {
        assert(open.contains(i));
    }
}

/// Patching all the places of a list leaves open at most the rest.
pub proof fn lemma_patch_list(
    a: State,
    b: State,
    open: Set<int>,
    at: Seq<usize>,
    n: nat,
    rest: Set<int>,
)
    requires
        lands_but(a, b, open),
        n <= at.len(),
        forall|k: int| 0 <= k < n ==> open.contains(#[trigger] at[k] as int),
        forall|p: int| #[trigger] rest.contains(p) ==> open.contains(p),
        forall|p: int| #[trigger]
            open.contains(p) ==> rest.contains(p) || exists|k: int|
                0 <= k < n && #[trigger] at[k] as int == p,
    ensures
        lands_but(a, b.patch_all(at, n), rest),
{
    lemma_patch_prefix(a, b, open, at, n);
    let gone = Set::new(|p: int| exists|k: int| 0 <= k < n && #[trigger] at[k] as int == p);
    let left = open.difference(gone);
    assert forall|p: int| #[trigger] left.contains(p) implies rest.contains(p) by {
        assert(open.contains(p));
    }
    reveal(lands_but);
}

proof fn lemma_patch_prefix(a: State, b: State, open: Set<int>, at: Seq<usize>, n: nat)
    requires
        lands_but(a, b, open),
        n <= at.len(),
        forall|k: int| 0 <= k < n ==> open.contains(#[trigger] at[k] as int),
    ensures
        lands_but(
            a,
            b.patch_all(at, n),
            open.difference(
                Set::new(|p: int| exists|k: int| 0 <= k < n && #[trigger] at[k] as int == p),
            ),
        ),
        b.patch_all(at, n).out.code.len() == b.out.code.len(),
    decreases n,
{
    reveal(State::patch_all);
    let gone = Set::new(|p: int| exists|k: int| 0 <= k < n && #[trigger] at[k] as int == p);
    if n == 0 {
        assert(open.difference(gone) =~= open);
    } else {
        let before = Set::new(
            |p: int| exists|k: int| 0 <= k < n - 1 && #[trigger] at[k] as int == p,
        );
        lemma_patch_prefix(a, b, open, at, (n - 1) as nat);
        let t = b.patch_all(at, (n - 1) as nat);
        let p = at[n - 1] as int;
        assert(!a.out.check_only && t.out.code.len() <= i32::MAX ==> a.out.code.len() <= p) by {
            reveal(lands_but);
            assert(open.contains(p));
        }
        lemma_patch(a, t, open.difference(before), p);
        assert(open.difference(before).remove(p) =~= open.difference(gone));
        reveal(State::patch);
    }
}

// ---- matching ------------------------------------------------------------------

pub broadcast proof fn lemma_misses_self(m: Matching)
    ensures
        #[trigger] misses(m, m),
{
    reveal(misses);
    lemma_begins_self(m.fails);
    lemma_lands_self(m.s);
    assert(places(m.fails, m.fails.len()) =~= Set::<int>::empty());
}

pub broadcast proof fn lemma_misses_on(a: Matching, b: Matching, c: Matching)
    requires
        #[trigger] from_here(a.s),
        #[trigger] misses(a, b),
        #[trigger] misses(b, c),
    ensures
        misses(a, c),
{
    reveal(misses);
    lemma_begins_on(a.fails, b.fails, c.fails);
    let first = places(b.fails, a.fails.len());
    let second = places(c.fails, b.fails.len());
    lemma_on(a.s, b.s, c.s, first, second);
    assert(first.union(second) =~= places(c.fails, a.fails.len())) by {
        assert forall|j: int| 0 <= j < b.fails.len() implies c.fails[j] == b.fails[j] by {
            assert(c.fails.take(b.fails.len() as int)[j] == c.fails[j]);
        }
        assert forall|p: int| places(c.fails, a.fails.len()).contains(p) implies first.union(
            second,
        ).contains(p) by {
            let j = choose|j: int|
                a.fails.len() <= j < c.fails.len() && #[trigger] c.fails[j] as int == p;
            if j < b.fails.len() {
                assert(b.fails[j] as int == p);
            }
        }
        assert forall|p: int| first.union(second).contains(p) implies places(
            c.fails,
            a.fails.len(),
        ).contains(p) by {
            if first.contains(p) {
                let j = choose|j: int|
                    a.fails.len() <= j < b.fails.len() && #[trigger] b.fails[j] as int == p;
                assert(c.fails[j] as int == p);
            }
        }
    }
}

pub broadcast proof fn lemma_at(m: Matching, s: State)
    requires
        lands(m.s, s),
    ensures
        misses(m, #[trigger] m.at(s)),
{
    reveal(misses);
    lemma_begins_self(m.fails);
    assert(places(m.fails, m.fails.len()) =~= Set::<int>::empty());
}

pub broadcast proof fn lemma_fail_if_false(m: Matching)
    ensures
        misses(m, #[trigger] m.fail_if_false()),
{
    reveal(misses);
    let n = m.fail_if_false();
    assert(n.fails.take(m.fails.len() as int) =~= m.fails);
    lemma_jump(m.s, crate::op::instr(Op::JumpIfFalse, 0, 0, 0));
    assert(places(n.fails, m.fails.len()) =~= set![m.s.pos() as int]) by {
        assert(n.fails[m.fails.len() as int] == m.s.pos());
    }
}

pub broadcast proof fn lemma_require(m: Matching, o: Op)
    requires
        !o.jumps(),
    ensures
        misses(m, #[trigger] m.require(o)),
{
    assert(from_here(m.s));
    let n = m.at(m.s.emit(o));
    lemma_push(m.s, crate::op::instr(o, 0, 0, 0));
    lemma_at(m, m.s.emit(o));
    lemma_fail_if_false(n);
    lemma_misses_on(m, n, n.fail_if_false());
}

/// Patching all jumps to a failure closes the code that failed.
pub proof fn lemma_caught(m: Matching, n: Matching, t: State)
    requires
        misses(m, n),
        m.fails.len() == 0,
        lands(n.s, t),
    ensures
        lands(m.s, t.patch_all(n.fails, n.fails.len())),
{
    reveal(misses);
    let open = places(n.fails, 0);
    lemma_trail(m.s, n.s, t, open);
    assert forall|k: int| 0 <= k < n.fails.len() implies open.contains(
        #[trigger] n.fails[k] as int,
    ) by {}
    lemma_patch_list(m.s, t, open, n.fails, n.fails.len(), Set::empty());
}

/// What failed goes on behind a jump over it, which alone is open.
pub proof fn lemma_handed_on(m: Matching, n: Matching, t: State)
    requires
        misses(m, n),
        m.fails.len() == 0,
        lands(n.s, t),
    ensures
        lands_but(
            m.s,
            t.emit_arg(Op::Jump, 0).patch_all(n.fails, n.fails.len()),
            set![t.pos() as int],
        ),
{
    reveal(misses);
    let fails = places(n.fails, 0);
    let over = set![t.pos() as int];
    lemma_trail(m.s, n.s, t, fails);
    lemma_jump(t, crate::op::instr(Op::Jump, 0, 0, 0));
    lemma_on(m.s, t, t.emit_arg(Op::Jump, 0), fails, over);
    assert forall|k: int| 0 <= k < n.fails.len() implies fails.contains(
        #[trigger] n.fails[k] as int,
    ) by {}
    lemma_patch_list(
        m.s,
        t.emit_arg(Op::Jump, 0),
        fails.union(over),
        n.fails,
        n.fails.len(),
        over,
    );
}

// ---- steps ---------------------------------------------------------------------

pub broadcast proof fn lemma_push(s: State, ins: Instruction)
    requires
        !ins.op.jumps(),
    ensures
        lands(s, #[trigger] s.push(ins)),
{
    reveal(lands_but);
    reveal(State::push);
    lemma_begins_self(s.out.consts);
    lemma_begins_self(s.out.fns);
    lemma_begins_self(s.out.code);
    assert(s.out.code.push(ins).take(s.out.code.len() as int) =~= s.out.code);
}

pub broadcast proof fn lemma_pool(s: State, c: ConstView)
    ensures
        lands(s, #[trigger] s.pool(c)),
{
    reveal(lands_but);
    reveal(State::pool);
    lemma_begins_self(s.out.code);
    lemma_begins_self(s.out.fns);
    lemma_begins_self(s.out.consts);
    assert(s.out.consts.push(c).take(s.out.consts.len() as int) =~= s.out.consts);
}

pub broadcast proof fn lemma_add_fn(s: State, f: FunctionView)
    ensures
        lands(s, #[trigger] s.add_fn(f)),
{
    reveal(lands_but);
    reveal(State::add_fn);
    lemma_begins_self(s.out.code);
    lemma_begins_self(s.out.fns);
    lemma_begins_self(s.out.consts);
    assert(s.out.fns.push(f).take(s.out.fns.len() as int) =~= s.out.fns);
}

pub broadcast proof fn lemma_set_tail(s: State, tail: bool)
    ensures
        lands(s, #[trigger] s.set_tail(tail)),
{
    reveal(State::set_tail);
    lemma_same_out(s, s.set_tail(tail));
}

pub broadcast proof fn lemma_set_next_self(s: State, name: Option<StrId>)
    ensures
        lands(s, #[trigger] s.set_next_self(name)),
{
    reveal(State::set_next_self);
    lemma_same_out(s, s.set_next_self(name));
}

pub broadcast proof fn lemma_take_slot(s: State)
    ensures
        lands(s, #[trigger] s.take_slot()),
{
    reveal(State::take_slot);
    lemma_same_out(s, s.take_slot());
}

pub broadcast proof fn lemma_take_slots(s: State, n: i32)
    ensures
        lands(s, #[trigger] s.take_slots(n)),
{
    reveal(State::take_slots);
    lemma_same_out(s, s.take_slots(n));
}

pub broadcast proof fn lemma_error(s: State, message: Message, span: Span)
    ensures
        lands(s, #[trigger] s.error(message, span)),
{
    reveal(State::error);
    lemma_same_out(s, s.error(message, span));
}

pub broadcast proof fn lemma_track(s: State, name: StrId, span: Span)
    ensures
        lands(s, #[trigger] s.track(name, span)),
{
    reveal(State::track);
    reveal(State::error);
    lemma_same_out(s, s.track(name, span));
}

pub broadcast proof fn lemma_resolve(s: State, name: StrId)
    ensures
        lands(s, #[trigger] s.resolve(name)),
{
    reveal(State::resolve);
    reveal(State::mark_used);
    lemma_same_out(s, s.resolve(name));
}

pub broadcast proof fn lemma_mark_used(s: State, name: StrId)
    ensures
        lands(s, #[trigger] s.mark_used(name)),
{
    reveal(State::mark_used);
    lemma_same_out(s, s.mark_used(name));
}

pub broadcast proof fn lemma_refer(s: State, span: Span, kind: ReferenceKind, target: DefId)
    ensures
        lands(s, #[trigger] s.refer(span, kind, target)),
{
    reveal(State::refer);
    lemma_same_out(s, s.refer(span, kind, target));
}

pub broadcast proof fn lemma_record(
    s: State,
    qualifier: Option<StrId>,
    id: Ident,
    doc: Option<StrId>,
)
    ensures
        lands(s, #[trigger] s.record(qualifier, id, doc)),
{
    reveal(State::record);
    lemma_same_out(s, s.record(qualifier, id, doc));
}

pub broadcast proof fn lemma_value_def(s: State, span: Span, name: StrId, doc: Option<StrId>)
    ensures
        lands(s, #[trigger] s.value_def(span, name, doc)),
{
    reveal(State::value_def);
    reveal(State::def);
    lemma_same_out(s, s.value_def(span, name, doc));
}

pub broadcast proof fn lemma_define(s: State, name: StrId, b: Binding)
    ensures
        lands(s, #[trigger] s.define(name, b)),
{
    reveal(State::define);
    lemma_same_out(s, s.define(name, b));
}

pub broadcast proof fn lemma_bind(s: State, name: StrId, slot: i32)
    ensures
        lands(s, #[trigger] s.bind(name, slot)),
{
    reveal(State::bind);
    lemma_same_out(s, s.bind(name, slot));
}

pub broadcast proof fn lemma_reserve(s: State, name: StrId)
    ensures
        lands(s, #[trigger] s.reserve(name)),
{
    reveal(State::reserve);
    lemma_same_out(s, s.reserve(name));
}

pub broadcast proof fn lemma_push_env(s: State)
    ensures
        lands(s, #[trigger] s.push_env()),
{
    reveal(State::push_env);
    lemma_same_out(s, s.push_env());
}

pub broadcast proof fn lemma_pop_env(s: State)
    ensures
        lands(s, #[trigger] s.pop_env()),
{
    reveal(State::pop_env);
    lemma_same_out(s, s.pop_env());
}

pub broadcast proof fn lemma_push_locals(s: State)
    ensures
        lands(s, #[trigger] s.push_locals()),
{
    reveal(State::push_locals);
    lemma_same_out(s, s.push_locals());
}

pub broadcast proof fn lemma_pop_locals(s: State)
    ensures
        lands(s, #[trigger] s.pop_locals()),
{
    reveal(State::pop_locals);
    reveal(State::pop_unused);
    lemma_same_out(s, s.pop_locals());
}

pub broadcast proof fn lemma_pop_unused(s: State)
    ensures
        lands(s, #[trigger] s.pop_unused()),
{
    reveal(State::pop_unused);
    lemma_same_out(s, s.pop_unused());
}

pub broadcast proof fn lemma_push_pins(s: State, ids: Seq<Ident>)
    ensures
        lands(s, #[trigger] s.push_pins(ids)),
{
    reveal(State::push_pins);
    lemma_same_out(s, s.push_pins(ids));
}

pub broadcast proof fn lemma_pop_pins(s: State)
    ensures
        lands(s, #[trigger] s.pop_pins()),
{
    reveal(State::pop_pins);
    lemma_same_out(s, s.pop_pins());
}

pub broadcast proof fn lemma_leave(s: State, f: FrameView)
    ensures
        lands(s, #[trigger] s.leave(f)),
{
    reveal(State::leave);
    lemma_same_out(s, s.leave(f));
}

pub broadcast proof fn lemma_report_all(s: State, reports: Seq<Diagnostic>)
    ensures
        lands(s, #[trigger] s.report_all(reports)),
{
    reveal(State::report_all);
    lemma_same_out(s, s.report_all(reports));
}

pub broadcast proof fn lemma_bind_idents(s: State, ids: Seq<Ident>, n: nat)
    ensures
        lands(s, #[trigger] s.bind_idents(ids, n)),
    decreases n,
{
    reveal(State::bind_idents);
    lemma_lands_self(s);
    if n > 0 {
        let t = s.bind_idents(ids, (n - 1) as nat);
        lemma_bind_idents(s, ids, (n - 1) as nat);
        lemma_bind_ident(t, ids[n - 1]);
        lemma_lands_on(s, t, t.bind_ident(ids[n - 1]));
    }
}

pub proof fn lemma_bind_ident(s: State, id: Ident)
    ensures
        lands(s, s.bind_ident(id)),
{
    let t = s.reserve(id.name);
    lemma_reserve(s, id.name);
    lemma_register(t, id, None);
    lemma_lands_on(s, t, t.register(id, None));
}

pub proof fn lemma_register(s: State, id: Ident, doc: Option<StrId>)
    ensures
        lands(s, s.register(id, doc)),
{
    reveal(State::define);
    reveal(State::track);
    reveal(State::error);
    reveal(State::record);
    reveal(State::value_def);
    reveal(State::def);
    lemma_same_out(s, s.register(id, doc));
}

pub broadcast proof fn lemma_load(s: State, a: VarAccess)
    ensures
        lands(s, #[trigger] s.load(a)),
{
    match a {
        VarAccess::Local(i) => lemma_push(s, crate::op::instr(Op::PushLocal, 0, 0, i)),
        VarAccess::Capture(i) => lemma_push(s, crate::op::instr(Op::PushCapture, 0, 0, i)),
        VarAccess::Global(i) => lemma_push(s, crate::op::instr(Op::PushGlobal, 0, 0, i)),
        VarAccess::Self_ => lemma_push(s, crate::op::instr(Op::PushSelf, 0, 0, 0)),
    }
}

pub broadcast proof fn lemma_load_captured(s: State, captured: Seq<StrId>, n: nat)
    ensures
        lands(s, #[trigger] s.load_captured(captured, n)),
    decreases n,
{
    reveal(State::load_captured);
    lemma_lands_self(s);
    if n > 0 {
        let t = s.load_captured(captured, (n - 1) as nat);
        let u = t.resolve(captured[n - 1]);
        lemma_load_captured(s, captured, (n - 1) as nat);
        lemma_resolve(t, captured[n - 1]);
        lemma_lands_on(s, t, u);
        if let Some(a) = t.access(captured[n - 1]) {
            lemma_load(u, a);
            lemma_lands_on(s, u, u.load(a));
        }
    }
}

// ---- blocks and functions -----------------------------------------------------------------

/// Opening and closing a block emits nothing.
pub proof fn lemma_block(s: State, t: State)
    requires
        lands(s.push_block(), t),
    ensures
        lands(s, t.pop_block()),
{
    let o = s.push_block();
    let u = t.pop_block();
    lemma_push_env(s);
    lemma_push_locals(s.push_env());
    lemma_lands_on(s, s.push_env(), o);
    lemma_pop_locals(t);
    lemma_pop_env(t.pop_locals());
    lemma_lands_on(s, o, t);
    lemma_lands_on(s, t, t.pop_locals());
    lemma_lands_on(s, t.pop_locals(), u);
}

/// The jump past a function's body lands behind the body.
pub proof fn lemma_function(
    s: State,
    declared: Option<StrId>,
    t: State,
    name: Seq<char>,
    arity: i32,
)
    requires
        lands(s.enter(declared), t),
    ensures
        lands(s, t.finish(s.frame(), name, arity)),
{
    reveal(State::finish);
    let f = s.frame();
    let over = s.pos() as int;
    let o = s.enter(declared);
    assert(lands_but(s, o, set![over])) by {
        reveal(State::enter);
        reveal(State::push);
        lemma_jump(s, crate::op::instr(Op::Jump, 0, 0, 0));
        reveal(lands_but);
    }
    let ret = t.emit(Op::Ret);
    lemma_push(t, crate::op::instr(Op::Ret, 0, 0, 0));
    let closed = ret.pop_env().pop_unused();
    lemma_pop_env(ret);
    lemma_pop_unused(ret.pop_env());
    lemma_trail(s, o, t, set![over]);
    lemma_trail(s, t, ret, set![over]);
    lemma_trail(s, ret, ret.pop_env(), set![over]);
    lemma_trail(s, ret.pop_env(), closed, set![over]);
    lemma_patch_open(s, closed, set![over], over, Set::empty());
    assert(f.jump_over as int == over) by {
        reveal(State::frame);
        reveal(State::pos);
    }
    let u = closed.patch(f.jump_over as int);
    let w = u.add_fn(u.closed_fn(f, name, arity));
    let x = w.leave(f);
    let names = u.captured();
    let y = x.load_captured(names, names.len());
    lemma_add_fn(u, u.closed_fn(f, name, arity));
    lemma_leave(w, f);
    lemma_load_captured(x, names, names.len());
    lemma_push(y, crate::op::instr(Op::MakeClosure, 0, 0, x.last_fn()));
    lemma_lands_on(s, u, w);
    lemma_lands_on(s, w, x);
    lemma_lands_on(s, x, y);
    lemma_lands_on(s, y, y.emit_arg(Op::MakeClosure, x.last_fn()));
}

/// The steps that leave no jump open, and what grows from them.
pub broadcast group group_landing {
    lemma_lands_self,
    lemma_lands_on,
    lemma_misses_self,
    lemma_misses_on,
    lemma_at,
    lemma_fail_if_false,
    lemma_require,
    lemma_push,
    lemma_pool,
    lemma_add_fn,
    lemma_set_tail,
    lemma_set_next_self,
    lemma_take_slot,
    lemma_take_slots,
    lemma_error,
    lemma_track,
    lemma_resolve,
    lemma_mark_used,
    lemma_refer,
    lemma_record,
    lemma_value_def,
    lemma_define,
    lemma_bind,
    lemma_reserve,
    lemma_push_env,
    lemma_pop_env,
    lemma_push_locals,
    lemma_pop_locals,
    lemma_pop_unused,
    lemma_push_pins,
    lemma_pop_pins,
    lemma_leave,
    lemma_report_all,
    lemma_bind_idents,
    lemma_load,
    lemma_load_captured,
}

} // verus!

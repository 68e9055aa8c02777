//! Scopes that are opened and closed in turn.
//!
//! Whatever is bound in a scope, and whatever scopes are opened and closed in it, closing
//! it brings back what was bound before.
use crate::ast::StrId;
use crate::scopes::{begins_with, lemma_unwound};
use crate::state::{entry_of, unwound, Locals, State};
use vstd::prelude::*;

verus! {

/// What can happen to the locals of a function between two points of it.
pub enum ScopeStep {
    /// A name is bound to a slot.
    Bind { name: StrId, slot: i32 },
    /// A name gets the slot that a binding of it gets.
    Reserve { name: StrId },
    /// A scope is opened.
    Open,
    /// The innermost scope is closed.
    Close,
}

impl State {
    /// One step.
    pub open spec fn scope_step(self, x: ScopeStep) -> State {
        match x {
            ScopeStep::Bind { name, slot } => self.bind(name, slot),
            ScopeStep::Reserve { name } => self.reserve(name),
            ScopeStep::Open => self.push_locals(),
            ScopeStep::Close => self.pop_locals(),
        }
    }

    /// The first `n` of several steps.
    pub open spec fn scope_steps(self, xs: Seq<ScopeStep>, n: nat) -> State
        decreases n,
    {
        if n == 0 {
            self
        } else {
            self.scope_steps(xs, (n - 1) as nat).scope_step(xs[n - 1])
        }
    }
}

/// How many scopes more are open behind the first `n` steps than before them.
pub open spec fn depth(xs: Seq<ScopeStep>, n: nat) -> int
    decreases n,
{
    if n == 0 {
        0
    } else {
        depth(xs, (n - 1) as nat) + match xs[n - 1] {
            ScopeStep::Open => 1int,
            ScopeStep::Close => -1int,
            _ => 0int,
        }
    }
}

/// Whether every scope that is closed was opened before, and every one that was opened is
/// closed.
pub open spec fn balanced(xs: Seq<ScopeStep>) -> bool {
    &&& depth(xs, xs.len()) == 0
    &&& forall|n: nat| n <= xs.len() ==> #[trigger] depth(xs, n) >= 0
}

/// Whether the locals `t` come from those in a scope just opened, `o`, by binding names in
/// it and in the scopes that have been opened in it, of which there are `d`.
spec fn inside(o: Locals, t: Locals, d: int) -> bool {
    &&& t.outer == o.outer && t.overrides == o.overrides
    &&& begins_with(t.marks, o.marks)
    &&& t.marks.len() == o.marks.len() + d
    &&& o.marks.len() > 0
    &&& begins_with(t.undo, o.undo)
    &&& unwound(t.map, t.undo, o.undo.len()) == o.map
    &&& forall|k: int|
        o.marks.len() <= k < t.marks.len() ==> o.undo.len() <= #[trigger] t.marks[k]
            <= t.undo.len()
    &&& forall|j: int, k: int|
        o.marks.len() <= j <= k < t.marks.len() ==> #[trigger] t.marks[j] <= #[trigger] t.marks[k]
}

proof fn lemma_begins_push<T>(a: Seq<T>, b: Seq<T>, x: T)
    requires
        begins_with(b, a),
    ensures
        begins_with(b.push(x), a),
{
    assert(b.push(x).take(a.len() as int) =~= b.take(a.len() as int));
}

proof fn lemma_begins_take<T>(a: Seq<T>, b: Seq<T>, n: int)
    requires
        begins_with(b, a),
        a.len() <= n <= b.len(),
    ensures
        begins_with(b.take(n), a),
{
    assert(b.take(n).take(a.len() as int) =~= b.take(a.len() as int));
}

proof fn lemma_bind(o: Locals, t: Locals, d: int, name: StrId, slot: i32)
    requires
        inside(o, t, d),
        d >= 0,
    ensures
        inside(o, t.bind(name, slot), d),
{
    let u = t.bind(name, slot);
    lemma_begins_push(o.undo, t.undo, (name, entry_of(t.map, name)));
    assert(u.undo.drop_last() =~= t.undo);
    let back = match u.undo.last().1 {
        Some(prev) => u.map.insert(u.undo.last().0, prev),
        None => u.map.remove(u.undo.last().0),
    };
    assert(back =~= t.map);
    assert(unwound(u.map, u.undo, o.undo.len()) == unwound(t.map, t.undo, o.undo.len()));
}

proof fn lemma_step(o: State, s: State, d: int, x: ScopeStep)
    requires
        inside(o.loc, s.loc, d),
        d >= 0,
        x is Close ==> d > 0,
    ensures
        inside(
            o.loc,
            s.scope_step(x).loc,
            d + match x {
                ScopeStep::Open => 1int,
                ScopeStep::Close => -1int,
                _ => 0int,
            },
        ),
{
    let (l, t) = (o.loc, s.loc);
    match x {
        ScopeStep::Bind { name, slot } => {
            reveal(State::bind);
            lemma_bind(l, t, d, name, slot);
        },
        ScopeStep::Reserve { name } => {
            reveal(State::reserve);
            lemma_bind(l, t.take_slot(), d, name, t.count);
        },
        ScopeStep::Open => {
            reveal(State::push_locals);
            lemma_begins_push(l.marks, t.marks, t.undo.len());
        },
        ScopeStep::Close => {
            reveal(State::pop_locals);
            reveal(State::pop_unused);
            let m = t.marks.last();
            assert(m == t.marks[t.marks.len() - 1]);
            lemma_begins_take(l.marks, t.marks, t.marks.len() - 1);
            assert(t.marks.take(t.marks.len() - 1) =~= t.marks.drop_last());
            lemma_begins_take(l.undo, t.undo, m as int);
            lemma_unwound(t.map, t.undo, l.undo.len(), m);
            let u = s.scope_step(x).loc;
            assert(u.undo =~= t.undo.take(m as int));
            assert forall|k: int| l.marks.len() <= k < u.marks.len() implies l.undo.len()
                <= #[trigger] u.marks[k] <= u.undo.len() by {
                assert(u.marks[k] == t.marks[k]);
                assert(t.marks[k] <= t.marks[t.marks.len() - 1]);
            }
            assert forall|j: int, k: int|
                l.marks.len() <= j <= k < u.marks.len() implies #[trigger] u.marks[j]
                <= #[trigger] u.marks[k] by {
                assert(t.marks[j] <= t.marks[k]);
            }
        },
    }
}

proof fn lemma_steps(o: State, xs: Seq<ScopeStep>, n: nat)
    requires
        n <= xs.len(),
        forall|k: nat| k <= xs.len() ==> #[trigger] depth(xs, k) >= 0,
        inside(o.loc, o.loc, 0),
    ensures
        inside(o.loc, o.scope_steps(xs, n).loc, depth(xs, n)),
    decreases n,
{
    if n > 0 {
        lemma_steps(o, xs, (n - 1) as nat);
        assert(depth(xs, (n - 1) as nat) >= 0);
        assert(depth(xs, n) >= 0);
        lemma_step(o, o.scope_steps(xs, (n - 1) as nat), depth(xs, (n - 1) as nat), xs[n - 1]);
    }
}

/// Opening a scope, binding names in it and in scopes that are opened and closed in it, and
/// closing it brings the locals back: every name has the slot and the depth it had, and the
/// log and the marks are as long as they were. The slots that were handed out stay handed
/// out.
pub proof fn law_scopes_are_undone(s: State, xs: Seq<ScopeStep>)
    requires
        balanced(xs),
    ensures
        ({
            let t = s.push_locals().scope_steps(xs, xs.len());
            let u = t.pop_locals();
            &&& u.loc.map == s.loc.map
            &&& u.loc.undo == s.loc.undo
            &&& u.loc.marks == s.loc.marks
            &&& u.loc.outer == s.loc.outer
            &&& u.loc.count == t.loc.count
        }),
{
    let o = s.push_locals();
    reveal(State::push_locals);
    reveal(State::pop_locals);
    reveal(State::pop_unused);
    assert(o.loc.marks.take(o.loc.marks.len() as int) =~= o.loc.marks);
    assert(o.loc.undo.take(o.loc.undo.len() as int) =~= o.loc.undo);
    lemma_steps(o, xs, xs.len());
    let t = o.scope_steps(xs, xs.len());
    let u = t.pop_locals();
    assert(t.loc.marks.take(o.loc.marks.len() as int) =~= t.loc.marks);
    assert(t.loc.marks == o.loc.marks);
    assert(t.loc.marks.last() == s.loc.undo.len());
    assert(u.loc.marks =~= s.loc.marks);
    assert(u.loc.undo =~= s.loc.undo) by {
        assert(t.loc.undo.take(s.loc.undo.len() as int) == s.loc.undo);
    }
}

/// How many slots the first `n` steps hand out at most.
pub open spec fn slots_asked(xs: Seq<ScopeStep>, n: nat) -> nat
    decreases n,
{
    if n == 0 {
        0
    } else {
        slots_asked(xs, (n - 1) as nat) + if xs[n - 1] is Reserve {
            1nat
        } else {
            0nat
        }
    }
}

/// Steps hand out slots and take none back, as long as their numbers fit.
pub proof fn law_slots_are_not_reused(s: State, xs: Seq<ScopeStep>, n: nat)
    requires
        n <= xs.len(),
        s.loc.count + slots_asked(xs, n) <= i32::MAX,
    ensures
        s.loc.count <= s.scope_steps(xs, n).loc.count <= s.loc.count + slots_asked(xs, n),
    decreases n,
{
    if n > 0 {
        law_slots_are_not_reused(s, xs, (n - 1) as nat);
        reveal(State::bind);
        reveal(State::reserve);
        reveal(State::push_locals);
        reveal(State::pop_locals);
        reveal(State::pop_unused);
    }
}

} // verus!

//! Names hidden by local bindings during a walk over the syntax tree.
use crate::ast::{Ident, StrId};
use std::collections::{HashMap, HashSet};
use vstd::prelude::*;

verus! {

broadcast use vstd::std_specs::hash::group_hash_axioms;

/// A walk under way: the declarations by name, the names hidden here, and the
/// declarations found so far.
pub struct Walk {
    pub targets: Map<StrId, usize>,
    pub hidden: Set<StrId>,
    pub found: Seq<usize>,
}

impl Walk {
    /// Hide a name.
    pub open spec fn define(self, name: StrId) -> Walk {
        Walk { hidden: self.hidden.insert(name), ..self }
    }

    /// Come across a name.
    pub open spec fn referenced(self, name: StrId) -> Walk {
        if self.hidden.contains(name) || !self.targets.dom().contains(name) {
            self
        } else {
            Walk { found: self.found.push(self.targets[name]), ..self }
        }
    }

    /// Leave a scope: what was hidden before it is hidden again, and nothing
    /// else.
    pub open spec fn leave(self, inner: Walk) -> Walk {
        Walk { hidden: self.hidden, ..inner }
    }

    /// Hide the first `n` of several names.
    pub open spec fn define_all(self, ids: Seq<Ident>, n: nat) -> Walk
        decreases n,
    {
        if n == 0 {
            self
        } else {
            self.define_all(ids, (n - 1) as nat).define(ids[n - 1].name)
        }
    }

    /// Hide a name, if there is one.
    pub open spec fn define_opt(self, id: Option<Ident>) -> Walk {
        match id {
            Some(id) => self.define(id.name),
            None => self,
        }
    }
}

/// A walker: it hides names in one set, and keeps a log of those it hid so that a
/// scope can be left without copying the set.
pub struct RefWalker<'a> {
    pub targets: &'a HashMap<StrId, usize>,
    pub found: Vec<usize>,
    pub shadowed: HashSet<StrId>,
    pub undo: Vec<StrId>,
}

impl<'a> View for RefWalker<'a> {
    type V = Walk;

    open spec fn view(&self) -> Walk {
        Walk { targets: self.targets@, hidden: self.shadowed@, found: self.found@ }
    }
}

impl<'a> RefWalker<'a> {
    /// Whether the log holds hidden names, each once.
    pub open spec fn wf(self) -> bool {
        &&& self.undo@.no_duplicates()
        &&& forall|i: int|
            0 <= i < self.undo@.len() ==> self.shadowed@.contains(#[trigger] self.undo@[i])
    }

    /// Whether a name was hidden before the log began.
    pub open spec fn given(self, name: StrId) -> bool {
        self.shadowed@.contains(name) && !self.undo@.contains(name)
    }
}

/// Whether one walker comes from another with its log extended only.
#[verifier::opaque]
pub open spec fn steady(a: RefWalker, b: RefWalker) -> bool {
    &&& a.wf()
    &&& b.wf()
    &&& a.targets == b.targets
    &&& a.undo@.len() <= b.undo@.len()
    &&& b.undo@.take(a.undo@.len() as int) == a.undo@
    &&& forall|name: StrId| #[trigger] a.given(name) == b.given(name)
}

/// Steadiness chains.
pub broadcast proof fn lemma_steady(a: RefWalker, b: RefWalker, c: RefWalker)
    requires
        #[trigger] steady(a, b),
        #[trigger] steady(b, c),
    ensures
        steady(a, c),
{
    reveal(steady);
    let n = a.undo@.len() as int;
    assert(c.undo@.take(n) =~= c.undo@.take(b.undo@.len() as int).take(n));
    assert forall|name: StrId| #[trigger] a.given(name) == c.given(name) by {
        assert(b.given(name) == c.given(name));
    }
}

impl<'a> RefWalker<'a> {
    /// Hide a name.
    pub fn define(&mut self, name: StrId)
        requires
            old(self).wf(),
        ensures
            final(self)@ == old(self)@.define(name),
            steady(*old(self), *final(self)),
            final(self).wf(),
    {
        let ghost before = *self;
        if self.shadowed.insert(name) {
            self.undo.push(name);
            proof {
                reveal(steady);
                assert(self.undo@.take(before.undo@.len() as int) =~= before.undo@);
                assert forall|n: StrId| #[trigger] before.given(n) == self.given(n) by {
                    if before.undo@.contains(n) {
                        let i = before.undo@.index_of(n);
                        assert(self.undo@[i] == n);
                    }
                    if self.undo@.contains(n) && n != name {
                        let i = self.undo@.index_of(n);
                        assert(before.undo@[i] == n);
                    }
                    assert(self.undo@[before.undo@.len() as int] == name);
                }
            }
        } else {
            proof {
                reveal(steady);
                assert(self.undo@.take(before.undo@.len() as int) =~= before.undo@);
                assert(self.shadowed@ =~= before.shadowed@);
            }
        }
        assert(self@.hidden =~= old(self)@.define(name).hidden);
    }

    /// Hide several names.
    pub fn define_all(&mut self, ids: &Vec<Ident>)
        requires
            old(self).wf(),
        ensures
            final(self)@ == old(self)@.define_all(ids@, ids@.len()),
            steady(*old(self), *final(self)),
            final(self).wf(),
    {
        let ghost before = *self;
        proof {
            lemma_steady_self(before);
        }
        let mut n: usize = 0;
        while n < ids.len()
            invariant
                n <= ids.len(),
                self.wf(),
                steady(before, *self),
                self@ == before@.define_all(ids@, n as nat),
            decreases ids.len() - n,
        {
            let ghost mid = *self;
            self.define(ids[n].name);
            proof {
                lemma_steady(before, mid, *self);
            }
            n = n + 1;
        }
    }

    /// Hide a name, if there is one.
    pub fn define_opt(&mut self, id: Option<Ident>)
        requires
            old(self).wf(),
        ensures
            final(self)@ == old(self)@.define_opt(id),
            steady(*old(self), *final(self)),
            final(self).wf(),
    {
        proof {
            lemma_steady_self(*self);
        }
        if let Some(id) = id {
            self.define(id.name);
        }
    }

    /// Come across a name.
    pub fn referenced(&mut self, name: StrId)
        requires
            old(self).wf(),
        ensures
            final(self)@ == old(self)@.referenced(name),
            steady(*old(self), *final(self)),
            final(self).wf(),
    {
        proof {
            reveal(steady);
            assert(self.undo@.take(self.undo@.len() as int) =~= self.undo@);
        }
        if self.shadowed.contains(&name) {
            return;
        }
        if let Some(to) = self.targets.get(&name) {
            self.found.push(*to);
        }
    }

    /// Leave a scope that was entered with a log of `mark` names.
    pub(crate) fn leave(&mut self, mark: usize, Ghost(entry): Ghost<RefWalker>)
        requires
            steady(entry, *old(self)),
            mark == entry.undo@.len(),
        ensures
            final(self)@ == entry@.leave(old(self)@),
            steady(entry, *final(self)),
            final(self).wf(),
    {
        let ghost inner = *self;
        proof {
            reveal(steady);
            assert(inner.undo@.take(inner.undo@.len() as int) =~= inner.undo@);
        }
        while self.undo.len() > mark
            invariant
                mark == entry.undo@.len(),
                steady(entry, *self),
                self.found@ == inner.found@,
            decreases self.undo.len(),
        {
            proof {
                reveal(steady);
            }
            let ghost before = *self;
            if let Some(name) = self.undo.pop() {
                self.shadowed.remove(&name);
                proof {
                    assert(before.undo@.last() == name);
                    assert(self.undo@ =~= before.undo@.drop_last());
                    assert(self.undo@.take(mark as int) =~= before.undo@.take(mark as int));
                    assert forall|i: int| 0 <= i < self.undo@.len() implies self.shadowed@.contains(
                        #[trigger] self.undo@[i],
                    ) by {
                        assert(before.undo@[i] == self.undo@[i]);
                        assert(before.undo@[before.undo@.len() - 1] == name);
                    }
                    assert forall|n: StrId| #[trigger] entry.given(n) == self.given(n) by {
                        assert(entry.given(n) == before.given(n));
                        if before.undo@.contains(n) && n != name {
                            let i = before.undo@.index_of(n);
                            assert(self.undo@[i] == n);
                        }
                        if self.undo@.contains(n) {
                            let i = self.undo@.index_of(n);
                            assert(before.undo@[i] == n);
                        }
                    }
                }
            }
        }
        proof {
            reveal(steady);
            assert(self.undo@ =~= self.undo@.take(mark as int));
            assert forall|n: StrId| self.shadowed@.contains(n) == entry.shadowed@.contains(n) by {
                assert(entry.given(n) == self.given(n));
                if entry.undo@.contains(n) {
                    let i = entry.undo@.index_of(n);
                    assert(entry.shadowed@.contains(entry.undo@[i]));
                    assert(self.shadowed@.contains(self.undo@[i]));
                }
            }
            assert(self@.hidden =~= entry@.hidden);
        }
    }
}

/// A walker is steady.
pub proof fn lemma_steady_self(a: RefWalker)
    requires
        a.wf(),
    ensures
        steady(a, a),
{
    reveal(steady);
    assert(a.undo@.take(a.undo@.len() as int) =~= a.undo@);
}

} // verus!

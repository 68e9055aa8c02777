//! The fields that the arguments of a constructor's pattern are for.
use crate::ast::{PatternArg, StrId};
use crate::fitting::{ctx_of, is_for, positional_before, well_placed, Ctor};
use crate::gen::pattern_keys;
use crate::slots::{field_at, slotted, slotting, CtorShape};
use crate::state::State;
use vstd::prelude::*;

verus! {

/// Whether the arguments stand by the fields they are for.
pub open spec fn placed(c: Ctor, args: Seq<PatternArg>, by_pos: Seq<Option<usize>>) -> bool {
    placed_first(c, args, by_pos, args.len() as int)
}

/// Whether the first `n` arguments stand by the fields they are for.
pub open spec fn placed_first(
    c: Ctor,
    args: Seq<PatternArg>,
    by_pos: Seq<Option<usize>>,
    n: int,
) -> bool {
    &&& by_pos.len() == c.arity
    &&& forall|i: int|
        0 <= i < by_pos.len() ==> match #[trigger] by_pos[i] {
            Some(k) => k < n && is_for(c, args, k as int, i),
            None => forall|k: int| 0 <= k < n ==> !is_for(c, args, k, i),
        }
}

proof fn lemma_field_at(labels: Seq<StrId>, arity: nat, from: nat, name: StrId)
    ensures
        match field_at(labels, arity, from, name) {
            Some(i) => from <= i < arity && i < labels.len() && labels[i] == name && forall|j: int|
                from <= j < i ==> #[trigger] labels[j] != name,
            None => forall|j: int|
                from <= j < arity && j < labels.len() ==> #[trigger] labels[j] != name,
        },
    decreases arity - from,
{
    if from < arity && from < labels.len() && labels[from as int] != name {
        lemma_field_at(labels, arity, from + 1, name);
    }
}

proof fn lemma_slotting(c: Ctor, shape: CtorShape, args: Seq<PatternArg>, n: nat)
    requires
        well_placed(c, args),
        args.len() <= usize::MAX,
        c.arity == shape.arity,
        n <= args.len(),
    ensures
        placed_first(
            c,
            args,
            slotting(c.labels, shape, false, pattern_keys(args), n).by_pos,
            n as int,
        ),
        slotting(c.labels, shape, false, pattern_keys(args), n).reports.len() == 0,
        slotting(c.labels, shape, false, pattern_keys(args), n).next == positional_before(args, n),
    decreases n,
{
    if n > 0 {
        lemma_slotting(c, shape, args, (n - 1) as nat);
        let before = slotting(c.labels, shape, false, pattern_keys(args), (n - 1) as nat);
        let after = slotting(c.labels, shape, false, pattern_keys(args), n);
        let key = pattern_keys(args)[n - 1];
        assert(after == before.step(shape, c.labels, false, key));
        if let PatternArg::Labeled { label, .. } = args[n - 1] {
            lemma_field_at(c.labels, shape.arity as nat, 0, label.name);
        }
        assert forall|i: int| 0 <= i < after.by_pos.len() implies match #[trigger] after.by_pos[i] {
            Some(k) => k < n && is_for(c, args, k as int, i),
            None => forall|k: int| 0 <= k < n ==> !is_for(c, args, k, i),
        } by {
            assert(match before.by_pos[i] {
                Some(k) => k < n - 1 && is_for(c, args, k as int, i),
                None => forall|k: int| 0 <= k < n - 1 ==> !is_for(c, args, k, i),
            });
        }
    }
}

pub proof fn lemma_placed(s: State, name: StrId, args: Seq<PatternArg>)
    requires
        ctx_of(s).ctor(name) is Some,
        well_placed(ctx_of(s).ctor(name)->0, args),
        args.len() <= usize::MAX,
    ensures
        s.ctor(name) is Some,
        s.ctor(name)->0.type_id == ctx_of(s).ctor(name)->0.ty,
        s.ctor(name)->0.shape.arity == ctx_of(s).ctor(name)->0.arity,
        s.ctor(name)->0.shape.arity <= u16::MAX,
        ({
            let t = slotted(s, s.ctor(name)->0.shape, false, pattern_keys(args), None);
            &&& placed(ctx_of(s).ctor(name)->0, args, t.by_pos)
            &&& t.s.out == s.out
            &&& t.s.loc == s.loc
            &&& ctx_of(t.s) == ctx_of(s)
        }),
{
    reveal(State::lookup);
    let c = ctx_of(s).ctor(name)->0;
    let shape = s.ctor(name)->0.shape;
    lemma_slotting(c, shape, args, args.len());
    assert(pattern_keys(args).len() == args.len());
    reveal(slotted);
    reveal(State::report_all);
}

} // verus!

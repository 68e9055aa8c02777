//! How an or-pattern tries its alternatives.
use crate::ast::{Ident, Pattern, StrId};
use crate::fitting::{
    all_suit_from, alternatives_in_order_from, any_fits_from, bound, ctx_of, first_bound_from, fits,
    in_order, names_in, suits,
};
use crate::fitting::frames;
use crate::fitting::frames::{
    after, covered, keeps_slots, lemma_after_on, lemma_after_same, lemma_push, lemma_spill, tidy,
};
use crate::fitting::runs::{
    as_said, binds, free, is_slot, kept, lemma_aside, lemma_free, lemma_led, lemma_pattern,
    lemma_ready, lemma_room, ready, runs,
};
use crate::gen::{
    alternatives_from, binders, or_pattern, or_pattern_body, pattern, pattern_body, Matching,
    OrMatching,
};
use crate::landing;
use crate::landing::{group_landing, lands, lands_but, misses, places};
use crate::landing::patterns::strays;
use crate::landing::pieces::group_landing_pieces;
use crate::machine::{lemma_reaches_on, lemma_reaches_self, reaches, Config, Given, Image, Value};
use crate::op::{instr, Op};
use crate::running::{
    at_end, carries, decides, fails, lemma_carries_parts, lemma_further, lemma_local, same_but_open,
};
use crate::scopes::from_here;
use crate::state::{pins, Locals, State};
use vstd::prelude::*;

verus! {

/// What patching jumps does: their operands are the next address, and all else is as it was.
pub open spec fn patched(s: State, t: State, at: Seq<usize>, n: nat) -> bool {
    &&& t.out.code.len() == s.out.code.len()
    &&& t.out.consts == s.out.consts
    &&& forall|i: int|
        0 <= i < s.out.code.len() ==> same_but_open(
            #[trigger] t.out.code[i],
            s.out.code[i],
            places(at.take(n as int), 0).contains(i),
        )
    &&& forall|j: int|
        0 <= j < n && at[j] < s.out.code.len() ==> t.out.code[(#[trigger] at[j]) as int].operand
            == s.out.code.len() as i32
}

pub proof fn lemma_patched(s: State, at: Seq<usize>, n: nat)
    requires
        !s.out.check_only,
        n <= at.len(),
    ensures
        patched(s, s.patch_all(at, n), at, n),
        s.patch_all(at, n).loc == s.loc,
        !s.patch_all(at, n).out.check_only,
    decreases n,
{
    reveal(State::patch_all);
    if n > 0 {
        lemma_patched(s, at, (n - 1) as nat);
        let u = s.patch_all(at, (n - 1) as nat);
        let t = s.patch_all(at, n);
        let p = at[n - 1] as int;
        reveal(State::patch);
        assert(t == u.patch(p));
        let (now, earlier) = (places(at.take(n as int), 0), places(at.take(n - 1), 0));
        assert forall|i: int| earlier.contains(i) implies now.contains(i) by {
            let j = choose|j: int|
                0 <= j < at.take(n - 1).len() && #[trigger] at.take(n - 1)[j] as int == i;
            assert(at.take(n as int)[j] as int == i);
        }
        assert(now.contains(p)) by {
            assert(at.take(n as int)[n - 1] as int == p);
        }
        assert forall|i: int| 0 <= i < s.out.code.len() implies same_but_open(
            #[trigger] t.out.code[i],
            s.out.code[i],
            now.contains(i),
        ) by {
            assert(same_but_open(u.out.code[i], s.out.code[i], earlier.contains(i)));
        }
        assert forall|j: int| 0 <= j < n && at[j] < s.out.code.len() implies t.out.code[(
        #[trigger] at[j]) as int].operand == s.out.code.len() as i32 by {
            if at[j] != p {
                assert(j < n - 1);
                assert(u.out.code[at[j] as int].operand == s.out.code.len() as i32);
            }
        }
    }
}

/// Whether a program carries alternatives whose jumps past the others lead to `end`.
pub open spec fn carries_to(img: Image, o: OrMatching, e: OrMatching, end: int) -> bool {
    &&& img.fs.len() == 0
    &&& !o.m.s.out.check_only
    &&& e.m.s.out.code.len() <= img.code.len()
    &&& e.m.s.out.code.len() <= i32::MAX
    &&& e.m.s.out.consts.len() <= img.consts.len()
    &&& e.m.s.out.consts.len() <= i32::MAX
    &&& forall|i: int|
        0 <= i < e.m.s.out.consts.len() ==> #[trigger] img.consts[i] == e.m.s.out.consts[i]
    &&& forall|i: int|
        o.m.s.out.code.len() <= i < e.m.s.out.code.len() ==> same_but_open(
            #[trigger] img.code[i],
            e.m.s.out.code[i],
            places(e.m.fails, o.m.fails.len()).contains(i) || places(
                e.matched,
                o.matched.len(),
            ).contains(i),
        )
    &&& forall|j: int|
        o.matched.len() <= j < e.matched.len() ==> img.code[(#[trigger] e.matched[j]) as int].operand
            == end
}

/// The state with the value that is tried on top of the stack.
pub open spec fn tried(o: OrMatching, temp: i32) -> Matching {
    Matching { s: o.m.s.emit_arg(Op::PushLocal, temp), fails: Seq::empty() }
}

/// Behind an alternative that is not the last one: its jumps to the failure lead on to the
/// next one, and a jump past the others follows it.
pub open spec fn tried_on(o: OrMatching, alt: Matching, s1: State) -> OrMatching {
    OrMatching {
        m: Matching {
            s: s1.emit_arg(Op::Jump, 0).patch_all(alt.fails, alt.fails.len()),
            fails: o.m.fails,
        },
        matched: o.matched.push(s1.pos()),
    }
}

/// What is known of an alternative that is not the last one.
pub open spec fn is_step(p: Pattern, o: OrMatching, temp: i32, s1: State) -> bool {
    let alt = pattern(p, tried(o, temp));
    s1.out == alt.s.out && !o.m.s.out.check_only
}

proof fn lemma_tried(p: Pattern, o: OrMatching, temp: i32, s1: State)
    requires
        is_step(p, o, temp, s1),
        pattern(p, tried(o, temp)).s.out.code.len() < i32::MAX,
    ensures
        ({
            let k = tried(o, temp);
            let alt = pattern(p, k);
            let next = tried_on(o, alt, s1);
            &&& misses(k, alt)
            &&& k.s.out.code == o.m.s.out.code.push(instr(Op::PushLocal, 0, 0, temp))
            &&& s1.pos() == alt.s.out.code.len()
            &&& next.m.s.out.code.len() == alt.s.out.code.len() + 1
            &&& next.m.s.out.consts == alt.s.out.consts
            &&& !next.m.s.out.check_only
            &&& next.m.s.loc == s1.loc
            &&& next.m.s.out.code[alt.s.out.code.len() as int] == instr(Op::Jump, 0, 0, 0)
            &&& k.s.out.code.len() <= alt.s.out.code.len()
            &&& forall|i: int|
                0 <= i < k.s.out.code.len() ==> #[trigger] next.m.s.out.code[i]
                    == k.s.out.code[i]
            &&& forall|i: int|
                0 <= i < alt.s.out.code.len() ==> same_but_open(
                    #[trigger] next.m.s.out.code[i],
                    alt.s.out.code[i],
                    places(alt.fails, 0).contains(i),
                )
            &&& forall|j: int|
                0 <= j < alt.fails.len() ==> k.s.out.code.len() <= (#[trigger] alt.fails[j])
                    < alt.s.out.code.len() && next.m.s.out.code[alt.fails[j] as int].operand
                    == next.m.s.out.code.len()
        }),
{
    let k = tried(o, temp);
    let alt = pattern(p, k);
    landing::patterns::lemma_pattern(p, k);
    let s2 = s1.emit_arg(Op::Jump, 0);
    let next = tried_on(o, alt, s1);
    reveal(State::push);
    reveal(State::pos);
    reveal(misses);
    reveal(lands_but);
    assert(!s1.out.check_only);
    lemma_patched(s2, alt.fails, alt.fails.len());
    assert(alt.fails.take(alt.fails.len() as int) =~= alt.fails);
    assert forall|j: int| 0 <= j < alt.fails.len() implies k.s.out.code.len() <= (
    #[trigger] alt.fails[j]) < alt.s.out.code.len() && next.m.s.out.code[alt.fails[j] as int].operand
        == next.m.s.out.code.len() by {
        assert(places(alt.fails, 0).contains(alt.fails[j] as int));
    }
    assert forall|i: int|
        0 <= i < s2.out.code.len() && !(k.s.out.code.len() <= i < alt.s.out.code.len()) implies !places(
        alt.fails,
        0,
    ).contains(i) by {}
    assert forall|i: int| 0 <= i < alt.s.out.code.len() implies same_but_open(
        #[trigger] next.m.s.out.code[i],
        alt.s.out.code[i],
        places(alt.fails, 0).contains(i),
    ) by {
        assert(s2.out.code[i] == alt.s.out.code[i]);
    }
    assert forall|i: int| 0 <= i < k.s.out.code.len() implies #[trigger] next.m.s.out.code[i]
        == k.s.out.code[i] by {
        assert(alt.s.out.code.take(k.s.out.code.len() as int)[i] == alt.s.out.code[i]);
        assert(same_but_open(next.m.s.out.code[i], alt.s.out.code[i], false));
    }
    let z = alt.s.out.code.len() as int;
    assert(s2.out.code[z] == instr(Op::Jump, 0, 0, 0));
    assert(same_but_open(next.m.s.out.code[z], s2.out.code[z], false));
}

/// A program that carries alternatives carries the first one and the others.
proof fn lemma_carries_next(
    img: Image,
    p: Pattern,
    o: OrMatching,
    temp: i32,
    s1: State,
    e: OrMatching,
    end: int,
)
    requires
        is_step(p, o, temp, s1),
        carries_to(img, o, e, end),
        strays(tried_on(o, pattern(p, tried(o, temp)), s1), e),
        pattern(p, tried(o, temp)).s.out.code.len() < i32::MAX,
    ensures
        ({
            let k = tried(o, temp);
            let alt = pattern(p, k);
            let next = tried_on(o, alt, s1);
            &&& carries_to(img, next, e, end)
            &&& carries(img, k, alt)
            &&& carries(img, o.m, o.m.at(k.s))
            &&& img.code[alt.s.out.code.len() as int].op == Op::Jump
            &&& img.code[alt.s.out.code.len() as int].operand == end
            &&& alt.s.out.code.len() < img.code.len()
            &&& forall|j: int|
                0 <= j < alt.fails.len() ==> img.code[(#[trigger] alt.fails[j]) as int].operand
                    == next.m.s.out.code.len()
        }),
{
    let k = tried(o, temp);
    let alt = pattern(p, k);
    let next = tried_on(o, alt, s1);
    lemma_tried(p, o, temp, s1);
    reveal(strays);
    reveal(lands_but);
    let z = alt.s.out.code.len() as int;
    let open_f = places(e.m.fails, o.m.fails.len());
    let open_m = places(e.matched, o.matched.len());
    assert(!next.m.s.out.check_only);
    let open = places(e.m.fails, next.m.fails.len()).union(places(e.matched, next.matched.len()));
    assert(e.matched[o.matched.len() as int] == z) by {
        assert(e.matched.take(next.matched.len() as int)[o.matched.len() as int] == z);
    }
    assert forall|i: int| o.m.s.out.code.len() <= i < next.m.s.out.code.len() && i != z implies !(
    #[trigger] open_f.contains(i)) && !open_m.contains(i) by {
        if open_f.contains(i) {
            assert(open.contains(i));
        }
        if open_m.contains(i) {
            let j = choose|j: int|
                o.matched.len() <= j < e.matched.len() && #[trigger] e.matched[j] as int == i;
            assert(j > o.matched.len());
            assert(places(e.matched, next.matched.len()).contains(i));
            assert(open.contains(i));
        }
    }
    assert forall|i: int| 0 <= i < next.m.s.out.code.len() implies e.m.s.out.code[i]
        == #[trigger] next.m.s.out.code[i] by {
        assert(e.m.s.out.code.take(next.m.s.out.code.len() as int)[i] == e.m.s.out.code[i]);
    }
    assert forall|i: int| 0 <= i < next.m.s.out.consts.len() implies e.m.s.out.consts[i]
        == #[trigger] next.m.s.out.consts[i] by {
        assert(e.m.s.out.consts.take(next.m.s.out.consts.len() as int)[i] == e.m.s.out.consts[i]);
    }
    assert forall|i: int| o.m.s.out.code.len() <= i < z implies #[trigger] img.code[i]
        == next.m.s.out.code[i] by {
        assert(!open_f.contains(i) && !open_m.contains(i));
        assert(same_but_open(img.code[i], e.m.s.out.code[i], false));
        assert(e.m.s.out.code[i] == next.m.s.out.code[i]);
    }
    assert(same_but_open(
        img.code[z],
        e.m.s.out.code[z],
        open_f.contains(z) || open_m.contains(z),
    ));
    assert(e.m.s.out.code[z] == next.m.s.out.code[z]);
    assert forall|i: int|
        next.m.s.out.code.len() <= i < e.m.s.out.code.len() implies same_but_open(
        #[trigger] img.code[i],
        e.m.s.out.code[i],
        places(e.m.fails, next.m.fails.len()).contains(i) || places(
            e.matched,
            next.matched.len(),
        ).contains(i),
    ) by {
        if open_m.contains(i) {
            let j = choose|j: int|
                o.matched.len() <= j < e.matched.len() && #[trigger] e.matched[j] as int == i;
            assert(j > o.matched.len());
        }
    }
    assert(carries_to(img, next, e, end));
    assert forall|i: int|
        k.s.out.code.len() <= i < alt.s.out.code.len() implies same_but_open(
        #[trigger] img.code[i],
        alt.s.out.code[i],
        places(alt.fails, k.fails.len()).contains(i),
    ) by {
        assert(img.code[i] == next.m.s.out.code[i]);
    }
    assert forall|i: int| 0 <= i < alt.s.out.consts.len() implies #[trigger] img.consts[i]
        == alt.s.out.consts[i] by {
        assert(e.m.s.out.consts[i] == next.m.s.out.consts[i]);
    }
    assert(!k.s.out.check_only) by {
        reveal(State::push);
    }
    assert(carries(img, k, alt));
    reveal(misses);
    assert(alt.s.out.consts.take(k.s.out.consts.len() as int) == k.s.out.consts);
    assert(k.s.out.consts == o.m.s.out.consts) by {
        reveal(State::push);
    }
    assert forall|i: int| 0 <= i < k.s.out.consts.len() implies #[trigger] img.consts[i]
        == k.s.out.consts[i] by {
        assert(alt.s.out.consts.take(k.s.out.consts.len() as int)[i] == alt.s.out.consts[i]);
    }
    assert(carries(img, o.m, o.m.at(k.s)));
    assert forall|j: int| 0 <= j < alt.fails.len() implies img.code[(
    #[trigger] alt.fails[j]) as int].operand == next.m.s.out.code.len() by {
        assert(img.code[alt.fails[j] as int] == next.m.s.out.code[alt.fails[j] as int]);
    }
}

// ---- running the alternatives ----------------------------------------------------

/// Whether names have the same slots in two frames.
pub open spec fn same_slots(a: Locals, b: Locals, names: Set<StrId>) -> bool {
    forall|n: StrId| #[trigger]
        names.contains(n) ==> a.map.dom().contains(n) && b.map.dom().contains(n) && a.map[n].slot
            == b.map[n].slot
}

proof fn lemma_same_slots(
    a: Locals,
    b: Locals,
    b2: Locals,
    names: Set<StrId>,
    l: Map<int, Value>,
    l1: Map<int, Value>,
    values: Map<StrId, Value>,
)
    requires
        same_slots(b, b2, names),
    ensures
        kept(a, b, names, l, l1) ==> kept(a, b2, names, l, l1),
        binds(b, l1, names, values) ==> binds(b2, l1, names, values),
{
    reveal(kept);
    reveal(binds);
    assert forall|i: int| is_slot(b, names, i) implies is_slot(b2, names, i) by {
        let n = choose|n: StrId| #[trigger]
            names.contains(n) && b.map.dom().contains(n) && b.map[n].slot == i;
        assert(names.contains(n) && b2.map.dom().contains(n) && b2.map[n].slot == i);
    }
}

proof fn lemma_kept_on(
    a: Locals,
    b: Locals,
    c: Locals,
    names: Set<StrId>,
    l0: Map<int, Value>,
    l1: Map<int, Value>,
    l2: Map<int, Value>,
)
    requires
        kept(a, c, names, l0, l1),
        kept(b, c, names, l1, l2),
        a.count <= b.count,
    ensures
        kept(a, c, names, l0, l2),
{
    reveal(kept);
    assert forall|i: int| 0 <= i < a.count && !is_slot(c, names, i) implies (
    #[trigger] l2.dom().contains(i) <==> l0.dom().contains(i)) && l2[i] == l0[i] by {
        assert(l1.dom().contains(i) <==> l0.dom().contains(i));
    }
}

/// Whether all of some names are pinned.
pub open spec fn all_pinned(l: Locals, names: Set<StrId>) -> bool {
    l.overrides.len() > 0 && forall|n: StrId| #[trigger]
        names.contains(n) ==> l.overrides.last().dom().contains(n)
}

/// Pinned names keep their slots.
proof fn lemma_pinned_slots(a: Locals, b: Locals, names: Set<StrId>)
    requires
        tidy(a),
        tidy(b),
        all_pinned(a, names),
        b.overrides == a.overrides,
    ensures
        same_slots(a, b, names),
{
    let j = a.overrides.len() - 1;
    assert forall|n: StrId| #[trigger] names.contains(n) implies a.map.dom().contains(n)
        && b.map.dom().contains(n) && a.map[n].slot == b.map[n].slot by {
        assert(a.overrides[j].dom().contains(n));
        assert(b.overrides[j].dom().contains(n));
    }
}

/// One alternative's own code.
proof fn lemma_one(
    g: Given,
    img: Image,
    p: Pattern,
    o: OrMatching,
    temp: i32,
    v: Value,
    stack: Seq<Value>,
    l: Map<int, Value>,
    names: Set<StrId>,
) -> (l1: Map<int, Value>)
    requires
        in_order(ctx_of(o.m.s), p),
        suits(ctx_of(o.m.s), p, v),
        names == names_in(ctx_of(o.m.s), p),
        carries(img, tried(o, temp), pattern(p, tried(o, temp))),
        carries(img, o.m, o.m.at(tried(o, temp).s)),
        ready(o.m, pattern(p, tried(o, temp)), names),
        l.dom().contains(temp as int),
        l[temp as int] == v,
    ensures
        after(o.m.s, pattern(p, tried(o, temp)).s, names),
        kept(o.m.s.loc, pattern(p, tried(o, temp)).s.loc, names, l, l1),
        decides(
            g,
            img,
            tried(o, temp),
            pattern(p, tried(o, temp)),
            at_end(o.m.s, stack, l),
            stack,
            l1,
            fits(g, ctx_of(o.m.s), p, v),
        ),
        fits(g, ctx_of(o.m.s), p, v) ==> binds(
            pattern(p, tried(o, temp)).s.loc,
            l1,
            names,
            bound(g, ctx_of(o.m.s), p, v),
        ),
    decreases p, 2nat,
{
    let x = ctx_of(o.m.s);
    let k = tried(o, temp);
    let alt = pattern(p, k);
    let c = at_end(o.m.s, stack, l);
    lemma_reaches_self(g, img, c);
    lemma_push(o.m.s, instr(Op::PushLocal, 0, 0, temp));
    frames::lemma_pattern(p, k);
    lemma_after_on(o.m.s, k.s, alt.s, Set::empty(), names, names);
    lemma_ready(o.m, k, alt, Set::empty(), names, names);
    lemma_local(g, img, o.m, temp, c, stack, l);
    let d = at_end(k.s, stack.push(v), l);
    let l1 = lemma_pattern(g, img, p, k, v, stack, l);
    if fits(g, x, p, v) {
        lemma_reaches_on(g, img, c, d, at_end(alt.s, stack, l1));
    } else {
        let j = choose|j: int|
            0 <= j < alt.fails.len() && reaches(
                g,
                img,
                d,
                Config { pc: img.target((#[trigger] alt.fails[j]) as int), stack, locals: l1 },
            );
        lemma_reaches_on(
            g,
            img,
            c,
            d,
            Config { pc: img.target(alt.fails[j] as int), stack, locals: l1 },
        );
    }
    assert(k.s.loc == o.m.s.loc);
    l1
}

/// An alternative that is not the last one: where it fits, the machine goes past the others;
/// where it does not, it goes on to the next one.
proof fn lemma_tried_on(
    g: Given,
    img: Image,
    p: Pattern,
    o: OrMatching,
    temp: i32,
    s1: State,
    e: OrMatching,
    v: Value,
    stack: Seq<Value>,
    l: Map<int, Value>,
    names: Set<StrId>,
) -> (l1: Map<int, Value>)
    requires
        is_step(p, o, temp, s1),
        carries_to(img, o, e, e.m.s.out.code.len() as int),
        strays(tried_on(o, pattern(p, tried(o, temp)), s1), e),
        pattern(p, tried(o, temp)).s.out.code.len() < i32::MAX,
        in_order(ctx_of(o.m.s), p),
        suits(ctx_of(o.m.s), p, v),
        names == names_in(ctx_of(o.m.s), p),
        ready(o.m, pattern(p, tried(o, temp)), names),
        same_slots(pattern(p, tried(o, temp)).s.loc, e.m.s.loc, names),
        free(o.m.s.loc, temp),
        l.dom().contains(temp as int),
        l[temp as int] == v,
    ensures
        kept(o.m.s.loc, e.m.s.loc, names, l, l1),
        free(pattern(p, tried(o, temp)).s.loc, temp),
        l1.dom().contains(temp as int),
        l1[temp as int] == v,
        carries_to(
            img,
            tried_on(o, pattern(p, tried(o, temp)), s1),
            e,
            e.m.s.out.code.len() as int,
        ),
        fits(g, ctx_of(o.m.s), p, v) ==> reaches(
            g,
            img,
            at_end(o.m.s, stack, l),
            at_end(e.m.s, stack, l1),
        ) && binds(e.m.s.loc, l1, names, bound(g, ctx_of(o.m.s), p, v)),
        !fits(g, ctx_of(o.m.s), p, v) ==> reaches(
            g,
            img,
            at_end(o.m.s, stack, l),
            at_end(tried_on(o, pattern(p, tried(o, temp)), s1).m.s, stack, l1),
        ),
    decreases p, 3nat,
{
    let x = ctx_of(o.m.s);
    let k = tried(o, temp);
    let alt = pattern(p, k);
    let next = tried_on(o, alt, s1);
    let end = e.m.s.out.code.len() as int;
    let c = at_end(o.m.s, stack, l);
    lemma_carries_next(img, p, o, temp, s1, e, end);
    let l1 = lemma_one(g, img, p, o, temp, v, stack, l, names);
    lemma_free(o.m, alt, names, temp, l, l1);
    lemma_same_slots(o.m.s.loc, alt.s.loc, e.m.s.loc, names, l, l1, bound(g, x, p, v));
    if fits(g, x, p, v) {
        let d = at_end(alt.s, stack, l1);
        lemma_further(g, img, c, d, at_end(e.m.s, stack, l1));
    } else {
        let j = choose|j: int|
            0 <= j < alt.fails.len() && reaches(
                g,
                img,
                c,
                Config { pc: img.target((#[trigger] alt.fails[j]) as int), stack, locals: l1 },
            );
        assert(img.target(alt.fails[j] as int) == next.m.s.out.code.len());
    }
    l1
}

/// The last alternative.
proof fn lemma_last(
    g: Given,
    img: Image,
    p: Pattern,
    o: OrMatching,
    temp: i32,
    v: Value,
    stack: Seq<Value>,
    l: Map<int, Value>,
    names: Set<StrId>,
    e: OrMatching,
) -> (l1: Map<int, Value>)
    requires
        ({
            let alt = pattern(p, tried(o, temp));
            &&& e.m.s == alt.s
            &&& e.m.fails == o.m.fails + alt.fails
            &&& e.matched == o.matched
        }),
        carries_to(img, o, e, e.m.s.out.code.len() as int),
        in_order(ctx_of(o.m.s), p),
        suits(ctx_of(o.m.s), p, v),
        names == names_in(ctx_of(o.m.s), p),
        ready(o.m, e.m, names),
        l.dom().contains(temp as int),
        l[temp as int] == v,
    ensures
        runs(
            g,
            img,
            o.m,
            e.m,
            at_end(o.m.s, stack, l),
            stack,
            l,
            l1,
            names,
            fits(g, ctx_of(o.m.s), p, v),
            bound(g, ctx_of(o.m.s), p, v),
        ),
    decreases p, 3nat,
{
    let x = ctx_of(o.m.s);
    let k = tried(o, temp);
    let alt = pattern(p, k);
    landing::patterns::lemma_pattern(p, k);
    reveal(misses);
    reveal(lands_but);
    assert(k.s.out.code == o.m.s.out.code.push(instr(Op::PushLocal, 0, 0, temp))
        && k.s.out.consts == o.m.s.out.consts && !k.s.out.check_only) by {
        reveal(State::push);
    }
    assert(places(e.matched, o.matched.len()) =~= Set::empty());
    assert forall|i: int| places(e.m.fails, o.m.fails.len()).contains(i) implies places(
        alt.fails,
        0,
    ).contains(i) by {
        let j = choose|j: int|
            o.m.fails.len() <= j < e.m.fails.len() && #[trigger] e.m.fails[j] as int == i;
        assert(alt.fails[j - o.m.fails.len()] as int == i);
    }
    assert(carries(img, k, alt));
    assert forall|i: int| 0 <= i < k.s.out.consts.len() implies #[trigger] img.consts[i]
        == k.s.out.consts[i] by {
        assert(alt.s.out.consts.take(k.s.out.consts.len() as int)[i] == alt.s.out.consts[i]);
    }
    let z = o.m.s.out.code.len() as int;
    assert(alt.s.out.code.take(k.s.out.code.len() as int)[z] == alt.s.out.code[z]);
    assert(!places(alt.fails, 0).contains(z));
    assert(same_but_open(img.code[z], e.m.s.out.code[z], false));
    assert(carries(img, o.m, o.m.at(k.s)));
    let l1 = lemma_one(g, img, p, o, temp, v, stack, l, names);
    let c = at_end(o.m.s, stack, l);
    if !fits(g, x, p, v) {
        let j = choose|j: int|
            0 <= j < alt.fails.len() && reaches(
                g,
                img,
                c,
                Config { pc: img.target((#[trigger] alt.fails[j]) as int), stack, locals: l1 },
            );
        assert(e.m.fails[o.m.fails.len() + j] == alt.fails[j]);
    }
    l1
}

proof fn lemma_alternatives(
    g: Given,
    img: Image,
    ps: Seq<Pattern>,
    i: nat,
    temp: i32,
    o: OrMatching,
    v: Value,
    stack: Seq<Value>,
    l: Map<int, Value>,
    names: Set<StrId>,
) -> (l2: Map<int, Value>)
    requires
        i < ps.len(),
        i > 0 || ps.len() == 1,
        alternatives_in_order_from(ctx_of(o.m.s), ps, i),
        all_suit_from(ctx_of(o.m.s), ps, i, v),
        names == names_in(ctx_of(o.m.s), ps[0]),
        i < ps.len() - 1 ==> all_pinned(o.m.s.loc, names),
        carries_to(
            img,
            o,
            alternatives_from(ps, i, temp, o),
            alternatives_from(ps, i, temp, o).m.s.out.code.len() as int,
        ),
        ready(o.m, alternatives_from(ps, i, temp, o).m, names),
        free(o.m.s.loc, temp),
        l.dom().contains(temp as int),
        l[temp as int] == v,
    ensures
        runs(
            g,
            img,
            o.m,
            alternatives_from(ps, i, temp, o).m,
            at_end(o.m.s, stack, l),
            stack,
            l,
            l2,
            names,
            any_fits_from(g, ctx_of(o.m.s), ps, i, v),
            first_bound_from(g, ctx_of(o.m.s), ps, i, v),
        ),
    decreases ps, ps.len() - i,
{
    let x = ctx_of(o.m.s);
    let p = ps[i as int];
    let k = tried(o, temp);
    let alt = pattern(p, k);
    let e = alternatives_from(ps, i, temp, o);
    let c = at_end(o.m.s, stack, l);
    if i == ps.len() - 1 {
        let last = OrMatching {
            m: Matching { s: alt.s, fails: o.m.fails + alt.fails },
            matched: o.matched,
        };
        assert(e == alternatives_from(ps, i + 1, temp, last));
        assert(e == last);
        assert(!any_fits_from(g, x, ps, i + 1, v));
        lemma_last(g, img, p, o, temp, v, stack, l, names, e)
    } else {
        let s1 = alt.s;
        let next = tried_on(o, alt, s1);
        assert(e == alternatives_from(ps, i + 1, temp, next));
        landing::patterns::lemma_alternatives(ps, i + 1, temp, next);
        lemma_push(o.m.s, instr(Op::PushLocal, 0, 0, temp));
        frames::lemma_pattern(p, k);
        lemma_after_on(o.m.s, k.s, alt.s, Set::empty(), names, names);
        let s2 = s1.emit_arg(Op::Jump, 0);
        lemma_push(s1, instr(Op::Jump, 0, 0, 0));
        frames::lemma_patch_all(s2, alt.fails, alt.fails.len());
        lemma_after_same(alt.s, next.m.s);
        lemma_after_on(o.m.s, alt.s, next.m.s, names, Set::empty(), names);
        frames::lemma_alternatives(ps, i + 1, temp, next);
        assert(alt.s.out.code.len() < i32::MAX) by {
            reveal(State::push);
        }
        lemma_ready(o.m, next.m, e.m, names, names, names);
        lemma_ready(o.m, alt, next.m, names, Set::empty(), names);
        lemma_after_on(o.m.s, next.m.s, e.m.s, names, names, names);
        assert(tidy(alt.s.loc) && tidy(e.m.s.loc) && o.m.s.loc.count <= next.m.s.loc.count) by {
            reveal(keeps_slots);
        }
        lemma_pinned_slots(alt.s.loc, e.m.s.loc, names);
        let l1 = lemma_tried_on(g, img, p, o, temp, s1, e, v, stack, l, names);
        if fits(g, x, p, v) {
            l1
        } else {
            let l2 = lemma_alternatives(
                g,
                img,
                ps,
                i + 1,
                temp,
                next,
                v,
                stack,
                l1,
                names,
            );
            lemma_going_on(g, img, o, next, e, c, stack, l, l1, l2, names, any_fits_from(
                g,
                x,
                ps,
                i + 1,
                v,
            ), first_bound_from(g, x, ps, i + 1, v));
            l2
        }
    }
}

/// What the other alternatives do once the first has failed.
proof fn lemma_going_on(
    g: Given,
    img: Image,
    o: OrMatching,
    next: OrMatching,
    e: OrMatching,
    c: Config,
    stack: Seq<Value>,
    l0: Map<int, Value>,
    l1: Map<int, Value>,
    l2: Map<int, Value>,
    names: Set<StrId>,
    ok: bool,
    values: Map<StrId, Value>,
)
    requires
        next.m.fails == o.m.fails,
        o.m.s.loc.count <= next.m.s.loc.count,
        reaches(g, img, c, at_end(next.m.s, stack, l1)),
        kept(o.m.s.loc, e.m.s.loc, names, l0, l1),
        runs(
            g,
            img,
            next.m,
            e.m,
            at_end(next.m.s, stack, l1),
            stack,
            l1,
            l2,
            names,
            ok,
            values,
        ),
    ensures
        runs(g, img, o.m, e.m, c, stack, l0, l2, names, ok, values),
{
    let d = at_end(next.m.s, stack, l1);
    lemma_kept_on(o.m.s.loc, next.m.s.loc, e.m.s.loc, names, l0, l1, l2);
    if ok {
        lemma_reaches_on(g, img, c, d, at_end(e.m.s, stack, l2));
    } else {
        let j = choose|j: int|
            next.m.fails.len() <= j < e.m.fails.len() && reaches(
                g,
                img,
                d,
                Config { pc: img.target((#[trigger] e.m.fails[j]) as int), stack, locals: l2 },
            );
        lemma_reaches_on(
            g,
            img,
            c,
            d,
            Config { pc: img.target(e.m.fails[j] as int), stack, locals: l2 },
        );
    }
}

// ---- the whole pattern -----------------------------------------------------------

/// The jumps to the failure are not those past the other alternatives.
proof fn lemma_apart(ps: Seq<Pattern>, i: nat, temp: i32, o: OrMatching)
    requires
        !o.m.s.out.check_only,
        alternatives_from(ps, i, temp, o).m.s.out.code.len() <= i32::MAX,
    ensures
        ({
            let e = alternatives_from(ps, i, temp, o);
            places(e.m.fails, o.m.fails.len()).disjoint(places(e.matched, o.matched.len()))
        }),
    decreases ps.len() - i,
{
    if i < ps.len() - 1 {
        let p = ps[i as int];
        let alt = pattern(p, tried(o, temp));
        let s1 = if i == 0 && ps.len() > 1 {
            alt.s.push_pins(binders(alt.s.world.names@, ps[0], Seq::empty()))
        } else {
            alt.s
        };
        let next = tried_on(o, alt, s1);
        let e = alternatives_from(ps, i, temp, o);
        assert(e == alternatives_from(ps, i + 1, temp, next));
        assert(s1.out == alt.s.out) by {
            reveal(State::push_pins);
        }
        landing::patterns::lemma_alternatives(ps, i + 1, temp, next);
        lemma_shorter(p, o, temp, s1, e);
        lemma_tried(p, o, temp, s1);
        lemma_apart(ps, i + 1, temp, next);
        reveal(strays);
        reveal(lands_but);
        let open = places(e.m.fails, next.m.fails.len()).union(
            places(e.matched, next.matched.len()),
        );
        let z = alt.s.out.code.len() as int;
        assert(e.matched.take(next.matched.len() as int)[o.matched.len() as int] == z);
        assert forall|f: int| places(e.m.fails, o.m.fails.len()).contains(f) implies !places(
            e.matched,
            o.matched.len(),
        ).contains(f) by {
            assert(places(e.m.fails, next.m.fails.len()).contains(f));
            assert(open.contains(f));
            if places(e.matched, o.matched.len()).contains(f) {
                let j = choose|j: int|
                    o.matched.len() <= j < e.matched.len() && #[trigger] e.matched[j] as int == f;
                if j > o.matched.len() {
                    assert(places(e.matched, next.matched.len()).contains(f));
                }
            }
        }
    } else if i < ps.len() {
        let alt = pattern(ps[i as int], tried(o, temp));
        let last = OrMatching {
            m: Matching { s: alt.s, fails: o.m.fails + alt.fails },
            matched: o.matched,
        };
        assert(alternatives_from(ps, i, temp, o) == alternatives_from(ps, i + 1, temp, last));
        assert(alternatives_from(ps, i + 1, temp, last) == last);
        assert(places(o.matched, o.matched.len()) =~= Set::empty());
    } else {
        assert(places(o.matched, o.matched.len()) =~= Set::empty());
    }
}

/// An alternative is shorter than all of them.
proof fn lemma_shorter(p: Pattern, o: OrMatching, temp: i32, s1: State, e: OrMatching)
    requires
        s1.out == pattern(p, tried(o, temp)).s.out,
        !o.m.s.out.check_only,
        strays(tried_on(o, pattern(p, tried(o, temp)), s1), e),
        e.m.s.out.code.len() <= i32::MAX,
    ensures
        is_step(p, o, temp, s1),
        pattern(p, tried(o, temp)).s.out.code.len() < i32::MAX,
{
    let k = tried(o, temp);
    let alt = pattern(p, k);
    landing::patterns::lemma_pattern(p, k);
    reveal(misses);
    reveal(strays);
    reveal(lands_but);
    reveal(State::push);
    let s2 = s1.emit_arg(Op::Jump, 0);
    lemma_patched(s2, alt.fails, alt.fails.len());
}

/// A program that carries an or-pattern carries its alternatives.
proof fn lemma_carries_all(img: Image, m: Matching, e: OrMatching, u: State, n: Matching)
    requires
        carries(img, m, n),
        u.out == e.m.s.out,
        !u.out.check_only,
        n == e.m.at(u.patch_all(e.matched, e.matched.len())),
        strays(OrMatching { m, matched: Seq::empty() }, e),
        places(e.m.fails, m.fails.len()).disjoint(places(e.matched, 0)),
    ensures
        carries_to(
            img,
            OrMatching { m, matched: Seq::empty() },
            e,
            e.m.s.out.code.len() as int,
        ),
        n.s.out.code.len() == e.m.s.out.code.len(),
{
    let o = OrMatching { m, matched: Seq::<usize>::empty() };
    lemma_patched(u, e.matched, e.matched.len());
    assert(e.matched.take(e.matched.len() as int) =~= e.matched);
    reveal(strays);
    reveal(lands_but);
    let open = places(e.m.fails, m.fails.len()).union(places(e.matched, 0));
    assert forall|j: int| 0 <= j < e.matched.len() implies img.code[(
    #[trigger] e.matched[j]) as int].operand == e.m.s.out.code.len() by {
        let p = e.matched[j] as int;
        assert(places(e.matched, 0).contains(p));
        assert(open.contains(p));
        assert(!places(e.m.fails, m.fails.len()).contains(p));
        assert(same_but_open(img.code[p], n.s.out.code[p], false));
    }
    assert forall|i: int|
        m.s.out.code.len() <= i < e.m.s.out.code.len() implies same_but_open(
        #[trigger] img.code[i],
        e.m.s.out.code[i],
        places(e.m.fails, m.fails.len()).contains(i) || places(e.matched, 0).contains(i),
    ) by {
        assert(same_but_open(
            n.s.out.code[i],
            e.m.s.out.code[i],
            places(e.matched, 0).contains(i),
        ));
    }
}

/// An or-pattern.
pub proof fn lemma_or(
    g: Given,
    img: Image,
    p: Pattern,
    ps: Seq<Pattern>,
    m: Matching,
    v: Value,
    stack: Seq<Value>,
    l: Map<int, Value>,
) -> (l2: Map<int, Value>)
    requires
        p matches Pattern::Or { patterns, .. } && patterns@ == ps,
        in_order(ctx_of(m.s), p),
        suits(ctx_of(m.s), p, v),
        carries(img, m, pattern(p, m)),
        ready(m, pattern(p, m), names_in(ctx_of(m.s), p)),
    ensures
        as_said(g, img, p, m, v, stack, l, l2),
    decreases ps, ps.len() + 1,
{
    let s = m.s;
    let x = ctx_of(s);
    let n = pattern(p, m);
    let names = names_in(x, ps[0]);
    assert(names_in(x, p) == names);
    assert(alternatives_in_order_from(x, ps, 0));
    assert(all_suit_from(x, ps, 0, v));
    let none = Set::<StrId>::empty();
    let c = at_end(s, stack.push(v), l);
    lemma_reaches_self(g, img, c);
    let temp = s.next_slot();
    let m0 = m.at(s.spill());
    let o = OrMatching { m: m0, matched: Seq::<usize>::empty() };
    let e = alternatives_from(ps, 0, temp, o);
    let u = if ps.len() > 1 {
        e.m.s.pop_pins()
    } else {
        e.m.s
    };
    assert(u.out == e.m.s.out && u.loc.map == e.m.s.loc.map) by {
        reveal(State::pop_pins);
    }
    assert(n == e.m.at(u.patch_all(e.matched, e.matched.len()))) by {
        reveal(pattern_body);
        assert(n == or_pattern(ps, m));
        reveal(or_pattern_body);
        assert(n == or_pattern_body(ps, m));
    }
    frames::lemma_pattern(p, m);
    lemma_spill(s);
    landing::patterns::lemma_pattern(p, m);
    landing::patterns::lemma_alternatives(ps, 0, temp, o);
    assert(misses(m, m0)) by {
        broadcast use {group_landing, group_landing_pieces};

        assert(from_here(m.s));
        assert(lands(m.s, m0.s));
    }
    assert(!e.m.s.out.check_only) by {
        reveal(strays);
        reveal(lands_but);
    }
    lemma_patched(u, e.matched, e.matched.len());
    frames::lemma_or(ps, m);
    landing::patterns::lemma_or_pattern(ps, m);
    lemma_carries_parts(img, m, m0, n);
    lemma_ready(m, m0, n, none, names, names);
    lemma_apart(ps, 0, temp, o);
    lemma_carries_all(img, m0, e, u, n);
    lemma_room(m, m0, n);
    lemma_aside(g, img, m, c, stack, v, l);
    let l1 = l.insert(temp as int, v);
    let d = at_end(m0.s, stack, l1);
    let ok = any_fits_from(g, x, ps, 0, v);
    let values = first_bound_from(g, x, ps, 0, v);
    let l2 = if ps.len() == 1 {
        lemma_alternatives(g, img, ps, 0, temp, o, v, stack, l1, names)
    } else {
        lemma_first(g, img, ps, temp, o, v, stack, l1, names)
    };
    assert(runs(g, img, m0, n, d, stack, l1, l2, names, ok, values)) by {
        assert(n.s.loc.map == e.m.s.loc.map);
        reveal(kept);
        reveal(binds);
        assert forall|i: int| is_slot(n.s.loc, names, i) == is_slot(e.m.s.loc, names, i) by {}
        assert(at_end(n.s, stack, l2) == at_end(e.m.s, stack, l2));
    }
    lemma_led(g, img, m, m0, n, c, d, stack, l, l1, l2, names, ok, values);
    l2
}

/// The first of several alternatives, whose names are pinned for the others.
proof fn lemma_first(
    g: Given,
    img: Image,
    ps: Seq<Pattern>,
    temp: i32,
    o: OrMatching,
    v: Value,
    stack: Seq<Value>,
    l: Map<int, Value>,
    names: Set<StrId>,
) -> (l2: Map<int, Value>)
    requires
        ps.len() > 1,
        alternatives_in_order_from(ctx_of(o.m.s), ps, 0),
        all_suit_from(ctx_of(o.m.s), ps, 0, v),
        names == names_in(ctx_of(o.m.s), ps[0]),
        carries_to(
            img,
            o,
            alternatives_from(ps, 0, temp, o),
            alternatives_from(ps, 0, temp, o).m.s.out.code.len() as int,
        ),
        ready(o.m, alternatives_from(ps, 0, temp, o).m, names),
        free(o.m.s.loc, temp),
        l.dom().contains(temp as int),
        l[temp as int] == v,
    ensures
        runs(
            g,
            img,
            o.m,
            alternatives_from(ps, 0, temp, o).m,
            at_end(o.m.s, stack, l),
            stack,
            l,
            l2,
            names,
            any_fits_from(g, ctx_of(o.m.s), ps, 0, v),
            first_bound_from(g, ctx_of(o.m.s), ps, 0, v),
        ),
    decreases ps, ps.len(),
{
    let x = ctx_of(o.m.s);
    let p = ps[0];
    let k = tried(o, temp);
    let alt = pattern(p, k);
    let e = alternatives_from(ps, 0, temp, o);
    let c = at_end(o.m.s, stack, l);
    lemma_push(o.m.s, instr(Op::PushLocal, 0, 0, temp));
    frames::lemma_pattern(p, k);
    lemma_after_on(o.m.s, k.s, alt.s, Set::empty(), names, names);
    let ids = binders(alt.s.world.names@, p, Seq::empty());
    frames::lemma_binders(x, p, Seq::empty());
    let s1 = alt.s.push_pins(ids);
    assert(s1.out == alt.s.out && ctx_of(s1) == x) by {
        reveal(State::push_pins);
    }
    let next = tried_on(o, alt, s1);
    assert(e == alternatives_from(ps, 1, temp, next));
    landing::patterns::lemma_alternatives(ps, 1, temp, next);
    lemma_shorter(p, o, temp, s1, e);
    lemma_tried(p, o, temp, s1);
    let s2 = s1.emit_arg(Op::Jump, 0);
    lemma_push(s1, instr(Op::Jump, 0, 0, 0));
    frames::lemma_patch_all(s2, alt.fails, alt.fails.len());
    lemma_after_same(s1, next.m.s);
    frames::lemma_alternatives(ps, 1, temp, next);
    assert(next.m.s.out.code.len() <= e.m.s.out.code.len());
    frames::lemma_pinned(o.m.s, alt.s, ids, names);
    assert(ready(o.m, alt, names));
    assert(o.m.s.loc.count <= alt.s.loc.count <= o.m.s.loc.count + (alt.s.out.code.len()
        - o.m.s.out.code.len())) by {
        reveal(keeps_slots);
    }
    assert(ready(next.m, e.m, names));
    assert(tidy(e.m.s.loc) && e.m.s.loc.overrides == s1.loc.overrides) by {
        reveal(keeps_slots);
    }
    lemma_all_pinned(o.m.s, alt.s, ids, names);
    lemma_pinned_slots(s1.loc, e.m.s.loc, names);
    assert(same_slots(alt.s.loc, e.m.s.loc, names));
    let l1 = lemma_tried_on(g, img, p, o, temp, s1, e, v, stack, l, names);
    if fits(g, x, p, v) {
        l1
    } else {
        assert(free(next.m.s.loc, temp));
        let l2 = lemma_alternatives(g, img, ps, 1, temp, next, v, stack, l1, names);
        lemma_going_on(
            g,
            img,
            o,
            next,
            e,
            c,
            stack,
            l,
            l1,
            l2,
            names,
            any_fits_from(g, x, ps, 1, v),
            first_bound_from(g, x, ps, 1, v),
        );
        l2
    }
}

proof fn lemma_all_pinned(q: State, a: State, ids: Seq<Ident>, names: Set<StrId>)
    requires
        after(q, a, names),
        frames::lists(ids, Seq::empty(), names),
        tidy(q.loc),
        covered(q.loc, names),
        q.loc.count + (a.out.code.len() - q.out.code.len()) <= i32::MAX,
    ensures
        all_pinned(a.push_pins(ids).loc, names),
{
    reveal(keeps_slots);
    reveal(State::push_pins);
    frames::lemma_pins(a.loc.map, ids, ids.len());
    assert forall|n: StrId| #[trigger] names.contains(n) implies pins(
        a.loc.map,
        ids,
        ids.len(),
    ).dom().contains(n) by {
        assert(crate::gen::has_name(ids, ids.len(), n));
    }
    assert(a.push_pins(ids).loc.overrides.last() == pins(a.loc.map, ids, ids.len()));
}

} // verus!

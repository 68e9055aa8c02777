//! What pattern code does when it runs.
use crate::ast::{ArrayPattern, Pattern, StrId};
use crate::fitting::{
    bound, bound_from, ctx_of, fit_from, fits, has_rest, in_order, in_order_from, item_names_from,
    items_bound_from, items_fit_from, items_in_order_from, items_suit_from, literal, names_from,
    names_in, suit_from, suits, Ctx,
};
use crate::fitting::frames::{
    after, alone, covered, keeps_slots, lemma_after_on, lemma_after_same, lemma_number,
    lemma_push, lemma_push_const, lemma_spill, lemma_store_name, tidy,
};
use crate::fitting::choices::lemma_or;
use crate::fitting::fields::lemma_constructor;
use crate::fitting::frames;
use crate::gen::{
    array_from, array_pattern_body, pattern, pattern_body, tuple_from, Matching,
};
use crate::landing;
use crate::landing::{group_landing, lands, misses};
use crate::landing::pieces::group_landing_pieces;
use crate::machine::{
    is_binary, lemma_reaches_on, lemma_reaches_self, reaches, Config, Given, Image, Value,
};
use crate::op::{instr, ConstView, Op};
use crate::running::{
    at_end, carries, decides, lemma_carries_parts, lemma_const, lemma_fails_on, lemma_line,
    lemma_local, lemma_op, lemma_require, lemma_store, lemma_straight,
};
use crate::scopes::from_here;
use crate::state::{Locals, State};
use vstd::prelude::*;

verus! {

/// Whether a slot is that of one of some names.
pub open spec fn is_slot(l: Locals, names: Set<StrId>, i: int) -> bool {
    exists|n: StrId| #[trigger]
        names.contains(n) && l.map.dom().contains(n) && l.map[n].slot == i
}

/// Whether the slots there were hold what they held, but for those of some names.
#[verifier::opaque]
pub open spec fn kept(
    a: Locals,
    b: Locals,
    names: Set<StrId>,
    before: Map<int, Value>,
    after: Map<int, Value>,
) -> bool {
    forall|i: int|
        0 <= i < a.count && !is_slot(b, names, i) ==> (#[trigger] after.dom().contains(i)
            <==> before.dom().contains(i)) && after[i] == before[i]
}

/// Whether names stand for values.
#[verifier::opaque]
pub open spec fn binds(
    l: Locals,
    locals: Map<int, Value>,
    names: Set<StrId>,
    values: Map<StrId, Value>,
) -> bool {
    &&& values.dom() == names
    &&& forall|n: StrId| #[trigger]
        names.contains(n) ==> locals.dom().contains(l.map[n].slot as int) && locals[l.map[n].slot as int]
            == values[n]
}

/// Whether a frame is in order, with room for all the slots that code may take.
pub open spec fn ready(m: Matching, n: Matching, names: Set<StrId>) -> bool {
    &&& tidy(m.s.loc)
    &&& covered(m.s.loc, names)
    &&& m.s.loc.count + (n.s.out.code.len() - m.s.out.code.len()) <= i32::MAX
}

/// What code does that was emitted on the way from one state to another: it gets to its end
/// with the names bound where something holds, and to the failure where it does not.
pub open spec fn runs(
    g: Given,
    img: Image,
    m: Matching,
    n: Matching,
    c: Config,
    stack: Seq<Value>,
    before: Map<int, Value>,
    after: Map<int, Value>,
    names: Set<StrId>,
    ok: bool,
    values: Map<StrId, Value>,
) -> bool {
    &&& decides(g, img, m, n, c, stack, after, ok)
    &&& kept(m.s.loc, n.s.loc, names, before, after)
    &&& ok ==> binds(n.s.loc, after, names, values)
}

pub proof fn lemma_ready(
    m: Matching,
    k: Matching,
    n: Matching,
    first: Set<StrId>,
    second: Set<StrId>,
    names: Set<StrId>,
)
    requires
        ready(m, n, names),
        after(m.s, k.s, first),
        after(k.s, n.s, second),
        names =~= first.union(second),
    ensures
        ready(m, k, first),
        ready(k, n, second),
{
    reveal(keeps_slots);
    assert(covered(m.s.loc, first));
    assert(covered(k.s.loc, second));
}

/// One piece of code behind another.
pub proof fn lemma_seq(
    g: Given,
    img: Image,
    m: Matching,
    k: Matching,
    n: Matching,
    c: Config,
    stack: Seq<Value>,
    l0: Map<int, Value>,
    l1: Map<int, Value>,
    l2: Map<int, Value>,
    first: Set<StrId>,
    second: Set<StrId>,
    ok1: bool,
    ok2: bool,
    v1: Map<StrId, Value>,
    v2: Map<StrId, Value>,
    names: Set<StrId>,
)
    requires
        misses(m, k),
        misses(k, n),
        after(m.s, k.s, first),
        after(k.s, n.s, second),
        names =~= first.union(second),
        first.disjoint(second),
        ready(m, n, names),
        runs(g, img, m, k, c, stack, l0, l1, first, ok1, v1),
        ok1 ==> runs(g, img, k, n, at_end(k.s, stack, l1), stack, l1, l2, second, ok2, v2),
    ensures
        runs(
            g,
            img,
            m,
            n,
            c,
            stack,
            l0,
            if ok1 {
                l2
            } else {
                l1
            },
            names,
            ok1 && ok2,
            v1.union_prefer_right(v2),
        ),
{
    lemma_ready(m, k, n, first, second, names);
    lemma_reaches_self(g, img, c);
    if ok1 {
        if ok2 {
            lemma_reaches_on(g, img, c, at_end(k.s, stack, l1), at_end(n.s, stack, l2));
        } else {
            lemma_fails_on(g, img, m, k, n, c, at_end(k.s, stack, l1), stack, l2);
        }
    } else {
        lemma_fails_on(g, img, m, k, n, c, c, stack, l1);
    }
    reveal(keeps_slots);
    reveal(kept);
    reveal(binds);
    let l = if ok1 {
        l2
    } else {
        l1
    };
    let (a, b, d) = (m.s.loc, k.s.loc, n.s.loc);
    assert forall|i: int| 0 <= i < a.count && !is_slot(d, names, i) implies (
    #[trigger] l.dom().contains(i) <==> l0.dom().contains(i)) && l[i] == l0[i] by {
        assert(!is_slot(b, first, i)) by {
            if is_slot(b, first, i) {
                let z = choose|z: StrId| #[trigger]
                    first.contains(z) && b.map.dom().contains(z) && b.map[z].slot == i;
                assert(names.contains(z));
                assert(d.map.dom().contains(z));
                assert(d.map[z] == b.map[z]);
                assert(is_slot(d, names, i));
            }
        }
        assert(l1.dom().contains(i) <==> l0.dom().contains(i));
        if ok1 {
            assert(!is_slot(d, second, i)) by {
                if is_slot(d, second, i) {
                    let z = choose|z: StrId| #[trigger]
                        second.contains(z) && d.map.dom().contains(z) && d.map[z].slot == i;
                    assert(names.contains(z));
                    assert(is_slot(d, names, i));
                }
            }
            assert(l2.dom().contains(i) <==> l1.dom().contains(i));
        }
    }
    assert(kept(a, d, names, l0, l));
    if ok1 && ok2 {
        let values = v1.union_prefer_right(v2);
        assert(values.dom() =~= names);
        assert forall|z: StrId| #[trigger] names.contains(z) implies l.dom().contains(
            d.map[z].slot as int,
        ) && l[d.map[z].slot as int] == values[z] by {
            if !second.contains(z) {
                assert(first.contains(z));
                let i = b.map[z].slot as int;
                assert(b.map.dom().contains(z));
                assert(d.map[z] == b.map[z]);
                assert(0 <= i < b.count);
                assert(!is_slot(d, second, i)) by {
                    if is_slot(d, second, i) {
                        let y = choose|y: StrId| #[trigger]
                            second.contains(y) && d.map.dom().contains(y) && d.map[y].slot == i;
                        assert(alone(d, y));
                        assert(d.map.dom().contains(z));
                    }
                }
                assert(l2.dom().contains(i) <==> l1.dom().contains(i));
            } else {
                assert(values[z] == v2[z]);
            }
        }
        assert(values.dom() == names);
        assert(binds(d, l, names, values));
    }
}

/// Code that leads up to another piece.
pub proof fn lemma_led(
    g: Given,
    img: Image,
    m: Matching,
    k: Matching,
    n: Matching,
    c: Config,
    d: Config,
    stack: Seq<Value>,
    l0: Map<int, Value>,
    l1: Map<int, Value>,
    l2: Map<int, Value>,
    names: Set<StrId>,
    ok: bool,
    values: Map<StrId, Value>,
)
    requires
        misses(m, k),
        misses(k, n),
        after(m.s, k.s, Set::empty()),
        after(k.s, n.s, names),
        ready(m, n, names),
        reaches(g, img, c, d),
        kept(m.s.loc, k.s.loc, Set::empty(), l0, l1),
        runs(g, img, k, n, d, stack, l1, l2, names, ok, values),
    ensures
        runs(g, img, m, n, c, stack, l0, l2, names, ok, values),
{
    lemma_ready(m, k, n, Set::empty(), names, names);
    if ok {
        lemma_reaches_on(g, img, c, d, at_end(n.s, stack, l2));
    } else {
        lemma_fails_on(g, img, m, k, n, c, d, stack, l2);
    }
    reveal(keeps_slots);
    reveal(kept);
    assert forall|i: int| 0 <= i < m.s.loc.count && !is_slot(n.s.loc, names, i) implies (
    #[trigger] l2.dom().contains(i) <==> l0.dom().contains(i)) && l2[i] == l0[i] by {
        assert(!is_slot(k.s.loc, Set::empty(), i));
        assert(l1.dom().contains(i) <==> l0.dom().contains(i));
    }
}

/// Code that binds nothing.
pub proof fn lemma_decided(
    g: Given,
    img: Image,
    m: Matching,
    n: Matching,
    c: Config,
    stack: Seq<Value>,
    l: Map<int, Value>,
    ok: bool,
)
    requires
        decides(g, img, m, n, c, stack, l, ok),
    ensures
        runs(g, img, m, n, c, stack, l, l, Set::empty(), ok, Map::empty()),
{
    reveal(kept);
    reveal(binds);
    assert(Map::<StrId, Value>::empty().dom() =~= Set::empty());
}

// ---- slots of no name ------------------------------------------------------------

/// Whether a slot was handed out that no name has.
pub open spec fn free(l: Locals, slot: i32) -> bool {
    0 <= slot < l.count && forall|n: StrId| #[trigger]
        l.map.dom().contains(n) ==> l.map[n].slot != slot
}

pub proof fn lemma_free(
    m: Matching,
    n: Matching,
    names: Set<StrId>,
    slot: i32,
    l0: Map<int, Value>,
    l1: Map<int, Value>,
)
    requires
        after(m.s, n.s, names),
        ready(m, n, names),
        free(m.s.loc, slot),
        kept(m.s.loc, n.s.loc, names, l0, l1),
    ensures
        free(n.s.loc, slot),
        l1.dom().contains(slot as int) == l0.dom().contains(slot as int),
        l1[slot as int] == l0[slot as int],
{
    reveal(keeps_slots);
    reveal(kept);
    assert forall|z: StrId| #[trigger] n.s.loc.map.dom().contains(z) implies n.s.loc.map[z].slot
        != slot by {
        assert(n.s.loc.map[z].slot >= m.s.loc.count || m.s.loc.map.dom().contains(z));
    }
    assert(!is_slot(n.s.loc, names, slot as int));
    assert(l1.dom().contains(slot as int) <==> l0.dom().contains(slot as int));
}

/// Putting the top of the stack aside.
pub proof fn lemma_aside(
    g: Given,
    img: Image,
    m: Matching,
    c: Config,
    stack: Seq<Value>,
    v: Value,
    l: Map<int, Value>,
)
    requires
        carries(img, m, m.at(m.s.spill())),
        tidy(m.s.loc),
        m.s.loc.count < i32::MAX,
        reaches(g, img, c, at_end(m.s, stack.push(v), l)),
    ensures
        reaches(g, img, c, at_end(m.s.spill(), stack, l.insert(m.s.loc.count as int, v))),
        kept(
            m.s.loc,
            m.s.spill().loc,
            Set::empty(),
            l,
            l.insert(m.s.loc.count as int, v),
        ),
        m.s.next_slot() == m.s.loc.count,
        free(m.s.spill().loc, m.s.loc.count),
        m.s.spill().loc.count == m.s.loc.count + 1,
        misses(m, m.at(m.s.spill())),
{
    reveal(State::take_slot);
    reveal(State::next_slot);
    let k = m.at(m.s.take_slot());
    assert(lands(m.s, k.s) && lands(k.s, m.s.spill()) && lands(m.s, m.s.spill())) by {
        broadcast use group_landing;

        assert(from_here(m.s) && from_here(k.s));
        assert(lands(k.s, m.s.spill()));
    }
    lemma_line(img, m, k.s, m.s.spill());
    lemma_straight(m, m.s.spill());
    lemma_store(g, img, k, m.s.loc.count, c, stack, v, l);
    lemma_spill(m.s);
    reveal(kept);
}

// ---- patterns --------------------------------------------------------------------

/// The values of a pattern's code: it runs as the pattern says.
pub open spec fn as_said(
    g: Given,
    img: Image,
    p: Pattern,
    m: Matching,
    v: Value,
    stack: Seq<Value>,
    l0: Map<int, Value>,
    l1: Map<int, Value>,
) -> bool {
    let x = ctx_of(m.s);
    runs(
        g,
        img,
        m,
        pattern(p, m),
        at_end(m.s, stack.push(v), l0),
        stack,
        l0,
        l1,
        names_in(x, p),
        fits(g, x, p, v),
        bound(g, x, p, v),
    )
}

/// Comparing the value on top of the stack with a constant.
pub proof fn lemma_compared(
    g: Given,
    img: Image,
    m: Matching,
    k: ConstView,
    v: Value,
    stack: Seq<Value>,
    l: Map<int, Value>,
)
    requires
        carries(img, m, m.at(m.s.push_const(k)).require(Op::Eq)),
    ensures
        decides(
            g,
            img,
            m,
            m.at(m.s.push_const(k)).require(Op::Eq),
            at_end(m.s, stack.push(v), l),
            stack,
            l,
            v == g.constant(k),
        ),
{
    let c = at_end(m.s, stack.push(v), l);
    lemma_reaches_self(g, img, c);
    let s1 = m.s.push_const(k);
    let n = m.at(s1).require(Op::Eq);
    assert(lands(m.s, s1)) by {
        broadcast use group_landing;

        assert(from_here(m.s));
    }
    lemma_straight(m, s1);
    landing::lemma_require(m.at(s1), Op::Eq);
    lemma_carries_parts(img, m, m.at(s1), n);
    lemma_const(g, img, m, k, c, stack.push(v), l);
    let full = stack.push(v).push(g.constant(k));
    assert(at_end(s1, full, l).without(2) =~= stack);
    lemma_require(g, img, m.at(s1), Op::Eq, c, full, stack, v == g.constant(k), l);
    if v != g.constant(k) {
        lemma_fails_on(g, img, m, m.at(s1), n, c, c, stack, l);
    }
}

/// A pattern's code runs as the pattern says: it gets to its end just where the pattern fits
/// the value on top of the stack, and takes a jump to the failure where it does not. The value
/// is gone either way. Where the pattern fits, its names stand for the parts of the value in
/// their places.
pub proof fn lemma_pattern(
    g: Given,
    img: Image,
    p: Pattern,
    m: Matching,
    v: Value,
    stack: Seq<Value>,
    l: Map<int, Value>,
) -> (l2: Map<int, Value>)
    requires
        in_order(ctx_of(m.s), p),
        suits(ctx_of(m.s), p, v),
        carries(img, m, pattern(p, m)),
        ready(m, pattern(p, m), names_in(ctx_of(m.s), p)),
    ensures
        as_said(g, img, p, m, v, stack, l, l2),
    decreases p, 1nat,
{
    frames::lemma_pattern(p, m);
    landing::patterns::lemma_pattern(p, m);
    let s = m.s;
    let x = ctx_of(s);
    let n = pattern(p, m);
    let c = at_end(s, stack.push(v), l);
    lemma_reaches_self(g, img, c);
    assert(c.without(1) =~= stack);
    match p {
        Pattern::Wildcard { .. } => {
            assert(n == m.at(s.emit(Op::Pop))) by {
                reveal(pattern_body);
            }
            lemma_op(g, img, m, instr(Op::Pop, 0, 0, 0), c, stack.push(v), l, stack);
            lemma_decided(g, img, m, n, c, stack, l, true);
            l
        },
        Pattern::Var { id, .. } => {
            if x.text(id.name) == "_"@ {
                assert(n == m.at(s.emit(Op::Pop))) by {
                    reveal(pattern_body);
                }
                lemma_op(g, img, m, instr(Op::Pop, 0, 0, 0), c, stack.push(v), l, stack);
                lemma_decided(g, img, m, n, c, stack, l, true);
                l
            } else {
                assert(n == m.at(s.store_name(id.name))) by {
                    reveal(pattern_body);
                }
                lemma_named(g, img, m, id.name, c, stack, v, l)
            }
        },
        Pattern::Number { literal: num, .. } => {
            let k = crate::literal::number_of(x.names, num.text)->Ok_0;
            lemma_number(s, num);
            assert(n == m.at(s.push_const(k)).require(Op::Eq)) by {
                reveal(pattern_body);
            }
            lemma_compared(g, img, m, k, v, stack, l);
            lemma_decided(g, img, m, n, c, stack, l, v == g.constant(k));
            l
        },
        Pattern::Str { value, .. } => {
            let k = ConstView::Str(value);
            assert(n == m.at(s.push_const(k)).require(Op::Eq)) by {
                reveal(pattern_body);
            }
            lemma_compared(g, img, m, k, v, stack, l);
            lemma_decided(g, img, m, n, c, stack, l, v == g.constant(k));
            l
        },
        Pattern::Range { .. } => lemma_range(g, img, p, m, v, stack, l),
        Pattern::Tuple { elements, .. } => lemma_tuple_pattern(
            g,
            img,
            p,
            elements@,
            m,
            v,
            stack,
            l,
        ),
        Pattern::Array { elements, .. } => lemma_array_pattern(
            g,
            img,
            p,
            elements@,
            m,
            v,
            stack,
            l,
        ),
        Pattern::Constructor { name, args, .. } => lemma_constructor(
            g,
            img,
            p,
            name,
            args@,
            m,
            v,
            stack,
            l,
        ),
        Pattern::Or { patterns, .. } => lemma_or(g, img, p, patterns@, m, v, stack, l),
        Pattern::Binary { .. } => l,
    }
}

/// Storing the top of the stack under a name.
pub proof fn lemma_named(
    g: Given,
    img: Image,
    m: Matching,
    name: StrId,
    c: Config,
    stack: Seq<Value>,
    v: Value,
    l: Map<int, Value>,
) -> (l2: Map<int, Value>)
    requires
        carries(img, m, m.at(m.s.store_name(name))),
        ready(m, m.at(m.s.store_name(name)), set![name]),
        reaches(g, img, c, at_end(m.s, stack.push(v), l)),
    ensures
        runs(
            g,
            img,
            m,
            m.at(m.s.store_name(name)),
            c,
            stack,
            l,
            l2,
            set![name],
            true,
            map![name => v],
        ),
{
    let s = m.s;
    let t = s.store_name(name);
    let slot = s.slot_of(name);
    lemma_store_name(s, name);
    let k = m.at(s.reserve(name));
    assert(lands(s, k.s) && lands(k.s, t)) by {
        broadcast use group_landing;

        assert(from_here(s) && from_here(k.s));
    }
    lemma_line(img, m, k.s, t);
    assert(k.s.out == s.out) by {
        reveal(State::reserve);
    }
    lemma_store(g, img, k, slot, c, stack, v, l);
    let l2 = l.insert(slot as int, v);
    reveal(kept);
    reveal(binds);
    assert(set![name].contains(name));
    assert(map![name => v].dom() =~= set![name]);
    assert(t.loc.map[name].slot == slot);
    assert forall|i: int|
        0 <= i < s.loc.count && !is_slot(t.loc, set![name], i) implies (#[trigger] l2.dom().contains(
        i,
    ) <==> l.dom().contains(i)) && l2[i] == l[i] by {
        if i == slot {
            assert(is_slot(t.loc, set![name], i));
        }
    }
    l2
}

/// Comparing what was put aside with a constant.
proof fn lemma_bounded(
    g: Given,
    img: Image,
    m: Matching,
    temp: i32,
    k: ConstView,
    o: Op,
    stack: Seq<Value>,
    l: Map<int, Value>,
    b: bool,
)
    requires
        carries(img, m, m.at(m.s.emit_arg(Op::PushLocal, temp).push_const(k)).require(o)),
        l.dom().contains(temp as int),
        is_binary(o) && !o.jumps(),
        g.binary(o, l[temp as int], g.constant(k)) == Some(Value::Bool(b)),
    ensures
        runs(
            g,
            img,
            m,
            m.at(m.s.emit_arg(Op::PushLocal, temp).push_const(k)).require(o),
            at_end(m.s, stack, l),
            stack,
            l,
            l,
            Set::empty(),
            b,
            Map::empty(),
        ),
        misses(m, m.at(m.s.emit_arg(Op::PushLocal, temp).push_const(k)).require(o)),
        after(
            m.s,
            m.at(m.s.emit_arg(Op::PushLocal, temp).push_const(k)).require(o).s,
            Set::empty(),
        ),
{
    let c = at_end(m.s, stack, l);
    lemma_reaches_self(g, img, c);
    let s1 = m.s.emit_arg(Op::PushLocal, temp);
    let s2 = s1.push_const(k);
    let n = m.at(s2).require(o);
    assert(lands(m.s, s1) && lands(s1, s2) && lands(m.s, s2)) by {
        broadcast use group_landing;

        assert(from_here(m.s) && from_here(s1));
        assert(lands(s1, s2));
    }
    lemma_straight(m, s2);
    landing::lemma_require(m.at(s2), o);
    assert(misses(m, n)) by {
        broadcast use group_landing;

        assert(from_here(m.s));
    }
    lemma_carries_parts(img, m, m.at(s2), n);
    lemma_line(img, m, s1, s2);
    lemma_local(g, img, m, temp, c, stack, l);
    lemma_const(g, img, m.at(s1), k, c, stack.push(l[temp as int]), l);
    let full = stack.push(l[temp as int]).push(g.constant(k));
    assert(at_end(s2, full, l).without(2) =~= stack);
    lemma_require(g, img, m.at(s2), o, c, full, stack, b, l);
    if !b {
        lemma_fails_on(g, img, m, m.at(s2), n, c, c, stack, l);
    }
    lemma_decided(g, img, m, n, c, stack, l, b);
    lemma_push(m.s, instr(Op::PushLocal, 0, 0, temp));
    lemma_push_const(s1, k);
    frames::lemma_require(m.at(s2), o);
    lemma_after_same(m.s, n.s);
}

proof fn lemma_range(
    g: Given,
    img: Image,
    p: Pattern,
    m: Matching,
    v: Value,
    stack: Seq<Value>,
    l: Map<int, Value>,
) -> (l2: Map<int, Value>)
    requires
        p is Range,
        in_order(ctx_of(m.s), p),
        suits(ctx_of(m.s), p, v),
        carries(img, m, pattern(p, m)),
        ready(m, pattern(p, m), names_in(ctx_of(m.s), p)),
    ensures
        as_said(g, img, p, m, v, stack, l, l2),
{
    let s = m.s;
    let x = ctx_of(s);
    let n = pattern(p, m);
    let none = Set::<StrId>::empty();
    let nothing = Map::<StrId, Value>::empty();
    let c = at_end(s, stack.push(v), l);
    lemma_reaches_self(g, img, c);
    if let Pattern::Range { start, end, .. } = p {
        let (na, nb) = (start->Number_literal, end->Number_literal);
        let ka = crate::literal::number_of(x.names, na.text)->Ok_0;
        let kb = crate::literal::number_of(x.names, nb.text)->Ok_0;
        let temp = s.next_slot();
        let m0 = m.at(s.spill());
        let m1 = m0.at(m0.s.emit_arg(Op::PushLocal, temp).push_const(ka)).require(Op::Gte);
        let m2 = m1.at(m1.s.emit_arg(Op::PushLocal, temp).push_const(kb)).require(Op::Lt);
        lemma_spill(s);
        lemma_push(m0.s, instr(Op::PushLocal, 0, 0, temp));
        lemma_push_const(m0.s.emit_arg(Op::PushLocal, temp), ka);
        frames::lemma_require(m0.at(m0.s.emit_arg(Op::PushLocal, temp).push_const(ka)), Op::Gte);
        lemma_push(m1.s, instr(Op::PushLocal, 0, 0, temp));
        lemma_push_const(m1.s.emit_arg(Op::PushLocal, temp), kb);
        frames::lemma_require(m1.at(m1.s.emit_arg(Op::PushLocal, temp).push_const(kb)), Op::Lt);
        assert(n == m2) by {
            reveal(pattern_body);
            reveal(State::range_bound);
            lemma_number(m0.s.emit_arg(Op::PushLocal, temp), na);
            lemma_number(m1.s.emit_arg(Op::PushLocal, temp), nb);
        }
        assert(misses(m, m0) && misses(m0, m1) && misses(m1, m2) && misses(m0, m2)) by {
            broadcast use {group_landing, group_landing_pieces};

            assert(from_here(m.s) && from_here(m0.s) && from_here(m1.s));
            assert(lands(m.s, m0.s));
            assert(lands(m0.s, m0.s.emit_arg(Op::PushLocal, temp).push_const(ka)));
            assert(lands(m1.s, m1.s.emit_arg(Op::PushLocal, temp).push_const(kb)));
            assert(misses(m1, m2));
            assert(misses(m0, m1));
        }
        lemma_carries_parts(img, m, m0, m2);
        lemma_carries_parts(img, m0, m1, m2);
        lemma_after_same(m0.s, m2.s);
        lemma_after_same(m0.s, m1.s);
        lemma_after_same(m1.s, m2.s);
        lemma_ready(m, m0, m2, none, none, none);
        lemma_room(m, m0, m2);
        lemma_aside(g, img, m, c, stack, v, l);
        let l1 = l.insert(temp as int, v);
        let i = v->Int_0;
        let (lo, hi) = (g.constant(ka)->Int_0, g.constant(kb)->Int_0);
        lemma_bounded(g, img, m0, temp, ka, Op::Gte, stack, l1, lo <= i);
        lemma_bounded(g, img, m1, temp, kb, Op::Lt, stack, l1, i < hi);
        let d = at_end(m0.s, stack, l1);
        lemma_seq(
            g,
            img,
            m0,
            m1,
            m2,
            d,
            stack,
            l1,
            l1,
            l1,
            none,
            none,
            lo <= i,
            i < hi,
            nothing,
            nothing,
            none,
        );
        assert(nothing.union_prefer_right(nothing) =~= nothing);
        lemma_led(
            g,
            img,
            m,
            m0,
            m2,
            c,
            d,
            stack,
            l,
            l1,
            l1,
            none,
            lo <= i && i < hi,
            nothing,
        );
        assert(literal(g, x, *start) == Some(Value::Int(lo)));
        assert(literal(g, x, *end) == Some(Value::Int(hi)));
        l1
    } else {
        l
    }
}

pub proof fn lemma_kept_self(a: Locals, b: Locals, l: Map<int, Value>)
    ensures
        kept(a, b, Set::empty(), l, l),
{
    reveal(kept);
}

proof fn lemma_tuple(
    g: Given,
    img: Image,
    es: Seq<Pattern>,
    i: nat,
    temp: i32,
    m: Matching,
    vs: Seq<Value>,
    stack: Seq<Value>,
    l: Map<int, Value>,
) -> (l2: Map<int, Value>)
    requires
        in_order_from(ctx_of(m.s), es, i),
        vs.len() == es.len(),
        es.len() <= i32::MAX,
        suit_from(ctx_of(m.s), es, i, vs),
        carries(img, m, tuple_from(es, i, temp, m)),
        ready(m, tuple_from(es, i, temp, m), names_from(ctx_of(m.s), es, i)),
        free(m.s.loc, temp),
        l.dom().contains(temp as int),
        l[temp as int] == Value::Tuple(vs),
    ensures
        runs(
            g,
            img,
            m,
            tuple_from(es, i, temp, m),
            at_end(m.s, stack, l),
            stack,
            l,
            l2,
            names_from(ctx_of(m.s), es, i),
            fit_from(g, ctx_of(m.s), es, i, vs),
            bound_from(g, ctx_of(m.s), es, i, vs),
        ),
    decreases es, es.len() - i,
{
    let x = ctx_of(m.s);
    let c = at_end(m.s, stack, l);
    lemma_reaches_self(g, img, c);
    let n = tuple_from(es, i, temp, m);
    if i >= es.len() {
        lemma_decided(g, img, m, n, c, stack, l, true);
        l
    } else {
        let p = es[i as int];
        let v = vs[i as int];
        let s1 = m.s.emit_arg(Op::PushLocal, temp);
        let ins = instr(Op::TupleIndex, 0, 0, i as i32);
        let s2 = s1.push(ins);
        let k = m.at(s2);
        let q = pattern(p, k);
        assert(n == tuple_from(es, i + 1, temp, q));
        lemma_push(m.s, instr(Op::PushLocal, 0, 0, temp));
        lemma_push(s1, ins);
        lemma_after_same(m.s, s2);
        frames::lemma_pattern(p, k);
        frames::lemma_tuple(es, i + 1, temp, q);
        landing::patterns::lemma_pattern(p, k);
        landing::patterns::lemma_tuple(es, i + 1, temp, q);
        assert(lands(m.s, s1) && lands(s1, s2) && lands(m.s, s2)) by {
            broadcast use group_landing;

            assert(from_here(m.s) && from_here(s1));
            assert(lands(s1, s2));
        }
        lemma_straight(m, s2);
        assert(misses(m, q) && misses(k, n)) by {
            broadcast use group_landing;

            assert(from_here(m.s) && from_here(k.s));
        }
        let none = Set::<StrId>::empty();
        let first = names_in(x, p);
        let second = names_from(x, es, i + 1);
        let names = names_from(x, es, i);
        lemma_after_on(k.s, q.s, n.s, first, second, names);
        lemma_after_on(m.s, k.s, q.s, none, first, first);
        lemma_carries_parts(img, m, k, n);
        lemma_carries_parts(img, k, q, n);
        lemma_line(img, m, s1, s2);
        lemma_ready(m, k, n, none, names, names);
        lemma_ready(k, q, n, first, second, names);
        lemma_ready(m, q, n, first, second, names);
        lemma_local(g, img, m, temp, c, stack, l);
        let x1 = stack.push(Value::Tuple(vs));
        assert(at_end(s1, x1, l).without(1) =~= stack);
        lemma_op(g, img, m.at(s1), ins, c, x1, l, stack.push(v));
        let l1 = lemma_pattern(g, img, p, k, v, stack, l);
        lemma_kept_self(m.s.loc, k.s.loc, l);
        let ok1 = fits(g, x, p, v);
        lemma_led(
            g,
            img,
            m,
            k,
            q,
            c,
            at_end(s2, stack.push(v), l),
            stack,
            l,
            l,
            l1,
            first,
            ok1,
            bound(g, x, p, v),
        );
        lemma_free(m, q, first, temp, l, l1);
        let l2 = lemma_tuple(g, img, es, i + 1, temp, q, vs, stack, l1);
        lemma_seq(
            g,
            img,
            m,
            q,
            n,
            c,
            stack,
            l,
            l1,
            l2,
            first,
            second,
            ok1,
            fit_from(g, x, es, i + 1, vs),
            bound(g, x, p, v),
            bound_from(g, x, es, i + 1, vs),
            names,
        );
        if ok1 {
            l2
        } else {
            l1
        }
    }
}

proof fn lemma_tuple_pattern(
    g: Given,
    img: Image,
    p: Pattern,
    es: Seq<Pattern>,
    m: Matching,
    v: Value,
    stack: Seq<Value>,
    l: Map<int, Value>,
) -> (l2: Map<int, Value>)
    requires
        p matches Pattern::Tuple { elements, .. } && elements@ == es,
        in_order(ctx_of(m.s), p),
        suits(ctx_of(m.s), p, v),
        carries(img, m, pattern(p, m)),
        ready(m, pattern(p, m), names_in(ctx_of(m.s), p)),
    ensures
        as_said(g, img, p, m, v, stack, l, l2),
    decreases es, es.len() + 1,
{
    let s = m.s;
    let x = ctx_of(s);
    let n = pattern(p, m);
    let c = at_end(s, stack.push(v), l);
    lemma_reaches_self(g, img, c);
    let temp = s.next_slot();
    let m0 = m.at(s.spill());
    assert(n == tuple_from(es, 0, temp, m0)) by {
        reveal(pattern_body);
    }
    let names = names_from(x, es, 0);
    assert(names_in(x, p) == names);
    let vs = v->Tuple_0;
    assert(in_order_from(x, es, 0));
    assert(suit_from(x, es, 0, vs));
    lemma_spill(s);
    frames::lemma_tuple(es, 0, temp, m0);
    landing::patterns::lemma_tuple(es, 0, temp, m0);
    assert(misses(m, m0)) by {
        broadcast use {group_landing, group_landing_pieces};

        assert(from_here(m.s));
        assert(lands(m.s, m0.s));
    }
    lemma_carries_parts(img, m, m0, n);
    lemma_room(m, m0, n);
    lemma_aside(g, img, m, c, stack, v, l);
    let l1 = l.insert(temp as int, v);
    let none = Set::<StrId>::empty();
    lemma_ready(m, m0, n, none, names, names);
    let l2 = lemma_tuple(g, img, es, 0, temp, m0, vs, stack, l1);
    lemma_led(
        g,
        img,
        m,
        m0,
        n,
        c,
        at_end(m0.s, stack, l1),
        stack,
        l,
        l1,
        l2,
        names,
        fit_from(g, x, es, 0, vs),
        bound_from(g, x, es, 0, vs),
    );
    assert(fits(g, x, p, v) == fit_from(g, x, es, 0, vs));
    assert(bound(g, x, p, v) == bound_from(g, x, es, 0, vs));
    l2
}

/// There is a slot for what is put aside.
pub proof fn lemma_room(m: Matching, k: Matching, n: Matching)
    requires
        k == m.at(m.s.spill()),
        !m.s.out.check_only,
        k.s.out.code.len() <= n.s.out.code.len(),
        m.s.loc.count + (n.s.out.code.len() - m.s.out.code.len()) <= i32::MAX,
    ensures
        m.s.loc.count < i32::MAX,
{
    reveal(State::push);
    reveal(State::take_slot);
}

// ---- arrays ----------------------------------------------------------------------

/// Whether the items from `i` up to `count` fit.
spec fn items_fit_to(
    g: Given,
    x: Ctx,
    es: Seq<ArrayPattern>,
    i: nat,
    count: nat,
    vs: Seq<Value>,
) -> bool
    decreases es.len() - i,
{
    i < count && i < es.len() ==> fits(g, x, es[i as int]->Item_0, vs[i as int]) && items_fit_to(
        g,
        x,
        es,
        i + 1,
        count,
        vs,
    )
}

/// What the items from `i` up to `count` bind.
spec fn items_bound_to(
    g: Given,
    x: Ctx,
    es: Seq<ArrayPattern>,
    i: nat,
    count: nat,
    vs: Seq<Value>,
) -> Map<StrId, Value>
    decreases es.len() - i,
{
    if i >= count || i >= es.len() {
        Map::empty()
    } else {
        bound(g, x, es[i as int]->Item_0, vs[i as int]).union_prefer_right(
            items_bound_to(g, x, es, i + 1, count, vs),
        )
    }
}

/// What the rest of an array pattern binds.
spec fn rest_bound(es: Seq<ArrayPattern>, count: nat, vs: Seq<Value>) -> Map<StrId, Value> {
    if count < es.len() {
        match es[count as int] {
            ArrayPattern::Spread { binding: Some(id), .. } => map![
                id.name => Value::Array(vs.skip(count as int)),
            ],
            _ => Map::empty(),
        }
    } else {
        Map::empty()
    }
}

proof fn lemma_items_to(
    g: Given,
    x: Ctx,
    es: Seq<ArrayPattern>,
    i: nat,
    count: nat,
    vs: Seq<Value>,
)
    requires
        count == es.len() || (count == es.len() - 1 && es[count as int] is Spread),
        forall|k: int| 0 <= k < count ==> #[trigger] es[k] is Item,
        i <= count,
    ensures
        items_fit_from(g, x, es, i, vs) == items_fit_to(g, x, es, i, count, vs),
        items_bound_from(g, x, es, i, vs) =~= items_bound_to(
            g,
            x,
            es,
            i,
            count,
            vs,
        ).union_prefer_right(rest_bound(es, count, vs)),
    decreases count - i,
{
    if i < count {
        assert(es[i as int] is Item);
        lemma_items_to(g, x, es, i + 1, count, vs);
        let a = bound(g, x, es[i as int]->Item_0, vs[i as int]);
        let b = items_bound_to(g, x, es, i + 1, count, vs);
        let t = rest_bound(es, count, vs);
        assert(a.union_prefer_right(b.union_prefer_right(t)) =~= a.union_prefer_right(
            b,
        ).union_prefer_right(t));
    } else if i < es.len() {
        assert(items_fit_from(g, x, es, i + 1, vs));
        assert(items_bound_from(g, x, es, i + 1, vs) =~= Map::empty());
        assert(rest_bound(es, count, vs).union_prefer_right(Map::empty()) =~= rest_bound(
            es,
            count,
            vs,
        ));
    }
}

proof fn lemma_items(
    g: Given,
    img: Image,
    es: Seq<ArrayPattern>,
    i: nat,
    count: nat,
    temp: i32,
    m: Matching,
    vs: Seq<Value>,
    stack: Seq<Value>,
    l: Map<int, Value>,
) -> (l2: Map<int, Value>)
    requires
        items_in_order_from(ctx_of(m.s), es, i),
        forall|k: int| 0 <= k < count && k < es.len() ==> #[trigger] es[k] is Item,
        count <= vs.len(),
        count <= es.len() <= i32::MAX,
        items_suit_from(ctx_of(m.s), es, i, vs),
        carries(img, m, array_from(es, i, count, temp, m)),
        ready(m, array_from(es, i, count, temp, m), frames::items_from(ctx_of(m.s), es, i, count)),
        free(m.s.loc, temp),
        l.dom().contains(temp as int),
        l[temp as int] == Value::Array(vs),
    ensures
        runs(
            g,
            img,
            m,
            array_from(es, i, count, temp, m),
            at_end(m.s, stack, l),
            stack,
            l,
            l2,
            frames::items_from(ctx_of(m.s), es, i, count),
            items_fit_to(g, ctx_of(m.s), es, i, count, vs),
            items_bound_to(g, ctx_of(m.s), es, i, count, vs),
        ),
    decreases es, es.len() - i,
{
    let x = ctx_of(m.s);
    let c = at_end(m.s, stack, l);
    lemma_reaches_self(g, img, c);
    let n = array_from(es, i, count, temp, m);
    if i >= count {
        lemma_decided(g, img, m, n, c, stack, l, true);
        l
    } else {
        assert(es[i as int] is Item);
        let p = es[i as int]->Item_0;
        let v = vs[i as int];
        let s1 = m.s.emit_arg(Op::PushLocal, temp);
        let ins = instr(Op::ElemAt, 0, 0, i as i32);
        let s2 = s1.push(ins);
        let k = m.at(s2);
        let q = pattern(p, k);
        assert(n == array_from(es, i + 1, count, temp, q));
        lemma_push(m.s, instr(Op::PushLocal, 0, 0, temp));
        lemma_push(s1, ins);
        lemma_after_same(m.s, s2);
        frames::lemma_pattern(p, k);
        frames::lemma_array_from(es, i + 1, count, temp, q);
        landing::patterns::lemma_pattern(p, k);
        landing::patterns::lemma_array_from(es, i + 1, count, temp, q);
        assert(lands(m.s, s1) && lands(s1, s2) && lands(m.s, s2)) by {
            broadcast use group_landing;

            assert(from_here(m.s) && from_here(s1));
            assert(lands(s1, s2));
        }
        lemma_straight(m, s2);
        assert(misses(m, q) && misses(k, n)) by {
            broadcast use group_landing;

            assert(from_here(m.s) && from_here(k.s));
        }
        let none = Set::<StrId>::empty();
        let first = names_in(x, p);
        let second = frames::items_from(x, es, i + 1, count);
        let names = frames::items_from(x, es, i, count);
        assert(first.disjoint(second)) by {
            frames::lemma_items_within(x, es, i + 1, count);
        }
        lemma_after_on(k.s, q.s, n.s, first, second, names);
        lemma_after_on(m.s, k.s, q.s, none, first, first);
        lemma_carries_parts(img, m, k, n);
        lemma_carries_parts(img, k, q, n);
        lemma_line(img, m, s1, s2);
        lemma_ready(m, k, n, none, names, names);
        lemma_ready(k, q, n, first, second, names);
        lemma_ready(m, q, n, first, second, names);
        lemma_local(g, img, m, temp, c, stack, l);
        let x1 = stack.push(Value::Array(vs));
        assert(at_end(s1, x1, l).without(1) =~= stack);
        lemma_op(g, img, m.at(s1), ins, c, x1, l, stack.push(v));
        assert(suits(x, p, v));
        let l1 = lemma_pattern(g, img, p, k, v, stack, l);
        lemma_kept_self(m.s.loc, k.s.loc, l);
        let ok1 = fits(g, x, p, v);
        lemma_led(
            g,
            img,
            m,
            k,
            q,
            c,
            at_end(s2, stack.push(v), l),
            stack,
            l,
            l,
            l1,
            first,
            ok1,
            bound(g, x, p, v),
        );
        lemma_free(m, q, first, temp, l, l1);
        let l2 = lemma_items(g, img, es, i + 1, count, temp, q, vs, stack, l1);
        lemma_seq(
            g,
            img,
            m,
            q,
            n,
            c,
            stack,
            l,
            l1,
            l2,
            first,
            second,
            ok1,
            items_fit_to(g, x, es, i + 1, count, vs),
            bound(g, x, p, v),
            items_bound_to(g, x, es, i + 1, count, vs),
            names,
        );
        if ok1 {
            l2
        } else {
            l1
        }
    }
}

/// How many items an array pattern has before its rest.
spec fn item_count(es: Seq<ArrayPattern>) -> nat {
    if has_rest(es) {
        (es.len() - 1) as nat
    } else {
        es.len()
    }
}

/// The comparison of an array's length with that of its pattern.
spec fn length_op(es: Seq<ArrayPattern>) -> Op {
    if has_rest(es) {
        Op::Gte
    } else {
        Op::Eq
    }
}

/// The state behind the length check.
spec fn length_checked(es: Seq<ArrayPattern>, temp: i32, m: Matching) -> Matching {
    m.at(
        m.s.emit_arg(Op::PushLocal, temp).emit(Op::ArrayLen).push_int(item_count(es) as i64),
    ).require(length_op(es))
}

/// The state behind the rest.
spec fn rest_taken(es: Seq<ArrayPattern>, temp: i32, m: Matching) -> Matching {
    if has_rest(es) {
        match es.last() {
            ArrayPattern::Spread { binding: Some(id), .. } => m.at(
                m.s.emit_arg(Op::PushLocal, temp).push_int(item_count(es) as i64).emit(
                    Op::Drop,
                ).store_name(id.name),
            ),
            _ => m,
        }
    } else {
        m
    }
}

spec fn rest_names(es: Seq<ArrayPattern>) -> Set<StrId> {
    if has_rest(es) {
        match es.last() {
            ArrayPattern::Spread { binding: Some(id), .. } => set![id.name],
            _ => Set::empty(),
        }
    } else {
        Set::empty()
    }
}

proof fn lemma_length(
    g: Given,
    img: Image,
    es: Seq<ArrayPattern>,
    temp: i32,
    m: Matching,
    vs: Seq<Value>,
    stack: Seq<Value>,
    l: Map<int, Value>,
)
    requires
        es.len() <= i32::MAX,
        carries(img, m, length_checked(es, temp, m)),
        l.dom().contains(temp as int),
        l[temp as int] == Value::Array(vs),
    ensures
        runs(
            g,
            img,
            m,
            length_checked(es, temp, m),
            at_end(m.s, stack, l),
            stack,
            l,
            l,
            Set::empty(),
            if has_rest(es) {
                vs.len() >= item_count(es)
            } else {
                vs.len() == item_count(es)
            },
            Map::empty(),
        ),
        misses(m, length_checked(es, temp, m)),
        after(m.s, length_checked(es, temp, m).s, Set::empty()),
        length_checked(es, temp, m).s.loc == m.s.loc,
{
    let c = at_end(m.s, stack, l);
    lemma_reaches_self(g, img, c);
    let o = length_op(es);
    let k = ConstView::Int(item_count(es) as i64);
    let s1 = m.s.emit_arg(Op::PushLocal, temp);
    let ins = instr(Op::ArrayLen, 0, 0, 0);
    let s2 = s1.push(ins);
    let s3 = s2.push_const(k);
    let n = m.at(s3).require(o);
    let ok = if has_rest(es) {
        vs.len() >= item_count(es)
    } else {
        vs.len() == item_count(es)
    };
    assert(lands(m.s, s1) && lands(s1, s2) && lands(s2, s3) && lands(s1, s3) && lands(
        m.s,
        s3,
    )) by {
        broadcast use group_landing;

        assert(from_here(m.s) && from_here(s1) && from_here(s2));
        assert(lands(s2, s3));
        assert(lands(s1, s3));
    }
    lemma_straight(m, s3);
    landing::lemma_require(m.at(s3), o);
    assert(misses(m, n)) by {
        broadcast use group_landing;

        assert(from_here(m.s));
    }
    lemma_carries_parts(img, m, m.at(s3), n);
    lemma_line(img, m, s1, s3);
    lemma_line(img, m.at(s1), s2, s3);
    lemma_local(g, img, m, temp, c, stack, l);
    let x1 = stack.push(Value::Array(vs));
    let len = Value::Int(vs.len() as int);
    assert(at_end(s1, x1, l).without(1) =~= stack);
    lemma_op(g, img, m.at(s1), ins, c, x1, l, stack.push(len));
    lemma_const(g, img, m.at(s2), k, c, stack.push(len), l);
    let full = stack.push(len).push(g.constant(k));
    assert(at_end(s3, full, l).without(2) =~= stack);
    lemma_require(g, img, m.at(s3), o, c, full, stack, ok, l);
    if !ok {
        lemma_fails_on(g, img, m, m.at(s3), n, c, c, stack, l);
    }
    lemma_decided(g, img, m, n, c, stack, l, ok);
    lemma_push(m.s, instr(Op::PushLocal, 0, 0, temp));
    lemma_push(s1, ins);
    lemma_push_const(s2, k);
    frames::lemma_require(m.at(s3), o);
    lemma_after_same(m.s, n.s);
}

proof fn lemma_rest_taken(es: Seq<ArrayPattern>, temp: i32, m: Matching)
    requires
        !m.s.out.check_only,
    ensures
        misses(m, rest_taken(es, temp, m)),
        after(m.s, rest_taken(es, temp, m).s, rest_names(es)),
{
    let none = Set::<StrId>::empty();
    lemma_after_same(m.s, m.s);
    assert(misses(m, m)) by {
        broadcast use group_landing;

        assert(from_here(m.s));
    }
    if has_rest(es) {
        if let ArrayPattern::Spread { binding: Some(id), .. } = es.last() {
            let k = ConstView::Int(item_count(es) as i64);
            let s1 = m.s.emit_arg(Op::PushLocal, temp);
            let s2 = s1.push_const(k);
            let s3 = s2.emit(Op::Drop);
            let s4 = s3.store_name(id.name);
            lemma_push(m.s, instr(Op::PushLocal, 0, 0, temp));
            lemma_push_const(s1, k);
            lemma_push(s2, instr(Op::Drop, 0, 0, 0));
            lemma_after_same(m.s, s3);
            lemma_store_name(s3, id.name);
            lemma_after_on(m.s, s3, s4, none, set![id.name], set![id.name]);
            landing::patterns::lemma_store_name(s3, id.name);
            assert(lands(m.s, s4)) by {
                broadcast use group_landing;

                assert(from_here(m.s));
                assert(lands(m.s, s3));
            }
            lemma_straight(m, s4);
        }
    }
}

proof fn lemma_rest(
    g: Given,
    img: Image,
    es: Seq<ArrayPattern>,
    temp: i32,
    m: Matching,
    vs: Seq<Value>,
    stack: Seq<Value>,
    l: Map<int, Value>,
) -> (l2: Map<int, Value>)
    requires
        es.len() <= i32::MAX,
        item_count(es) <= vs.len(),
        carries(img, m, rest_taken(es, temp, m)),
        ready(m, rest_taken(es, temp, m), rest_names(es)),
        l.dom().contains(temp as int),
        l[temp as int] == Value::Array(vs),
    ensures
        runs(
            g,
            img,
            m,
            rest_taken(es, temp, m),
            at_end(m.s, stack, l),
            stack,
            l,
            l2,
            rest_names(es),
            true,
            rest_bound(es, item_count(es), vs),
        ),
{
    let c = at_end(m.s, stack, l);
    lemma_reaches_self(g, img, c);
    let n = rest_taken(es, temp, m);
    let none = Set::<StrId>::empty();
    if has_rest(es) && es.last()->binding is Some {
        let id = es.last()->binding->0;
        let count = item_count(es) as int;
        assert(es[count] == es.last());
        let k = ConstView::Int(count as i64);
        let s1 = m.s.emit_arg(Op::PushLocal, temp);
        let s2 = s1.push_const(k);
        let ins = instr(Op::Drop, 0, 0, 0);
        let s3 = s2.push(ins);
        let s4 = s3.store_name(id.name);
        lemma_push(m.s, instr(Op::PushLocal, 0, 0, temp));
        lemma_push_const(s1, k);
        lemma_push(s2, ins);
        lemma_after_same(m.s, s3);
        lemma_store_name(s3, id.name);
        landing::patterns::lemma_store_name(s3, id.name);
        assert(lands(m.s, s1) && lands(s1, s2) && lands(s2, s3) && lands(s1, s3) && lands(m.s, s3)
            && lands(m.s, s4)) by {
            broadcast use group_landing;

            assert(from_here(m.s) && from_here(s1) && from_here(s2));
            assert(lands(s2, s3));
            assert(lands(s1, s3));
        }
        lemma_line(img, m, s3, s4);
        lemma_line(img, m, s1, s3);
        lemma_line(img, m.at(s1), s2, s3);
        lemma_ready(m, m.at(s3), n, none, set![id.name], set![id.name]);
        lemma_local(g, img, m, temp, c, stack, l);
        let x1 = stack.push(Value::Array(vs));
        lemma_const(g, img, m.at(s1), k, c, x1, l);
        let x2 = x1.push(Value::Int(count));
        let v = Value::Array(vs.skip(count));
        assert(at_end(s2, x2, l).without(2) =~= stack);
        lemma_op(g, img, m.at(s2), ins, c, x2, l, stack.push(v));
        let d = at_end(s3, stack.push(v), l);
        lemma_reaches_self(g, img, d);
        let l2 = lemma_named(g, img, m.at(s3), id.name, d, stack, v, l);
        lemma_kept_self(m.s.loc, s3.loc, l);
        lemma_led(
            g,
            img,
            m,
            m.at(s3),
            n,
            c,
            d,
            stack,
            l,
            l,
            l2,
            set![id.name],
            true,
            map![id.name => v],
        );
        l2
    } else {
        lemma_decided(g, img, m, n, c, stack, l, true);
        l
    }
}

proof fn lemma_array_pattern(
    g: Given,
    img: Image,
    p: Pattern,
    es: Seq<ArrayPattern>,
    m: Matching,
    v: Value,
    stack: Seq<Value>,
    l: Map<int, Value>,
) -> (l2: Map<int, Value>)
    requires
        p matches Pattern::Array { elements, .. } && elements@ == es,
        in_order(ctx_of(m.s), p),
        suits(ctx_of(m.s), p, v),
        carries(img, m, pattern(p, m)),
        ready(m, pattern(p, m), names_in(ctx_of(m.s), p)),
    ensures
        as_said(g, img, p, m, v, stack, l, l2),
    decreases es, es.len() + 1,
{
    let s = m.s;
    let x = ctx_of(s);
    let n = pattern(p, m);
    let none = Set::<StrId>::empty();
    let nothing = Map::<StrId, Value>::empty();
    let c = at_end(s, stack.push(v), l);
    lemma_reaches_self(g, img, c);
    let temp = s.next_slot();
    let vs = v->Array_0;
    let count = item_count(es);
    assert(items_in_order_from(x, es, 0));
    assert(items_suit_from(x, es, 0, vs));
    frames::lemma_spread(x, es, es.len());
    assert forall|k: int| 0 <= k < count && k < es.len() implies #[trigger] es[k] is Item by {
        frames::lemma_each_item(x, es, 0, k);
    }
    let m0 = m.at(s.spill());
    let m1 = length_checked(es, temp, m0);
    let m2 = array_from(es, 0, count, temp, m1);
    assert(n == rest_taken(es, temp, m2)) by {
        reveal(pattern_body);
        assert(n == crate::gen::array_pattern(es, m));
        reveal(array_pattern_body);
        assert(n == array_pattern_body(es, m));
    }
    let first = frames::items_from(x, es, 0, count);
    let second = rest_names(es);
    let names = item_names_from(x, es, 0);
    assert(names_in(x, p) == names);
    frames::lemma_items(x, es, 0, count);
    frames::lemma_items_within(x, es, 0, count);
    frames::lemma_rest_apart(x, es, 0, count);
    assert(names =~= first.union(second));
    lemma_spill(s);
    lemma_shape(es, temp, m0);
    frames::lemma_array_from(es, 0, count, temp, m1);
    landing::patterns::lemma_array_from(es, 0, count, temp, m1);
    lemma_rest_taken(es, temp, m2);
    assert(misses(m, m0) && misses(m1, n) && misses(m0, n)) by {
        broadcast use {group_landing, group_landing_pieces};

        assert(from_here(m.s) && from_here(m0.s) && from_here(m1.s));
        assert(lands(m.s, m0.s));
        assert(misses(m1, n));
    }
    lemma_after_on(m1.s, m2.s, n.s, first, second, names);
    lemma_after_on(m0.s, m1.s, n.s, none, names, names);
    lemma_ready(m, m0, n, none, names, names);
    lemma_ready(m0, m1, n, none, names, names);
    lemma_ready(m1, m2, n, first, second, names);
    lemma_carries_parts(img, m, m0, n);
    lemma_carries_parts(img, m0, m1, n);
    lemma_carries_parts(img, m1, m2, n);
    lemma_room(m, m0, n);
    lemma_aside(g, img, m, c, stack, v, l);
    let l1 = l.insert(temp as int, v);
    let d = at_end(m0.s, stack, l1);
    lemma_length(g, img, es, temp, m0, vs, stack, l1);
    let ok0 = if has_rest(es) {
        vs.len() >= count
    } else {
        vs.len() == count
    };
    lemma_items_to(g, x, es, 0, count, vs);
    let ok1 = items_fit_to(g, x, es, 0, count, vs);
    let b1 = items_bound_to(g, x, es, 0, count, vs);
    let b2 = rest_bound(es, count, vs);
    let l3 = if ok0 {
        let l2 = lemma_items(g, img, es, 0, count, temp, m1, vs, stack, l1);
        lemma_free(m1, m2, first, temp, l1, l2);
        let l3 = lemma_rest(g, img, es, temp, m2, vs, stack, l2);
        let e = at_end(m1.s, stack, l1);
        lemma_seq(
            g,
            img,
            m1,
            m2,
            n,
            e,
            stack,
            l1,
            l2,
            l3,
            first,
            second,
            ok1,
            true,
            b1,
            b2,
            names,
        );
        if ok1 {
            l3
        } else {
            l2
        }
    } else {
        l1
    };
    let values = b1.union_prefer_right(b2);
    lemma_seq(
        g,
        img,
        m0,
        m1,
        n,
        d,
        stack,
        l1,
        l1,
        l3,
        none,
        names,
        ok0,
        ok1,
        nothing,
        values,
        names,
    );
    assert(nothing.union_prefer_right(values) =~= values);
    lemma_led(
        g,
        img,
        m,
        m0,
        n,
        c,
        d,
        stack,
        l,
        l1,
        l3,
        names,
        ok0 && ok1,
        values,
    );
    assert(fits(g, x, p, v) == (ok0 && ok1));
    assert(bound(g, x, p, v) == items_bound_from(g, x, es, 0, vs));
    l3
}

proof fn lemma_shape(es: Seq<ArrayPattern>, temp: i32, m: Matching)
    ensures
        misses(m, length_checked(es, temp, m)),
        after(m.s, length_checked(es, temp, m).s, Set::empty()),
        length_checked(es, temp, m).s.loc == m.s.loc,
{
    let o = length_op(es);
    let k = ConstView::Int(item_count(es) as i64);
    let s1 = m.s.emit_arg(Op::PushLocal, temp);
    let s2 = s1.emit(Op::ArrayLen);
    let s3 = s2.push_const(k);
    assert(lands(m.s, s3)) by {
        broadcast use group_landing;

        assert(from_here(m.s));
    }
    lemma_straight(m, s3);
    assert(misses(m, m.at(s3).require(o))) by {
        broadcast use group_landing;

        assert(from_here(m.s));
    }
    lemma_push(m.s, instr(Op::PushLocal, 0, 0, temp));
    lemma_push(s1, instr(Op::ArrayLen, 0, 0, 0));
    lemma_push_const(s2, k);
    frames::lemma_require(m.at(s3), o);
    lemma_after_same(m.s, length_checked(es, temp, m).s);
}

} // verus!

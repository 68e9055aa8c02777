//! What pattern code does to the slots of a frame.
use crate::ast::{ArrayPattern, Ident, NumberLiteral, Pattern, PatternArg, StrId};
use crate::fitting::{
    alternatives_in_order_from, arg_names_from, args_in_order_from, arg_pattern, ctx_of, in_order,
    in_order_from, item_names_from, items_in_order_from, names_from, names_in, Ctx,
};
use crate::fitting::slotting::{lemma_placed, placed};
use crate::gen::{
    add_binder, alternatives_from, any_slotted, arg_binders, array_binders, array_from,
    array_pattern, array_pattern_body, binders, fields_from, has_name, list_binders, or_pattern,
    or_pattern_body, pattern, pattern_body, pattern_keys, spread_place, tuple_from, Matching,
    OrMatching,
};
use crate::op::{instr, ConstView, Instruction, Op};
use crate::prelude_bindings::TypeId;
use crate::slots::slotted;
use crate::state::{pins, Locals, State};
use vstd::prelude::*;

verus! {

/// Whether the slots of a frame are in order: every name has one that was handed out, a name
/// that an alternative pins has the slot it is pinned to, and one that is bound again, or
/// pinned, has a slot of its own.
pub open spec fn tidy(l: Locals) -> bool {
    &&& l.count >= 0
    &&& forall|n: StrId| #[trigger] l.map.dom().contains(n) ==> 0 <= l.map[n].slot < l.count
    &&& forall|j: int, n: StrId|
        0 <= j < l.overrides.len() && #[trigger] l.overrides[j].dom().contains(n)
            ==> l.map.dom().contains(n) && l.map[n].slot == l.overrides[j][n]
    &&& forall|n: StrId|
        l.map.dom().contains(n) && (#[trigger] l.rebinds(n) || l.pinned(n) is Some) ==> alone(l, n)
}

/// Whether a name has a slot of its own.
pub open spec fn alone(l: Locals, n: StrId) -> bool {
    l.map.dom().contains(n) && forall|o: StrId|
        o != n && #[trigger] l.map.dom().contains(o) ==> l.map[o].slot != l.map[n].slot
}

/// Whether the names that are pinned at all are pinned by the innermost alternative.
pub open spec fn covered(l: Locals, names: Set<StrId>) -> bool {
    forall|j: int, n: StrId|
        names.contains(n) && 0 <= j < l.overrides.len()
            && #[trigger] l.overrides[j].dom().contains(n) ==> l.overrides.last().dom().contains(n)
}

/// Whether pattern code has been emitted that binds some names: slots were handed out, at
/// most as many as instructions were emitted, and no other name has another slot.
pub open spec fn after(a: State, b: State, names: Set<StrId>) -> bool {
    &&& b.out.check_only == a.out.check_only
    &&& ctx_of(b) == ctx_of(a)
    &&& a.out.code.len() <= b.out.code.len()
    &&& b.loc.overrides == a.loc.overrides
    &&& b.loc.marks == a.loc.marks
    &&& b.loc.outer == a.loc.outer
    &&& keeps_slots(
        a.loc,
        b.loc,
        names,
        b.out.code.len() - a.out.code.len(),
    )
}

/// Whether slots were handed out, at most as many as there is room for.
#[verifier::opaque]
pub open spec fn keeps_slots(a: Locals, b: Locals, names: Set<StrId>, room: int) -> bool {
    tidy(a) && covered(a, names) && a.count + room <= i32::MAX ==> {
        &&& a.count <= b.count <= a.count + room
        &&& tidy(b)
        &&& forall|n: StrId|
            !names.contains(n) ==> #[trigger] b.map.dom().contains(n) == a.map.dom().contains(n)
        &&& forall|n: StrId|
            #![trigger b.map[n]]
            b.map.dom().contains(n) ==> (a.map.dom().contains(n) && b.map[n] == a.map[n]) || (
            names.contains(n) && a.count <= b.map[n].slot)
        &&& forall|n: StrId| #[trigger] a.map.dom().contains(n) ==> b.map.dom().contains(n)
        &&& forall|n: StrId| #[trigger]
            names.contains(n) ==> b.map.dom().contains(n) && alone(b, n)
    }
}

pub proof fn lemma_after_same(a: State, b: State)
    requires
        b.out.check_only == a.out.check_only,
        ctx_of(b) == ctx_of(a),
        a.out.code.len() <= b.out.code.len(),
        b.loc == a.loc,
    ensures
        after(a, b, Set::empty()),
{
    reveal(keeps_slots);
}

pub proof fn lemma_after_on(
    a: State,
    b: State,
    c: State,
    first: Set<StrId>,
    second: Set<StrId>,
    names: Set<StrId>,
)
    requires
        after(a, b, first),
        after(b, c, second),
        names =~= first.union(second),
    ensures
        after(a, c, names),
{
    reveal(keeps_slots);
    assert(names == first.union(second));
    if tidy(a.loc) && covered(a.loc, names) && a.loc.count + (c.out.code.len()
        - a.out.code.len()) <= i32::MAX {
        assert(covered(a.loc, first));
        assert(covered(b.loc, second));
        assert forall|n: StrId| #[trigger] names.contains(n) implies c.loc.map.dom().contains(n)
            && alone(c.loc, n) by {
            if !second.contains(n) {
                assert(first.contains(n));
                assert(alone(b.loc, n));
                assert(c.loc.map[n] == b.loc.map[n]);
                assert forall|o: StrId|
                    o != n && #[trigger] c.loc.map.dom().contains(o) implies c.loc.map[o].slot
                    != c.loc.map[n].slot by {
                    assert(c.loc.map[o].slot >= b.loc.count || b.loc.map.dom().contains(o));
                }
            }
        }
        assert forall|n: StrId|
            #![trigger c.loc.map[n]]
            c.loc.map.dom().contains(n) implies (a.loc.map.dom().contains(n) && c.loc.map[n]
            == a.loc.map[n]) || (names.contains(n) && a.loc.count <= c.loc.map[n].slot) by {
            if b.loc.map.dom().contains(n) && c.loc.map[n] == b.loc.map[n] {
                assert(b.loc.map[n] == b.loc.map[n]);
            }
        }
    }
}

// ---- steps -----------------------------------------------------------------------

pub proof fn lemma_push(s: State, ins: Instruction)
    ensures
        after(s, s.push(ins), Set::empty()),
        s.push(ins).loc == s.loc,
{
    reveal(State::push);
    lemma_after_same(s, s.push(ins));
}

pub proof fn lemma_push_const(s: State, c: ConstView)
    ensures
        after(s, s.push_const(c), Set::empty()),
        s.push_const(c).loc == s.loc,
{
    reveal(State::push);
    reveal(State::pool);
    lemma_after_same(s, s.push_const(c));
}

pub proof fn lemma_number(s: State, n: NumberLiteral)
    requires
        crate::literal::number_of(s.world.names@, n.text) is Ok,
    ensures
        s.push_number(n) == s.push_const(
            crate::literal::number_of(s.world.names@, n.text)->Ok_0,
        ),
{
    reveal(State::push_number);
    reveal(State::number);
}

pub proof fn lemma_spill(s: State)
    requires
        !s.out.check_only,
    ensures
        after(s, s.spill(), Set::empty()),
        s.loc.count < i32::MAX ==> s.spill().loc == (Locals {
            count: (s.loc.count + 1) as i32,
            ..s.loc
        }),
        s.next_slot() == s.loc.count,
{
    reveal(keeps_slots);
    reveal(State::push);
    reveal(State::take_slot);
    reveal(State::next_slot);
    let t = s.spill();
    if tidy(s.loc) && s.loc.count + (t.out.code.len() - s.out.code.len()) <= i32::MAX {
        lemma_more_slots(s.loc, t.loc);
    }
}

/// Handing out slots keeps a frame in order.
proof fn lemma_more_slots(a: Locals, b: Locals)
    requires
        tidy(a),
        b == (Locals { count: b.count, ..a }),
        b.count >= a.count,
    ensures
        tidy(b),
{
    assert forall|n: StrId|
        b.map.dom().contains(n) && (#[trigger] b.rebinds(n) || b.pinned(n) is Some) implies alone(
        b,
        n,
    ) by {
        assert(a.rebinds(n) == b.rebinds(n));
        assert(alone(a, n));
    }
}

proof fn lemma_alone(l: Locals, n: StrId)
    requires
        tidy(l),
        l.map.dom().contains(n),
        l.rebinds(n) || l.pinned(n) is Some,
    ensures
        alone(l, n),
{
}

pub proof fn lemma_store_name(s: State, name: StrId)
    requires
        !s.out.check_only,
    ensures
        after(s, s.store_name(name), set![name]),
        s.slot_of(name) == s.loc.slot_of(name),
        s.store_name(name).out.code == s.out.code.push(
            instr(Op::StoreLocal, 0, 0, s.loc.slot_of(name)),
        ),
        s.store_name(name).out.consts == s.out.consts,
        tidy(s.loc) && covered(s.loc, set![name]) && s.loc.count < i32::MAX ==> {
            let l = s.store_name(name).loc;
            &&& l.map.dom().contains(name) && l.map[name].slot == s.loc.slot_of(name)
            &&& s.loc.slot_of(name) == s.loc.count || (s.loc.map.dom().contains(name)
                && s.loc.slot_of(name) == s.loc.map[name].slot)
        },
{
    reveal(keeps_slots);
    reveal(State::push);
    reveal(State::reserve);
    reveal(State::slot_of);
    let t = s.store_name(name);
    let names = set![name];
    if tidy(s.loc) && covered(s.loc, names) && s.loc.count + (t.out.code.len()
        - s.out.code.len()) <= i32::MAX {
        let (a, b) = (s.loc, t.loc);
        if a.pinned(name) is Some || a.rebinds(name) {
            assert(b == a);
            if a.pinned(name) is Some {
                assert(a.overrides[a.overrides.len() - 1].dom().contains(name));
            }
            assert(a.map.dom().contains(name));
            lemma_alone(a, name);
            assert(keeps_slots(a, b, names, 1));
        } else {
            assert(b.map == a.map.insert(name, b.map[name]));
            assert(b.map[name].slot == a.count);
            assert(b.count == a.count + 1);
            assert(alone(b, name));
            assert forall|j: int, n: StrId|
                0 <= j < b.overrides.len() && #[trigger] b.overrides[j].dom().contains(
                    n,
                ) implies b.map.dom().contains(n) && b.map[n].slot == b.overrides[j][n] by {
                assert(a.overrides[j].dom().contains(n));
                if n == name {
                    assert(names.contains(n));
                    assert(a.overrides.last().dom().contains(n));
                }
            }
            assert forall|n: StrId|
                b.map.dom().contains(n) && (#[trigger] b.rebinds(n) || b.pinned(n)
                    is Some) implies alone(b, n) by {
                if n != name {
                    assert(a.rebinds(n) == b.rebinds(n));
                    assert(a.pinned(n) == b.pinned(n));
                    lemma_alone(a, n);
                }
            }
            assert(tidy(b));
            assert forall|n: StrId| #[trigger] names.contains(n) implies b.map.dom().contains(n)
                && alone(b, n) by {
                assert(n == name);
            }
            assert(keeps_slots(a, b, names, 1));
        }
    }
}

/// Slots for fields, into which the stack goes.
pub proof fn lemma_field_slots(s: State, arity: int)
    requires
        !s.out.check_only,
        0 <= arity <= u16::MAX,
    ensures
        ({
            let t = s.take_slots(arity as i32).store_fields(s.next_slot(), arity as nat);
            &&& after(s, t, Set::empty())
            &&& t.out.code.len() == s.out.code.len() + arity
            &&& t.out.consts == s.out.consts
            &&& forall|k: int|
                0 <= k < arity ==> #[trigger] t.out.code[s.out.code.len() + k] == instr(
                    Op::StoreLocal,
                    0,
                    0,
                    i32::wrapping_add(s.loc.count, (arity - 1 - k) as i32),
                )
            &&& forall|i: int| 0 <= i < s.out.code.len() ==> t.out.code[i] == s.out.code[i]
            &&& 0 <= s.loc.count && s.loc.count + arity <= i32::MAX ==> t.loc == (Locals {
                count: (s.loc.count + arity) as i32,
                ..s.loc
            })
        }),
{
    reveal(keeps_slots);
    reveal(State::take_slots);
    reveal(State::next_slot);
    let u = s.take_slots(arity as i32);
    lemma_store_fields(u, s.loc.count, arity as nat);
    let t = u.store_fields(s.next_slot(), arity as nat);
    if tidy(s.loc) && s.loc.count + (t.out.code.len() - s.out.code.len()) <= i32::MAX {
        lemma_more_slots(s.loc, t.loc);
    }
}

proof fn lemma_store_fields(s: State, base: i32, n: nat)
    requires
        !s.out.check_only,
        n <= u16::MAX,
    ensures
        ({
            let t = s.store_fields(base, n);
            &&& t.loc == s.loc && ctx_of(t) == ctx_of(s) && t.out.check_only == s.out.check_only
            &&& t.out.consts == s.out.consts
            &&& t.out.code.len() == s.out.code.len() + n
            &&& forall|k: int|
                0 <= k < n ==> #[trigger] t.out.code[s.out.code.len() + k] == instr(
                    Op::StoreLocal,
                    0,
                    0,
                    i32::wrapping_add(base, (n - 1 - k) as i32),
                )
            &&& forall|i: int| 0 <= i < s.out.code.len() ==> t.out.code[i] == s.out.code[i]
        }),
    decreases n,
{
    reveal(State::store_fields);
    if n > 0 {
        reveal(State::push);
        let u = s.emit_arg(Op::StoreLocal, i32::wrapping_add(base, (n - 1) as i32));
        lemma_store_fields(u, base, (n - 1) as nat);
        let t = s.store_fields(base, n);
        assert(t == u.store_fields(base, (n - 1) as nat));
        assert forall|k: int| 0 <= k < n implies #[trigger] t.out.code[s.out.code.len() + k]
            == instr(Op::StoreLocal, 0, 0, i32::wrapping_add(base, (n - 1 - k) as i32)) by {
            if k > 0 {
                assert(t.out.code[u.out.code.len() + (k - 1)] == instr(
                    Op::StoreLocal,
                    0,
                    0,
                    i32::wrapping_add(base, ((n - 1) as nat - 1 - (k - 1)) as i32),
                ));
            }
        }
    }
}

pub proof fn lemma_patch_all(s: State, at: Seq<usize>, n: nat)
    ensures
        ({
            let t = s.patch_all(at, n);
            &&& after(s, t, Set::empty()) && t.loc == s.loc && ctx_of(t) == ctx_of(s)
            &&& t.out.code.len() == s.out.code.len() && t.out.consts == s.out.consts
        }),
    decreases n,
{
    reveal(State::patch_all);
    if n > 0 {
        lemma_patch_all(s, at, (n - 1) as nat);
        reveal(State::patch);
        lemma_after_same(s, s.patch_all(at, n));
    } else {
        lemma_after_same(s, s);
    }
}

// ---- the names of a pattern ------------------------------------------------------

proof fn lemma_has_name(ids: Seq<Ident>, n: nat, name: StrId)
    requires
        n <= ids.len(),
    ensures
        has_name(ids, n, name) <==> exists|k: int| 0 <= k < n && (#[trigger] ids[k]).name == name,
    decreases n,
{
    if n > 0 {
        lemma_has_name(ids, (n - 1) as nat, name);
    }
}

/// Whether a list holds the names it held and some more, and no other.
pub open spec fn lists(ids: Seq<Ident>, before: Seq<Ident>, names: Set<StrId>) -> bool {
    forall|n: StrId| #[trigger]
        has_name(ids, ids.len(), n) <==> has_name(before, before.len(), n) || names.contains(n)
}

proof fn lemma_add_binder(x: Ctx, ids: Seq<Ident>, id: Ident)
    requires
        x.text(id.name) != "_"@,
    ensures
        lists(add_binder(x.names, ids, id), ids, set![id.name]),
{
    let after = add_binder(x.names, ids, id);
    assert forall|n: StrId| #[trigger] has_name(after, after.len(), n) <==> has_name(
        ids,
        ids.len(),
        n,
    ) || set![id.name].contains(n) by {
        lemma_has_name(after, after.len(), n);
        lemma_has_name(ids, ids.len(), n);
        if !has_name(ids, ids.len(), id.name) {
            assert(after[ids.len() as int].name == id.name);
            if has_name(ids, ids.len(), n) {
                let k = choose|k: int| 0 <= k < ids.len() && (#[trigger] ids[k]).name == n;
                assert(after[k].name == n);
            }
        }
    }
}

pub proof fn lemma_binders(x: Ctx, p: Pattern, ids: Seq<Ident>)
    requires
        in_order(x, p),
    ensures
        lists(binders(x.names, p, ids), ids, names_in(x, p)),
    decreases p, 0nat,
{
    let after = binders(x.names, p, ids);
    match p {
        Pattern::Var { id, .. } => {
            if x.text(id.name) != "_"@ {
                lemma_add_binder(x, ids, id);
            }
            assert(lists(after, ids, names_in(x, p)));
        },
        Pattern::Range { start, end, .. } => {
            lemma_binders(x, *start, ids);
            lemma_binders(x, *end, binders(x.names, *start, ids));
            assert(lists(after, ids, names_in(x, p)));
        },
        Pattern::Tuple { elements, .. } => {
            lemma_list_binders(x, elements@, elements@.len(), ids);
            assert(after == list_binders(x.names, elements@, elements@.len(), ids));
            assert(names_in(x, p) == names_from(x, elements@, 0));
            lemma_split(x, elements@, 0);
            assert forall|n: StrId| #[trigger] has_name(after, after.len(), n) <==> has_name(
                ids,
                ids.len(),
                n,
            ) || names_in(x, p).contains(n) by {
                assert(names_from(x, elements@, 0).contains(n) == in_first(
                    x,
                    elements@,
                    elements@.len(),
                    n,
                ));
            }
            assert(lists(after, ids, names_in(x, p)));
        },
        Pattern::Array { elements, .. } => {
            lemma_array_binders(x, elements@, elements@.len(), ids);
            assert(after == array_binders(x.names, elements@, elements@.len(), ids));
            assert(names_in(x, p) == item_names_from(x, elements@, 0));
            lemma_split_items(x, elements@, 0);
            assert forall|n: StrId| #[trigger] has_name(after, after.len(), n) <==> has_name(
                ids,
                ids.len(),
                n,
            ) || names_in(x, p).contains(n) by {
                assert(item_names_from(x, elements@, 0).contains(n) == in_first_items(
                    x,
                    elements@,
                    elements@.len(),
                    n,
                ));
            }
            assert(lists(after, ids, names_in(x, p)));
        },
        Pattern::Constructor { name, args, .. } => {
            assert(after == arg_binders(x.names, args@, args@.len(), ids));
            assert(names_in(x, p) == arg_names_from(x, args@, 0));
            if x.is_truth(x.ctor(name.name)->0.ty) {
                assert(after == ids);
            } else {
                lemma_arg_binders(x, args@, args@.len(), ids);
                lemma_split_args(x, args@, 0);
                assert forall|n: StrId| #[trigger] has_name(after, after.len(), n) <==> has_name(
                ids,
                ids.len(),
                n,
            ) || names_in(x, p).contains(n) by {
                    assert(arg_names_from(x, args@, 0).contains(n) == in_first_args(
                        x,
                        args@,
                        args@.len(),
                        n,
                    ));
                }
            }
            assert(lists(after, ids, names_in(x, p)));
        },
        Pattern::Or { patterns, .. } => {
            assert(alternatives_in_order_from(x, patterns@, 0));
            lemma_binders(x, patterns@[0], ids);
            assert(lists(after, ids, names_in(x, p)));
        },
        _ => {
            assert(lists(after, ids, names_in(x, p)));
        },
    }
}

/// Whether a name is in one of the first `n` patterns.
spec fn in_first(x: Ctx, ps: Seq<Pattern>, n: nat, name: StrId) -> bool {
    exists|k: int| 0 <= k < n && names_in(x, #[trigger] ps[k]).contains(name)
}

proof fn lemma_list_binders(x: Ctx, ps: Seq<Pattern>, n: nat, ids: Seq<Ident>)
    requires
        in_order_from(x, ps, 0),
        n <= ps.len(),
    ensures
        forall|name: StrId| #[trigger]
            has_name(
                list_binders(x.names, ps, n, ids),
                list_binders(x.names, ps, n, ids).len(),
                name,
            ) <==> has_name(ids, ids.len(), name) || in_first(x, ps, n, name),
    decreases ps, n,
{
    if n > 0 {
        lemma_list_binders(x, ps, (n - 1) as nat, ids);
        lemma_each(x, ps, 0, n - 1);
        let before = list_binders(x.names, ps, (n - 1) as nat, ids);
        lemma_binders(x, ps[n - 1], before);
        let after = list_binders(x.names, ps, n, ids);
        assert forall|name: StrId| #[trigger] has_name(after, after.len(), name) <==> has_name(
            ids,
            ids.len(),
            name,
        ) || in_first(x, ps, n, name) by {
            assert(has_name(after, after.len(), name) <==> has_name(before, before.len(), name)
                || names_in(x, ps[n - 1]).contains(name));
            assert(in_first(x, ps, n, name) == (in_first(x, ps, (n - 1) as nat, name)
                || names_in(x, ps[n - 1]).contains(name)));
        }
    }
}

pub proof fn lemma_each(x: Ctx, ps: Seq<Pattern>, i: nat, k: int)
    requires
        in_order_from(x, ps, i),
        i <= k < ps.len(),
    ensures
        in_order(x, ps[k]),
    decreases k - i,
{
    if i < k {
        lemma_each(x, ps, i + 1, k);
    }
}

proof fn lemma_split(x: Ctx, ps: Seq<Pattern>, i: nat)
    requires
        i <= ps.len(),
    ensures
        forall|name: StrId| #[trigger]
            names_from(x, ps, i).contains(name) <==> exists|k: int|
                i <= k < ps.len() && names_in(x, #[trigger] ps[k]).contains(name),
    decreases ps.len() - i,
{
    if i < ps.len() {
        lemma_split(x, ps, i + 1);
        assert forall|name: StrId| #[trigger]
            names_from(x, ps, i).contains(name) <==> exists|k: int|
                i <= k < ps.len() && names_in(x, #[trigger] ps[k]).contains(name) by {
            assert(names_from(x, ps, i).contains(name) == (names_in(x, ps[i as int]).contains(name)
                || names_from(x, ps, i + 1).contains(name)));
            if exists|k: int| i <= k < ps.len() && names_in(x, #[trigger] ps[k]).contains(name) {
                let k = choose|k: int|
                    i <= k < ps.len() && names_in(x, #[trigger] ps[k]).contains(name);
                if k > i {
                    assert(names_from(x, ps, i + 1).contains(name));
                }
            }
        }
    }
}

/// The names of an element of an array pattern.
pub open spec fn item_names(x: Ctx, e: ArrayPattern) -> Set<StrId> {
    match e {
        ArrayPattern::Item(p) => names_in(x, p),
        ArrayPattern::Spread { binding, .. } => match binding {
            Some(id) => set![id.name],
            None => Set::empty(),
        },
    }
}

spec fn in_first_items(x: Ctx, es: Seq<ArrayPattern>, n: nat, name: StrId) -> bool {
    exists|k: int| 0 <= k < n && item_names(x, #[trigger] es[k]).contains(name)
}

proof fn lemma_array_binders(x: Ctx, es: Seq<ArrayPattern>, n: nat, ids: Seq<Ident>)
    requires
        items_in_order_from(x, es, 0),
        n <= es.len(),
    ensures
        forall|name: StrId| #[trigger]
            has_name(
                array_binders(x.names, es, n, ids),
                array_binders(x.names, es, n, ids).len(),
                name,
            ) <==> has_name(ids, ids.len(), name) || in_first_items(x, es, n, name),
    decreases es, n,
{
    if n > 0 {
        lemma_array_binders(x, es, (n - 1) as nat, ids);
        lemma_each_item(x, es, 0, n - 1);
        let before = array_binders(x.names, es, (n - 1) as nat, ids);
        match es[n - 1] {
            ArrayPattern::Item(p) => lemma_binders(x, p, before),
            ArrayPattern::Spread { binding, .. } => if let Some(id) = binding {
                lemma_add_binder(x, before, id);
            },
        }
        let after = array_binders(x.names, es, n, ids);
        assert forall|name: StrId| #[trigger] has_name(after, after.len(), name) <==> has_name(
            ids,
            ids.len(),
            name,
        ) || in_first_items(x, es, n, name) by {
            assert(has_name(after, after.len(), name) <==> has_name(before, before.len(), name)
                || item_names(x, es[n - 1]).contains(name));
            assert(in_first_items(x, es, n, name) == (in_first_items(x, es, (n - 1) as nat, name)
                || item_names(x, es[n - 1]).contains(name)));
        }
    }
}

pub proof fn lemma_each_item(x: Ctx, es: Seq<ArrayPattern>, i: nat, k: int)
    requires
        items_in_order_from(x, es, i),
        i <= k < es.len(),
    ensures
        match es[k] {
            ArrayPattern::Item(p) => in_order(x, p),
            ArrayPattern::Spread { binding, .. } => k == es.len() - 1 && (binding matches Some(id)
                ==> x.text(id.name) != "_"@),
        },
    decreases k - i,
{
    if i < k {
        lemma_each_item(x, es, i + 1, k);
    }
}

proof fn lemma_split_items(x: Ctx, es: Seq<ArrayPattern>, i: nat)
    requires
        i <= es.len(),
    ensures
        forall|name: StrId| #[trigger]
            item_names_from(x, es, i).contains(name) <==> exists|k: int|
                i <= k < es.len() && item_names(x, #[trigger] es[k]).contains(name),
    decreases es.len() - i,
{
    if i < es.len() {
        lemma_split_items(x, es, i + 1);
        assert forall|name: StrId| #[trigger]
            item_names_from(x, es, i).contains(name) <==> exists|k: int|
                i <= k < es.len() && item_names(x, #[trigger] es[k]).contains(name) by {
            assert(item_names_from(x, es, i).contains(name) == (item_names(
                x,
                es[i as int],
            ).contains(name)
                || item_names_from(x, es, i + 1).contains(name)));
            if exists|k: int| i <= k < es.len() && item_names(x, #[trigger] es[k]).contains(name) {
                let k = choose|k: int|
                    i <= k < es.len() && item_names(x, #[trigger] es[k]).contains(name);
                if k > i {
                    assert(item_names_from(x, es, i + 1).contains(name));
                }
            }
        }
    }
}

spec fn in_first_args(x: Ctx, args: Seq<PatternArg>, n: nat, name: StrId) -> bool {
    exists|k: int| 0 <= k < n && names_in(x, arg_pattern(#[trigger] args[k])).contains(name)
}

proof fn lemma_arg_binders(x: Ctx, args: Seq<PatternArg>, n: nat, ids: Seq<Ident>)
    requires
        args_in_order_from(x, args, 0),
        n <= args.len(),
    ensures
        forall|name: StrId| #[trigger]
            has_name(
                arg_binders(x.names, args, n, ids),
                arg_binders(x.names, args, n, ids).len(),
                name,
            ) <==> has_name(ids, ids.len(), name) || in_first_args(x, args, n, name),
    decreases args, n,
{
    if n > 0 {
        lemma_arg_binders(x, args, (n - 1) as nat, ids);
        lemma_each_arg(x, args, 0, n - 1);
        let before = arg_binders(x.names, args, (n - 1) as nat, ids);
        match args[n - 1] {
            PatternArg::Positional(p) => lemma_binders(x, p, before),
            PatternArg::Labeled { pattern: p, .. } => lemma_binders(x, p, before),
        }
        let after = arg_binders(x.names, args, n, ids);
        assert forall|name: StrId| #[trigger] has_name(after, after.len(), name) <==> has_name(
            ids,
            ids.len(),
            name,
        ) || in_first_args(x, args, n, name) by {
            assert(has_name(after, after.len(), name) <==> has_name(before, before.len(), name)
                || names_in(x, arg_pattern(args[n - 1])).contains(name));
            assert(in_first_args(x, args, n, name) == (in_first_args(x, args, (n - 1) as nat, name)
                || names_in(x, arg_pattern(args[n - 1])).contains(name)));
        }
    }
}

pub proof fn lemma_each_arg(x: Ctx, args: Seq<PatternArg>, i: nat, k: int)
    requires
        args_in_order_from(x, args, i),
        i <= k < args.len(),
    ensures
        in_order(x, arg_pattern(args[k])),
        forall|l: int|
            k < l < args.len() ==> names_in(x, arg_pattern(args[k])).disjoint(
                names_in(x, arg_pattern(#[trigger] args[l])),
            ),
    decreases k - i,
{
    if i < k {
        lemma_each_arg(x, args, i + 1, k);
    } else {
        lemma_split_args(x, args, i + 1);
        assert forall|l: int| k < l < args.len() implies names_in(
            x,
            arg_pattern(args[k]),
        ).disjoint(names_in(x, arg_pattern(#[trigger] args[l]))) by {
            assert forall|name: StrId|
                names_in(x, arg_pattern(args[l])).contains(name) implies !names_in(
                x,
                arg_pattern(args[k]),
            ).contains(name) by {
                assert(arg_names_from(x, args, i + 1).contains(name));
            }
        }
    }
}

pub proof fn lemma_split_args(x: Ctx, args: Seq<PatternArg>, i: nat)
    requires
        i <= args.len(),
    ensures
        forall|name: StrId| #[trigger]
            arg_names_from(x, args, i).contains(name) <==> exists|k: int|
                i <= k < args.len() && names_in(x, arg_pattern(#[trigger] args[k])).contains(name),
    decreases args.len() - i,
{
    if i < args.len() {
        lemma_split_args(x, args, i + 1);
        assert forall|name: StrId| #[trigger]
            arg_names_from(x, args, i).contains(name) <==> exists|k: int|
                i <= k < args.len() && names_in(x, arg_pattern(#[trigger] args[k])).contains(name) by {
            assert(arg_names_from(x, args, i).contains(name) == (names_in(
                x,
                arg_pattern(args[i as int]),
            ).contains(name)
                || arg_names_from(x, args, i + 1).contains(name)));
            if exists|k: int|
                i <= k < args.len() && names_in(x, arg_pattern(#[trigger] args[k])).contains(
                    name,
                ) {
                let k = choose|k: int|
                    i <= k < args.len() && names_in(
                        x,
                        arg_pattern(#[trigger] args[k]),
                    ).contains(name);
                if k > i {
                    assert(arg_names_from(x, args, i + 1).contains(name));
                }
            }
        }
    }
}

pub proof fn lemma_pins(map: Map<StrId, crate::state::LocalSlot>, ids: Seq<Ident>, n: nat)
    requires
        n <= ids.len(),
    ensures
        forall|name: StrId| #[trigger]
            pins(map, ids, n).dom().contains(name) <==> map.dom().contains(name) && has_name(
                ids,
                n,
                name,
            ),
        forall|name: StrId|
            #![trigger pins(map, ids, n)[name]]
            pins(map, ids, n).dom().contains(name) ==> pins(map, ids, n)[name] == map[name].slot,
    decreases n,
{
    if n > 0 {
        lemma_pins(map, ids, (n - 1) as nat);
        let before = pins(map, ids, (n - 1) as nat);
        assert forall|name: StrId| #[trigger]
            pins(map, ids, n).dom().contains(name) <==> map.dom().contains(name) && has_name(
                ids,
                n,
                name,
            ) by {
            assert(before.dom().contains(name) <==> map.dom().contains(name) && has_name(
                ids,
                (n - 1) as nat,
                name,
            ));
        }
        assert forall|name: StrId|
            #![trigger pins(map, ids, n)[name]]
            pins(map, ids, n).dom().contains(name) implies pins(map, ids, n)[name]
            == map[name].slot by {
            if before.dom().contains(name) {
                assert(before[name] == map[name].slot);
            }
        }
    }
}

// ---- patterns --------------------------------------------------------------------

pub proof fn lemma_require(m: Matching, o: Op)
    ensures
        after(m.s, m.require(o).s, Set::empty()),
        m.require(o).s.loc == m.s.loc,
{
    lemma_push(m.s, instr(o, 0, 0, 0));
    lemma_push(m.s.emit(o), instr(Op::JumpIfFalse, 0, 0, 0));
    lemma_after_same(m.s, m.require(o).s);
}

proof fn lemma_range_bound(s: State, p: Pattern)
    requires
        crate::fitting::is_integer(ctx_of(s), p),
    ensures
        after(s, s.range_bound(p), Set::empty()),
        s.range_bound(p).loc == s.loc,
{
    reveal(State::range_bound);
    if let Pattern::Number { literal, .. } = p {
        lemma_number(s, literal);
        lemma_push_const(s, crate::literal::number_of(s.world.names@, literal.text)->Ok_0);
    }
}

pub proof fn lemma_match_header(s: State, id: TypeId, variant: StrId)
    ensures
        after(s, s.match_header(id, variant), Set::empty()),
        s.match_header(id, variant).loc == s.loc,
{
    reveal(State::match_header);
    let t = s.push_int(id.0 as i64);
    lemma_push_const(s, ConstView::Int(id.0 as i64));
    lemma_push_const(t, ConstView::Str(variant));
    lemma_after_same(s, s.match_header(id, variant));
}

pub proof fn lemma_pattern(p: Pattern, m: Matching)
    requires
        in_order(ctx_of(m.s), p),
        !m.s.out.check_only,
    ensures
        after(m.s, pattern(p, m).s, names_in(ctx_of(m.s), p)),
    decreases p, 1nat,
{
    reveal(pattern_body);
    assert(pattern(p, m) == pattern_body(p, m));
    let s = m.s;
    let x = ctx_of(s);
    let names = names_in(x, p);
    let none = Set::<StrId>::empty();
    match p {
        Pattern::Binary { .. } => {},
        Pattern::Wildcard { .. } => lemma_push(s, instr(Op::Pop, 0, 0, 0)),
        Pattern::Var { id, .. } => {
            lemma_push(s, instr(Op::Pop, 0, 0, 0));
            lemma_store_name(s, id.name);
        },
        Pattern::Number { literal, .. } => {
            let k = crate::literal::number_of(x.names, literal.text)->Ok_0;
            lemma_number(s, literal);
            lemma_push_const(s, k);
            lemma_require(m.at(s.push_const(k)), Op::Eq);
            lemma_after_on(s, s.push_const(k), pattern(p, m).s, none, none, names);
        },
        Pattern::Str { value, .. } => {
            let k = ConstView::Str(value);
            lemma_push_const(s, k);
            lemma_require(m.at(s.push_const(k)), Op::Eq);
            lemma_after_on(s, s.push_const(k), pattern(p, m).s, none, none, names);
        },
        Pattern::Range { start, end, .. } => {
            let temp = s.next_slot();
            let s1 = s.spill();
            lemma_spill(s);
            let s2 = s1.emit_arg(Op::PushLocal, temp);
            lemma_push(s1, instr(Op::PushLocal, 0, 0, temp));
            lemma_range_bound(s2, *start);
            let m1 = m.at(s2.range_bound(*start)).require(Op::Gte);
            lemma_require(m.at(s2.range_bound(*start)), Op::Gte);
            let s3 = m1.s.emit_arg(Op::PushLocal, temp);
            lemma_push(m1.s, instr(Op::PushLocal, 0, 0, temp));
            lemma_range_bound(s3, *end);
            lemma_require(m1.at(s3.range_bound(*end)), Op::Lt);
            lemma_after_same(s1, pattern(p, m).s);
            lemma_after_on(s, s1, pattern(p, m).s, none, none, names);
        },
        Pattern::Tuple { elements, .. } => {
            lemma_spill(s);
            lemma_tuple(elements@, 0, s.next_slot(), m.at(s.spill()));
            lemma_after_on(s, s.spill(), pattern(p, m).s, none, names, names);
        },
        Pattern::Array { elements, .. } => lemma_array(elements@, m),
        Pattern::Constructor { name, args, .. } => lemma_constructor(p, name, args@, m),
        Pattern::Or { patterns, .. } => lemma_or(patterns@, m),
    }
}

pub proof fn lemma_tuple(es: Seq<Pattern>, i: nat, temp: i32, m: Matching)
    requires
        in_order_from(ctx_of(m.s), es, i),
        !m.s.out.check_only,
    ensures
        after(m.s, tuple_from(es, i, temp, m).s, names_from(ctx_of(m.s), es, i)),
    decreases es, es.len() - i,
{
    let x = ctx_of(m.s);
    let none = Set::<StrId>::empty();
    if i < es.len() {
        let s1 = m.s.emit_arg(Op::PushLocal, temp);
        let s2 = s1.emit_arg(Op::TupleIndex, i as i32);
        lemma_push(m.s, instr(Op::PushLocal, 0, 0, temp));
        lemma_push(s1, instr(Op::TupleIndex, 0, 0, i as i32));
        lemma_after_same(m.s, s2);
        let n = pattern(es[i as int], m.at(s2));
        lemma_pattern(es[i as int], m.at(s2));
        let first = names_in(x, es[i as int]);
        let second = names_from(x, es, i + 1);
        lemma_after_on(m.s, s2, n.s, none, first, first);
        lemma_tuple(es, i + 1, temp, n);
        lemma_after_on(
            m.s,
            n.s,
            tuple_from(es, i, temp, m).s,
            first,
            second,
            names_from(x, es, i),
        );
    } else {
        lemma_after_same(m.s, m.s);
    }
}

/// An array pattern that is in order has a rest at its end or not at all.
pub proof fn lemma_spread(x: Ctx, es: Seq<ArrayPattern>, n: nat)
    requires
        items_in_order_from(x, es, 0),
        n <= es.len(),
    ensures
        spread_place(es, n) == if n == es.len() && crate::fitting::has_rest(es) {
            Some((n - 1) as nat)
        } else {
            None::<nat>
        },
    decreases n,
{
    if n > 0 {
        lemma_spread(x, es, (n - 1) as nat);
        lemma_each_item(x, es, 0, n - 1);
    }
}

/// The names of the items from `i` up to `count`.
pub open spec fn items_from(x: Ctx, es: Seq<ArrayPattern>, i: nat, count: nat) -> Set<StrId>
    decreases es.len() - i,
{
    if i >= count || i >= es.len() {
        Set::empty()
    } else {
        item_names(x, es[i as int]).union(items_from(x, es, i + 1, count))
    }
}

pub proof fn lemma_items(x: Ctx, es: Seq<ArrayPattern>, i: nat, count: nat)
    requires
        count == es.len() || (count == es.len() - 1 && es.len() > 0),
        i <= count,
    ensures
        item_names_from(x, es, i) =~= items_from(x, es, i, count).union(
            if count < es.len() {
                item_names(x, es[count as int])
            } else {
                Set::empty()
            },
        ),
    decreases es.len() - i,
{
    if i < count {
        lemma_items(x, es, i + 1, count);
    } else if i < es.len() {
        assert(item_names_from(x, es, i + 1) =~= Set::empty());
    }
}

pub proof fn lemma_items_within(x: Ctx, es: Seq<ArrayPattern>, i: nat, count: nat)
    ensures
        items_from(x, es, i, count).subset_of(item_names_from(x, es, i)),
    decreases es.len() - i,
{
    if i < count && i < es.len() {
        lemma_items_within(x, es, i + 1, count);
    }
}

/// The names of the items are not those of the rest.
pub proof fn lemma_rest_apart(x: Ctx, es: Seq<ArrayPattern>, i: nat, count: nat)
    requires
        items_in_order_from(x, es, i),
        count == es.len() || count == es.len() - 1,
        i <= count,
        forall|k: int| 0 <= k < count ==> #[trigger] es[k] is Item,
    ensures
        count < es.len() ==> items_from(x, es, i, count).disjoint(item_names(x, es[count as int])),
    decreases count - i,
{
    if i < count && count < es.len() {
        assert(es[i as int] is Item);
        lemma_rest_apart(x, es, i + 1, count);
        lemma_items(x, es, i + 1, count);
        assert(item_names(x, es[count as int]).subset_of(item_names_from(x, es, i + 1)));
    }
}

proof fn lemma_array(es: Seq<ArrayPattern>, m: Matching)
    requires
        items_in_order_from(ctx_of(m.s), es, 0),
        !m.s.out.check_only,
    ensures
        after(m.s, array_pattern(es, m).s, item_names_from(ctx_of(m.s), es, 0)),
    decreases es, es.len() + 1,
{
    reveal(array_pattern_body);
    assert(array_pattern(es, m) == array_pattern_body(es, m));
    let s = m.s;
    let x = ctx_of(s);
    let none = Set::<StrId>::empty();
    let place = spread_place(es, es.len());
    lemma_spread(x, es, es.len());
    let count = match place {
        Some(i) => i,
        None => es.len(),
    };
    let temp = s.next_slot();
    let s1 = s.spill();
    lemma_spill(s);
    let s2 = s1.emit_arg(Op::PushLocal, temp);
    lemma_push(s1, instr(Op::PushLocal, 0, 0, temp));
    let s3 = s2.emit(Op::ArrayLen);
    lemma_push(s2, instr(Op::ArrayLen, 0, 0, 0));
    let s4 = s3.push_int(count as i64);
    lemma_push_const(s3, ConstView::Int(count as i64));
    let o = if place is Some {
        Op::Gte
    } else {
        Op::Eq
    };
    let m1 = m.at(s4).require(o);
    lemma_require(m.at(s4), o);
    lemma_after_same(s1, m1.s);
    lemma_after_on(s, s1, m1.s, none, none, none);
    let m2 = array_from(es, 0, count, temp, m1);
    assert forall|k: int| 0 <= k < count && k < es.len() implies #[trigger] es[k] is Item by {
        lemma_each_item(x, es, 0, k);
    }
    lemma_array_from(es, 0, count, temp, m1);
    let first = items_from(x, es, 0, count);
    lemma_after_on(s, m1.s, m2.s, none, first, first);
    lemma_items(x, es, 0, count);
    let names = item_names_from(x, es, 0);
    if let Some(i) = place {
        match es[i as int] {
            ArrayPattern::Spread { binding: Some(id), .. } => {
                let t1 = m2.s.emit_arg(Op::PushLocal, temp);
                lemma_push(m2.s, instr(Op::PushLocal, 0, 0, temp));
                let t2 = t1.push_int(count as i64);
                lemma_push_const(t1, ConstView::Int(count as i64));
                let t3 = t2.emit(Op::Drop);
                lemma_push(t2, instr(Op::Drop, 0, 0, 0));
                lemma_after_same(m2.s, t3);
                lemma_store_name(t3, id.name);
                let last = set![id.name];
                lemma_after_on(m2.s, t3, t3.store_name(id.name), none, last, last);
                lemma_after_on(s, m2.s, t3.store_name(id.name), first, last, names);
            },
            _ => {
                assert(names =~= first);
            },
        }
    } else {
        assert(names =~= first);
    }
}

pub proof fn lemma_array_from(es: Seq<ArrayPattern>, i: nat, count: nat, temp: i32, m: Matching)
    requires
        items_in_order_from(ctx_of(m.s), es, i),
        forall|k: int| 0 <= k < count && k < es.len() ==> #[trigger] es[k] is Item,
        !m.s.out.check_only,
    ensures
        after(m.s, array_from(es, i, count, temp, m).s, items_from(ctx_of(m.s), es, i, count)),
    decreases es, es.len() - i,
{
    let x = ctx_of(m.s);
    let none = Set::<StrId>::empty();
    if i < count && i < es.len() {
        if let ArrayPattern::Item(p) = es[i as int] {
            let s1 = m.s.emit_arg(Op::PushLocal, temp);
            let s2 = s1.emit_arg(Op::ElemAt, i as i32);
            lemma_push(m.s, instr(Op::PushLocal, 0, 0, temp));
            lemma_push(s1, instr(Op::ElemAt, 0, 0, i as i32));
            lemma_after_same(m.s, s2);
            let n = pattern(p, m.at(s2));
            lemma_pattern(p, m.at(s2));
            let first = names_in(x, p);
            let second = items_from(x, es, i + 1, count);
            lemma_after_on(m.s, s2, n.s, none, first, first);
            lemma_array_from(es, i + 1, count, temp, n);
            lemma_after_on(
                m.s,
                n.s,
                array_from(es, i, count, temp, m).s,
                first,
                second,
                items_from(x, es, i, count),
            );
        }
    } else {
        lemma_after_same(m.s, m.s);
    }
}

/// The names of the patterns that stand by the fields from `i` on.
pub open spec fn field_names_from(
    x: Ctx,
    args: Seq<PatternArg>,
    by_pos: Seq<Option<usize>>,
    i: nat,
) -> Set<StrId>
    decreases by_pos.len() - i,
{
    if i >= by_pos.len() {
        Set::empty()
    } else {
        (match by_pos[i as int] {
            Some(k) => names_in(x, arg_pattern(args[k as int])),
            None => Set::empty(),
        }).union(field_names_from(x, args, by_pos, i + 1))
    }
}

pub proof fn lemma_split_fields(
    x: Ctx,
    args: Seq<PatternArg>,
    by_pos: Seq<Option<usize>>,
    i: nat,
    name: StrId,
)
    requires
        i <= by_pos.len(),
    ensures
        field_names_from(x, args, by_pos, i).contains(name) <==> exists|j: int|
            i <= j < by_pos.len() && (#[trigger] by_pos[j]) is Some && names_in(
                x,
                arg_pattern(args[by_pos[j]->0 as int]),
            ).contains(name),
    decreases by_pos.len() - i,
{
    if i < by_pos.len() {
        lemma_split_fields(x, args, by_pos, i + 1, name);
        assert(field_names_from(x, args, by_pos, i).contains(name) == ((by_pos[i as int] is Some
            && names_in(x, arg_pattern(args[by_pos[i as int]->0 as int])).contains(name))
            || field_names_from(x, args, by_pos, i + 1).contains(name)));
    }
}

/// The names by field are the names by argument.
pub proof fn lemma_names_by_field(
    x: Ctx,
    c: crate::fitting::Ctor,
    args: Seq<PatternArg>,
    by_pos: Seq<Option<usize>>,
)
    requires
        placed(c, args, by_pos),
        crate::fitting::well_placed(c, args),
    ensures
        field_names_from(x, args, by_pos, 0) =~= arg_names_from(x, args, 0),
{
    lemma_split_args(x, args, 0);
    assert forall|name: StrId| field_names_from(x, args, by_pos, 0).contains(name)
        == arg_names_from(x, args, 0).contains(name) by {
        lemma_split_fields(x, args, by_pos, 0, name);
        if arg_names_from(x, args, 0).contains(name) {
            let k = choose|k: int|
                0 <= k < args.len() && names_in(x, arg_pattern(#[trigger] args[k])).contains(name);
            assert(crate::fitting::has_field(c, args, k));
            let i = choose|i: int| crate::fitting::is_for(c, args, k, i);
            assert(by_pos[i] is Some);
            assert(crate::fitting::is_for(c, args, by_pos[i]->0 as int, i));
        }
        if field_names_from(x, args, by_pos, 0).contains(name) {
            let j = choose|j: int|
                0 <= j < by_pos.len() && (#[trigger] by_pos[j]) is Some && names_in(
                    x,
                    arg_pattern(args[by_pos[j]->0 as int]),
                ).contains(name);
            let k = by_pos[j]->0 as int;
            assert(names_in(x, arg_pattern(args[k])).contains(name));
        }
    }
}

pub proof fn lemma_fields(
    args: Seq<PatternArg>,
    by_pos: Seq<Option<usize>>,
    i: nat,
    base: i32,
    m: Matching,
)
    requires
        args_in_order_from(ctx_of(m.s), args, 0),
        forall|j: int| 0 <= j < by_pos.len() ==> (#[trigger] by_pos[j] matches Some(k) ==> k
            < args.len()),
        !m.s.out.check_only,
    ensures
        after(
            m.s,
            fields_from(args, by_pos, i, base, m).s,
            field_names_from(ctx_of(m.s), args, by_pos, i),
        ),
    decreases args, by_pos.len() - i,
{
    let x = ctx_of(m.s);
    let none = Set::<StrId>::empty();
    if i < by_pos.len() {
        let second = field_names_from(x, args, by_pos, i + 1);
        match by_pos[i as int] {
            Some(k) => {
                let slot = i32::wrapping_add(base, i as i32);
                let s1 = m.s.emit_arg(Op::PushLocal, slot);
                lemma_push(m.s, instr(Op::PushLocal, 0, 0, slot));
                lemma_each_arg(x, args, 0, k as int);
                let p = arg_pattern(args[k as int]);
                match args[k as int] {
                    PatternArg::Positional(q) => lemma_pattern(q, m.at(s1)),
                    PatternArg::Labeled { pattern: q, .. } => lemma_pattern(q, m.at(s1)),
                }
                let n = pattern(p, m.at(s1));
                let first = names_in(x, p);
                lemma_after_on(m.s, s1, n.s, none, first, first);
                lemma_fields(args, by_pos, i + 1, base, n);
                lemma_after_on(
                    m.s,
                    n.s,
                    fields_from(args, by_pos, i, base, m).s,
                    first,
                    second,
                    field_names_from(x, args, by_pos, i),
                );
            },
            None => {
                lemma_fields(args, by_pos, i + 1, base, m);
                assert(field_names_from(x, args, by_pos, i) =~= second);
            },
        }
    } else {
        lemma_after_same(m.s, m.s);
    }
}

/// Where no field has a pattern there is no name.
pub proof fn lemma_none_slotted(
    x: Ctx,
    args: Seq<PatternArg>,
    by_pos: Seq<Option<usize>>,
    n: nat,
    i: nat,
)
    requires
        n <= by_pos.len(),
        !any_slotted(by_pos, n),
        i <= n,
        forall|j: int| n <= j < by_pos.len() ==> #[trigger] by_pos[j] is None,
    ensures
        forall|j: int| 0 <= j < by_pos.len() ==> #[trigger] by_pos[j] is None,
        field_names_from(x, args, by_pos, i) =~= Set::empty(),
    decreases n, n - i,
{
    if n > 0 {
        if i < n {
            assert(by_pos[n - 1] is None);
            lemma_none_before(by_pos, n);
            lemma_none_fields(x, args, by_pos, i);
        } else {
            lemma_none_before(by_pos, n);
            lemma_none_fields(x, args, by_pos, i);
        }
    } else {
        lemma_none_fields(x, args, by_pos, i);
    }
}

proof fn lemma_none_before(by_pos: Seq<Option<usize>>, n: nat)
    requires
        n <= by_pos.len(),
        !any_slotted(by_pos, n),
    ensures
        forall|j: int| 0 <= j < n ==> #[trigger] by_pos[j] is None,
    decreases n,
{
    if n > 0 {
        lemma_none_before(by_pos, (n - 1) as nat);
    }
}

proof fn lemma_none_fields(x: Ctx, args: Seq<PatternArg>, by_pos: Seq<Option<usize>>, i: nat)
    requires
        forall|j: int| 0 <= j < by_pos.len() ==> #[trigger] by_pos[j] is None,
    ensures
        field_names_from(x, args, by_pos, i) =~= Set::empty(),
    decreases by_pos.len() - i,
{
    if i < by_pos.len() {
        lemma_none_fields(x, args, by_pos, i + 1);
    }
}

proof fn lemma_constructor(p: Pattern, name: Ident, args: Seq<PatternArg>, m: Matching)
    requires
        p matches Pattern::Constructor { name: n, args: a, .. } && n == name && a@ == args,
        in_order(ctx_of(m.s), p),
        !m.s.out.check_only,
    ensures
        after(m.s, pattern(p, m).s, names_in(ctx_of(m.s), p)),
    decreases p, 0nat,
{
    reveal(pattern_body);
    assert(pattern(p, m) == pattern_body(p, m));
    reveal(State::lookup);
    reveal(State::is_bool);
    let s = m.s;
    let x = ctx_of(s);
    let names = names_in(x, p);
    let none = Set::<StrId>::empty();
    let c = x.ctor(name.name)->0;
    let v = s.ctor(name.name)->0;
    assert(s.ctor(name.name) is Some && v.type_id == c.ty);
    assert(s.is_bool(v.type_id) == x.is_truth(c.ty));
    assert(names == arg_names_from(x, args, 0));
    if x.is_truth(c.ty) {
        assert(names =~= none);
        lemma_push(
            s,
            instr(
                if s.text(name.name) == "True"@ {
                    Op::PushTrue
                } else {
                    Op::PushFalse
                },
                0,
                0,
                0,
            ),
        );
        lemma_require(m.at(s.bool_value(name.name)), Op::Eq);
        lemma_after_on(s, s.bool_value(name.name), pattern(p, m).s, none, none, names);
    } else {
        let temp = s.next_slot();
        let s1 = s.spill();
        lemma_spill(s);
        let s2 = s1.emit_arg(Op::PushLocal, temp);
        lemma_push(s1, instr(Op::PushLocal, 0, 0, temp));
        let s3 = s2.match_header(v.type_id, name.name);
        lemma_match_header(s2, v.type_id, name.name);
        let m1 = m.at(s3).require(Op::MatchEnum);
        lemma_require(m.at(s3), Op::MatchEnum);
        lemma_after_same(s1, m1.s);
        lemma_after_on(s, s1, m1.s, none, none, none);
        assert(m1.s.ctor(name.name) == s.ctor(name.name));
        assert(pattern(p, m) == fields_matched(v, args, temp, m1));
        lemma_ctor_fields(p, name, args, temp, m1);
        lemma_after_on(s, m1.s, pattern(p, m).s, none, names, names);
    }
}

/// The state behind the fields of a constructor's pattern.
pub open spec fn fields_matched(
    v: crate::gen::CtorView,
    args: Seq<PatternArg>,
    temp: i32,
    m: Matching,
) -> Matching {
    if v.shape.arity == 0 {
        m
    } else {
        let t = slotted(m.s, v.shape, false, pattern_keys(args), None);
        if !any_slotted(t.by_pos, t.by_pos.len()) {
            m.at(t.s)
        } else {
            let s2 = t.s.emit_arg(Op::PushLocal, temp).emit(Op::UnwrapEnum);
            fields_from(
                args,
                t.by_pos,
                0,
                s2.next_slot(),
                m.at(
                    s2.take_slots(v.shape.arity as i32).store_fields(
                        s2.next_slot(),
                        v.shape.arity as nat,
                    ),
                ),
            )
        }
    }
}

pub proof fn lemma_ctor_fields(
    p: Pattern,
    name: Ident,
    args: Seq<PatternArg>,
    temp: i32,
    m1: Matching,
)
    requires
        p matches Pattern::Constructor { name: n, args: a, .. } && n == name && a@ == args,
        in_order(ctx_of(m1.s), p),
        !ctx_of(m1.s).is_truth(ctx_of(m1.s).ctor(name.name)->0.ty),
        !m1.s.out.check_only,
    ensures
        after(
            m1.s,
            fields_matched(m1.s.ctor(name.name)->0, args, temp, m1).s,
            names_in(ctx_of(m1.s), p),
        ),
    decreases args, args.len() + ctx_of(m1.s).ctor(name.name)->0.arity + 1,
{
    let x = ctx_of(m1.s);
    let names = names_in(x, p);
    let none = Set::<StrId>::empty();
    let c = x.ctor(name.name)->0;
    assert(names == arg_names_from(x, args, 0));
    assert(args_in_order_from(x, args, 0));
    lemma_placed(m1.s, name.name, args);
    let v = m1.s.ctor(name.name)->0;
    let t = slotted(m1.s, v.shape, false, pattern_keys(args), None);
    lemma_names_by_field(x, c, args, t.by_pos);
    assert(names == field_names_from(x, args, t.by_pos, 0));
    lemma_after_same(m1.s, t.s);
    lemma_after_same(m1.s, m1.s);
    if v.shape.arity == 0 {
        assert(names =~= none);
    } else if !any_slotted(t.by_pos, t.by_pos.len()) {
        lemma_none_slotted(x, args, t.by_pos, t.by_pos.len(), 0);
        assert(names =~= none);
    } else {
        let t1 = t.s.emit_arg(Op::PushLocal, temp);
        lemma_push(t.s, instr(Op::PushLocal, 0, 0, temp));
        let t2 = t1.emit(Op::UnwrapEnum);
        lemma_push(t1, instr(Op::UnwrapEnum, 0, 0, 0));
        lemma_after_same(m1.s, t2);
        let t3 = t2.take_slots(v.shape.arity as i32).store_fields(
            t2.next_slot(),
            v.shape.arity as nat,
        );
        lemma_field_slots(t2, v.shape.arity as int);
        lemma_fields(args, t.by_pos, 0, t2.next_slot(), m1.at(t3));
        let n = fields_matched(v, args, temp, m1);
        lemma_after_on(m1.s, t2, t3, none, none, none);
        lemma_after_on(m1.s, t3, n.s, none, names, names);
    }
}

pub proof fn lemma_alternatives(ps: Seq<Pattern>, i: nat, temp: i32, o: OrMatching)
    requires
        alternatives_in_order_from(ctx_of(o.m.s), ps, i),
        i > 0 || ps.len() <= 1,
        !o.m.s.out.check_only,
    ensures
        after(
            o.m.s,
            alternatives_from(ps, i, temp, o).m.s,
            if i < ps.len() {
                names_in(ctx_of(o.m.s), ps[0])
            } else {
                Set::empty()
            },
        ),
    decreases ps, ps.len() - i,
{
    let x = ctx_of(o.m.s);
    let none = Set::<StrId>::empty();
    if i < ps.len() {
        let names = names_in(x, ps[0]);
        let s0 = o.m.s.emit_arg(Op::PushLocal, temp);
        lemma_push(o.m.s, instr(Op::PushLocal, 0, 0, temp));
        let n = Matching { s: s0, fails: Seq::empty() };
        lemma_pattern(ps[i as int], n);
        let alt = pattern(ps[i as int], n);
        lemma_after_on(o.m.s, s0, alt.s, none, names, names);
        let s2 = alt.s.emit_arg(Op::Jump, 0);
        lemma_push(alt.s, instr(Op::Jump, 0, 0, 0));
        lemma_patch_all(s2, alt.fails, alt.fails.len());
        let next = if i < ps.len() - 1 {
            OrMatching {
                m: Matching {
                    s: s2.patch_all(alt.fails, alt.fails.len()),
                    fails: o.m.fails,
                },
                matched: o.matched.push(alt.s.pos()),
            }
        } else {
            OrMatching {
                m: Matching { s: alt.s, fails: o.m.fails + alt.fails },
                matched: o.matched,
            }
        };
        lemma_after_same(alt.s, next.m.s);
        lemma_after_on(o.m.s, alt.s, next.m.s, names, none, names);
        lemma_alternatives(ps, i + 1, temp, next);
        let end = alternatives_from(ps, i + 1, temp, next);
        assert(alternatives_from(ps, i, temp, o) == end);
        lemma_after_on(
            o.m.s,
            next.m.s,
            end.m.s,
            names,
            if i + 1 < ps.len() {
                names
            } else {
                none
            },
            names,
        );
    } else {
        lemma_after_same(o.m.s, o.m.s);
    }
}

/// The frame once the first alternative's names are pinned.
pub proof fn lemma_pinned(q: State, a: State, ids: Seq<Ident>, names: Set<StrId>)
    requires
        after(q, a, names),
        lists(ids, Seq::empty(), names),
        tidy(q.loc),
        covered(q.loc, names),
        q.loc.count + (a.out.code.len() - q.out.code.len()) <= i32::MAX,
    ensures
        tidy(a.push_pins(ids).loc),
        covered(a.push_pins(ids).loc, names),
        a.push_pins(ids).loc == (Locals {
            overrides: a.loc.overrides.push(pins(a.loc.map, ids, ids.len())),
            ..a.loc
        }),
{
    reveal(keeps_slots);
    reveal(State::push_pins);
    lemma_pins(a.loc.map, ids, ids.len());
    let l = a.push_pins(ids).loc;
    let last = pins(a.loc.map, ids, ids.len());
    assert(l.overrides.last() == last);
    assert forall|n: StrId| last.dom().contains(n) implies names.contains(n) by {
        assert(has_name(ids, ids.len(), n));
        assert(!has_name(Seq::<Ident>::empty(), 0, n));
    }
    assert forall|j: int, n: StrId|
        0 <= j < l.overrides.len() && #[trigger] l.overrides[j].dom().contains(
            n,
        ) implies l.map.dom().contains(n) && l.map[n].slot == l.overrides[j][n] by {
        if j < a.loc.overrides.len() {
            assert(a.loc.overrides[j].dom().contains(n));
        } else {
            assert(last[n] == a.loc.map[n].slot);
        }
    }
    assert forall|n: StrId|
        l.map.dom().contains(n) && (#[trigger] l.rebinds(n) || l.pinned(n) is Some) implies alone(
        l,
        n,
    ) by {
        if l.rebinds(n) {
            lemma_alone(a.loc, n);
        } else {
            assert(names.contains(n));
        }
        assert(alone(a.loc, n));
    }
    assert forall|n: StrId| names.contains(n) implies last.dom().contains(n) by {
        assert(has_name(ids, ids.len(), n));
    }
}

/// Lifting the pins leaves what went before, with the names of the alternatives bound.
proof fn lemma_unpinned(q: State, a: State, ids: Seq<Ident>, b: State, names: Set<StrId>)
    requires
        after(q, a, names),
        after(a.push_pins(ids), b, names),
        lists(ids, Seq::empty(), names),
    ensures
        after(q, b.pop_pins(), names),
{
    reveal(State::push_pins);
    reveal(State::pop_pins);
    let c = b.pop_pins();
    let p = a.push_pins(ids);
    assert(p.loc.overrides.drop_last() =~= a.loc.overrides);
    assert(c.loc.overrides == q.loc.overrides);
    if tidy(q.loc) && covered(q.loc, names) && q.loc.count + (c.out.code.len()
        - q.out.code.len()) <= i32::MAX {
        lemma_pinned(q, a, ids, names);
        reveal(keeps_slots);
        assert forall|n: StrId|
            c.loc.map.dom().contains(n) && (#[trigger] c.loc.rebinds(n) || c.loc.pinned(n)
                is Some) implies alone(c.loc, n) by {
            if names.contains(n) {
                assert(alone(b.loc, n));
            } else {
                if b.loc.rebinds(n) {
                    lemma_alone(b.loc, n);
                } else {
                    assert(a.loc.overrides.last().dom().contains(n));
                    assert(a.loc.overrides[a.loc.overrides.len() - 1].dom().contains(n));
                    lemma_alone(a.loc, n);
                    assert(b.loc.map[n] == a.loc.map[n]);
                    assert forall|o: StrId|
                        o != n && #[trigger] b.loc.map.dom().contains(
                            o,
                        ) implies b.loc.map[o].slot != b.loc.map[n].slot by {
                        assert(b.loc.map[o].slot >= a.loc.count || a.loc.map.dom().contains(o));
                    }
                }
                assert(alone(b.loc, n));
            }
        }
        assert forall|j: int, n: StrId|
            0 <= j < c.loc.overrides.len() && #[trigger] c.loc.overrides[j].dom().contains(
                n,
            ) implies c.loc.map.dom().contains(n) && c.loc.map[n].slot
            == c.loc.overrides[j][n] by {
            assert(b.loc.overrides[j].dom().contains(n));
        }
        assert(tidy(c.loc));
        assert forall|n: StrId| #[trigger] names.contains(n) implies c.loc.map.dom().contains(n)
            && alone(c.loc, n) by {
            assert(alone(b.loc, n));
        }
        assert forall|n: StrId|
            #![trigger c.loc.map[n]]
            c.loc.map.dom().contains(n) implies (q.loc.map.dom().contains(n) && c.loc.map[n]
            == q.loc.map[n]) || (names.contains(n) && q.loc.count <= c.loc.map[n].slot) by {
            assert(b.loc.map[n] == c.loc.map[n]);
            if p.loc.map.dom().contains(n) && b.loc.map[n] == p.loc.map[n] {
                assert(a.loc.map[n] == b.loc.map[n]);
            }
        }
    } else {
        reveal(keeps_slots);
    }
}

pub proof fn lemma_or(ps: Seq<Pattern>, m: Matching)
    requires
        ps.len() > 0,
        alternatives_in_order_from(ctx_of(m.s), ps, 0),
        !m.s.out.check_only,
    ensures
        after(m.s.spill(), or_pattern(ps, m).s, names_in(ctx_of(m.s), ps[0])),
        after(m.s, or_pattern(ps, m).s, names_in(ctx_of(m.s), ps[0])),
    decreases ps, ps.len() + 1,
{
    reveal(or_pattern_body);
    assert(or_pattern(ps, m) == or_pattern_body(ps, m));
    let x = ctx_of(m.s);
    let none = Set::<StrId>::empty();
    let names = names_in(x, ps[0]);
    let q = m.s.spill();
    lemma_spill(m.s);
    let temp = m.s.next_slot();
    let start = OrMatching { m: m.at(q), matched: Seq::empty() };
    let o = alternatives_from(ps, 0, temp, start);
    let u = if ps.len() > 1 {
        o.m.s.pop_pins()
    } else {
        o.m.s
    };
    if ps.len() == 1 {
        lemma_alternatives(ps, 0, temp, start);
    } else {
        let s0 = q.emit_arg(Op::PushLocal, temp);
        lemma_push(q, instr(Op::PushLocal, 0, 0, temp));
        let n = Matching { s: s0, fails: Seq::empty() };
        lemma_pattern(ps[0], n);
        let alt = pattern(ps[0], n);
        lemma_after_on(q, s0, alt.s, none, names, names);
        let ids = binders(x.names, ps[0], Seq::empty());
        lemma_binders(x, ps[0], Seq::empty());
        let s1 = alt.s.push_pins(ids);
        let s2 = s1.emit_arg(Op::Jump, 0);
        lemma_push(s1, instr(Op::Jump, 0, 0, 0));
        let s3 = s2.patch_all(alt.fails, alt.fails.len());
        lemma_patch_all(s2, alt.fails, alt.fails.len());
        lemma_after_same(s1, s3);
        let next = OrMatching {
            m: Matching { s: s3, fails: m.fails },
            matched: Seq::<usize>::empty().push(s1.pos()),
        };
        assert(o == alternatives_from(ps, 1, temp, next));
        assert(ctx_of(s3) == x) by {
            reveal(State::push_pins);
        }
        assert(!s3.out.check_only) by {
            reveal(State::push_pins);
        }
        assert(alternatives_in_order_from(x, ps, 1));
        lemma_alternatives(ps, 1, temp, next);
        lemma_after_on(s1, s3, o.m.s, none, names, names);
        lemma_unpinned(q, alt.s, ids, o.m.s, names);
    }
    lemma_patch_all(u, o.matched, o.matched.len());
    let end = u.patch_all(o.matched, o.matched.len());
    lemma_after_on(q, u, end, names, none, names);
    lemma_after_on(m.s, q, end, none, names, names);
}

} // verus!

//! How a constructor's pattern takes a value apart.
use crate::ast::{Ident, Pattern, PatternArg, StrId};
use crate::fitting::{
    arg_names_from, arg_pattern, args_in_order_from, bound, ctx_of, fields_bound_from,
    fields_fit_from, fields_suit_from, fits, in_order, is_for, names_in, suits, well_placed, Ctor,
    Ctx,
};
use crate::fitting::frames;
use crate::fitting::frames::{
    after, field_names_from, fields_matched, lemma_after_on, lemma_after_same, lemma_each_arg,
    lemma_push, lemma_spill, tidy,
};
use crate::fitting::runs::{
    as_said, free, kept, lemma_aside, lemma_decided, lemma_free, lemma_kept_self, lemma_led,
    lemma_pattern, lemma_ready, lemma_room, lemma_seq, ready, runs,
};
use crate::fitting::slotting::{lemma_placed, placed};
use crate::gen::{any_slotted, fields_from, pattern, pattern_body, pattern_keys, Matching};
use crate::landing;
use crate::landing::{group_landing, lands, misses};
use crate::landing::pieces::group_landing_pieces;
use crate::machine::{lemma_reaches_self, reaches, Config, Given, Image, Value};
use crate::op::{instr, ConstView, Op};
use crate::prelude_bindings::TypeId;
use crate::running::{
    at_end, carries, lemma_carries_parts, lemma_const, lemma_fails_on, lemma_line, lemma_local,
    lemma_op, lemma_require, lemma_store, lemma_straight,
};
use crate::scopes::from_here;
use crate::slots::slotted;
use crate::state::{Locals, State};
use vstd::prelude::*;

verus! {

/// A truth value's pattern.
pub proof fn lemma_truth(
    g: Given,
    img: Image,
    m: Matching,
    name: StrId,
    v: Value,
    stack: Seq<Value>,
    l: Map<int, Value>,
)
    requires
        carries(img, m, m.at(m.s.bool_value(name)).require(Op::Eq)),
    ensures
        runs(
            g,
            img,
            m,
            m.at(m.s.bool_value(name)).require(Op::Eq),
            at_end(m.s, stack.push(v), l),
            stack,
            l,
            l,
            Set::empty(),
            v == Value::Bool(m.s.text(name) == "True"@),
            Map::empty(),
        ),
{
    let c = at_end(m.s, stack.push(v), l);
    lemma_reaches_self(g, img, c);
    let s1 = m.s.bool_value(name);
    let n = m.at(s1).require(Op::Eq);
    let b = Value::Bool(m.s.text(name) == "True"@);
    let ins = instr(
        if m.s.text(name) == "True"@ {
            Op::PushTrue
        } else {
            Op::PushFalse
        },
        0,
        0,
        0,
    );
    assert(s1 == m.s.push(ins));
    assert(lands(m.s, s1)) by {
        broadcast use group_landing;

        assert(from_here(m.s));
    }
    lemma_straight(m, s1);
    landing::lemma_require(m.at(s1), Op::Eq);
    lemma_carries_parts(img, m, m.at(s1), n);
    let full = stack.push(v).push(b);
    lemma_op(g, img, m, ins, c, stack.push(v), l, full);
    assert(at_end(s1, full, l).without(2) =~= stack);
    lemma_require(g, img, m.at(s1), Op::Eq, c, full, stack, v == b, l);
    if v != b {
        lemma_fails_on(g, img, m, m.at(s1), n, c, c, stack, l);
    }
    lemma_decided(g, img, m, n, c, stack, l, v == b);
}

/// The state behind the check of the constructor.
pub open spec fn header_checked(id: TypeId, name: StrId, temp: i32, m: Matching) -> Matching {
    m.at(m.s.emit_arg(Op::PushLocal, temp).match_header(id, name)).require(Op::MatchEnum)
}

pub proof fn lemma_header_shape(id: TypeId, name: StrId, temp: i32, m: Matching)
    ensures
        misses(m, header_checked(id, name, temp, m)),
        after(m.s, header_checked(id, name, temp, m).s, Set::empty()),
        header_checked(id, name, temp, m).s.loc == m.s.loc,
{
    let s1 = m.s.emit_arg(Op::PushLocal, temp);
    let s2 = s1.match_header(id, name);
    lemma_push(m.s, instr(Op::PushLocal, 0, 0, temp));
    frames::lemma_match_header(s1, id, name);
    frames::lemma_require(m.at(s2), Op::MatchEnum);
    lemma_after_same(m.s, header_checked(id, name, temp, m).s);
    assert(misses(m, header_checked(id, name, temp, m))) by {
        broadcast use {group_landing, group_landing_pieces};

        assert(from_here(m.s));
        assert(lands(m.s, s2));
    }
}

pub proof fn lemma_header(
    g: Given,
    img: Image,
    id: TypeId,
    name: StrId,
    temp: i32,
    m: Matching,
    stack: Seq<Value>,
    l: Map<int, Value>,
)
    requires
        carries(img, m, header_checked(id, name, temp, m)),
        l.dom().contains(temp as int),
        l[temp as int] is Made,
    ensures
        runs(
            g,
            img,
            m,
            header_checked(id, name, temp, m),
            at_end(m.s, stack, l),
            stack,
            l,
            l,
            Set::empty(),
            l[temp as int]->ty == id.0 && l[temp as int]->variant == name,
            Map::empty(),
        ),
{
    reveal(State::match_header);
    let c = at_end(m.s, stack, l);
    lemma_reaches_self(g, img, c);
    let v = l[temp as int];
    let ok = v->ty == id.0 && v->variant == name;
    let (ka, kb) = (ConstView::Int(id.0 as i64), ConstView::Str(name));
    let s1 = m.s.emit_arg(Op::PushLocal, temp);
    let s2 = s1.push_const(ka);
    let s3 = s2.push_const(kb);
    let n = m.at(s3).require(Op::MatchEnum);
    assert(lands(m.s, s1) && lands(s1, s2) && lands(s2, s3) && lands(s1, s3) && lands(
        m.s,
        s3,
    )) by {
        broadcast use group_landing;

        assert(from_here(m.s) && from_here(s1) && from_here(s2));
        assert(lands(s2, s3));
        assert(lands(s1, s3));
    }
    lemma_straight(m, s3);
    landing::lemma_require(m.at(s3), Op::MatchEnum);
    lemma_carries_parts(img, m, m.at(s3), n);
    lemma_line(img, m, s1, s3);
    lemma_line(img, m.at(s1), s2, s3);
    lemma_local(g, img, m, temp, c, stack, l);
    let x1 = stack.push(v);
    lemma_const(g, img, m.at(s1), ka, c, x1, l);
    let x2 = x1.push(g.constant(ka));
    lemma_const(g, img, m.at(s2), kb, c, x2, l);
    let x3 = x2.push(g.constant(kb));
    assert(at_end(s3, x3, l).without(3) =~= stack);
    lemma_require(g, img, m.at(s3), Op::MatchEnum, c, x3, stack, ok, l);
    if !ok {
        lemma_fails_on(g, img, m, m.at(s3), n, c, c, stack, l);
    }
    lemma_decided(g, img, m, n, c, stack, l, ok);
}

/// Whether a slot holds its field, or what it held where it has none.
pub open spec fn is_stored(
    l: Map<int, Value>,
    l2: Map<int, Value>,
    base: int,
    n: int,
    fields: Seq<Value>,
    z: int,
) -> bool {
    if base <= z < base + n {
        l2.dom().contains(z) && l2[z] == fields[z - base]
    } else {
        (l2.dom().contains(z) <==> l.dom().contains(z)) && l2[z] == l[z]
    }
}

/// Whether the slots from `base` on hold fields, and the others what they held.
pub open spec fn stored_in(
    l: Map<int, Value>,
    l2: Map<int, Value>,
    base: int,
    n: int,
    fields: Seq<Value>,
) -> bool {
    forall|z: int| #[trigger] is_stored(l, l2, base, n, fields, z)
}

/// Putting the fields aside, the last one first.
proof fn lemma_stored(
    g: Given,
    img: Image,
    m: Matching,
    base: i32,
    n: nat,
    c: Config,
    stack: Seq<Value>,
    fields: Seq<Value>,
    l: Map<int, Value>,
) -> (l2: Map<int, Value>)
    requires
        carries(img, m, m.at(m.s.store_fields(base, n))),
        n <= fields.len(),
        n <= u16::MAX,
        0 <= base,
        base + n <= i32::MAX,
        reaches(g, img, c, at_end(m.s, stack + fields.take(n as int), l)),
    ensures
        reaches(g, img, c, at_end(m.s.store_fields(base, n), stack, l2)),
        lands(m.s, m.s.store_fields(base, n)),
        stored_in(l, l2, base as int, n as int, fields),
    decreases n,
{
    reveal(State::store_fields);
    if n == 0 {
        assert(stack + fields.take(0) =~= stack);
        assert(lands(m.s, m.s)) by {
            broadcast use group_landing;
        }
        assert forall|z: int| #[trigger] is_stored(l, l, base as int, 0, fields, z) by {}
        l
    } else {
        let slot = i32::wrapping_add(base, (n - 1) as i32);
        assert(slot == base + n - 1);
        let s1 = m.s.emit_arg(Op::StoreLocal, slot);
        let t = s1.store_fields(base, (n - 1) as nat);
        assert(t == m.s.store_fields(base, n));
        let rest = stack + fields.take(n - 1);
        let v = fields[n - 1];
        assert(stack + fields.take(n as int) =~= rest.push(v));
        assert(lands(m.s, s1) && lands(s1, t)) by {
            broadcast use {group_landing, group_landing_pieces};

            assert(from_here(m.s) && from_here(s1));
        }
        assert(lands(m.s, t)) by {
            broadcast use group_landing;

            assert(from_here(m.s));
        }
        lemma_line(img, m, s1, t);
        lemma_store(g, img, m, slot, c, rest, v, l);
        let l1 = l.insert(slot as int, v);
        let l2 = lemma_stored(g, img, m.at(s1), base, (n - 1) as nat, c, stack, fields, l1);
        assert(stored_in(l, l2, base as int, n as int, fields)) by {
            assert forall|z: int| #[trigger] is_stored(l, l2, base as int, n as int, fields, z) by {
                assert(is_stored(l1, l2, base as int, n - 1, fields, z));
            }
        }
        l2
    }
}

/// Whether slots from `base` on, which no name has, hold the fields.
pub open spec fn hold_fields(
    loc: Locals,
    l: Map<int, Value>,
    base: int,
    arity: int,
    fields: Seq<Value>,
) -> bool {
    forall|z: int| base <= z < base + arity ==> #[trigger] holds_field(loc, l, base, fields, z)
}

/// Whether a slot that no name has holds its field.
pub open spec fn holds_field(
    loc: Locals,
    l: Map<int, Value>,
    base: int,
    fields: Seq<Value>,
    z: int,
) -> bool {
    free(loc, z as i32) && l.dom().contains(z) && l[z] == fields[z - base]
}

/// The fields are still there behind a pattern's code.
proof fn lemma_still_held(
    m: Matching,
    q: Matching,
    names: Set<StrId>,
    l: Map<int, Value>,
    l1: Map<int, Value>,
    base: int,
    arity: int,
    fields: Seq<Value>,
)
    requires
        after(m.s, q.s, names),
        ready(m, q, names),
        kept(m.s.loc, q.s.loc, names, l, l1),
        0 <= base,
        base + arity <= i32::MAX,
        hold_fields(m.s.loc, l, base, arity, fields),
    ensures
        hold_fields(q.s.loc, l1, base, arity, fields),
{
    assert forall|z: int| base <= z < base + arity implies #[trigger] holds_field(
        q.s.loc,
        l1,
        base,
        fields,
        z,
    ) by {
        assert(holds_field(m.s.loc, l, base, fields, z));
        lemma_free(m, q, names, z as i32, l, l1);
    }
}

/// No name occurs in two arguments.
proof fn lemma_apart(
    x: Ctx,
    c: Ctor,
    args: Seq<PatternArg>,
    by_pos: Seq<Option<usize>>,
    i: nat,
)
    requires
        placed(c, args, by_pos),
        args_in_order_from(x, args, 0),
        i < by_pos.len(),
        by_pos[i as int] is Some,
    ensures
        names_in(x, arg_pattern(args[by_pos[i as int]->0 as int])).disjoint(
            field_names_from(x, args, by_pos, i + 1),
        ),
{
    let k = by_pos[i as int]->0 as int;
    let first = names_in(x, arg_pattern(args[k]));
    assert forall|z: StrId| field_names_from(x, args, by_pos, i + 1).contains(z) implies !first.contains(
        z,
    ) by {
        frames::lemma_split_fields(x, args, by_pos, i + 1, z);
        let j = choose|j: int|
            i + 1 <= j < by_pos.len() && (#[trigger] by_pos[j]) is Some && names_in(
                x,
                arg_pattern(args[by_pos[j]->0 as int]),
            ).contains(z);
        let k2 = by_pos[j]->0 as int;
        assert(is_for(c, args, k, i as int));
        assert(is_for(c, args, k2, j));
        if k == k2 {
            assert(false) by {
                if let PatternArg::Labeled { label, .. } = args[k] {
                    assert(c.labels[i as int] == label.name);
                    assert(c.labels[j] == label.name);
                }
            }
        } else if k < k2 {
            lemma_each_arg(x, args, 0, k);
            assert(names_in(x, arg_pattern(args[k])).disjoint(
                names_in(x, arg_pattern(args[k2])),
            ));
        } else {
            lemma_each_arg(x, args, 0, k2);
            assert(names_in(x, arg_pattern(args[k2])).disjoint(
                names_in(x, arg_pattern(args[k])),
            ));
        }
    }
}

/// The argument that is for a field is the one that stands by it.
proof fn lemma_by_field(
    g: Given,
    x: Ctx,
    c: Ctor,
    args: Seq<PatternArg>,
    by_pos: Seq<Option<usize>>,
    i: nat,
    fields: Seq<Value>,
)
    requires
        placed(c, args, by_pos),
        well_placed(c, args),
        i < by_pos.len(),
    ensures
        match by_pos[i as int] {
            Some(k) => {
                let p = arg_pattern(args[k as int]);
                &&& fields_fit_from(g, x, c, args, i, fields) == (fits(g, x, p, fields[i as int])
                    && fields_fit_from(g, x, c, args, i + 1, fields))
                &&& fields_bound_from(g, x, c, args, i, fields) == bound(
                    g,
                    x,
                    p,
                    fields[i as int],
                ).union_prefer_right(fields_bound_from(g, x, c, args, i + 1, fields))
                &&& fields_suit_from(x, c, args, i, fields) ==> suits(x, p, fields[i as int])
            },
            None => {
                &&& fields_fit_from(g, x, c, args, i, fields) == fields_fit_from(
                    g,
                    x,
                    c,
                    args,
                    i + 1,
                    fields,
                )
                &&& fields_bound_from(g, x, c, args, i, fields) == fields_bound_from(
                    g,
                    x,
                    c,
                    args,
                    i + 1,
                    fields,
                )
            },
        },
{
    match by_pos[i as int] {
        Some(k) => {
            assert(is_for(c, args, k as int, i as int));
            let z = choose|z: int| is_for(c, args, z, i as int);
            assert(z == k);
            assert forall|y: int| #[trigger] is_for(c, args, y, i as int) implies y == k by {}
        },
        None => {
            let z = choose|z: int| is_for(c, args, z, i as int);
            assert(!is_for(c, args, z, i as int));
            let rest = fields_bound_from(g, x, c, args, i + 1, fields);
            assert(Map::<StrId, Value>::empty().union_prefer_right(rest) =~= rest);
        },
    }
}

proof fn lemma_fields(
    g: Given,
    img: Image,
    cx: Ctor,
    args: Seq<PatternArg>,
    by_pos: Seq<Option<usize>>,
    i: nat,
    base: i32,
    m: Matching,
    fields: Seq<Value>,
    stack: Seq<Value>,
    l: Map<int, Value>,
) -> (l2: Map<int, Value>)
    requires
        placed(cx, args, by_pos),
        well_placed(cx, args),
        cx.arity <= u16::MAX,
        args_in_order_from(ctx_of(m.s), args, 0),
        fields_suit_from(ctx_of(m.s), cx, args, i, fields),
        carries(img, m, fields_from(args, by_pos, i, base, m)),
        ready(
            m,
            fields_from(args, by_pos, i, base, m),
            field_names_from(ctx_of(m.s), args, by_pos, i),
        ),
        0 <= base,
        base + cx.arity <= i32::MAX,
        hold_fields(m.s.loc, l, base as int, cx.arity, fields),
    ensures
        runs(
            g,
            img,
            m,
            fields_from(args, by_pos, i, base, m),
            at_end(m.s, stack, l),
            stack,
            l,
            l2,
            field_names_from(ctx_of(m.s), args, by_pos, i),
            fields_fit_from(g, ctx_of(m.s), cx, args, i, fields),
            fields_bound_from(g, ctx_of(m.s), cx, args, i, fields),
        ),
    decreases args, by_pos.len() - i,
{
    let x = ctx_of(m.s);
    let c = at_end(m.s, stack, l);
    lemma_reaches_self(g, img, c);
    let n = fields_from(args, by_pos, i, base, m);
    if i >= by_pos.len() {
        lemma_decided(g, img, m, n, c, stack, l, true);
        l
    } else {
        lemma_by_field(g, x, cx, args, by_pos, i, fields);
        let second = field_names_from(x, args, by_pos, i + 1);
        let names = field_names_from(x, args, by_pos, i);
        match by_pos[i as int] {
            None => {
                assert(names =~= second);
                lemma_fields(g, img, cx, args, by_pos, i + 1, base, m, fields, stack, l)
            },
            Some(at) => {
                let p = arg_pattern(args[at as int]);
                let v = fields[i as int];
                let slot = i32::wrapping_add(base, i as i32);
                assert(slot == base + i);
                assert(holds_field(m.s.loc, l, base as int, fields, base + i));
                let k = m.at(m.s.emit_arg(Op::PushLocal, slot));
                let q = pattern(p, k);
                assert(n == fields_from(args, by_pos, i + 1, base, q));
                lemma_each_arg(x, args, 0, at as int);
                lemma_push(m.s, instr(Op::PushLocal, 0, 0, slot));
                frames::lemma_pattern(p, k);
                frames::lemma_fields(args, by_pos, i + 1, base, q);
                landing::patterns::lemma_pattern(p, k);
                landing::patterns::lemma_fields(args, by_pos, i + 1, base, q);
                assert(lands(m.s, k.s)) by {
                    broadcast use group_landing;

                    assert(from_here(m.s));
                }
                lemma_straight(m, k.s);
                assert(misses(m, q) && misses(k, n)) by {
                    broadcast use group_landing;

                    assert(from_here(m.s) && from_here(k.s));
                }
                let none = Set::<StrId>::empty();
                let first = names_in(x, p);
                lemma_apart(x, cx, args, by_pos, i);
                lemma_after_on(k.s, q.s, n.s, first, second, names);
                lemma_after_on(m.s, k.s, q.s, none, first, first);
                lemma_carries_parts(img, m, k, n);
                lemma_carries_parts(img, k, q, n);
                lemma_ready(m, k, n, none, names, names);
                lemma_ready(k, q, n, first, second, names);
                lemma_ready(m, q, n, first, second, names);
                lemma_local(g, img, m, slot, c, stack, l);
                let l1 = match args[at as int] {
                    PatternArg::Positional(z) => lemma_pattern(g, img, z, k, v, stack, l),
                    PatternArg::Labeled { pattern: z, .. } => lemma_pattern(
                        g,
                        img,
                        z,
                        k,
                        v,
                        stack,
                        l,
                    ),
                };
                lemma_kept_self(m.s.loc, k.s.loc, l);
                let ok1 = fits(g, x, p, v);
                lemma_led(
                    g,
                    img,
                    m,
                    k,
                    q,
                    c,
                    at_end(k.s, stack.push(v), l),
                    stack,
                    l,
                    l,
                    l1,
                    first,
                    ok1,
                    bound(g, x, p, v),
                );
                lemma_still_held(m, q, first, l, l1, base as int, cx.arity, fields);
                let l2 = lemma_fields(
                    g,
                    img,
                    cx,
                    args,
                    by_pos,
                    i + 1,
                    base,
                    q,
                    fields,
                    stack,
                    l1,
                );
                lemma_seq(
                    g,
                    img,
                    m,
                    q,
                    n,
                    c,
                    stack,
                    l,
                    l1,
                    l2,
                    first,
                    second,
                    ok1,
                    fields_fit_from(g, x, cx, args, i + 1, fields),
                    bound(g, x, p, v),
                    fields_bound_from(g, x, cx, args, i + 1, fields),
                    names,
                );
                if ok1 {
                    l2
                } else {
                    l1
                }
            },
        }
    }
}

/// What follows the check of the constructor.
proof fn lemma_unpacked(
    g: Given,
    img: Image,
    p: Pattern,
    name: Ident,
    args: Seq<PatternArg>,
    temp: i32,
    m: Matching,
    fields: Seq<Value>,
    stack: Seq<Value>,
    l: Map<int, Value>,
) -> (l2: Map<int, Value>)
    requires
        p matches Pattern::Constructor { name: n, args: a, .. } && n == name && a@ == args,
        in_order(ctx_of(m.s), p),
        !ctx_of(m.s).is_truth(ctx_of(m.s).ctor(name.name)->0.ty),
        fields_suit_from(ctx_of(m.s), ctx_of(m.s).ctor(name.name)->0, args, 0, fields),
        fields.len() == ctx_of(m.s).ctor(name.name)->0.arity,
        carries(img, m, fields_matched(m.s.ctor(name.name)->0, args, temp, m)),
        ready(
            m,
            fields_matched(m.s.ctor(name.name)->0, args, temp, m),
            names_in(ctx_of(m.s), p),
        ),
        l.dom().contains(temp as int),
        l[temp as int] is Made,
        l[temp as int]->fields == fields,
    ensures
        runs(
            g,
            img,
            m,
            fields_matched(m.s.ctor(name.name)->0, args, temp, m),
            at_end(m.s, stack, l),
            stack,
            l,
            l2,
            names_in(ctx_of(m.s), p),
            fields_fit_from(g, ctx_of(m.s), ctx_of(m.s).ctor(name.name)->0, args, 0, fields),
            fields_bound_from(g, ctx_of(m.s), ctx_of(m.s).ctor(name.name)->0, args, 0, fields),
        ),
    decreases args, args.len() + ctx_of(m.s).ctor(name.name)->0.arity + 1,
{
    let x = ctx_of(m.s);
    let c = at_end(m.s, stack, l);
    lemma_reaches_self(g, img, c);
    let none = Set::<StrId>::empty();
    let cx = x.ctor(name.name)->0;
    let names = names_in(x, p);
    assert(names == arg_names_from(x, args, 0));
    assert(args_in_order_from(x, args, 0));
    lemma_placed(m.s, name.name, args);
    let v = m.s.ctor(name.name)->0;
    let arity = v.shape.arity;
    let n = fields_matched(v, args, temp, m);
    let t = slotted(m.s, v.shape, false, pattern_keys(args), None);
    frames::lemma_names_by_field(x, cx, args, t.by_pos);
    assert(names == field_names_from(x, args, t.by_pos, 0));
    assert(lands(m.s, t.s)) by {
        landing::lemma_same_out(m.s, t.s);
    }
    lemma_straight(m, t.s);
    if arity == 0 {
        assert(names =~= none);
        lemma_decided(g, img, m, n, c, stack, l, true);
        l
    } else if !any_slotted(t.by_pos, t.by_pos.len()) {
        frames::lemma_none_slotted(x, args, t.by_pos, t.by_pos.len(), 0);
        lemma_nothing(g, x, cx, args, t.by_pos, 0, fields);
        assert(names =~= none);
        assert(at_end(m.s, stack, l) == at_end(n.s, stack, l));
        lemma_decided(g, img, m, n, c, stack, l, true);
        l
    } else {
        let k0 = m.at(t.s);
        let s1 = t.s.emit_arg(Op::PushLocal, temp);
        let ins = instr(Op::UnwrapEnum, 0, 0, 0);
        let s2 = s1.push(ins);
        let base = s2.next_slot();
        let s3 = s2.take_slots(arity as i32);
        let s4 = s3.store_fields(base, arity as nat);
        let k = m.at(s4);
        assert(n == fields_from(args, t.by_pos, 0, base, k));
        lemma_push(t.s, instr(Op::PushLocal, 0, 0, temp));
        lemma_push(s1, ins);
        lemma_after_same(m.s, s2);
        frames::lemma_field_slots(s2, arity as int);
        frames::lemma_fields(args, t.by_pos, 0, base, k);
        landing::patterns::lemma_fields(args, t.by_pos, 0, base, k);
        lemma_after_on(m.s, s2, s4, none, none, none);
        assert(lands(t.s, s1) && lands(s1, s2) && lands(s2, s3) && lands(s3, s4)) by {
            broadcast use {group_landing, group_landing_pieces};

            assert(from_here(t.s) && from_here(s1) && from_here(s2) && from_here(s3));
        }
        assert(lands(s2, s4) && lands(s1, s4) && lands(t.s, s4) && lands(m.s, s4)) by {
            broadcast use group_landing;

            assert(from_here(s2));
            assert(lands(s2, s4));
            assert(from_here(s1));
            assert(lands(s1, s4));
            assert(from_here(t.s));
            assert(lands(t.s, s4));
            assert(from_here(m.s));
        }
        lemma_straight(m, s4);
        lemma_carries_parts(img, m, k, n);
        lemma_line(img, m, t.s, s4);
        lemma_line(img, k0, s1, s4);
        lemma_line(img, m.at(s1), s2, s4);
        lemma_line(img, m.at(s2), s3, s4);
        lemma_ready(m, k, n, none, names, names);
        lemma_enough(m.s, s2, s4, n.s, arity as int);
        assert(at_end(m.s, stack, l) == at_end(t.s, stack, l));
        lemma_local(g, img, k0, temp, c, stack, l);
        let x1 = stack.push(l[temp as int]);
        assert(at_end(s1, x1, l).without(1) =~= stack);
        lemma_op(g, img, m.at(s1), ins, c, x1, l, stack + fields);
        assert(fields.take(arity as int) =~= fields);
        assert(s3.out == s2.out) by {
            reveal(State::take_slots);
        }
        assert(at_end(s2, stack + fields, l) == at_end(s3, stack + fields, l));
        let l1 = lemma_stored(g, img, m.at(s3), base, arity as nat, c, stack, fields, l);
        lemma_fields_aside(m.s.loc, s4.loc, l, l1, base as int, arity as int, fields);
        let l2 = lemma_fields(g, img, cx, args, t.by_pos, 0, base, k, fields, stack, l1);
        lemma_led(
            g,
            img,
            m,
            k,
            n,
            c,
            at_end(s4, stack, l1),
            stack,
            l,
            l1,
            l2,
            names,
            fields_fit_from(g, x, cx, args, 0, fields),
            fields_bound_from(g, x, cx, args, 0, fields),
        );
        l2
    }
}

/// The fields are in slots of their own.
proof fn lemma_fields_aside(
    a: Locals,
    b: Locals,
    l: Map<int, Value>,
    l1: Map<int, Value>,
    base: int,
    arity: int,
    fields: Seq<Value>,
)
    requires
        tidy(a),
        base == a.count,
        0 <= arity,
        base + arity <= i32::MAX,
        b == (Locals { count: (base + arity) as i32, ..a }),
        stored_in(l, l1, base, arity, fields),
    ensures
        kept(a, b, Set::empty(), l, l1),
        hold_fields(b, l1, base, arity, fields),
{
    reveal(kept);
    assert forall|i: int| 0 <= i < a.count implies (#[trigger] l1.dom().contains(i)
        <==> l.dom().contains(i)) && l1[i] == l[i] by {
        assert(is_stored(l, l1, base, arity, fields, i));
    }
    assert forall|z: int| base <= z < base + arity implies #[trigger] holds_field(
        b,
        l1,
        base,
        fields,
        z,
    ) by {
        assert(is_stored(l, l1, base, arity, fields, z));
    }
}

/// There are slots for the fields.
proof fn lemma_enough(a: State, b: State, c: State, d: State, arity: int)
    requires
        b.loc == a.loc,
        a.loc.count >= 0,
        c.out.code.len() == b.out.code.len() + arity,
        a.out.code.len() <= b.out.code.len(),
        c.out.code.len() <= d.out.code.len(),
        a.loc.count + (d.out.code.len() - a.out.code.len()) <= i32::MAX,
    ensures
        b.next_slot() == a.loc.count,
        a.loc.count + arity <= i32::MAX,
{
    reveal(State::next_slot);
}

proof fn lemma_nothing(
    g: Given,
    x: Ctx,
    c: Ctor,
    args: Seq<PatternArg>,
    by_pos: Seq<Option<usize>>,
    i: nat,
    fields: Seq<Value>,
)
    requires
        placed(c, args, by_pos),
        well_placed(c, args),
        forall|j: int| 0 <= j < by_pos.len() ==> #[trigger] by_pos[j] is None,
    ensures
        fields_fit_from(g, x, c, args, i, fields),
        fields_bound_from(g, x, c, args, i, fields) == Map::<StrId, Value>::empty(),
    decreases by_pos.len() - i,
{
    if i < by_pos.len() {
        lemma_by_field(g, x, c, args, by_pos, i, fields);
        lemma_nothing(g, x, c, args, by_pos, i + 1, fields);
    }
}

/// A constructor's pattern.
pub proof fn lemma_constructor(
    g: Given,
    img: Image,
    p: Pattern,
    name: Ident,
    args: Seq<PatternArg>,
    m: Matching,
    v: Value,
    stack: Seq<Value>,
    l: Map<int, Value>,
) -> (l2: Map<int, Value>)
    requires
        p matches Pattern::Constructor { name: n, args: a, .. } && n == name && a@ == args,
        in_order(ctx_of(m.s), p),
        suits(ctx_of(m.s), p, v),
        carries(img, m, pattern(p, m)),
        ready(m, pattern(p, m), names_in(ctx_of(m.s), p)),
    ensures
        as_said(g, img, p, m, v, stack, l, l2),
    decreases p, 0nat,
{
    reveal(State::lookup);
    reveal(State::is_bool);
    let s = m.s;
    let x = ctx_of(s);
    let n = pattern(p, m);
    let names = names_in(x, p);
    let none = Set::<StrId>::empty();
    let nothing = Map::<StrId, Value>::empty();
    let cx = x.ctor(name.name)->0;
    let view = s.ctor(name.name)->0;
    assert(s.ctor(name.name) is Some && view.type_id == cx.ty);
    assert(s.is_bool(view.type_id) == x.is_truth(cx.ty));
    assert(names == arg_names_from(x, args, 0));
    let c = at_end(s, stack.push(v), l);
    lemma_reaches_self(g, img, c);
    if x.is_truth(cx.ty) {
        assert(names =~= none);
        assert(n == m.at(s.bool_value(name.name)).require(Op::Eq)) by {
            reveal(pattern_body);
        }
        lemma_truth(g, img, m, name.name, v, stack, l);
        assert(bound(g, x, p, v) == nothing) by {
            if let Value::Made { .. } = v {
            }
        }
        l
    } else {
        let temp = s.next_slot();
        let m0 = m.at(s.spill());
        let m1 = header_checked(view.type_id, name.name, temp, m0);
        lemma_spill(s);
        lemma_header_shape(view.type_id, name.name, temp, m0);
        assert(m1.s.ctor(name.name) == s.ctor(name.name));
        assert(n == fields_matched(view, args, temp, m1)) by {
            reveal(pattern_body);
        }
        frames::lemma_ctor_fields(p, name, args, temp, m1);
        lemma_fields_miss(view, args, temp, m1);
        assert(misses(m, m0) && misses(m0, n)) by {
            broadcast use {group_landing, group_landing_pieces};

            assert(from_here(m.s) && from_here(m0.s));
            assert(lands(m.s, m0.s));
        }
        lemma_after_on(m0.s, m1.s, n.s, none, names, names);
        lemma_ready(m, m0, n, none, names, names);
        lemma_ready(m0, m1, n, none, names, names);
        lemma_carries_parts(img, m, m0, n);
        lemma_carries_parts(img, m0, m1, n);
        lemma_room(m, m0, n);
        lemma_aside(g, img, m, c, stack, v, l);
        let l1 = l.insert(temp as int, v);
        let d = at_end(m0.s, stack, l1);
        lemma_header(g, img, view.type_id, name.name, temp, m0, stack, l1);
        let ok0 = v->ty == cx.ty.0 && v->variant == name.name;
        let fields = v->fields;
        let ok1 = fields_fit_from(g, x, cx, args, 0, fields);
        let values = fields_bound_from(g, x, cx, args, 0, fields);
        let l2 = if ok0 {
            lemma_unpacked(g, img, p, name, args, temp, m1, fields, stack, l1)
        } else {
            l1
        };
        lemma_seq(
            g,
            img,
            m0,
            m1,
            n,
            d,
            stack,
            l1,
            l1,
            l2,
            none,
            names,
            ok0,
            ok1,
            nothing,
            values,
            names,
        );
        assert(nothing.union_prefer_right(values) =~= values);
        lemma_led(g, img, m, m0, n, c, d, stack, l, l1, l2, names, ok0 && ok1, values);
        assert(fits(g, x, p, v) == (ok0 && ok1));
        assert(bound(g, x, p, v) == values);
        l2
    }
}

proof fn lemma_fields_miss(
    v: crate::gen::CtorView,
    args: Seq<PatternArg>,
    temp: i32,
    m: Matching,
)
    ensures
        misses(m, fields_matched(v, args, temp, m)),
{
    broadcast use {group_landing, group_landing_pieces};

    assert(from_here(m.s));
    assert(misses(m, m));
    let t = slotted(m.s, v.shape, false, pattern_keys(args), None);
    assert(lands(m.s, t.s));
    let s2 = t.s.emit_arg(Op::PushLocal, temp).emit(Op::UnwrapEnum);
    let s3 = s2.take_slots(v.shape.arity as i32).store_fields(
        s2.next_slot(),
        v.shape.arity as nat,
    );
    assert(lands(m.s, s3));
    assert(misses(m, m.at(s3)));
    landing::patterns::lemma_fields(args, t.by_pos, 0, s2.next_slot(), m.at(s3));
}

} // verus!

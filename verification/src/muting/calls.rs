//! What muting leaves of calls.
use crate::ast::{span_of, CallArg, CallExpr, CalleeShape, Span};
use crate::muting::exprs::lemma_expr;
use crate::diag::{slice_of, Message};
use crate::gen::{
    arg_faults, args_from, call, call_body, call_keys, ctor_call, ctor_call_body, expr, last_spread,
    payload_from,
    positional, positional_body, update_base, update_base_body, CtorView,
};
use crate::op::{ConstView, Op};
use crate::muting::group_muting;
use crate::muting::pieces::group_muting_pieces;
use crate::slots::{slotted, MissingReport};
use crate::state::{Sighting, State, ValueKind, VarAccess};
use vstd::prelude::*;

verus! {

broadcast use {group_muting, group_muting_pieces};

pub proof fn lemma_call(pre: Seq<Sighting>, c: CallExpr, tail: bool, s: State)
    ensures
        call(c, tail, s).muted(pre) == call(c, tail, s.muted(pre)),
    decreases c, 1nat,
{
    reveal(call_body);
    assert(call(c, tail, s) == call_body(c, tail, s));
    assert(call(c, tail, s.muted(pre)) == call_body(c, tail, s.muted(pre)));
    let (r, callee) = s.callee(*c.callee);
    let t = match callee {
        Some((id, b, _)) => r.record(None, id, b.doc),
        None => r,
    };
    match callee {
        Some((id, b, access)) => {
            lemma_positional(pre, c.shape, c.args@, c.span, t);
            let u = positional(c.shape, c.args@, c.span, t);
            match b.kind {
                ValueKind::Constructor { ty_name, type_id, arity, labels, .. } => lemma_ctor_call(
            pre,
                    CtorView {
                        type_id,
                        ty_name,
                        shape: crate::slots::CtorShape {
                            name: id.name,
                            arity: arity as usize,
                            labels,
                        },
                    },
                    c.args@,
                    c.span,
                    t,
                ),
                ValueKind::Builtin { key } => {
                },
                _ => match access {
                    Some(VarAccess::Self_) => {},
                    Some(a) => {},
                    None => {
                    },
                },
            }
        },
        None => {
            let u = expr(*c.callee, t);
            lemma_expr(pre, *c.callee, t);
            lemma_positional(pre, c.shape, c.args@, c.span, u.spill());
        },
    }
}

pub proof fn lemma_positional(
    pre: Seq<Sighting>,
    shape: CalleeShape,
    args: Seq<CallArg>,
    span: Span,
    s: State,
)
    ensures
        positional(shape, args, span, s).muted(pre) == positional(shape, args, span, s.muted(pre)),
    decreases args, args.len() + 2,
{
    reveal(positional_body);
    assert(positional(shape, args, span, s) == positional_body(shape, args, span, s));
    assert(positional(shape, args, span, s.muted(pre)) == positional_body(shape, args, span, s.muted(pre)));
    match shape {
        CalleeShape::Fits => lemma_args(pre, args, 0, true, s),
        CalleeShape::Arity { expected } => lemma_args(
            pre,
            args,
            0,
            true,
            s.error(Message::ArgumentCount { expected, given: args.len() as usize }, span),
        ),
        CalleeShape::NotFn { ty } => lemma_args(
            pre,
            args,
            0,
            false,
            s.error(Message::NotCallable { ty }, span),
        ),
    }
}

pub proof fn lemma_args(pre: Seq<Sighting>, args: Seq<CallArg>, i: nat, strict: bool, s: State)
    ensures
        args_from(args, i, strict, s).muted(pre) == args_from(args, i, strict, s.muted(pre)),
    decreases args, args.len() - i,
{
    if i < args.len() {
        let faults = if strict {
            arg_faults(args[i as int])
        } else {
            Seq::empty()
        };
        match args[i as int] {
            CallArg::Positional { value: e, .. } => {
                let v = expr(e, s).misfit(faults);
                lemma_expr(pre, e, s);
                lemma_args(pre, args, i + 1, strict, v);
            },
            CallArg::Labeled { label, value, .. } => {
                let t = if strict {
                    s.error(Message::LabelledArgument, label.span)
                } else {
                    s
                };
                let v = expr(value, t).misfit(faults);
                lemma_expr(pre, value, t);
                lemma_args(pre, args, i + 1, strict, v);
            },
            CallArg::Spread { value: e, .. } => {
                let t = if strict {
                    s.error(Message::SpreadArgument, span_of(e))
                } else {
                    s
                };
                let v = expr(e, t).misfit(faults);
                lemma_expr(pre, e, t);
                lemma_args(pre, args, i + 1, strict, v);
            },
        }
    }
}

pub proof fn lemma_ctor_call(
    pre: Seq<Sighting>,
    v: CtorView,
    args: Seq<CallArg>,
    span: Span,
    s: State,
)
    ensures
        ctor_call(v, args, span, s).muted(pre) == ctor_call(v, args, span, s.muted(pre)),
    decreases args, 65538nat,
{
    let spread = last_spread(args, args.len());
    let r = s.report_spreads(args, args.len());
    let missing = if spread is Some {
        None
    } else {
        Some(MissingReport { span, in_pattern: false })
    };
    let keys = call_keys(args, args.len());
    assert(r.muted(pre) == s.muted(pre).report_spreads(args, args.len()));
    let t = slotted(r, v.shape, true, keys, missing);
    let t2 = slotted(r.muted(pre), v.shape, true, keys, missing);
    assert(t.s.muted(pre) == t2.s && t.by_pos == t2.by_pos);
    let u = update_base(args, spread, t.s).s;
    let base = update_base(args, spread, t.s).slot;
    lemma_update_base(pre, args, spread, t.s);
    let u2 = update_base(args, spread, t2.s).s;
    assert(u2 == u.muted(pre));
    assert(update_base(args, spread, t2.s).slot == base);
    lemma_build(pre, v, args, t.by_pos, base, u);
    assert(u.bool_value(v.shape.name).muted(pre) == u2.bool_value(v.shape.name));
    assert(ctor_call(v, args, span, s) == if v.shape.arity == 0 && u.is_bool(v.type_id) {
        u.bool_value(v.shape.name)
    } else {
        build(v, args, t.by_pos, base, u)
    }) by {
        reveal(ctor_call_body);
        assert(ctor_call(v, args, span, s) == ctor_call_body(v, args, span, s));
    }
    assert(ctor_call(v, args, span, s.muted(pre)) == if v.shape.arity == 0 && u2.is_bool(v.type_id) {
        u2.bool_value(v.shape.name)
    } else {
        build(v, args, t.by_pos, base, u2)
    }) by {
        reveal(ctor_call_body);
        assert(ctor_call(v, args, span, s.muted(pre)) == ctor_call_body(v, args, span, s.muted(pre)));
    }
}

/// A value of a constructor, built from what its fields are.
spec fn build(
    v: CtorView,
    args: Seq<CallArg>,
    by_pos: Seq<Option<usize>>,
    base: Option<i32>,
    u: State,
) -> State {
    let h = u.construct_header(v.type_id, v.ty_name, v.shape.name, v.shape.labels);
    let w = h.pool(ConstView::NameHash { ty_name: v.ty_name, variant: v.shape.name });
    let known = slice_of(u.labels, v.shape.labels).len();
    payload_from(args, by_pos, 0, known, base, w).emit_b(
        Op::MakeEnumPayload,
        v.shape.arity as u16,
        h.pool_index(),
    )
}

proof fn lemma_build(
    pre: Seq<Sighting>,
    v: CtorView,
    args: Seq<CallArg>,
    by_pos: Seq<Option<usize>>,
    base: Option<i32>,
    u: State,
)
    ensures
        build(v, args, by_pos, base, u).muted(pre) == build(v, args, by_pos, base, u.muted(pre)),
    decreases args, 65537nat,
{
    let known = slice_of(u.labels, v.shape.labels).len();
    let h = u.construct_header(v.type_id, v.ty_name, v.shape.name, v.shape.labels);
    let w = h.pool(ConstView::NameHash { ty_name: v.ty_name, variant: v.shape.name });
    lemma_payload(pre, args, by_pos, 0, known, base, w);
}

pub proof fn lemma_update_base(
    pre: Seq<Sighting>,
    args: Seq<CallArg>,
    spread: Option<int>,
    s: State,
)
    ensures
        update_base(args, spread, s).muted(pre) == update_base(args, spread, s.muted(pre)),
    decreases args, 1nat,
{
    reveal(update_base_body);
    assert(update_base(args, spread, s) == update_base_body(args, spread, s));
    assert(update_base(args, spread, s.muted(pre)) == update_base_body(args, spread, s.muted(pre)));
    if let Some(k) = spread {
        if 0 <= k < args.len() {
            if let CallArg::Spread { value: e, faults } = args[k] {
                lemma_expr(pre, e, s);
            }
        }
    }
}

pub proof fn lemma_payload(
    pre: Seq<Sighting>,
    args: Seq<CallArg>,
    by_pos: Seq<Option<usize>>,
    i: nat,
    known: nat,
    base: Option<i32>,
    s: State,
)
    requires
        known <= 65536,
    ensures
        payload_from(args, by_pos, i, known, base, s).muted(pre)
            == payload_from(args, by_pos, i, known, base, s.muted(pre)),
    decreases args, known - i,
{
    if i < by_pos.len() && i < known {
        match by_pos[i as int] {
            Some(k) => if k < args.len() {
                match args[k as int] {
                    CallArg::Positional { value: e, .. } => {
                        let v = expr(e, s).misfit(arg_faults(args[k as int]));
                        lemma_expr(pre, e, s);
                        lemma_payload(pre, args, by_pos, i + 1, known, base, v);
                    },
                    CallArg::Labeled { value, .. } => {
                        let v = expr(value, s).misfit(arg_faults(args[k as int]));
                        lemma_expr(pre, value, s);
                        lemma_payload(pre, args, by_pos, i + 1, known, base, v);
                    },
                    CallArg::Spread { value: e, .. } => {
                        let v = expr(e, s).misfit(arg_faults(args[k as int]));
                        lemma_expr(pre, e, s);
                        lemma_payload(pre, args, by_pos, i + 1, known, base, v);
                    },
                }
            },
            None => {
                let t = match base {
                    Some(slot) => s.emit_arg(Op::PushLocal, slot).emit_arg(Op::GetField, i as i32),
                    None => s.nil(),
                };
                lemma_payload(pre, args, by_pos, i + 1, known, base, t);
            },
        }
    }
}

} // verus!

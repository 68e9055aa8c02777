//! Calls leave the scope as it was.
use crate::ast::{span_of, CallArg, CallExpr, CalleeShape, Span};
use crate::balance::exprs::lemma_expr;
use crate::diag::{slice_of, Message};
use crate::gen::{
    arg_faults, args_from, call, call_body, call_keys, ctor_call, ctor_call_body, expr,
    last_spread, payload_from, positional, positional_body, update_base, update_base_body, CtorView,
};
use crate::op::{instr, ConstView, Op};
use crate::pieces::group_pieces;
use crate::scopes::{
    from_here, group_steps, leaves, lemma_leaves_on, lemma_load, lemma_push_last, lemma_raised,
};
use crate::slots::{slotted, MissingReport};
use crate::state::{State, ValueKind, VarAccess};
use vstd::prelude::*;

verus! {

broadcast use {group_steps, group_pieces};

pub proof fn lemma_call(c: CallExpr, tail: bool, s: State)
    requires
        !s.loc.tail,
    ensures
        leaves(s.set_tail(tail), call(c, tail, s)),
    decreases c, 1nat,
{
    let a = s.set_tail(tail);
    assert(a.loc.tail == tail) by {
        reveal(State::set_tail);
    }
    assert(from_here(a));
    lemma_raised(s, tail, call(c, tail, s));
    assert(from_here(s));
    reveal(call_body);
    assert(call(c, tail, s) == call_body(c, tail, s));
    let (r, callee) = s.callee(*c.callee);
    assert(leaves(s, r));
    let t = match callee {
        Some((id, b, _)) => r.record(None, id, b.doc),
        None => r,
    };
    assert(leaves(s, t));
    match callee {
        Some((id, b, access)) => {
            lemma_positional(c.shape, c.args@, c.span, t);
            let u = positional(c.shape, c.args@, c.span, t);
            match b.kind {
                ValueKind::Constructor { ty_name, type_id, arity, labels, .. } => lemma_ctor_call(
                    CtorView {
                        type_id,
                        ty_name,
                        shape: crate::slots::CtorShape {
                            name: id.name,
                            arity: arity as usize,
                            labels,
                        },
                    },
                    c.args@,
                    c.span,
                    t,
                ),
                ValueKind::Builtin { key } => {
                    assert(from_here(u));
                    assert(leaves(u, u.builtin(key, c.span)));
                },
                _ => {
                    let general = if tail {
                        Op::TailCall
                    } else {
                        Op::Call
                    };
                    let to_self = if tail {
                        Op::TailCallSelf
                    } else {
                        Op::CallSelf
                    };
                    let n = c.args@.len() as i32;
                    match access {
                        Some(VarAccess::Self_) => {
                            lemma_raised(s, tail, u);
                            lemma_push_last(a, u, instr(to_self, 0, 0, n));
                        },
                        Some(x) => {
                            lemma_load(u, x);
                            lemma_raised(s, tail, u.load(x));
                            lemma_push_last(a, u.load(x), instr(general, 0, 0, n));
                        },
                        None => {
                            assert(from_here(u));
                            let w = u.no_binding(id.name, None, id.span);
                            assert(leaves(u, w));
                            lemma_raised(s, tail, w);
                            lemma_push_last(a, w, instr(general, 0, 0, n));
                        },
                    }
                },
            }
        },
        None => {
            let u = expr(*c.callee, t);
            lemma_expr(*c.callee, t);
            assert(from_here(u));
            assert(leaves(u, u.spill()));
            lemma_positional(c.shape, c.args@, c.span, u.spill());
            let v = positional(c.shape, c.args@, c.span, u.spill()).emit_arg(
                Op::PushLocal,
                u.next_slot(),
            );
            assert(leaves(s, v));
            lemma_raised(s, tail, v);
            let general = if tail {
                Op::TailCall
            } else {
                Op::Call
            };
            lemma_push_last(a, v, instr(general, 0, 0, c.args@.len() as i32));
        },
    }
}

pub proof fn lemma_positional(shape: CalleeShape, args: Seq<CallArg>, span: Span, s: State)
    ensures
        leaves(s, positional(shape, args, span, s)),
    decreases args, args.len() + 2,
{
    assert(from_here(s));
    reveal(positional_body);
    assert(positional(shape, args, span, s) == positional_body(shape, args, span, s));
    match shape {
        CalleeShape::Fits => lemma_args(args, 0, true, s),
        CalleeShape::Arity { expected } => lemma_args(
            args,
            0,
            true,
            s.error(Message::ArgumentCount { expected, given: args.len() as usize }, span),
        ),
        CalleeShape::NotFn { ty } => lemma_args(
            args,
            0,
            false,
            s.error(Message::NotCallable { ty }, span),
        ),
    }
}

pub proof fn lemma_args(args: Seq<CallArg>, i: nat, strict: bool, s: State)
    ensures
        leaves(s, args_from(args, i, strict, s)),
    decreases args, args.len() - i,
{
    assert(from_here(s));
    assert(leaves(s, s));
    if i < args.len() {
        let faults = if strict {
            arg_faults(args[i as int])
        } else {
            Seq::empty()
        };
        match args[i as int] {
            CallArg::Positional { value: e, .. } => {
                let v = expr(e, s).misfit(faults);
                lemma_expr(e, s);
                assert(leaves(s, v));
                lemma_args(args, i + 1, strict, v);
            },
            CallArg::Labeled { label, value, .. } => {
                let t = if strict {
                    s.error(Message::LabelledArgument, label.span)
                } else {
                    s
                };
                assert(leaves(s, t));
                let v = expr(value, t).misfit(faults);
                lemma_expr(value, t);
                assert(leaves(s, v));
                lemma_args(args, i + 1, strict, v);
            },
            CallArg::Spread { value: e, .. } => {
                let t = if strict {
                    s.error(Message::SpreadArgument, span_of(e))
                } else {
                    s
                };
                assert(leaves(s, t));
                let v = expr(e, t).misfit(faults);
                lemma_expr(e, t);
                assert(leaves(s, v));
                lemma_args(args, i + 1, strict, v);
            },
        }
    }
}

pub proof fn lemma_ctor_call(v: CtorView, args: Seq<CallArg>, span: Span, s: State)
    ensures
        leaves(s, ctor_call(v, args, span, s)),
    decreases args, 65538nat,
{
    let spread = last_spread(args, args.len());
    let r = s.report_spreads(args, args.len());
    let missing = if spread is Some {
        None
    } else {
        Some(MissingReport { span, in_pattern: false })
    };
    let t = slotted(r, v.shape, true, call_keys(args, args.len()), missing);
    let u = update_base(args, spread, t.s).s;
    let base = update_base(args, spread, t.s).slot;
    lemma_update_base(args, spread, t.s);
    assert(leaves(s, u)) by {
        assert(from_here(s));
        assert(leaves(s, r));
        assert(leaves(r, t.s));
    }
    lemma_build(v, args, t.by_pos, base, u);
    let b = u.bool_value(v.shape.name);
    assert(leaves(u, b));
    lemma_leaves_on(s, u, b);
    let h = u.construct_header(v.type_id, v.ty_name, v.shape.name, v.shape.labels);
    let w = h.pool(ConstView::NameHash { ty_name: v.ty_name, variant: v.shape.name });
    let known = slice_of(u.labels, v.shape.labels).len();
    let x = payload_from(args, t.by_pos, 0, known, base, w).emit_b(
        Op::MakeEnumPayload,
        v.shape.arity as u16,
        h.pool_index(),
    );
    lemma_leaves_on(s, u, x);
    assert(ctor_call(v, args, span, s) == b || ctor_call(v, args, span, s) == x) by {
        reveal(ctor_call_body);
        assert(ctor_call(v, args, span, s) == ctor_call_body(v, args, span, s));
    }
}

/// Building a value of a constructor from what its fields are.
proof fn lemma_build(
    v: CtorView,
    args: Seq<CallArg>,
    by_pos: Seq<Option<usize>>,
    base: Option<i32>,
    u: State,
)
    ensures
        ({
            let h = u.construct_header(v.type_id, v.ty_name, v.shape.name, v.shape.labels);
            let w = h.pool(ConstView::NameHash { ty_name: v.ty_name, variant: v.shape.name });
            let known = slice_of(u.labels, v.shape.labels).len();
            leaves(
                u,
                payload_from(args, by_pos, 0, known, base, w).emit_b(
                    Op::MakeEnumPayload,
                    v.shape.arity as u16,
                    h.pool_index(),
                ),
            )
        }),
    decreases args, 65537nat,
{
    assert(from_here(u));
    let known = slice_of(u.labels, v.shape.labels).len();
    let h = u.construct_header(v.type_id, v.ty_name, v.shape.name, v.shape.labels);
    let w = h.pool(ConstView::NameHash { ty_name: v.ty_name, variant: v.shape.name });
    assert(leaves(u, w));
    lemma_payload(args, by_pos, 0, known, base, w);
    let p = payload_from(args, by_pos, 0, known, base, w);
    assert(leaves(u, p));
}

pub proof fn lemma_update_base(args: Seq<CallArg>, spread: Option<int>, s: State)
    ensures
        leaves(s, update_base(args, spread, s).s),
    decreases args, 1nat,
{
    reveal(update_base_body);
    assert(update_base(args, spread, s) == update_base_body(args, spread, s));
    assert(from_here(s));
    assert(leaves(s, s));
    if let Some(k) = spread {
        if 0 <= k < args.len() {
            if let CallArg::Spread { value: e, faults } = args[k] {
                lemma_expr(e, s);
                assert(leaves(s, expr(e, s).misfit(faults@)));
            }
        }
    }
}

pub proof fn lemma_payload(
    args: Seq<CallArg>,
    by_pos: Seq<Option<usize>>,
    i: nat,
    known: nat,
    base: Option<i32>,
    s: State,
)
    requires
        known <= 65536,
    ensures
        leaves(s, payload_from(args, by_pos, i, known, base, s)),
    decreases args, known - i,
{
    assert(from_here(s));
    assert(leaves(s, s));
    if i < by_pos.len() && i < known {
        match by_pos[i as int] {
            Some(k) => if k < args.len() {
                match args[k as int] {
                    CallArg::Positional { value: e, .. } => {
                        let v = expr(e, s).misfit(arg_faults(args[k as int]));
                        lemma_expr(e, s);
                        assert(leaves(s, v));
                        lemma_payload(args, by_pos, i + 1, known, base, v);
                    },
                    CallArg::Labeled { value, .. } => {
                        let v = expr(value, s).misfit(arg_faults(args[k as int]));
                        lemma_expr(value, s);
                        assert(leaves(s, v));
                        lemma_payload(args, by_pos, i + 1, known, base, v);
                    },
                    CallArg::Spread { value: e, .. } => {
                        let v = expr(e, s).misfit(arg_faults(args[k as int]));
                        lemma_expr(e, s);
                        assert(leaves(s, v));
                        lemma_payload(args, by_pos, i + 1, known, base, v);
                    },
                }
            },
            None => {
                let t = match base {
                    Some(slot) => s.emit_arg(Op::PushLocal, slot).emit_arg(Op::GetField, i as i32),
                    None => s.nil(),
                };
                assert(leaves(s, t));
                lemma_payload(args, by_pos, i + 1, known, base, t);
            },
        }
    }
}

} // verus!

//! What muting leaves of the pieces that code generation is made of.
use crate::ast::{
    Arm, BinKind, BinSegmentPat, BinaryRest, CallArg, Expr, Ident, NumberLiteral, Pattern,
    PropertyExpr, Receiver, Span, StrId, TypeFault,
};
use crate::diag::ArenaSlice;
use crate::gen::{start_binary, BinMatching, BinOperand, BinSlots, Matching};
use crate::literal::packed;
use crate::muting::group_muting;
use crate::op::{ConstView, Op};
use crate::prelude_bindings::TypeId;
use crate::slots::{slotted, ArgKey, CtorShape, MissingReport};
use crate::state::{Sighting, State, ValueKind, VarAccess};
use vstd::prelude::*;

verus! {

broadcast use group_muting;

pub broadcast proof fn lemma_construct_header(
    pre: Seq<Sighting>,
    s: State,
    id: TypeId,
    ty_name: StrId,
    variant: StrId,
    labels: ArenaSlice,
)
    ensures
        #[trigger] s.construct_header(id, ty_name, variant, labels).muted(pre)
            == s.muted(pre).construct_header(id, ty_name, variant, labels),
{
    reveal(State::construct_header);
}

pub broadcast proof fn lemma_match_header(pre: Seq<Sighting>, s: State, id: TypeId, variant: StrId)
    ensures
        #[trigger] s.match_header(id, variant).muted(pre) == s.muted(pre).match_header(id, variant),
{
    reveal(State::match_header);
}

pub broadcast proof fn lemma_push_number(pre: Seq<Sighting>, s: State, n: NumberLiteral)
    ensures
        #[trigger] s.push_number(n).muted(pre) == s.muted(pre).push_number(n),
{
    reveal(State::push_number);
    reveal(State::number);
}

proof fn lemma_push_params(pre: Seq<Sighting>, s: State, n: nat)
    ensures
        s.push_params(n).muted(pre) == s.muted(pre),
    decreases n,
{
    reveal(State::push_params);
    if n > 0 {
        lemma_push_params(pre, s, (n - 1) as nat);
    }
}

pub broadcast proof fn lemma_ctor_closure(
    pre: Seq<Sighting>,
    s: State,
    id: TypeId,
    ty_name: StrId,
    variant: StrId,
    labels: ArenaSlice,
    arity: u16,
)
    ensures
        #[trigger] s.ctor_closure(id, ty_name, variant, labels, arity).muted(pre)
            == s.muted(pre).ctor_closure(id, ty_name, variant, labels, arity),
{
    reveal(State::ctor_closure);
    if !s.out.check_only {
        let s1 = s.emit_arg(Op::Jump, 0);
        let s2 = s1.construct_header(id, ty_name, variant, labels);
        lemma_construct_header(pre, s1, id, ty_name, variant, labels);
        assert(s2.muted(pre) == s.muted(pre)) by {
            reveal(State::construct_header);
        }
        let c = s2.pool(ConstView::NameHash { ty_name, variant });
        let r = c.push_params(arity as nat);
        lemma_push_params(pre, c, arity as nat);
        assert(r.muted(pre) == s.muted(pre));
    }
}

pub broadcast proof fn lemma_ctor_value(
    pre: Seq<Sighting>,
    s: State,
    id: TypeId,
    ty_name: StrId,
    variant: StrId,
    labels: ArenaSlice,
    arity: u16,
)
    ensures
        #[trigger] s.ctor_value(id, ty_name, variant, labels, arity).muted(pre)
            == s.muted(pre).ctor_value(id, ty_name, variant, labels, arity),
{
    reveal(State::ctor_value);
    lemma_construct_header(pre, s, id, ty_name, variant, labels);
    lemma_ctor_closure(pre, s, id, ty_name, variant, labels, arity);
    assert(s.muted(pre).construct_header(id, ty_name, variant, labels) == s.muted(pre)) by {
        reveal(State::construct_header);
    }
}

pub broadcast proof fn lemma_no_binding(
    pre: Seq<Sighting>,
    s: State,
    name: StrId,
    module: Option<StrId>,
    span: Span,
)
    ensures
        #[trigger] s.no_binding(name, module, span).muted(pre)
            == s.muted(pre).no_binding(name, module, span),
{
    reveal(State::no_binding);
}

pub broadcast proof fn lemma_named_value(
    pre: Seq<Sighting>,
    s: State,
    name: StrId,
    module: Option<StrId>,
    span: Span,
    kind: ValueKind,
    access: Option<VarAccess>,
)
    ensures
        #[trigger] s.named_value(name, module, span, kind, access).muted(pre)
            == s.muted(pre).named_value(name, module, span, kind, access),
{
    reveal(State::named_value);
    match kind {
        ValueKind::Constructor { ty_name, type_id, arity, labels, .. } => lemma_ctor_value(
            pre,
            s,
            type_id,
            ty_name,
            name,
            labels,
            arity,
        ),
        ValueKind::Builtin { .. } => {},
        _ => if access is None {
            lemma_no_binding(pre, s, name, module, span);
        },
    }
}

pub broadcast proof fn lemma_identifier(
    pre: Seq<Sighting>,
    s: State,
    id: Ident,
    near: Option<StrId>,
)
    ensures
        #[trigger] s.identifier(id, near).muted(pre) == s.muted(pre).identifier(id, near),
{
    reveal(State::identifier);
    if let Some(b) = s.lookup(id.name) {
        let t = s.record(None, id, b.doc).value_use(
            b.def,
            id.span,
            crate::refs::ReferenceKind::Unqualified,
        );
        assert(t.muted(pre) == s.muted(pre).record(None, id, b.doc).value_use(
            b.def,
            id.span,
            crate::refs::ReferenceKind::Unqualified,
        ));
        let u = t.value_resolve(id.name, b.kind);
        assert(u.muted(pre) == t.muted(pre).value_resolve(id.name, b.kind));
        assert(t.muted(pre).value_access(id.name, b.kind) == t.value_access(id.name, b.kind));
        lemma_named_value(pre, u, id.name, None, id.span, b.kind, t.value_access(id.name, b.kind));
    }
}

pub broadcast proof fn lemma_builtin(pre: Seq<Sighting>, s: State, key: StrId, span: Span)
    ensures
        #[trigger] s.builtin(key, span).muted(pre) == s.muted(pre).builtin(key, span),
{
    reveal(State::builtin);
}

pub broadcast proof fn lemma_unreadable(pre: Seq<Sighting>, s: State, fault: StrId, span: Span)
    ensures
        #[trigger] s.unreadable(fault, span).muted(pre) == s.muted(pre).unreadable(fault, span),
{
    reveal(State::unreadable);
}

pub broadcast proof fn lemma_field(
    pre: Seq<Sighting>,
    s: State,
    receiver: Receiver,
    field: Ident,
    faults: Seq<TypeFault>,
)
    ensures
        #[trigger] s.field(receiver, field, faults).muted(pre)
            == s.muted(pre).field(receiver, field, faults),
{
    reveal(State::field);
}

pub broadcast proof fn lemma_tuple_index(
    pre: Seq<Sighting>,
    s: State,
    receiver: Receiver,
    index: i32,
    span: Span,
)
    ensures
        #[trigger] s.tuple_index(receiver, index, span).muted(pre)
            == s.muted(pre).tuple_index(receiver, index, span),
{
    reveal(State::tuple_index);
}

pub broadcast proof fn lemma_range_bound(pre: Seq<Sighting>, s: State, p: Pattern)
    ensures
        #[trigger] s.range_bound(p).muted(pre) == s.muted(pre).range_bound(p),
{
    reveal(State::range_bound);
    if let Pattern::Number { literal: n, .. } = p {
        lemma_push_number(pre, s, n);
    }
}

pub broadcast proof fn lemma_qualified(pre: Seq<Sighting>, s: State, pa: PropertyExpr)
    ensures
        (#[trigger] s.muted(pre).qualified(pa)).0 == s.qualified(pa).0.muted(pre),
        s.muted(pre).qualified(pa).1 == s.qualified(pa).1,
{
    reveal(State::qualified);
    assert(s.muted(pre).qualified_parts(pa) == s.qualified_parts(pa));
}

pub broadcast proof fn lemma_callee(pre: Seq<Sighting>, s: State, e: Expr)
    ensures
        (#[trigger] s.muted(pre).callee(e)).0 == s.callee(e).0.muted(pre),
        s.muted(pre).callee(e).1 == s.callee(e).1,
{
    reveal(State::callee);
    match e {
        Expr::Name { id, .. } => if let Some(b) = s.lookup(id.name) {
            let t = s.value_resolve(id.name, b.kind);
            assert(t.muted(pre) == s.muted(pre).value_resolve(id.name, b.kind));
            let u = t.value_use(b.def, id.span, crate::refs::ReferenceKind::Unqualified);
            assert(u.muted(pre) == t.muted(pre).value_use(
                b.def,
                id.span,
                crate::refs::ReferenceKind::Unqualified,
            ));
        },
        Expr::Property(pa) => lemma_qualified(pre, s, pa),
        _ => {},
    }
}

pub broadcast proof fn lemma_store_fields(pre: Seq<Sighting>, s: State, base: i32, n: nat)
    ensures
        #[trigger] s.store_fields(base, n).muted(pre) == s.muted(pre),
    decreases n,
{
    reveal(State::store_fields);
    if n > 0 {
        let t = s.emit_arg(Op::StoreLocal, i32::wrapping_add(base, (n - 1) as i32));
        lemma_store_fields(pre, t, base, (n - 1) as nat);
    }
}

pub broadcast proof fn lemma_muted_store_fields(pre: Seq<Sighting>, s: State, base: i32, n: nat)
    ensures
        #[trigger] s.muted(pre).store_fields(base, n) == s.muted(pre),
    decreases n,
{
    reveal(State::store_fields);
    if n > 0 {
        lemma_muted_store_fields(pre, s, base, (n - 1) as nat);
    }
}

pub broadcast proof fn lemma_report_spreads(
    pre: Seq<Sighting>,
    s: State,
    args: Seq<CallArg>,
    n: nat,
)
    ensures
        #[trigger] s.report_spreads(args, n).muted(pre) == s.muted(pre).report_spreads(args, n),
    decreases n,
{
    reveal(State::report_spreads);
    if n > 0 {
        lemma_report_spreads(pre, s, args, (n - 1) as nat);
    }
}

pub broadcast proof fn lemma_report_unreachable(
    pre: Seq<Sighting>,
    s: State,
    arms: Seq<Arm>,
    n: nat,
)
    ensures
        #[trigger] s.report_unreachable(arms, n).muted(pre)
            == s.muted(pre).report_unreachable(arms, n),
    decreases n,
{
    reveal(State::report_unreachable);
    if n > 0 {
        lemma_report_unreachable(pre, s, arms, (n - 1) as nat);
    }
}

pub broadcast proof fn lemma_slotted(
    pre: Seq<Sighting>,
    s: State,
    ctor: CtorShape,
    diag: bool,
    keys: Seq<ArgKey>,
    missing: Option<MissingReport>,
)
    ensures
        (#[trigger] slotted(s.muted(pre), ctor, diag, keys, missing)).s == slotted(
            s,
            ctor,
            diag,
            keys,
            missing,
        ).s.muted(pre),
        slotted(s.muted(pre), ctor, diag, keys, missing).by_pos == slotted(
            s,
            ctor,
            diag,
            keys,
            missing,
        ).by_pos,
        slotted(s.muted(pre), ctor, diag, keys, missing).ok == slotted(
            s,
            ctor,
            diag,
            keys,
            missing,
        ).ok,
{
    reveal(slotted);
    reveal(State::report_all);
    reveal(State::error);
    reveal(State::muted);
}

// ---- binaries ----------------------------------------------------------------

pub broadcast proof fn lemma_advance(pre: Seq<Sighting>, b: BinMatching, slot: i32, by: BinOperand)
    ensures
        #[trigger] b.advance(slot, by).muted(pre) == b.muted(pre).advance(slot, by),
{
    reveal(BinMatching::advance);
    let t = b.spilled(slot);
    assert(t.muted(pre) == b.muted(pre).spilled(slot));
}

pub broadcast proof fn lemma_check_run(
    pre: Seq<Sighting>,
    b: BinMatching,
    segs: Seq<BinSegmentPat>,
    i: nat,
    slots: BinSlots,
)
    ensures
        #[trigger] b.check_run(segs, i, slots).muted(pre) == b.muted(pre).check_run(segs, i, slots),
{
    reveal(BinMatching::check_run);
}

pub broadcast proof fn lemma_match_prefix(
    pre: Seq<Sighting>,
    b: BinMatching,
    bits: Seq<bool>,
    slots: BinSlots,
)
    ensures
        #[trigger] b.match_prefix(bits, slots).muted(pre) == b.muted(pre).match_prefix(bits, slots),
{
    reveal(BinMatching::match_prefix);
    let s = b.m.s;
    let c = ConstView::Binary { bytes: packed(bits), bit_len: bits.len() as u64 };
    let t = s.pool(c).emit_arg(Op::PushLocal, slots.bin).cursor(b.cursor, slots.cursor);
    let u = b.at(t.emit_arg(Op::PushConst, s.pool_index())).require(Op::BinMatchPrefix);
    lemma_advance(pre, u, slots.cursor, BinOperand::Const(bits.len() as u64 as i64));
}

pub broadcast proof fn lemma_read_utf8(pre: Seq<Sighting>, b: BinMatching, slots: BinSlots)
    ensures
        #[trigger] b.read_utf8(slots).muted(pre) == b.muted(pre).read_utf8(slots),
{
    reveal(BinMatching::read_utf8);
    let t = b.spilled(slots.cursor);
    assert(t.muted(pre) == b.muted(pre).spilled(slots.cursor));
}

pub broadcast proof fn lemma_check_width(
    pre: Seq<Sighting>,
    b: BinMatching,
    width: BinOperand,
    slots: BinSlots,
)
    ensures
        #[trigger] b.check_width(width, slots).muted(pre) == b.muted(pre).check_width(width, slots),
{
    reveal(BinMatching::check_width);
}

pub broadcast proof fn lemma_read_segment(
    pre: Seq<Sighting>,
    b: BinMatching,
    kind: BinKind,
    width: BinOperand,
    slots: BinSlots,
)
    ensures
        #[trigger] b.read_segment(kind, width, slots).muted(pre) == b.muted(pre).read_segment(
            kind,
            width,
            slots,
        ),
{
    reveal(BinMatching::read_segment);
}

pub broadcast proof fn lemma_finish_rest(
    pre: Seq<Sighting>,
    b: BinMatching,
    segs: Seq<BinSegmentPat>,
    rest: Option<BinaryRest>,
    slots: BinSlots,
)
    ensures
        #[trigger] b.finish_rest(segs, rest, slots).muted(pre) == b.muted(pre).finish_rest(
            segs,
            rest,
            slots,
        ),
{
    reveal(BinMatching::finish_rest);
}

pub broadcast proof fn lemma_start_binary(
    pre: Seq<Sighting>,
    segs: Seq<BinSegmentPat>,
    rest: Option<BinaryRest>,
    m: Matching,
)
    ensures
        (#[trigger] start_binary(segs, rest, m.muted(pre))).0 == start_binary(
            segs,
            rest,
            m,
        ).0.muted(pre),
        start_binary(segs, rest, m.muted(pre)).1 == start_binary(segs, rest, m).1,
{
    reveal(start_binary);
}

/// What muting leaves of the pieces of code generation.
pub broadcast group group_muting_pieces {
    lemma_construct_header,
    lemma_match_header,
    lemma_push_number,
    lemma_ctor_closure,
    lemma_ctor_value,
    lemma_no_binding,
    lemma_named_value,
    lemma_identifier,
    lemma_builtin,
    lemma_unreadable,
    lemma_field,
    lemma_tuple_index,
    lemma_range_bound,
    lemma_qualified,
    lemma_callee,
    lemma_store_fields,
    lemma_muted_store_fields,
    lemma_report_spreads,
    lemma_report_unreachable,
    lemma_slotted,
    lemma_advance,
    lemma_check_run,
    lemma_match_prefix,
    lemma_read_utf8,
    lemma_check_width,
    lemma_read_segment,
    lemma_finish_rest,
    lemma_start_binary,
}

} // verus!

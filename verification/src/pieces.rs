//! The steps that code generation is made of leave the scope as it was.
use crate::ast::{
    Annotation, Arm, CallArg, Expr, Ident, NumberLiteral, Pattern, PropertyExpr, Receiver, Span,
    StrId, TypeFault, TypeMention,
};
use crate::diag::{ArenaSlice, Diagnostic};
use crate::gen::{BinMatching, BinOperand, BinSlots};
use crate::op::{ConstView, Op};
use crate::prelude_bindings::TypeId;
use crate::scopes::{
    extends, from_here, group_steps, leaves, lemma_bind_ident, lemma_load, same_scope, steady,
};
use crate::slots::{slotted, ArgKey, CtorShape, MissingReport};
use crate::state::{State, ValueKind, VarAccess};
use vstd::prelude::*;

verus! {

broadcast use group_steps;

pub broadcast proof fn lemma_construct_header(
    s: State,
    id: TypeId,
    ty_name: StrId,
    variant: StrId,
    labels: ArenaSlice,
)
    ensures
        leaves(s, #[trigger] s.construct_header(id, ty_name, variant, labels)),
{
    assert(from_here(s));
    reveal(State::construct_header);
}

pub broadcast proof fn lemma_match_header(s: State, id: TypeId, variant: StrId)
    ensures
        leaves(s, #[trigger] s.match_header(id, variant)),
{
    assert(from_here(s));
    reveal(State::match_header);
}

pub broadcast proof fn lemma_push_number(s: State, n: NumberLiteral)
    ensures
        leaves(s, #[trigger] s.push_number(n)),
{
    assert(from_here(s));
    reveal(State::push_number);
    reveal(State::number);
}

proof fn lemma_push_params(s: State, n: nat)
    ensures
        leaves(s, s.push_params(n)),
    decreases n,
{
    assert(from_here(s));
    reveal(State::push_params);
    if n > 0 {
        lemma_push_params(s, (n - 1) as nat);
    }
}

proof fn lemma_ctor_closure(
    s: State,
    id: TypeId,
    ty_name: StrId,
    variant: StrId,
    labels: ArenaSlice,
    arity: u16,
)
    ensures
        leaves(s, s.ctor_closure(id, ty_name, variant, labels, arity)),
{
    assert(from_here(s));
    reveal(State::ctor_closure);
    let s1 = s.emit_arg(Op::Jump, 0);
    let s2 = s1.construct_header(id, ty_name, variant, labels);
    lemma_construct_header(s1, id, ty_name, variant, labels);
    lemma_push_params(s2.pool(ConstView::NameHash { ty_name, variant }), arity as nat);
}

proof fn lemma_ctor_value(
    s: State,
    id: TypeId,
    ty_name: StrId,
    variant: StrId,
    labels: ArenaSlice,
    arity: u16,
)
    ensures
        leaves(s, s.ctor_value(id, ty_name, variant, labels, arity)),
{
    assert(from_here(s));
    reveal(State::ctor_value);
    lemma_construct_header(s, id, ty_name, variant, labels);
    lemma_ctor_closure(s, id, ty_name, variant, labels, arity);
}

pub broadcast proof fn lemma_no_binding(s: State, name: StrId, module: Option<StrId>, span: Span)
    ensures
        leaves(s, #[trigger] s.no_binding(name, module, span)),
{
    assert(from_here(s));
    reveal(State::no_binding);
}

pub broadcast proof fn lemma_named_value(
    s: State,
    name: StrId,
    module: Option<StrId>,
    span: Span,
    kind: ValueKind,
    access: Option<VarAccess>,
)
    ensures
        leaves(s, #[trigger] s.named_value(name, module, span, kind, access)),
{
    assert(from_here(s));
    reveal(State::named_value);
    match kind {
        ValueKind::Constructor { ty_name, type_id, arity, labels, .. } => lemma_ctor_value(
            s,
            type_id,
            ty_name,
            name,
            labels,
            arity,
        ),
        ValueKind::Builtin { .. } => {},
        _ => match access {
            Some(a) => lemma_load(s, a),
            None => lemma_no_binding(s, name, module, span),
        },
    }
}

pub broadcast proof fn lemma_identifier(s: State, id: Ident, near: Option<StrId>)
    ensures
        leaves(s, #[trigger] s.identifier(id, near)),
{
    assert(from_here(s));
    reveal(State::identifier);
    if let Some(b) = s.lookup(id.name) {
        let t = s.record(None, id, b.doc).value_use(
            b.def,
            id.span,
            crate::refs::ReferenceKind::Unqualified,
        );
        let u = t.value_resolve(id.name, b.kind);
        lemma_named_value(u, id.name, None, id.span, b.kind, t.value_access(id.name, b.kind));
        assert(leaves(s, t));
        assert(from_here(t));
        assert(leaves(t, u));
    }
}

pub broadcast proof fn lemma_builtin(s: State, key: StrId, span: Span)
    ensures
        leaves(s, #[trigger] s.builtin(key, span)),
{
    assert(from_here(s));
    reveal(State::builtin);
}

pub broadcast proof fn lemma_unreadable(s: State, fault: StrId, span: Span)
    ensures
        leaves(s, #[trigger] s.unreadable(fault, span)),
{
    assert(from_here(s));
    reveal(State::unreadable);
}

pub broadcast proof fn lemma_field(
    s: State,
    receiver: Receiver,
    field: Ident,
    faults: Seq<TypeFault>,
)
    ensures
        leaves(s, #[trigger] s.field(receiver, field, faults)),
{
    lemma_misfit(s, faults);
    assert(from_here(s));
    reveal(State::field);
}

pub broadcast proof fn lemma_tuple_index(s: State, receiver: Receiver, index: i32, span: Span)
    ensures
        leaves(s, #[trigger] s.tuple_index(receiver, index, span)),
{
    assert(from_here(s));
    reveal(State::tuple_index);
}

pub broadcast proof fn lemma_qualified(s: State, pa: PropertyExpr)
    ensures
        leaves(s, (#[trigger] s.qualified(pa)).0),
{
    assert(from_here(s));
    reveal(State::qualified);
}

pub broadcast proof fn lemma_callee(s: State, e: Expr)
    ensures
        leaves(s, (#[trigger] s.callee(e)).0),
{
    assert(from_here(s));
    reveal(State::callee);
    match e {
        Expr::Name { id, .. } => if let Some(b) = s.lookup(id.name) {
            let t = s.value_resolve(id.name, b.kind);
            assert(leaves(s, t));
        },
        Expr::Property(pa) => lemma_qualified(s, pa),
        _ => {},
    }
}

proof fn lemma_mention(s: State, list: Seq<TypeMention>, n: nat)
    ensures
        leaves(s, s.mention(list, n)),
    decreases n,
{
    assert(from_here(s));
    reveal(State::mention);
    if n > 0 {
        lemma_mention(s, list, (n - 1) as nat);
    }
}

pub broadcast proof fn lemma_hydrate(s: State, a: Annotation)
    ensures
        leaves(s, #[trigger] s.hydrate(a)),
{
    assert(from_here(s));
    reveal(State::hydrate);
    lemma_mention(s, a.mentions@, a.mentions@.len());
}

pub broadcast proof fn lemma_bind_params(
    s: State,
    ids: Seq<Ident>,
    list: Seq<Annotation>,
    n: nat,
)
    ensures
        extends(s, #[trigger] s.bind_params(ids, list, n)),
    decreases n,
{
    assert(from_here(s));
    reveal(State::bind_params);
    if n == 0 {
        assert(leaves(s, s));
    } else {
        let t = s.bind_params(ids, list, (n - 1) as nat);
        lemma_bind_params(s, ids, list, (n - 1) as nat);
        let u = t.hydrate_at(list, n - 1);
        assert(leaves(t, t));
        assert(leaves(t, u)) by {
            if n - 1 < list.len() {
                lemma_hydrate(t, list[n - 1]);
            }
        }
        lemma_bind_ident(u, ids[n - 1]);
        assert(extends(s, u));
    }
}

pub broadcast proof fn lemma_misfit(s: State, faults: Seq<TypeFault>)
    ensures
        leaves(s, #[trigger] s.misfit(faults)),
{
    assert(from_here(s));
    reveal(State::misfit);
    reveal(steady);
    reveal(same_scope);
    let t = s.misfit(faults);
    assert(leaves(s, s));
    assert(t.diags.take(s.diags.len() as int) =~= s.diags);
}

pub broadcast proof fn lemma_range_bound(s: State, p: Pattern)
    ensures
        leaves(s, #[trigger] s.range_bound(p)),
{
    assert(from_here(s));
    reveal(State::range_bound);
    if let Pattern::Number { literal: n, .. } = p {
        lemma_push_number(s, n);
    }
}

pub broadcast proof fn lemma_store_fields(s: State, base: i32, n: nat)
    ensures
        leaves(s, #[trigger] s.store_fields(base, n)),
    decreases n,
{
    assert(from_here(s));
    reveal(State::store_fields);
    if n > 0 {
        let t = s.emit_arg(Op::StoreLocal, i32::wrapping_add(base, (n - 1) as i32));
        lemma_store_fields(t, base, (n - 1) as nat);
    }
}

pub broadcast proof fn lemma_report_spreads(s: State, args: Seq<CallArg>, n: nat)
    ensures
        leaves(s, #[trigger] s.report_spreads(args, n)),
    decreases n,
{
    assert(from_here(s));
    reveal(State::report_spreads);
    if n > 0 {
        lemma_report_spreads(s, args, (n - 1) as nat);
    }
}

pub broadcast proof fn lemma_report_unreachable(s: State, arms: Seq<Arm>, n: nat)
    ensures
        leaves(s, #[trigger] s.report_unreachable(arms, n)),
    decreases n,
{
    assert(from_here(s));
    reveal(State::report_unreachable);
    if n > 0 {
        lemma_report_unreachable(s, arms, (n - 1) as nat);
    }
}

proof fn lemma_report_all(s: State, reports: Seq<Diagnostic>)
    ensures
        leaves(s, s.report_all(reports)),
{
    assert(from_here(s));
    reveal(State::report_all);
    reveal(steady);
    reveal(same_scope);
    let t = s.report_all(reports);
    assert(leaves(s, s));
    assert(t.diags.take(s.diags.len() as int) =~= s.diags);
}

pub broadcast proof fn lemma_slotted(
    s: State,
    ctor: CtorShape,
    diag: bool,
    keys: Seq<ArgKey>,
    missing: Option<MissingReport>,
)
    ensures
        leaves(s, (#[trigger] slotted(s, ctor, diag, keys, missing)).s),
{
    assert(from_here(s));
    reveal(slotted);
    let labels = crate::diag::slice_of(s.labels, ctor.labels);
    let t = crate::slots::slotting(labels, ctor, diag, keys, keys.len());
    let u = s.report_all(t.reports);
    lemma_report_all(s, t.reports);
    let fields = crate::slots::absent(t.by_pos, labels, s.world.blank, ctor.arity as nat);
    let v = State { labels: u.labels + fields, ..u };
    assert(from_here(u));
    assert(leaves(u, v)) by {
        reveal(steady);
        reveal(same_scope);
        assert(from_here(u));
        assert(leaves(u, u));
        assert(v.labels.take(u.labels.len() as int) =~= u.labels);
    }
}

// ---- binaries ----------------------------------------------------------------

pub broadcast proof fn lemma_advance(b: BinMatching, slot: i32, by: BinOperand)
    ensures
        leaves(b.m.s, (#[trigger] b.advance(slot, by)).m.s),
{
    assert(from_here(b.m.s));
    reveal(BinMatching::advance);
    let t = b.spilled(slot);
    assert(leaves(b.m.s, t.m.s));
    assert(from_here(t.m.s));
    assert(leaves(t.m.s, t.m.s.emit_arg(Op::PushLocal, slot).operand(by)));
}

pub broadcast proof fn lemma_check_run(
    b: BinMatching,
    segs: Seq<crate::ast::BinSegmentPat>,
    i: nat,
    slots: BinSlots,
)
    ensures
        leaves(b.m.s, (#[trigger] b.check_run(segs, i, slots)).m.s),
{
    assert(from_here(b.m.s));
    reveal(BinMatching::check_run);
}

pub broadcast proof fn lemma_match_prefix(b: BinMatching, bits: Seq<bool>, slots: BinSlots)
    ensures
        leaves(b.m.s, (#[trigger] b.match_prefix(bits, slots)).m.s),
{
    assert(from_here(b.m.s));
    reveal(BinMatching::match_prefix);
    let s = b.m.s;
    let c = ConstView::Binary { bytes: crate::literal::packed(bits), bit_len: bits.len() as u64 };
    let t = s.pool(c).emit_arg(Op::PushLocal, slots.bin).cursor(b.cursor, slots.cursor);
    assert(from_here(s));
    assert(leaves(s, t));
    let u = b.at(t.emit_arg(Op::PushConst, s.pool_index())).require(Op::BinMatchPrefix);
    assert(from_here(s));
    assert(leaves(s, u.m.s));
    lemma_advance(u, slots.cursor, BinOperand::Const(bits.len() as u64 as i64));
}

pub broadcast proof fn lemma_read_utf8(b: BinMatching, slots: BinSlots)
    ensures
        leaves(b.m.s, (#[trigger] b.read_utf8(slots)).m.s),
{
    assert(from_here(b.m.s));
    reveal(BinMatching::read_utf8);
    let t = b.spilled(slots.cursor);
    assert(leaves(b.m.s, t.m.s));
}

pub broadcast proof fn lemma_check_width(b: BinMatching, width: BinOperand, slots: BinSlots)
    ensures
        leaves(b.m.s, (#[trigger] b.check_width(width, slots)).m.s),
{
    assert(from_here(b.m.s));
    reveal(BinMatching::check_width);
    let t = b.m.s.emit_arg(Op::PushLocal, slots.cursor);
    assert(from_here(t));
    assert(leaves(t, t.operand(width)));
}

pub broadcast proof fn lemma_read_segment(
    b: BinMatching,
    kind: crate::ast::BinKind,
    width: BinOperand,
    slots: BinSlots,
)
    ensures
        leaves(b.m.s, (#[trigger] b.read_segment(kind, width, slots)).m.s),
{
    assert(from_here(b.m.s));
    reveal(BinMatching::read_segment);
    let t = b.m.s.emit_arg(Op::PushLocal, slots.bin);
    let u = t.cursor(b.cursor, slots.cursor);
    assert(from_here(t));
    assert(leaves(t, u));
    assert(from_here(u));
    assert(leaves(u, u.operand(width)));
}

pub broadcast proof fn lemma_finish_rest(
    b: BinMatching,
    segs: Seq<crate::ast::BinSegmentPat>,
    rest: Option<crate::ast::BinaryRest>,
    slots: BinSlots,
)
    ensures
        extends(b.m.s, (#[trigger] b.finish_rest(segs, rest, slots)).s),
{
    assert(from_here(b.m.s));
    reveal(BinMatching::finish_rest);
    let s = b.m.s;
    let t = s.emit_arg(Op::PushLocal, slots.bin);
    let u = t.cursor(b.cursor, slots.cursor);
    assert(from_here(t));
    assert(leaves(t, u));
    let v = u.emit_arg(Op::PushLocal, slots.total);
    let w = v.cursor(b.cursor, slots.cursor);
    assert(from_here(v));
    assert(leaves(v, w));
    let x = w.emit(Op::Sub).emit(Op::BinView);
    assert(from_here(s));
    assert(leaves(s, x));
    assert(from_here(s));
    assert(leaves(s, s));
    let y = s.cursor(b.cursor, slots.cursor);
    assert(from_here(s));
    assert(leaves(s, y));
    assert(from_here(s));
    assert(leaves(s, b.m.at(y.emit_arg(Op::PushLocal, slots.total)).require(Op::Eq).s));
    if let Some(r) = rest {
        if let Some(id) = r.binding {
            assert(from_here(x));
            assert(extends(x, x.reserve(id.name)));
            assert(from_here(s));
            assert(extends(s, x.store_name(id.name)));
        }
    }
}

pub broadcast proof fn lemma_start_binary(
    segs: Seq<crate::ast::BinSegmentPat>,
    rest: Option<crate::ast::BinaryRest>,
    m: crate::gen::Matching,
)
    ensures
        leaves(m.s, (#[trigger] crate::gen::start_binary(segs, rest, m)).0.m.s),
{
    assert(from_here(m.s));
    reveal(crate::gen::start_binary);
}

/// The pieces of code generation that leave the scope as it was.
pub broadcast group group_pieces {
    lemma_construct_header,
    lemma_match_header,
    lemma_push_number,
    lemma_no_binding,
    lemma_named_value,
    lemma_identifier,
    lemma_builtin,
    lemma_unreadable,
    lemma_field,
    lemma_tuple_index,
    lemma_qualified,
    lemma_callee,
    lemma_hydrate,
    lemma_bind_params,
    lemma_misfit,
    lemma_range_bound,
    lemma_store_fields,
    lemma_report_spreads,
    lemma_report_unreachable,
    lemma_slotted,
    lemma_advance,
    lemma_check_run,
    lemma_match_prefix,
    lemma_read_utf8,
    lemma_check_width,
    lemma_read_segment,
    lemma_finish_rest,
    lemma_start_binary,
}

} // verus!

//! The jumps in the pieces that code generation is made of land.
use crate::ast::{
    Annotation, Arm, CallArg, Expr, Ident, NumberLiteral, Pattern, PropertyExpr, Receiver, Span,
    StrId, TypeFault, TypeMention,
};
use crate::diag::ArenaSlice;
use crate::gen::{BinMatching, BinOperand, BinSlots};
use crate::landing::{
    group_landing, lands, lemma_bind_ident, lemma_jump, lemma_load, lemma_patch_open,
    lemma_same_out, lemma_trail, misses,
};
use crate::op::{builtin_op_of, ConstView, Op};
use crate::prelude_bindings::TypeId;
use crate::scopes::from_here;
use crate::slots::{slotted, ArgKey, CtorShape, MissingReport};
use crate::state::{State, ValueKind, VarAccess};
use vstd::prelude::*;

verus! {

broadcast use group_landing;

pub broadcast proof fn lemma_construct_header(
    s: State,
    id: TypeId,
    ty_name: StrId,
    variant: StrId,
    labels: ArenaSlice,
)
    ensures
        lands(s, #[trigger] s.construct_header(id, ty_name, variant, labels)),
{
    assert(from_here(s));
    reveal(State::construct_header);
}

pub broadcast proof fn lemma_match_header(s: State, id: TypeId, variant: StrId)
    ensures
        lands(s, #[trigger] s.match_header(id, variant)),
{
    assert(from_here(s));
    reveal(State::match_header);
}

pub broadcast proof fn lemma_push_number(s: State, n: NumberLiteral)
    ensures
        lands(s, #[trigger] s.push_number(n)),
{
    assert(from_here(s));
    reveal(State::push_number);
    reveal(State::number);
}

proof fn lemma_push_params(s: State, n: nat)
    ensures
        lands(s, s.push_params(n)),
    decreases n,
{
    assert(from_here(s));
    reveal(State::push_params);
    if n > 0 {
        lemma_push_params(s, (n - 1) as nat);
    }
}

proof fn lemma_ctor_closure(
    s: State,
    id: TypeId,
    ty_name: StrId,
    variant: StrId,
    labels: ArenaSlice,
    arity: u16,
)
    ensures
        lands(s, s.ctor_closure(id, ty_name, variant, labels, arity)),
{
    assert(from_here(s));
    reveal(State::ctor_closure);
    if !s.out.check_only {
        let over = s.pos() as int;
        let s1 = s.emit_arg(Op::Jump, 0);
        lemma_jump(s, crate::op::instr(Op::Jump, 0, 0, 0));
        let s2 = s1.construct_header(id, ty_name, variant, labels);
        lemma_construct_header(s1, id, ty_name, variant, labels);
        let c = s2.pool(ConstView::NameHash { ty_name, variant });
        lemma_push_params(c, arity as nat);
        let r = c.push_params(arity as nat).emit_b(
            Op::MakeEnumPayload,
            arity,
            s2.pool_index(),
        ).emit(Op::Ret);
        assert(from_here(s1));
        assert(lands(s1, r));
        lemma_trail(s, s1, r, set![over]);
        lemma_patch_open(s, r, set![over], over, Set::empty());
        let s3 = r.patch(over);
        assert(lands(s, s3));
        let s4 = s3.add_fn(s3.ctor_fn(s1.here(), ty_name, variant, arity));
        assert(lands(s, s4));
    }
}

proof fn lemma_ctor_value(
    s: State,
    id: TypeId,
    ty_name: StrId,
    variant: StrId,
    labels: ArenaSlice,
    arity: u16,
)
    ensures
        lands(s, s.ctor_value(id, ty_name, variant, labels, arity)),
{
    assert(from_here(s));
    reveal(State::ctor_value);
    lemma_construct_header(s, id, ty_name, variant, labels);
    lemma_ctor_closure(s, id, ty_name, variant, labels, arity);
}

pub broadcast proof fn lemma_no_binding(s: State, name: StrId, module: Option<StrId>, span: Span)
    ensures
        lands(s, #[trigger] s.no_binding(name, module, span)),
{
    assert(from_here(s));
    reveal(State::no_binding);
}

pub broadcast proof fn lemma_named_value(
    s: State,
    name: StrId,
    module: Option<StrId>,
    span: Span,
    kind: ValueKind,
    access: Option<VarAccess>,
)
    ensures
        lands(s, #[trigger] s.named_value(name, module, span, kind, access)),
{
    assert(from_here(s));
    reveal(State::named_value);
    match kind {
        ValueKind::Constructor { ty_name, type_id, arity, labels, .. } => lemma_ctor_value(
            s,
            type_id,
            ty_name,
            name,
            labels,
            arity,
        ),
        ValueKind::Builtin { .. } => {},
        _ => match access {
            Some(a) => lemma_load(s, a),
            None => lemma_no_binding(s, name, module, span),
        },
    }
}

pub broadcast proof fn lemma_identifier(s: State, id: Ident, near: Option<StrId>)
    ensures
        lands(s, #[trigger] s.identifier(id, near)),
{
    assert(from_here(s));
    reveal(State::identifier);
    if let Some(b) = s.lookup(id.name) {
        let t = s.record(None, id, b.doc).value_use(
            b.def,
            id.span,
            crate::refs::ReferenceKind::Unqualified,
        );
        let u = t.value_resolve(id.name, b.kind);
        lemma_named_value(u, id.name, None, id.span, b.kind, t.value_access(id.name, b.kind));
        assert(lands(s, t));
        assert(from_here(t));
        assert(lands(t, u));
    }
}

/// No builtin is compiled to a branch.
proof fn lemma_builtins_go_on(name: Seq<char>)
    ensures
        builtin_op_of(name) matches Some(o) ==> !o.jumps(),
{
}

pub broadcast proof fn lemma_builtin(s: State, key: StrId, span: Span)
    ensures
        lands(s, #[trigger] s.builtin(key, span)),
{
    assert(from_here(s));
    reveal(State::builtin);
    lemma_builtins_go_on(s.text(key));
}

pub broadcast proof fn lemma_unreadable(s: State, fault: StrId, span: Span)
    ensures
        lands(s, #[trigger] s.unreadable(fault, span)),
{
    assert(from_here(s));
    reveal(State::unreadable);
}

pub broadcast proof fn lemma_field(
    s: State,
    receiver: Receiver,
    field: Ident,
    faults: Seq<TypeFault>,
)
    ensures
        lands(s, #[trigger] s.field(receiver, field, faults)),
{
    lemma_misfit(s, faults);
    assert(from_here(s));
    reveal(State::field);
}

pub broadcast proof fn lemma_tuple_index(s: State, receiver: Receiver, index: i32, span: Span)
    ensures
        lands(s, #[trigger] s.tuple_index(receiver, index, span)),
{
    assert(from_here(s));
    reveal(State::tuple_index);
}

pub broadcast proof fn lemma_qualified(s: State, pa: PropertyExpr)
    ensures
        lands(s, (#[trigger] s.qualified(pa)).0),
{
    assert(from_here(s));
    reveal(State::qualified);
}

pub broadcast proof fn lemma_callee(s: State, e: Expr)
    ensures
        lands(s, (#[trigger] s.callee(e)).0),
{
    assert(from_here(s));
    reveal(State::callee);
    match e {
        Expr::Name { id, .. } => if let Some(b) = s.lookup(id.name) {
            let t = s.value_resolve(id.name, b.kind);
            assert(lands(s, t));
        },
        Expr::Property(pa) => lemma_qualified(s, pa),
        _ => {},
    }
}

proof fn lemma_mention(s: State, list: Seq<TypeMention>, n: nat)
    ensures
        lands(s, s.mention(list, n)),
    decreases n,
{
    assert(from_here(s));
    reveal(State::mention);
    if n > 0 {
        lemma_mention(s, list, (n - 1) as nat);
    }
}

pub broadcast proof fn lemma_hydrate(s: State, a: Annotation)
    ensures
        lands(s, #[trigger] s.hydrate(a)),
{
    assert(from_here(s));
    reveal(State::hydrate);
    lemma_mention(s, a.mentions@, a.mentions@.len());
}

pub broadcast proof fn lemma_bind_params(
    s: State,
    ids: Seq<Ident>,
    list: Seq<Annotation>,
    n: nat,
)
    ensures
        lands(s, #[trigger] s.bind_params(ids, list, n)),
    decreases n,
{
    assert(from_here(s));
    reveal(State::bind_params);
    if n == 0 {
        assert(lands(s, s));
    } else {
        let t = s.bind_params(ids, list, (n - 1) as nat);
        lemma_bind_params(s, ids, list, (n - 1) as nat);
        let u = t.hydrate_at(list, n - 1);
        assert(lands(t, t));
        assert(lands(t, u)) by {
            if n - 1 < list.len() {
                lemma_hydrate(t, list[n - 1]);
            }
        }
        lemma_bind_ident(u, ids[n - 1]);
        assert(lands(s, u));
    }
}

pub broadcast proof fn lemma_misfit(s: State, faults: Seq<TypeFault>)
    ensures
        lands(s, #[trigger] s.misfit(faults)),
{
    reveal(State::misfit);
    lemma_same_out(s, s.misfit(faults));
}

pub broadcast proof fn lemma_range_bound(s: State, p: Pattern)
    ensures
        lands(s, #[trigger] s.range_bound(p)),
{
    assert(from_here(s));
    reveal(State::range_bound);
    if let Pattern::Number { literal: n, .. } = p {
        lemma_push_number(s, n);
    }
}

pub broadcast proof fn lemma_store_fields(s: State, base: i32, n: nat)
    ensures
        lands(s, #[trigger] s.store_fields(base, n)),
    decreases n,
{
    assert(from_here(s));
    reveal(State::store_fields);
    if n > 0 {
        let t = s.emit_arg(Op::StoreLocal, i32::wrapping_add(base, (n - 1) as i32));
        lemma_store_fields(t, base, (n - 1) as nat);
    }
}

pub broadcast proof fn lemma_report_spreads(s: State, args: Seq<CallArg>, n: nat)
    ensures
        lands(s, #[trigger] s.report_spreads(args, n)),
    decreases n,
{
    assert(from_here(s));
    reveal(State::report_spreads);
    if n > 0 {
        lemma_report_spreads(s, args, (n - 1) as nat);
    }
}

pub broadcast proof fn lemma_report_unreachable(s: State, arms: Seq<Arm>, n: nat)
    ensures
        lands(s, #[trigger] s.report_unreachable(arms, n)),
    decreases n,
{
    assert(from_here(s));
    reveal(State::report_unreachable);
    if n > 0 {
        lemma_report_unreachable(s, arms, (n - 1) as nat);
    }
}

pub broadcast proof fn lemma_slotted(
    s: State,
    ctor: CtorShape,
    diag: bool,
    keys: Seq<ArgKey>,
    missing: Option<MissingReport>,
)
    ensures
        lands(s, (#[trigger] slotted(s, ctor, diag, keys, missing)).s),
{
    assert(from_here(s));
    reveal(slotted);
    reveal(State::report_all);
    reveal(State::error);
    lemma_same_out(s, slotted(s, ctor, diag, keys, missing).s);
}

// ---- binaries ----------------------------------------------------------------

pub broadcast proof fn lemma_advance(b: BinMatching, slot: i32, by: BinOperand)
    ensures
        misses(b.m, (#[trigger] b.advance(slot, by)).m),
{
    assert(from_here(b.m.s));
    reveal(BinMatching::advance);
    let t = b.spilled(slot);
    assert(lands(b.m.s, t.m.s));
    assert(from_here(t.m.s));
    assert(lands(t.m.s, t.m.s.emit_arg(Op::PushLocal, slot).operand(by)));
}

pub broadcast proof fn lemma_check_run(
    b: BinMatching,
    segs: Seq<crate::ast::BinSegmentPat>,
    i: nat,
    slots: BinSlots,
)
    ensures
        misses(b.m, (#[trigger] b.check_run(segs, i, slots)).m),
{
    assert(from_here(b.m.s));
    reveal(BinMatching::check_run);
}

pub broadcast proof fn lemma_match_prefix(b: BinMatching, bits: Seq<bool>, slots: BinSlots)
    ensures
        misses(b.m, (#[trigger] b.match_prefix(bits, slots)).m),
{
    assert(from_here(b.m.s));
    reveal(BinMatching::match_prefix);
    let s = b.m.s;
    let c = ConstView::Binary { bytes: crate::literal::packed(bits), bit_len: bits.len() as u64 };
    let t = s.pool(c).emit_arg(Op::PushLocal, slots.bin).cursor(b.cursor, slots.cursor);
    assert(from_here(s));
    assert(lands(s, t));
    let u = b.at(t.emit_arg(Op::PushConst, s.pool_index())).require(Op::BinMatchPrefix);
    assert(from_here(s));
    assert(lands(s, t.emit_arg(Op::PushConst, s.pool_index())));
    assert(misses(b.m, u.m));
    lemma_advance(u, slots.cursor, BinOperand::Const(bits.len() as u64 as i64));
}

pub broadcast proof fn lemma_read_utf8(b: BinMatching, slots: BinSlots)
    ensures
        misses(b.m, (#[trigger] b.read_utf8(slots)).m),
{
    assert(from_here(b.m.s));
    reveal(BinMatching::read_utf8);
    let t = b.spilled(slots.cursor);
    assert(lands(b.m.s, t.m.s));
    let s1 = t.m.s.emit_arg(Op::PushLocal, slots.bin).emit_arg(Op::PushLocal, slots.cursor).emit(
        Op::BinReadUtf8,
    );
    let s2 = s1.spill();
    let s3 = s2.spill();
    let s4 = s3.emit_arg(Op::PushLocal, s1.next_slot()).push_int(0);
    assert(lands(b.m.s, s4));
    let u = t.at(s4).require(Op::Gt);
    assert(misses(b.m, b.m.at(s4)));
    assert(misses(b.m, u.m));
    assert(from_here(u.m.s));
    assert(lands(u.m.s, u.m.s.emit_arg(Op::PushLocal, s2.next_slot())));
}

pub broadcast proof fn lemma_check_width(b: BinMatching, width: BinOperand, slots: BinSlots)
    ensures
        misses(b.m, (#[trigger] b.check_width(width, slots)).m),
{
    assert(from_here(b.m.s));
    reveal(BinMatching::check_width);
    let t = b.m.s.emit_arg(Op::PushLocal, slots.cursor);
    assert(from_here(t));
    assert(lands(t, t.operand(width)));
}

pub broadcast proof fn lemma_read_segment(
    b: BinMatching,
    kind: crate::ast::BinKind,
    width: BinOperand,
    slots: BinSlots,
)
    ensures
        misses(b.m, (#[trigger] b.read_segment(kind, width, slots)).m),
{
    assert(from_here(b.m.s));
    reveal(BinMatching::read_segment);
    let t = b.m.s.emit_arg(Op::PushLocal, slots.bin);
    let u = t.cursor(b.cursor, slots.cursor);
    assert(from_here(t));
    assert(lands(t, u));
    assert(from_here(u));
    assert(lands(u, u.operand(width)));
}

pub broadcast proof fn lemma_finish_rest(
    b: BinMatching,
    segs: Seq<crate::ast::BinSegmentPat>,
    rest: Option<crate::ast::BinaryRest>,
    slots: BinSlots,
)
    ensures
        misses(b.m, #[trigger] b.finish_rest(segs, rest, slots)),
{
    assert(from_here(b.m.s));
    reveal(BinMatching::finish_rest);
    let s = b.m.s;
    let t = s.emit_arg(Op::PushLocal, slots.bin);
    let u = t.cursor(b.cursor, slots.cursor);
    assert(from_here(t));
    assert(lands(t, u));
    let v = u.emit_arg(Op::PushLocal, slots.total);
    let w = v.cursor(b.cursor, slots.cursor);
    assert(from_here(v));
    assert(lands(v, w));
    let x = w.emit(Op::Sub).emit(Op::BinView);
    assert(from_here(s));
    assert(lands(s, x));
    assert(from_here(s));
    assert(lands(s, s));
    let y = s.cursor(b.cursor, slots.cursor);
    assert(from_here(s));
    assert(lands(s, y));
    assert(from_here(s));
    assert(lands(s, y.emit_arg(Op::PushLocal, slots.total)));
    assert(misses(b.m, b.m.at(y.emit_arg(Op::PushLocal, slots.total)).require(Op::Eq)));
    if let Some(r) = rest {
        if let Some(id) = r.binding {
            assert(from_here(x));
            assert(lands(x, x.reserve(id.name)));
            assert(from_here(s));
            assert(lands(s, x.store_name(id.name)));
        }
    }
}

pub broadcast proof fn lemma_start_binary(
    segs: Seq<crate::ast::BinSegmentPat>,
    rest: Option<crate::ast::BinaryRest>,
    m: crate::gen::Matching,
)
    ensures
        misses(m, (#[trigger] crate::gen::start_binary(segs, rest, m)).0.m),
{
    assert(from_here(m.s));
    reveal(crate::gen::start_binary);
}

/// The pieces of code generation, whose jumps land.
pub broadcast group group_landing_pieces {
    lemma_construct_header,
    lemma_match_header,
    lemma_push_number,
    lemma_no_binding,
    lemma_named_value,
    lemma_identifier,
    lemma_builtin,
    lemma_unreadable,
    lemma_field,
    lemma_tuple_index,
    lemma_qualified,
    lemma_callee,
    lemma_hydrate,
    lemma_bind_params,
    lemma_misfit,
    lemma_range_bound,
    lemma_store_fields,
    lemma_report_spreads,
    lemma_report_unreachable,
    lemma_slotted,
    lemma_advance,
    lemma_check_run,
    lemma_match_prefix,
    lemma_read_utf8,
    lemma_check_width,
    lemma_read_segment,
    lemma_finish_rest,
    lemma_start_binary,
}

} // verus!

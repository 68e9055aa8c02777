//! What each form of the syntax tree compiles to, as functions on compiler
//! states.
//!
//! An expression leaves one value on the stack. A pattern consumes the value on
//! top of the stack and leaves the jumps to take when it does not match for the
//! caller to aim.
use crate::ast::{
    decl_span, node_span, pattern_span, span_of, Arm, ArrayElement, ArrayPattern, BinKind,
    BinSegment, BinSegmentPat, BinUnit, BinaryExpr, BinaryRest, CallArg, CallExpr, CalleeShape,
    Declaration, Expr, Ident, MatchExpr, Node, NumberLiteral, OrExpr, Pattern, PatternArg,
    PropertyExpr, Receiver, Span, Statement, StrId, TypeFault, TypeShape, UnaryOp,
};
use crate::binop::{kind_of, specialized, BinopKind, Prim, ShortCircuitOp};
use crate::diag::{any_error, slice_of, ArenaSlice, DeclKind, Message};
use crate::literal::{
    folded, literal_fault, number_of, packed, recovery_of, run_end, static_width, utf8_literal,
};
use crate::numbers::i64_of;
use crate::op::{builtin_op_of, ConstView, FunctionView, Op};
use crate::prelude_bindings::{same_type, TypeId};
use crate::refs::ReferenceKind;
use crate::slots::{slotted, ArgKey, CtorShape, MissingReport};
use crate::state::{Binding, State, ValueKind, VarAccess, VariantInfo};
use vstd::prelude::*;

verus! {

// ---- values ----------------------------------------------------------------

impl State {
    /// Push the nil value.
    pub open spec fn nil(self) -> State {
        self.emit(Op::PushNil)
    }

    /// Whether a type is the prelude's boolean.
    #[verifier::opaque]
    pub open spec fn is_bool(self, id: TypeId) -> bool {
        self.known.prelude matches Some(p) && same_type(p.bool.id, id)
    }

    /// Push the boolean that a constructor's name stands for.
    pub open spec fn bool_value(self, variant: StrId) -> State {
        self.emit(
            if self.text(variant) == "True"@ {
                Op::PushTrue
            } else {
                Op::PushFalse
            },
        )
    }

    /// Push what a value is built from beneath its payload: the type's id and
    /// name, the variant's name and its field labels.
    #[verifier::opaque]
    pub open spec fn construct_header(
        self,
        id: TypeId,
        ty_name: StrId,
        variant: StrId,
        labels: ArenaSlice,
    ) -> State {
        self.push_int(id.0 as i64).push_const(ConstView::Str(ty_name)).push_const(
            ConstView::Str(variant),
        ).push_const(ConstView::Labels(labels))
    }

    /// Push what a value is matched against: the type's id and the variant's
    /// name.
    #[verifier::opaque]
    pub open spec fn match_header(self, id: TypeId, variant: StrId) -> State {
        self.push_int(id.0 as i64).push_const(ConstView::Str(variant))
    }

    /// The value of a numeric literal; one without a value is reported.
    #[verifier::opaque]
    pub open spec fn number(self, n: NumberLiteral) -> (State, ConstView) {
        match number_of(self.world.names@, n.text) {
            Ok(c) => (self, c),
            Err(e) => (self.error(literal_fault(e, n.text), n.span), recovery_of(e)),
        }
    }

    /// Push a numeric literal.
    #[verifier::opaque]
    pub open spec fn push_number(self, n: NumberLiteral) -> State {
        self.number(n).0.push_const(self.number(n).1)
    }

    /// Push the locals `0..n`.
    #[verifier::opaque]
    pub open spec fn push_params(self, n: nat) -> State
        decreases n,
    {
        if n == 0 {
            self
        } else {
            self.push_params((n - 1) as nat).emit_arg(Op::PushLocal, (n - 1) as i32)
        }
    }

    /// The function that builds a constructor's value from its arguments.
    pub open spec fn ctor_fn(
        self,
        start: i32,
        ty_name: StrId,
        variant: StrId,
        arity: u16,
    ) -> FunctionView {
        FunctionView {
            name: self.text(ty_name) + "."@ + self.text(variant),
            arity: arity as i32,
            locals: arity as i32,
            capture_count: 0,
            code_start: start,
            code_len: i32::wrapping_sub(self.here(), start),
        }
    }

    /// Push a constructor with fields as a function value.
    #[verifier::opaque]
    pub open spec fn ctor_closure(
        self,
        id: TypeId,
        ty_name: StrId,
        variant: StrId,
        labels: ArenaSlice,
        arity: u16,
    ) -> State {
        if self.out.check_only {
            self
        } else {
            let s1 = self.emit_arg(Op::Jump, 0);
            let s2 = s1.construct_header(id, ty_name, variant, labels);
            let s3 = s2.pool(ConstView::NameHash { ty_name, variant }).push_params(
                arity as nat,
            ).emit_b(Op::MakeEnumPayload, arity, s2.pool_index()).emit(Op::Ret).patch(
                self.pos() as int,
            );
            let s4 = s3.add_fn(s3.ctor_fn(s1.here(), ty_name, variant, arity));
            s4.emit_arg(Op::MakeClosure, s4.last_fn())
        }
    }

    /// Push a constructor as a value: without fields it is the value itself,
    /// with fields a function.
    #[verifier::opaque]
    pub open spec fn ctor_value(
        self,
        id: TypeId,
        ty_name: StrId,
        variant: StrId,
        labels: ArenaSlice,
        arity: u16,
    ) -> State {
        if arity == 0 {
            if self.is_bool(id) {
                self.bool_value(variant)
            } else {
                let s = self.construct_header(id, ty_name, variant, labels);
                s.pool(ConstView::NameHash { ty_name, variant }).emit_b(
                    Op::MakeEnumPayload,
                    0,
                    s.pool_index(),
                )
            }
        } else {
            self.ctor_closure(id, ty_name, variant, labels, arity)
        }
    }

    /// Report a name without a value, and push nil in its place.
    #[verifier::opaque]
    pub open spec fn no_binding(self, name: StrId, module: Option<StrId>, span: Span) -> State {
        self.error(
            match module {
                Some(module) => Message::NoBindingIn { name, module },
                None => Message::NoBinding { name },
            },
            span,
        ).nil()
    }

    /// Push what a name stands for.
    #[verifier::opaque]
    pub open spec fn named_value(
        self,
        name: StrId,
        module: Option<StrId>,
        span: Span,
        kind: ValueKind,
        access: Option<VarAccess>,
    ) -> State {
        match kind {
            ValueKind::Constructor { ty_name, type_id, arity, labels, .. } => self.ctor_value(
                type_id,
                ty_name,
                name,
                labels,
                arity,
            ),
            ValueKind::Builtin { .. } => self.error(Message::BuiltinAsValue { name }, span).nil(),
            _ => match access {
                Some(a) => self.load(a),
                None => self.no_binding(name, module, span),
            },
        }
    }

    /// Whether a kind of value is loaded from a variable.
    pub open spec fn is_variable(kind: ValueKind) -> bool {
        kind == ValueKind::Local || kind == ValueKind::ModuleFn
    }

    /// How a name of a kind is loaded.
    pub open spec fn value_access(self, name: StrId, kind: ValueKind) -> Option<VarAccess> {
        if State::is_variable(kind) {
            self.access(name)
        } else {
            None
        }
    }

    /// Note that a name of a kind is loaded.
    pub open spec fn value_resolve(self, name: StrId, kind: ValueKind) -> State {
        if State::is_variable(kind) {
            self.resolve(name)
        } else {
            self
        }
    }

    /// Push what an identifier stands for.
    #[verifier::opaque]
    pub open spec fn identifier(self, id: Ident, near: Option<StrId>) -> State {
        match self.lookup(id.name) {
            None => self.error(
                match near {
                    Some(near) => Message::UnknownNameNear { name: id.name, near },
                    None => Message::UnknownName { name: id.name },
                },
                id.span,
            ).nil(),
            Some(b) => {
                let s = self.record(None, id, b.doc).value_use(
                    b.def,
                    id.span,
                    ReferenceKind::Unqualified,
                );
                s.value_resolve(id.name, b.kind).named_value(
                    id.name,
                    None,
                    id.span,
                    b.kind,
                    s.value_access(id.name, b.kind),
                )
            },
        }
    }

    /// Run a builtin. Printing yields nil.
    #[verifier::opaque]
    pub open spec fn builtin(self, key: StrId, span: Span) -> State {
        if self.text(key) == "println"@ {
            self.emit(Op::Print).nil()
        } else {
            match builtin_op_of(self.text(key)) {
                Some(o) => self.emit(o),
                None => self.error(Message::NoCodegen { op: key }, span),
            }
        }
    }

    /// Report what the parser could not read, unless an error has been reported.
    #[verifier::opaque]
    pub open spec fn unreadable(self, fault: StrId, span: Span) -> State {
        if any_error(self.diags) {
            self
        } else {
            self.error(Message::Unreadable { fault }, span)
        }
    }

    /// Give up on a field: report it, drop the receiver, and push nil.
    pub open spec fn field_bail(self, message: Message, span: Span) -> State {
        self.error(message, span).emit(Op::Pop).nil()
    }

    /// Project a field out of a value of a type.
    #[verifier::opaque]
    pub open spec fn field(self, receiver: Receiver, field: Ident, faults: Seq<TypeFault>) -> State {
        match receiver.shape {
            TypeShape::Con { id, name } => if !self.known.infos.dom().contains(id.0) {
                self.field_bail(Message::NoField { ty: name, field: field.name }, field.span)
            } else {
                match self.known.infos[id.0].variants {
                    None => self.field_bail(Message::NoFields { ty: name }, field.span),
                    Some(variants) => match field_place(
                        self.labels,
                        slice_of(self.known.variants, variants),
                        slice_of(self.known.variants, variants).len(),
                        name,
                        field.name,
                    ) {
                        Err(m) => self.misfit(faults).field_bail(m, field.span),
                        Ok(place) => self.misfit(faults).emit_arg(
                            Op::GetField,
                            match place {
                                Some(i) => i as i32,
                                None => 0,
                            },
                        ).record(Some(name), field, None).value_use(
                            self.field_decl(name, field.name),
                            field.span,
                            ReferenceKind::Unqualified,
                        ),
                    },
                }
            },
            TypeShape::Var => self.field_bail(
                Message::FieldOfUnknown { field: field.name },
                field.span,
            ),
            _ => self.field_bail(
                Message::NoField { ty: receiver.text, field: field.name },
                field.span,
            ),
        }
    }
}

/// The first place of a label from `i` on.
pub open spec fn label_place(labels: Seq<StrId>, i: nat, label: StrId) -> Option<usize>
    decreases labels.len() - i,
{
    if i >= labels.len() {
        None
    } else if labels[i as int] == label {
        Some(i as usize)
    } else {
        label_place(labels, i + 1, label)
    }
}

/// Where the first `n` variants of a type all have a field, which must be the
/// same place in each. Without variants there is no place to speak of.
pub open spec fn field_place(
    labels: Seq<StrId>,
    variants: Seq<VariantInfo>,
    n: nat,
    ty: StrId,
    field: StrId,
) -> Result<Option<usize>, Message>
    decreases n,
{
    if n == 0 {
        Ok(None)
    } else {
        match field_place(labels, variants, (n - 1) as nat, ty, field) {
            Err(m) => Err(m),
            Ok(before) => {
                let v = variants[n - 1];
                match label_place(slice_of(labels, v.labels), 0, field) {
                    None => Err(Message::FieldMissing { field, ty, variant: v.name }),
                    Some(i) => match before {
                        Some(prev) => if prev != i {
                            Err(
                                Message::FieldMoves {
                                    field,
                                    ty,
                                    at: i,
                                    variant: v.name,
                                    expected: prev,
                                },
                            )
                        } else {
                            Ok(Some(i))
                        },
                        None => Ok(Some(i)),
                    },
                }
            },
        }
    }
}

// ---- module members --------------------------------------------------------

/// What `module.member` resolves to.
pub enum QualifiedView {
    /// Not a qualified member at all.
    NotQualified,
    /// A qualified member that its module does not offer; it has been reported.
    LookupFailed,
    /// A member, with its slot in the entry frame if it has one.
    Resolved { module: StrId, member: Ident, binding: Binding, slot: Option<i32> },
}

impl State {
    /// The module a property access names, and the member it asks for.
    pub open spec fn qualified_parts(self, pa: PropertyExpr) -> Option<(StrId, Ident)> {
        match (*pa.left, *pa.right) {
            (Expr::Name { id: left, .. }, Expr::Name { id: member, .. }) =>
                if self.known.qualifiers.dom().contains(left.name) {
                    Some((self.known.qualifiers[left.name], member))
                } else {
                    None
                },
            _ => None,
        }
    }

    /// Resolve a property access as a module member.
    #[verifier::opaque]
    pub open spec fn qualified(self, pa: PropertyExpr) -> (State, QualifiedView) {
        match self.qualified_parts(pa) {
            None => (self, QualifiedView::NotQualified),
            Some((module, member)) => if !self.known.modules.dom().contains(module) {
                (
                    self.error(Message::ModuleNotLoaded { module }, member.span),
                    QualifiedView::LookupFailed,
                )
            } else {
                let iface = self.known.modules[module];
                if iface.values.dom().contains(member.name) {
                    let ev = iface.values[member.name];
                    (
                        self.value_use(ev.binding.def, member.span, ReferenceKind::Qualified),
                        QualifiedView::Resolved {
                            module,
                            member,
                            binding: ev.binding,
                            slot: ev.slot,
                        },
                    )
                } else if iface.private_names.dom().contains(member.name) {
                    (
                        self.error(
                            Message::PrivateMember { member: member.name, module },
                            member.span,
                        ),
                        QualifiedView::LookupFailed,
                    )
                } else {
                    (
                        self.error(
                            Message::NoMember { module, member: member.name },
                            member.span,
                        ),
                        QualifiedView::LookupFailed,
                    )
                }
            },
        }
    }

    /// How a module member is loaded.
    pub open spec fn slot_access(slot: Option<i32>) -> Option<VarAccess> {
        match slot {
            Some(i) => Some(VarAccess::Global(i)),
            None => None,
        }
    }

    /// The name, binding and load of a callee that is a plain or qualified name.
    #[verifier::opaque]
    pub open spec fn callee(self, e: Expr) -> (State, Option<(Ident, Binding, Option<VarAccess>)>) {
        match e {
            Expr::Name { id, .. } => match self.lookup(id.name) {
                None => (self, None),
                Some(b) => (
                    self.value_resolve(id.name, b.kind).value_use(
                        b.def,
                        id.span,
                        ReferenceKind::Unqualified,
                    ),
                    Some((id, b, self.value_access(id.name, b.kind))),
                ),
            },
            Expr::Property(pa) => match self.qualified(pa).1 {
                QualifiedView::Resolved { member, binding, slot, .. } => (
                    self.qualified(pa).0,
                    Some((member, binding, State::slot_access(slot))),
                ),
                _ => (self.qualified(pa).0, None),
            },
            _ => (self, None),
        }
    }
}

// ---- patterns: names and shape ---------------------------------------------

/// Whether a list of identifiers holds a name.
pub open spec fn has_name(ids: Seq<Ident>, n: nat, name: StrId) -> bool
    decreases n,
{
    n > 0 && (ids[n - 1].name == name || has_name(ids, (n - 1) as nat, name))
}

/// Add a binder to a list, once per name. The blank name binds nothing.
pub open spec fn add_binder(names: Seq<Seq<char>>, ids: Seq<Ident>, id: Ident) -> Seq<Ident> {
    if crate::names::text_of(names, id.name) == "_"@ || has_name(ids, ids.len(), id.name) {
        ids
    } else {
        ids.push(id)
    }
}

/// Add an optional binder to a list.
pub open spec fn add_opt_binder(
    names: Seq<Seq<char>>,
    ids: Seq<Ident>,
    id: Option<Ident>,
) -> Seq<Ident> {
    match id {
        Some(id) => add_binder(names, ids, id),
        None => ids,
    }
}

/// The name that the rest of a binary is bound to.
pub open spec fn rest_name(rest: Option<BinaryRest>) -> Option<Ident> {
    match rest {
        Some(r) => r.binding,
        None => None,
    }
}

/// The names a pattern holds, in source order, added to a list. Of an or-pattern
/// the first alternative counts: all bind the same names.
pub open spec fn binders(names: Seq<Seq<char>>, p: Pattern, ids: Seq<Ident>) -> Seq<Ident>
    decreases p, 0nat,
{
    match p {
        Pattern::Binary { segments, rest, .. } => add_opt_binder(
            names,
            segment_binders(names, segments@, segments@.len(), ids),
            rest_name(rest),
        ),
        Pattern::Wildcard { .. } => ids,
        Pattern::Var { id, .. } => add_binder(names, ids, id),
        Pattern::Number { .. } => ids,
        Pattern::Str { .. } => ids,
        Pattern::Range { start, end, .. } => binders(names, *end, binders(names, *start, ids)),
        Pattern::Tuple { elements, .. } => list_binders(names, elements@, elements@.len(), ids),
        Pattern::Array { elements, .. } => array_binders(names, elements@, elements@.len(), ids),
        Pattern::Constructor { args, .. } => arg_binders(names, args@, args@.len(), ids),
        Pattern::Or { patterns, .. } => if patterns@.len() == 0 {
            ids
        } else {
            binders(names, patterns@[0], ids)
        },
    }
}

/// The names that the first `n` of several patterns bind.
pub open spec fn list_binders(
    names: Seq<Seq<char>>,
    ps: Seq<Pattern>,
    n: nat,
    ids: Seq<Ident>,
) -> Seq<Ident>
    decreases ps, n,
{
    if n == 0 || n > ps.len() {
        ids
    } else {
        binders(names, ps[n - 1], list_binders(names, ps, (n - 1) as nat, ids))
    }
}

/// The names that the first `n` segments bind.
pub open spec fn segment_binders(
    names: Seq<Seq<char>>,
    segs: Seq<BinSegmentPat>,
    n: nat,
    ids: Seq<Ident>,
) -> Seq<Ident>
    decreases segs, n,
{
    if n == 0 || n > segs.len() {
        ids
    } else {
        binders(names, segs[n - 1].value, segment_binders(names, segs, (n - 1) as nat, ids))
    }
}

/// The names that the first `n` array elements bind.
pub open spec fn array_binders(
    names: Seq<Seq<char>>,
    es: Seq<ArrayPattern>,
    n: nat,
    ids: Seq<Ident>,
) -> Seq<Ident>
    decreases es, n,
{
    if n == 0 || n > es.len() {
        ids
    } else {
        let before = array_binders(names, es, (n - 1) as nat, ids);
        match es[n - 1] {
            ArrayPattern::Item(p) => binders(names, p, before),
            ArrayPattern::Spread { binding, .. } => add_opt_binder(names, before, binding),
        }
    }
}

/// The names that the first `n` constructor arguments bind.
pub open spec fn arg_binders(
    names: Seq<Seq<char>>,
    args: Seq<PatternArg>,
    n: nat,
    ids: Seq<Ident>,
) -> Seq<Ident>
    decreases args, n,
{
    if n == 0 || n > args.len() {
        ids
    } else {
        let before = arg_binders(names, args, (n - 1) as nat, ids);
        match args[n - 1] {
            PatternArg::Positional(p) => binders(names, p, before),
            PatternArg::Labeled { pattern, .. } => binders(names, pattern, before),
        }
    }
}

/// The arguments of a constructor pattern as slotting sees them.
pub open spec fn pattern_keys(args: Seq<PatternArg>) -> Seq<ArgKey> {
    Seq::new(
        args.len(),
        |i: int|
            match args[i] {
                PatternArg::Positional(p) => ArgKey {
                    label: None,
                    span: pattern_span(p),
                    arg: i as usize,
                },
                PatternArg::Labeled { label, .. } => ArgKey {
                    label: Some(label),
                    span: label.span,
                    arg: i as usize,
                },
            },
    )
}

/// A constructor by its name.
pub struct CtorView {
    pub type_id: TypeId,
    pub ty_name: StrId,
    pub shape: CtorShape,
}

impl State {
    /// What is documented of what a name denotes.
    pub open spec fn doc_of(self, name: StrId) -> Option<StrId> {
        match self.lookup(name) {
            Some(b) => b.doc,
            None => None,
        }
    }

    /// The constructor a name denotes.
    pub open spec fn ctor(self, name: StrId) -> Option<CtorView> {
        match self.lookup(name) {
            Some(b) => match b.kind {
                ValueKind::Constructor { ty_name, type_id, arity, labels, .. } => Some(
                    CtorView {
                        type_id,
                        ty_name,
                        shape: CtorShape { name, arity: arity as usize, labels },
                    },
                ),
                _ => None,
            },
            None => None,
        }
    }
}

/// A check that goes on after a fault: the state, whether all was well, and the names that
/// the patterns it got to bind.
pub struct Checked {
    pub s: State,
    pub ok: bool,
    pub ids: Seq<Ident>,
}

impl Checked {
    /// A check that begins.
    pub open spec fn new(s: State) -> Checked {
        Checked { s, ok: true, ids: Seq::empty() }
    }

    /// Note a fault.
    pub open spec fn fail(self, message: Message, span: Span) -> Checked {
        Checked { s: self.s.error(message, span), ok: false, ..self }
    }

    /// Bind a name.
    pub open spec fn bind(self, id: Ident) -> Checked {
        Checked { ids: add_binder(self.s.world.names@, self.ids, id), ..self }
    }

    /// Bind a name, if there is one.
    pub open spec fn bind_opt(self, id: Option<Ident>) -> Checked {
        Checked { ids: add_opt_binder(self.s.world.names@, self.ids, id), ..self }
    }

    /// What alternative `i` starts from. The names of all but the first are kept apart.
    pub open spec fn alternative(self, i: nat) -> Checked {
        if i == 0 {
            self
        } else {
            Checked { ids: Seq::empty(), ..self }
        }
    }

    /// Go on behind alternative `i`, with the names that the first has bound.
    pub open spec fn rejoin(self, i: nat, before: Checked) -> Checked {
        if i == 0 {
            self
        } else {
            Checked { ids: before.ids, ..self }
        }
    }

    /// Remember the name of a constructor.
    pub open spec fn record(self, ty: StrId, name: Ident) -> Checked {
        Checked { s: self.s.record(Some(ty), name, self.s.doc_of(name.name)), ..self }
    }

    /// Note types that do not fit.
    pub open spec fn misfit(self, faults: Seq<TypeFault>) -> Checked {
        Checked { s: self.s.misfit(faults), ok: self.ok && faults.len() == 0, ..self }
    }
}

/// Check a pattern: its types fit, its constructors are known and get the right
/// arguments, and an array has at most one spread, at its end.
pub open spec fn check_pattern(p: Pattern, c: Checked) -> Checked
    decreases p, 1nat,
{
    check_body(p, c)
}

/// What is checked of each form of pattern.
#[verifier::opaque]
pub open spec fn check_body(p: Pattern, c: Checked) -> Checked
    decreases p, 0nat,
{
    match p {
        Pattern::Binary { segments, rest, faults, rest_faults, .. } => check_segments(
            segments@,
            0,
            c.misfit(faults@),
        ).misfit(rest_faults@).bind_opt(rest_name(rest)),
        Pattern::Wildcard { .. } => c,
        Pattern::Var { id, faults, .. } => c.misfit(faults@).bind(id),
        Pattern::Number { faults, .. } => c.misfit(faults@),
        Pattern::Str { faults, .. } => c.misfit(faults@),
        Pattern::Range { start, end, faults, .. } => check_pattern(
            *end,
            check_pattern(*start, c.misfit(faults@)),
        ),
        Pattern::Tuple { elements, faults, .. } => check_patterns(elements@, 0, c.misfit(faults@)),
        Pattern::Array { elements, faults, .. } => check_array(
            elements@,
            0,
            false,
            c.misfit(faults@),
        ),
        Pattern::Constructor { name, args, rest, faults, span } => match c.s.ctor(name.name) {
            None => c.fail(
                if c.s.lookup(name.name) is Some {
                    Message::NotAConstructor { name: name.name }
                } else {
                    Message::UnknownConstructor { name: name.name }
                },
                name.span,
            ),
            Some(v) => if v.shape.arity == 0 {
                let c = c.record(v.ty_name, name);
                if args@.len() > 0 {
                    c.misfit(faults@).fail(
                        Message::NoArguments { name: name.name, given: args.len() },
                        span,
                    )
                } else {
                    c.misfit(faults@)
                }
            } else {
                let d = c.record(v.ty_name, name).misfit(faults@);
                let t = slotted(
                    d.s,
                    v.shape,
                    true,
                    pattern_keys(args@),
                    if rest {
                        None
                    } else {
                        Some(MissingReport { span, in_pattern: true })
                    },
                );
                check_slots(args@, t.by_pos, 0, Checked { s: t.s, ok: d.ok && t.ok, ..d })
            },
        },
        Pattern::Or { patterns, unlike, .. } => check_alternatives(patterns@, unlike@, 0, c),
    }
}

/// Check patterns from `i` on.
pub open spec fn check_patterns(ps: Seq<Pattern>, i: nat, c: Checked) -> Checked
    decreases ps, ps.len() - i,
{
    if i >= ps.len() {
        c
    } else {
        check_patterns(ps, i + 1, check_pattern(ps[i as int], c))
    }
}

/// Check alternatives from `i` on. Each but the first has to bind what the first binds,
/// and the names are those of the first.
pub open spec fn check_alternatives(
    ps: Seq<Pattern>,
    unlike: Seq<Vec<TypeFault>>,
    i: nat,
    c: Checked,
) -> Checked
    decreases ps, ps.len() - i,
{
    if i >= ps.len() {
        c
    } else {
        let d = check_pattern(ps[i as int], c.alternative(i)).rejoin(i, c);
        check_alternatives(
            ps,
            unlike,
            i + 1,
            if 0 < i <= unlike.len() {
                d.misfit(unlike[i - 1]@)
            } else {
                d
            },
        )
    }
}

/// Check segments from `i` on. A string literal has nothing to check.
pub open spec fn check_segments(segs: Seq<BinSegmentPat>, i: nat, c: Checked) -> Checked
    decreases segs, segs.len() - i,
{
    if i >= segs.len() {
        c
    } else if utf8_literal(segs[i as int]) is Some {
        check_segments(segs, i + 1, c)
    } else {
        check_segments(segs, i + 1, check_pattern(segs[i as int].value, c))
    }
}

/// Check array elements from `i` on.
pub open spec fn check_array(es: Seq<ArrayPattern>, i: nat, seen: bool, c: Checked) -> Checked
    decreases es, es.len() - i,
{
    if i >= es.len() {
        c
    } else {
        match es[i as int] {
            ArrayPattern::Item(p) => check_array(es, i + 1, seen, check_pattern(p, c)),
            ArrayPattern::Spread { binding, faults, span } => check_array(
                es,
                i + 1,
                true,
                if seen {
                    c.fail(Message::ManyPatternSpreads, span)
                } else if i != es.len() - 1 {
                    c.fail(Message::PatternSpreadNotLast, span)
                } else {
                    c
                }.misfit(faults@).bind_opt(binding),
            ),
        }
    }
}

/// Check the patterns slotted into the fields from `i` on.
pub open spec fn check_slots(
    args: Seq<PatternArg>,
    by_pos: Seq<Option<usize>>,
    i: nat,
    c: Checked,
) -> Checked
    decreases args, by_pos.len() - i,
{
    if i >= by_pos.len() {
        c
    } else {
        match by_pos[i as int] {
            Some(k) => if k < args.len() {
                check_slots(
                    args,
                    by_pos,
                    i + 1,
                    match args[k as int] {
                        PatternArg::Positional(p) => check_pattern(p, c),
                        PatternArg::Labeled { pattern, .. } => check_pattern(pattern, c),
                    },
                )
            } else {
                c
            },
            None => check_slots(args, by_pos, i + 1, c),
        }
    }
}

// ---- patterns: code --------------------------------------------------------

/// Pattern code under way: the state, and the jumps to take when the pattern
/// does not match.
pub struct Matching {
    pub s: State,
    pub fails: Seq<usize>,
}

impl Matching {
    /// The same jumps in another state.
    pub open spec fn at(self, s: State) -> Matching {
        Matching { s, fails: self.fails }
    }

    /// Jump to the failure when the top of the stack is false.
    pub open spec fn fail_if_false(self) -> Matching {
        Matching { s: self.s.emit_arg(Op::JumpIfFalse, 0), fails: self.fails.push(self.s.pos()) }
    }

    /// Compare the two topmost values and fail when they do not stand in the
    /// relation.
    pub open spec fn require(self, o: Op) -> Matching {
        self.at(self.s.emit(o)).fail_if_false()
    }
}

impl State {
    /// Store the top of the stack under a name; the blank name drops it.
    pub open spec fn store_name(self, name: StrId) -> State {
        self.reserve(name).emit_arg(Op::StoreLocal, self.slot_of(name))
    }

    /// Push the bound of a range.
    #[verifier::opaque]
    pub open spec fn range_bound(self, p: Pattern) -> State {
        match p {
            Pattern::Number { literal: n, .. } => self.push_number(n),
            _ => self.push_int(0),
        }
    }

    /// Pop the stack into `n` slots from `base` on, the last slot first.
    #[verifier::opaque]
    pub open spec fn store_fields(self, base: i32, n: nat) -> State
        decreases n,
    {
        if n == 0 {
            self
        } else {
            self.emit_arg(Op::StoreLocal, i32::wrapping_add(base, (n - 1) as i32)).store_fields(
                base,
                (n - 1) as nat,
            )
        }
    }
}

/// The last spread of an array pattern, or the number of its elements.
pub open spec fn spread_place(es: Seq<ArrayPattern>, n: nat) -> Option<nat>
    decreases n,
{
    if n == 0 {
        None
    } else if es[n - 1] is Spread {
        Some((n - 1) as nat)
    } else {
        spread_place(es, (n - 1) as nat)
    }
}

/// Whether a field got a pattern.
pub open spec fn any_slotted(by_pos: Seq<Option<usize>>, n: nat) -> bool
    decreases n,
{
    n > 0 && (by_pos[n - 1] is Some || any_slotted(by_pos, (n - 1) as nat))
}

/// A value to push while matching a binary: a constant or a slot.
#[derive(Debug, Clone, Copy, PartialEq, Eq, Structural)]
pub enum BinOperand {
    Const(i64),
    Local(i32),
}

impl State {
    /// Push an operand.
    pub open spec fn operand(self, o: BinOperand) -> State {
        match o {
            BinOperand::Const(v) => self.push_int(v),
            BinOperand::Local(slot) => self.emit_arg(Op::PushLocal, slot),
        }
    }

    /// Push the bit cursor: a constant while it is known, its slot afterwards.
    pub open spec fn cursor(self, cursor: Option<i64>, slot: i32) -> State {
        match cursor {
            Some(k) => self.push_int(k),
            None => self.emit_arg(Op::PushLocal, slot),
        }
    }

    /// Bring the cursor into its slot.
    pub open spec fn spill_cursor(self, cursor: Option<i64>, slot: i32) -> State {
        match cursor {
            Some(k) => self.push_int(k).emit_arg(Op::StoreLocal, slot),
            None => self,
        }
    }
}

/// The slots that matching a binary uses: the binary, its length in bits, and
/// the cursor.
#[derive(Debug, Clone, Copy, PartialEq, Eq, Structural)]
pub struct BinSlots {
    pub bin: i32,
    pub total: i32,
    pub cursor: i32,
}

/// Matching a binary under way: where the cursor is, if that is known, and how
/// many bits have been checked to be there.
pub struct BinMatching {
    pub m: Matching,
    pub cursor: Option<i64>,
    pub checked: i64,
}

impl BinMatching {
    /// The same cursor in another state.
    pub open spec fn at(self, s: State) -> BinMatching {
        BinMatching { m: self.m.at(s), ..self }
    }

    /// Compare and fail when the comparison does not hold.
    pub open spec fn require(self, o: Op) -> BinMatching {
        BinMatching { m: self.m.require(o), ..self }
    }

    /// Bring the cursor into its slot, where it stays.
    pub open spec fn spilled(self, slot: i32) -> BinMatching {
        BinMatching {
            m: self.m.at(self.m.s.spill_cursor(self.cursor, slot)),
            cursor: None,
            checked: self.checked,
        }
    }

    /// Move the cursor on: by calculation while all is known, by code
    /// afterwards.
    #[verifier::opaque]
    pub open spec fn advance(self, slot: i32, by: BinOperand) -> BinMatching {
        match (self.cursor, by) {
            (Some(k), BinOperand::Const(b)) => BinMatching {
                cursor: Some(i64::wrapping_add(k, b)),
                ..self
            },
            _ => {
                let t = self.spilled(slot);
                t.at(
                    t.m.s.emit_arg(Op::PushLocal, slot).operand(by).emit(Op::Add).emit_arg(
                        Op::StoreLocal,
                        slot,
                    ),
                )
            },
        }
    }
}

/// The sum of the widths from `i` on up to the first one that is not known.
pub open spec fn known_run(names: Seq<Seq<char>>, segs: Seq<BinSegmentPat>, i: nat, from: i64) -> i64
    decreases segs.len() - i,
{
    if i >= segs.len() {
        from
    } else {
        match static_width(names, segs[i as int]) {
            Some(w) => known_run(names, segs, i + 1, i64::wrapping_add(from, w)),
            None => from,
        }
    }
}

/// Whether the widths from `i` on are all known.
pub open spec fn all_known(names: Seq<Seq<char>>, segs: Seq<BinSegmentPat>, i: nat) -> bool
    decreases segs.len() - i,
{
    i >= segs.len() || (static_width(names, segs[i as int]) is Some && all_known(
        names,
        segs,
        i + 1,
    ))
}

impl BinMatching {
    /// Check once that the run of segments of known width at the cursor is
    /// there, unless that has been checked already.
    #[verifier::opaque]
    pub open spec fn check_run(
        self,
        segs: Seq<BinSegmentPat>,
        i: nat,
        slots: BinSlots,
    ) -> BinMatching {
        let names = self.m.s.world.names@;
        match self.cursor {
            Some(at) => {
                let end = known_run(names, segs, i, at);
                if static_width(names, segs[i as int]) is Some && end > self.checked {
                    BinMatching {
                        m: self.m.at(
                            self.m.s.push_int(end).emit_arg(Op::PushLocal, slots.total),
                        ).require(Op::Lte),
                        cursor: self.cursor,
                        checked: end,
                    }
                } else {
                    self
                }
            },
            None => self,
        }
    }

    /// Compare a run of literal segments in one go.
    #[verifier::opaque]
    pub open spec fn match_prefix(self, bits: Seq<bool>, slots: BinSlots) -> BinMatching {
        let s = self.m.s;
        let c = ConstView::Binary { bytes: packed(bits), bit_len: bits.len() as u64 };
        self.at(
            s.pool(c).emit_arg(Op::PushLocal, slots.bin).cursor(
                self.cursor,
                slots.cursor,
            ).emit_arg(Op::PushConst, s.pool_index()),
        ).require(Op::BinMatchPrefix).advance(slots.cursor, BinOperand::Const(bits.len() as u64 as i64))
    }

    /// Read a code point; the slots for its width and value are the next two.
    #[verifier::opaque]
    pub open spec fn read_utf8(self, slots: BinSlots) -> BinMatching {
        let t = self.spilled(slots.cursor);
        let s1 = t.m.s.emit_arg(Op::PushLocal, slots.bin).emit_arg(
            Op::PushLocal,
            slots.cursor,
        ).emit(Op::BinReadUtf8);
        let s2 = s1.spill();
        let s3 = s2.spill();
        let u = t.at(s3.emit_arg(Op::PushLocal, s1.next_slot()).push_int(0)).require(Op::Gt);
        u.at(u.m.s.emit_arg(Op::PushLocal, s2.next_slot()))
    }

    /// Check that a segment of `width` bits is there, at a cursor that is not
    /// known.
    #[verifier::opaque]
    pub open spec fn check_width(self, width: BinOperand, slots: BinSlots) -> BinMatching {
        self.at(
            self.m.s.emit_arg(Op::PushLocal, slots.cursor).operand(width).emit(
                Op::Add,
            ).emit_arg(Op::PushLocal, slots.total),
        ).require(Op::Lte)
    }

    /// Push a segment's value: a view of the binary or an integer.
    #[verifier::opaque]
    pub open spec fn read_segment(
        self,
        kind: BinKind,
        width: BinOperand,
        slots: BinSlots,
    ) -> BinMatching {
        self.at(
            self.m.s.emit_arg(Op::PushLocal, slots.bin).cursor(self.cursor, slots.cursor).operand(
                width,
            ).emit(
                if kind == BinKind::Binary {
                    Op::BinView
                } else {
                    Op::BinReadInt
                },
            ),
        )
    }

    /// What follows the last segment: the rest is bound, or there is none.
    #[verifier::opaque]
    pub open spec fn finish_rest(
        self,
        segs: Seq<BinSegmentPat>,
        rest: Option<BinaryRest>,
        slots: BinSlots,
    ) -> Matching {
        match rest {
            Some(r) => match r.binding {
                Some(id) => self.m.at(
                    self.m.s.emit_arg(Op::PushLocal, slots.bin).cursor(
                        self.cursor,
                        slots.cursor,
                    ).emit_arg(Op::PushLocal, slots.total).cursor(
                        self.cursor,
                        slots.cursor,
                    ).emit(Op::Sub).emit(Op::BinView).store_name(id.name),
                ),
                None => self.m,
            },
            None => if all_known(self.m.s.world.names@, segs, 0) && self.cursor is Some {
                self.m
            } else {
                self.m.at(
                    self.m.s.cursor(self.cursor, slots.cursor).emit_arg(
                        Op::PushLocal,
                        slots.total,
                    ),
                ).require(Op::Eq)
            },
        }
    }
}

/// The start of matching a binary: it and its length go into slots, and a
/// pattern whose segments are all of known width, with nothing behind them,
/// checks the length at once.
#[verifier::opaque]
pub open spec fn start_binary(segs: Seq<BinSegmentPat>, rest: Option<BinaryRest>, m: Matching) -> (
    BinMatching,
    BinSlots,
) {
    let s1 = m.s.spill();
    let s2 = s1.emit_arg(Op::PushLocal, m.s.next_slot()).emit(Op::BinBitSize);
    let s3 = s2.spill();
    let s4 = s3.take_slot();
    let slots = BinSlots { bin: m.s.next_slot(), total: s2.next_slot(), cursor: s3.next_slot() };
    let names = s4.world.names@;
    let whole = known_run(names, segs, 0, 0);
    (
        if all_known(names, segs, 0) && rest is None {
            BinMatching {
                m: m.at(s4.push_int(whole).emit_arg(Op::PushLocal, slots.total)).require(Op::Eq),
                cursor: Some(0),
                checked: whole,
            }
        } else {
            BinMatching { m: m.at(s4), cursor: Some(0), checked: 0 }
        },
        slots,
    )
}

/// Match a pattern against the value on top of the stack, which is consumed.
pub open spec fn pattern(p: Pattern, m: Matching) -> Matching
    decreases p, 1nat,
{
    pattern_body(p, m)
}

/// What each form of pattern compiles to.
#[verifier::opaque]
pub open spec fn pattern_body(p: Pattern, m: Matching) -> Matching
    decreases p, 0nat,
{
    let s = m.s;
    match p {
        Pattern::Binary { segments, rest, .. } => {
            let (b, slots) = start_binary(segments@, rest, m);
            segments_from(segments@, 0, slots, b).finish_rest(segments@, rest, slots)
        },
        Pattern::Wildcard { .. } => m.at(s.emit(Op::Pop)),
        Pattern::Var { id, .. } => m.at(
            if s.text(id.name) == "_"@ {
                s.emit(Op::Pop)
            } else {
                s.store_name(id.name)
            },
        ),
        Pattern::Number { literal: n, .. } => m.at(s.push_number(n)).require(Op::Eq),
        Pattern::Str { value, .. } => m.at(s.push_const(ConstView::Str(value))).require(Op::Eq),
        Pattern::Range { start, end, .. } => {
            let m1 = m.at(
                s.spill().emit_arg(Op::PushLocal, s.next_slot()).range_bound(*start),
            ).require(Op::Gte);
            m1.at(m1.s.emit_arg(Op::PushLocal, s.next_slot()).range_bound(*end)).require(Op::Lt)
        },
        Pattern::Tuple { elements, .. } => tuple_pattern(elements@, m),
        Pattern::Array { elements, .. } => array_pattern(elements@, m),
        Pattern::Constructor { name, args, .. } => match s.ctor(name.name) {
            None => m.at(s.emit(Op::Pop)),
            Some(v) => if s.is_bool(v.type_id) {
                m.at(s.bool_value(name.name)).require(Op::Eq)
            } else {
                let temp = s.next_slot();
                let m1 = m.at(
                    s.spill().emit_arg(Op::PushLocal, temp).match_header(v.type_id, name.name),
                ).require(Op::MatchEnum);
                if v.shape.arity == 0 {
                    m1
                } else {
                    let t = slotted(m1.s, v.shape, false, pattern_keys(args@), None);
                    if !any_slotted(t.by_pos, t.by_pos.len()) {
                        m1.at(t.s)
                    } else {
                        let s2 = t.s.emit_arg(Op::PushLocal, temp).emit(Op::UnwrapEnum);
                        fields_from(
                            args@,
                            t.by_pos,
                            0,
                            s2.next_slot(),
                            m1.at(
                                s2.take_slots(v.shape.arity as i32).store_fields(
                                    s2.next_slot(),
                                    v.shape.arity as nat,
                                ),
                            ),
                        )
                    }
                }
            },
        },
        Pattern::Or { patterns, .. } => or_pattern(patterns@, m),
    }
}

/// Match the elements of a tuple.
pub open spec fn tuple_pattern(es: Seq<Pattern>, m: Matching) -> Matching
    decreases es, es.len() + 1,
{
    tuple_from(es, 0, m.s.next_slot(), m.at(m.s.spill()))
}

/// Match the elements of an array, and what a spread takes of the rest.
pub open spec fn array_pattern(es: Seq<ArrayPattern>, m: Matching) -> Matching
    decreases es, es.len() + 1 + 1,
{
    array_pattern_body(es, m)
}

/// What [`array_pattern`] amounts to.
#[verifier::opaque]
pub open spec fn array_pattern_body(es: Seq<ArrayPattern>, m: Matching) -> Matching
    decreases es, es.len() + 1,
{
    let s = m.s;
    let place = spread_place(es, es.len());
    let count = match place {
        Some(i) => i,
        None => es.len(),
    };
    let m1 = m.at(
        s.spill().emit_arg(Op::PushLocal, s.next_slot()).emit(Op::ArrayLen).push_int(
            count as i64,
        ),
    ).require(
        if place is Some {
            Op::Gte
        } else {
            Op::Eq
        },
    );
    let m2 = array_from(es, 0, count, s.next_slot(), m1);
    match place {
        Some(i) => match es[i as int] {
            ArrayPattern::Spread { binding: Some(id), .. } => m2.at(
                m2.s.emit_arg(Op::PushLocal, s.next_slot()).push_int(count as i64).emit(
                    Op::Drop,
                ).store_name(id.name),
            ),
            _ => m2,
        },
        None => m2,
    }
}

/// Match the alternatives of an or-pattern.
pub open spec fn or_pattern(ps: Seq<Pattern>, m: Matching) -> Matching
    decreases ps, ps.len() + 1 + 1,
{
    or_pattern_body(ps, m)
}

/// What [`or_pattern`] amounts to.
#[verifier::opaque]
pub open spec fn or_pattern_body(ps: Seq<Pattern>, m: Matching) -> Matching
    decreases ps, ps.len() + 1,
{
    let s = m.s;
    let o = alternatives_from(
        ps,
        0,
        s.next_slot(),
        OrMatching { m: m.at(s.spill()), matched: Seq::empty() },
    );
    let s1 = if ps.len() > 1 {
        o.m.s.pop_pins()
    } else {
        o.m.s
    };
    o.m.at(s1.patch_all(o.matched, o.matched.len()))
}

/// Match the elements of a tuple from `i` on.
pub open spec fn tuple_from(es: Seq<Pattern>, i: nat, temp: i32, m: Matching) -> Matching
    decreases es, es.len() - i,
{
    if i >= es.len() {
        m
    } else {
        tuple_from(
            es,
            i + 1,
            temp,
            pattern(
                es[i as int],
                m.at(m.s.emit_arg(Op::PushLocal, temp).emit_arg(Op::TupleIndex, i as i32)),
            ),
        )
    }
}

/// Match the elements of an array from `i` up to `count`.
pub open spec fn array_from(
    es: Seq<ArrayPattern>,
    i: nat,
    count: nat,
    temp: i32,
    m: Matching,
) -> Matching
    decreases es, es.len() - i,
{
    if i >= count || i >= es.len() {
        m
    } else {
        array_from(
            es,
            i + 1,
            count,
            temp,
            match es[i as int] {
                ArrayPattern::Item(p) => pattern(
                    p,
                    m.at(m.s.emit_arg(Op::PushLocal, temp).emit_arg(Op::ElemAt, i as i32)),
                ),
                ArrayPattern::Spread { .. } => m,
            },
        )
    }
}

/// Match the fields of a constructor from `i` on.
pub open spec fn fields_from(
    args: Seq<PatternArg>,
    by_pos: Seq<Option<usize>>,
    i: nat,
    base: i32,
    m: Matching,
) -> Matching
    decreases args, by_pos.len() - i,
{
    if i >= by_pos.len() {
        m
    } else {
        match by_pos[i as int] {
            Some(k) => if k < args.len() {
                let n = m.at(m.s.emit_arg(Op::PushLocal, i32::wrapping_add(base, i as i32)));
                fields_from(
                    args,
                    by_pos,
                    i + 1,
                    base,
                    match args[k as int] {
                        PatternArg::Positional(p) => pattern(p, n),
                        PatternArg::Labeled { pattern: p, .. } => pattern(p, n),
                    },
                )
            } else {
                m
            },
            None => fields_from(args, by_pos, i + 1, base, m),
        }
    }
}

/// An or-pattern under way: the jumps to take once an alternative has matched.
pub struct OrMatching {
    pub m: Matching,
    pub matched: Seq<usize>,
}

/// Match the alternatives of an or-pattern from `i` on. Every alternative but
/// the last goes on to the next one when it fails; the names of the first one
/// keep their slots in all.
pub open spec fn alternatives_from(
    ps: Seq<Pattern>,
    i: nat,
    temp: i32,
    o: OrMatching,
) -> OrMatching
    decreases ps, ps.len() - i,
{
    if i >= ps.len() {
        o
    } else {
        let alt = pattern(
            ps[i as int],
            Matching { s: o.m.s.emit_arg(Op::PushLocal, temp), fails: Seq::empty() },
        );
        let s1 = if i == 0 && ps.len() > 1 {
            alt.s.push_pins(binders(alt.s.world.names@, ps[0], Seq::empty()))
        } else {
            alt.s
        };
        alternatives_from(
            ps,
            i + 1,
            temp,
            if i < ps.len() - 1 {
                OrMatching {
                    m: Matching {
                        s: s1.emit_arg(Op::Jump, 0).patch_all(alt.fails, alt.fails.len()),
                        fails: o.m.fails,
                    },
                    matched: o.matched.push(s1.pos()),
                }
            } else {
                OrMatching {
                    m: Matching { s: s1, fails: o.m.fails + alt.fails },
                    matched: o.matched,
                }
            },
        )
    }
}

/// Match the segments of a binary from `i` on.
pub open spec fn segments_from(
    segs: Seq<BinSegmentPat>,
    i: nat,
    slots: BinSlots,
    b: BinMatching,
) -> BinMatching
    decreases segs, segs.len() - i,
{
    if i >= segs.len() {
        b
    } else {
        let c = b.check_run(segs, i, slots);
        let names = c.m.s.world.names@;
        let (end, bits) = run_end(names, segs, i, Seq::empty());
        if i < end <= segs.len() {
            segments_from(segs, end, slots, c.match_prefix(bits, slots))
        } else {
            segments_from(segs, i + 1, slots, segment(segs[i as int], slots, c))
        }
    }
}

/// Work out the width of a segment into a slot: from its size, with a check that
/// so much is there, or as all that is left.
pub open spec fn measure(seg: BinSegmentPat, temp: i32, slots: BinSlots, t: BinMatching) -> BinMatching
    decreases seg, 1nat,
{
    measure_body(seg, temp, slots, t)
}

/// What [`measure`] amounts to.
#[verifier::opaque]
pub open spec fn measure_body(seg: BinSegmentPat, temp: i32, slots: BinSlots, t: BinMatching) -> BinMatching
    decreases seg, 0nat,
{
    match seg.size {
        Some(e) => {
            let s1 = expr(e, t.m.s).misfit(seg.size_faults@);
            let s2 = if seg.unit == BinUnit::Bytes {
                s1.push_int(8).emit(Op::Mul)
            } else {
                s1
            };
            t.at(s2.emit_arg(Op::StoreLocal, temp)).spilled(slots.cursor).check_width(
                BinOperand::Local(temp),
                slots,
            )
        },
        None => {
            let u = t.spilled(slots.cursor);
            u.at(
                u.m.s.emit_arg(Op::PushLocal, slots.total).emit_arg(
                    Op::PushLocal,
                    slots.cursor,
                ).emit(Op::Sub).emit_arg(Op::StoreLocal, temp),
            )
        },
    }
}

/// Match one segment that is no literal.
pub open spec fn segment(seg: BinSegmentPat, slots: BinSlots, c: BinMatching) -> BinMatching
    decreases seg, 3nat,
{
    segment_body(seg, slots, c)
}

/// What [`segment`] amounts to.
#[verifier::opaque]
pub open spec fn segment_body(seg: BinSegmentPat, slots: BinSlots, c: BinMatching) -> BinMatching
    decreases seg, 2nat,
{
    let names = c.m.s.world.names@;
    if seg.kind == BinKind::Utf8 {
        let r = c.read_utf8(slots);
        let width = c.spilled(slots.cursor).m.s.emit_arg(Op::PushLocal, slots.bin).emit_arg(
            Op::PushLocal,
            slots.cursor,
        ).emit(Op::BinReadUtf8).next_slot();
        (BinMatching { m: pattern(seg.value, r.m), ..r }).advance(
            slots.cursor,
            BinOperand::Local(width),
        )
    } else {
        match static_width(names, seg) {
            Some(w) => {
                let d = if c.cursor is None {
                    c.check_width(BinOperand::Const(w), slots)
                } else {
                    c
                };
                let r = d.read_segment(seg.kind, BinOperand::Const(w), slots);
                (BinMatching { m: pattern(seg.value, r.m), ..r }).advance(
                    slots.cursor,
                    BinOperand::Const(w),
                )
            },
            None => {
                let temp = c.m.s.next_slot();
                let t = c.at(c.m.s.take_slot());
                let d = measure(seg, temp, slots, t);
                let r = d.read_segment(seg.kind, BinOperand::Local(temp), slots);
                (BinMatching { m: pattern(seg.value, r.m), ..r }).advance(
                    slots.cursor,
                    BinOperand::Local(temp),
                )
            },
        }
    }
}

// ---- expressions -----------------------------------------------------------

/// The arguments of a constructor call as slotting sees them: the first `n`,
/// spreads left out.
pub open spec fn call_keys(args: Seq<CallArg>, n: nat) -> Seq<ArgKey>
    decreases n,
{
    if n == 0 {
        Seq::empty()
    } else {
        let before = call_keys(args, (n - 1) as nat);
        match args[n - 1] {
            CallArg::Positional { value: e, .. } => before.push(
                ArgKey { label: None, span: span_of(e), arg: (n - 1) as usize },
            ),
            CallArg::Labeled { label, .. } => before.push(
                ArgKey { label: Some(label), span: label.span, arg: (n - 1) as usize },
            ),
            CallArg::Spread { .. } => before,
        }
    }
}

/// What does not fit about an argument.
pub open spec fn arg_faults(a: CallArg) -> Seq<TypeFault> {
    match a {
        CallArg::Positional { faults, .. } => faults@,
        CallArg::Labeled { faults, .. } => faults@,
        CallArg::Spread { faults, .. } => faults@,
    }
}

/// The last spread among the first `n` arguments.
pub open spec fn last_spread(args: Seq<CallArg>, n: nat) -> Option<int>
    decreases n,
{
    if n == 0 {
        None
    } else if args[n - 1] is Spread {
        Some(n - 1)
    } else {
        last_spread(args, (n - 1) as nat)
    }
}

impl State {
    /// Report every spread among the first `n` arguments but the first one.
    #[verifier::opaque]
    pub open spec fn report_spreads(self, args: Seq<CallArg>, n: nat) -> State
        decreases n,
    {
        if n == 0 {
            self
        } else {
            let s = self.report_spreads(args, (n - 1) as nat);
            match args[n - 1] {
                CallArg::Spread { value: e, .. } => if last_spread(args, (n - 1) as nat) is Some {
                    s.error(Message::ManySpreads, span_of(e))
                } else {
                    s
                },
                _ => s,
            }
        }
    }
}

/// Where the run of elements from `i` on ends: at the next spread.
pub open spec fn item_run(es: Seq<ArrayElement>, i: nat) -> nat
    decreases es.len() - i,
{
    if i >= es.len() || es[i as int] is Spread {
        i
    } else {
        item_run(es, i + 1)
    }
}

proof fn lemma_item_run(es: Seq<ArrayElement>, i: nat)
    ensures
        i <= es.len() ==> i <= item_run(es, i) <= es.len(),
        i < es.len() && !(es[i as int] is Spread) ==> item_run(es, i) > i,
    decreases es.len() - i,
{
    if i < es.len() && !(es[i as int] is Spread) {
        lemma_item_run(es, i + 1);
    }
}

/// Whether an array literal has a spread from `i` on.
pub open spec fn has_spread(es: Seq<ArrayElement>, i: nat) -> bool
    decreases es.len() - i,
{
    i < es.len() && (es[i as int] is Spread || has_spread(es, i + 1))
}

/// Compile an expression; its value ends up on top of the stack.
pub open spec fn expr(e: Expr, s: State) -> State
    decreases e, 1nat,
{
    expr_body(e, s.loc.tail, s.set_tail(false))
}

/// What each form of expression compiles to. Only what stands last in its form
/// is in tail position when the whole form is.
#[verifier::opaque]
pub open spec fn expr_body(e: Expr, tail: bool, t: State) -> State
    decreases e, 0nat,
{
    match e {
        Expr::BinaryLiteral { segments, .. } => binary_literal(segments@, t),
        Expr::Block { body, .. } => {
            let u = nodes_from(body@, 0, tail, t.push_block());
            let v = if body@.len() > 0 && body@[body@.len() - 1] is Expression {
                u
            } else {
                u.nil()
            };
            v.pop_block()
        },
        Expr::Number(n) => t.push_number(n),
        Expr::Str { value, .. } => t.push_const(ConstView::Str(value)),
        Expr::Interpolated { parts, .. } => if parts@.len() == 0 {
            t.push_const(ConstView::Str(t.world.empty))
        } else {
            let u = parts_from(parts@, 0, t);
            if parts@.len() > 1 {
                u.emit_arg(Op::StrConcatN, parts@.len() as i32)
            } else {
                u
            }
        },
        Expr::Name { id, near } => t.identifier(id, near),
        Expr::Binary(b) => binary(b, t),
        Expr::Unary { op, operand, prim, faults, .. } => {
            let u = expr(*operand, t).misfit(faults@);
            match op {
                UnaryOp::Not => u.emit(Op::Not),
                UnaryOp::Neg => u.emit(
                    match prim {
                        Some(Prim::Int) => Op::NegInt,
                        Some(Prim::Float) => Op::NegFloat,
                        _ => Op::Neg,
                    },
                ),
            }
        },
        Expr::If { condition, condition_faults, body, else_body, branch_faults, .. } => {
            let s1 = expr(*condition, t).misfit(condition_faults@);
            let s2 = expr(*body, s1.emit_arg(Op::JumpIfFalse, 0).set_tail(tail)).set_tail(false);
            let s3 = s2.emit_arg(Op::Jump, 0).patch(s1.pos() as int);
            expr(*else_body, s3.set_tail(tail)).set_tail(false).patch(s2.pos() as int).misfit(
                branch_faults@,
            )
        },
        Expr::Match(m) => match_expr(m, tail, t),
        Expr::Array { elements, .. } => array(elements@, t),
        Expr::Tuple { elements, .. } => exprs_from(elements@, 0, t).emit_arg(
            Op::MakeTuple,
            elements@.len() as i32,
        ),
        Expr::Index { array, array_faults, index, index_faults, .. } => {
            let u = expr(*array, t).misfit(array_faults@);
            match *index {
                Expr::Range { start, end, faults, .. } => expr(*end, expr(*start, u)).misfit(
                    faults@,
                ).emit(Op::ArraySlice),
                _ => expr(*index, u).misfit(index_faults@).emit(Op::Index),
            }
        },
        Expr::Range { start, end, faults, .. } => expr(*end, expr(*start, t)).misfit(
            faults@,
        ).emit(Op::MakeRange),
        Expr::Function { params, annotations, body, ret, faults, .. } => {
            let u = t.enter(None).bind_params(params@, annotations@, params@.len());
            expr(*body, u).hydrate(ret).misfit(faults@).finish(
                t.frame(),
                "__anon__"@,
                params@.len() as i32,
            )
        },
        Expr::Call(c) => call(c, tail, t),
        Expr::Property(pa) => property(pa, t),
        Expr::Or(o) => or_expr(o, t),
        Expr::Error { message, span } => t.unreadable(message, span),
    }
}

/// Compile the nodes of a block from `i` on. The value of every expression but
/// the last is dropped.
pub open spec fn nodes_from(body: Seq<Node>, i: nat, tail: bool, s: State) -> State
    decreases body, body.len() - i,
{
    if i >= body.len() {
        s
    } else {
        let last = i == body.len() - 1;
        let t = node(body[i as int], s.set_tail(tail && last)).set_tail(false);
        nodes_from(
            body,
            i + 1,
            tail,
            match body[i as int] {
                Node::Expression { unconsumed, .. } => if last {
                    t
                } else {
                    match unconsumed {
                        Some(ty) => t.error(Message::MustConsume { ty }, node_span(body[i as int])),
                        None => t,
                    }.emit(Op::Pop)
                },
                Node::Statement(_) => t,
            },
        )
    }
}

/// Compile a node.
pub open spec fn node(n: Node, s: State) -> State
    decreases n, 0nat,
{
    match n {
        Node::Statement(st) => statement(st, s),
        Node::Expression { expr: e, .. } => expr(e, s),
    }
}

/// The kind of a declaration.
pub open spec fn decl_kind(d: Declaration) -> DeclKind {
    match d {
        Declaration::Function(_) => DeclKind::Function,
        Declaration::Type(_) => DeclKind::Type,
        Declaration::Const(_) => DeclKind::Const,
    }
}

/// Compile a statement.
pub open spec fn statement(st: Statement, s: State) -> State
    decreases st, 1nat,
{
    statement_body(st, s)
}

/// What [`statement`] amounts to.
#[verifier::opaque]
pub open spec fn statement_body(st: Statement, s: State) -> State
    decreases st, 0nat,
{
    match st {
        Statement::Binding { target, annotation, init, faults, doc, .. } => {
            let late = s.at_module_scope() && s.has_local(target.name);
            let t = if late {
                s
            } else {
                s.reserve(target.name)
            }.hydrate(annotation);
            let named = init is Function;
            let u = if named {
                t.define(target.name, (Binding { kind: ValueKind::Local, def: None, doc }))
            } else {
                t
            };
            let v = expr(
                init,
                u.set_next_self(
                    if named {
                        Some(target.name)
                    } else {
                        None
                    },
                ),
            ).set_next_self(u.loc.next_self).misfit(faults@).register(target, doc);
            if late {
                v.store_name(target.name)
            } else {
                v.emit_arg(Op::StoreLocal, s.slot_of(target.name))
            }
        },
        Statement::TupleBinding { patterns, init, faults, .. } => {
            let t = expr(init, s).misfit(faults@);
            let c = check_patterns(patterns@, 0, Checked::new(t));
            let u = c.s.bind_idents(c.ids, c.ids.len());
            elements_from(patterns@, 0, u.next_slot(), u.spill())
        },
        Statement::CtorBinding { pattern: p, init, uncovered, span } => {
            let t = expr(init, s);
            let c = check_pattern(p, Checked::new(t));
            let u = c.s.bind_idents(c.ids, c.ids.len());
            let v = match uncovered {
                Some(missing) => if c.ok {
                    u.error(Message::RefutableCtorBinding { missing }, span)
                } else {
                    u
                },
                None => u,
            };
            let m = pattern(
                p,
                Matching {
                    s: v.spill().emit_arg(Op::PushLocal, v.next_slot()),
                    fails: Seq::empty(),
                },
            );
            m.s.patch_all(m.fails, m.fails.len())
        },
        Statement::TypedDiscard { ty_name, annotation, init, faults, .. } => {
            let ctor_only = !s.known.types.dom().contains(ty_name.name) && s.ctor(
                ty_name.name,
            ) is Some;
            let t = if ctor_only {
                s.error(Message::NotAType { name: ty_name.name }, ty_name.span)
            } else {
                s.hydrate(annotation)
            };
            expr(init, t).misfit(faults@).emit(Op::Pop)
        },
        Statement::Declaration { decl, .. } => s.error(
            Message::NestedDeclaration { kind: decl_kind(decl) },
            decl_span(decl),
        ),
        Statement::Import(_) => s,
    }
}

/// Match the elements of a tuple that is being bound, from `i` on. None may
/// fail.
pub open spec fn elements_from(ps: Seq<Pattern>, i: nat, temp: i32, s: State) -> State
    decreases ps, ps.len() - i,
{
    if i >= ps.len() {
        s
    } else {
        let m = pattern(
            ps[i as int],
            Matching {
                s: s.emit_arg(Op::PushLocal, temp).emit_arg(Op::TupleIndex, i as i32),
                fails: Seq::empty(),
            },
        );
        elements_from(
            ps,
            i + 1,
            temp,
            if m.fails.len() > 0 {
                m.s.error(Message::RefutableBinding, pattern_span(ps[i as int])).patch_all(
                    m.fails,
                    m.fails.len(),
                )
            } else {
                m.s
            },
        )
    }
}

/// Compile expressions from `i` on.
pub open spec fn exprs_from(es: Seq<Expr>, i: nat, s: State) -> State
    decreases es, es.len() - i,
{
    if i >= es.len() {
        s
    } else {
        exprs_from(es, i + 1, expr(es[i as int], s))
    }
}

/// Compile the parts of a string from `i` on, each turned into a string.
pub open spec fn parts_from(es: Seq<Expr>, i: nat, s: State) -> State
    decreases es, es.len() - i,
{
    if i >= es.len() {
        s
    } else {
        parts_from(es, i + 1, expr(es[i as int], s).emit(Op::ToString))
    }
}

/// Compile a binary operation. The short-circuiting ones leave the right side
/// out when the left side decides.
pub open spec fn binary(b: BinaryExpr, s: State) -> State
    decreases b, 1nat,
{
    binary_body(b, s)
}

/// What [`binary`] amounts to.
#[verifier::opaque]
pub open spec fn binary_body(b: BinaryExpr, s: State) -> State
    decreases b, 0nat,
{
    match kind_of(b.op) {
        BinopKind::ShortCircuit(o) => {
            let t = expr(*b.left, s).misfit(b.left_faults@).emit(Op::Dup);
            let u = t.emit_arg(
                match o {
                    ShortCircuitOp::And => Op::JumpIfFalse,
                    ShortCircuitOp::Or => Op::JumpIfTrue,
                },
                0,
            ).emit(Op::Pop);
            expr(*b.right, u).misfit(b.right_faults@).patch(t.pos() as int)
        },
        BinopKind::Value(o) => expr(*b.right, expr(*b.left, s)).misfit(b.left_faults@).misfit(
            b.right_faults@,
        ).emit(specialized(o, b.prim)),
    }
}

/// Compile a match: the arms are tried in turn.
pub open spec fn match_expr(m: MatchExpr, tail: bool, s: State) -> State
    decreases m, 1nat,
{
    match_expr_body(m, tail, s)
}

/// What [`match_expr`] amounts to.
#[verifier::opaque]
pub open spec fn match_expr_body(m: MatchExpr, tail: bool, s: State) -> State
    decreases m, 0nat,
{
    let t = expr(*m.subject, s);
    let a = arms_from(
        m.arms@,
        0,
        tail,
        t.next_slot(),
        Arms { s: t.spill(), ends: Seq::empty(), ok: true },
    );
    let u = a.s.nil().patch_all(a.ends, a.ends.len());
    if a.ok {
        let v = match m.missing {
            Some(missing) => u.error(Message::NotExhaustive { missing }, span_of(*m.subject)),
            None => u,
        };
        v.report_unreachable(m.arms@, m.arms@.len())
    } else {
        u
    }
}

/// A match under way: the jumps behind the match, and whether all patterns were
/// well formed.
pub struct Arms {
    pub s: State,
    pub ends: Seq<usize>,
    pub ok: bool,
}

impl State {
    /// Report the arms among the first `n` that never run.
    #[verifier::opaque]
    pub open spec fn report_unreachable(self, arms: Seq<Arm>, n: nat) -> State
        decreases n,
    {
        if n == 0 {
            self
        } else {
            let s = self.report_unreachable(arms, (n - 1) as nat);
            if arms[n - 1].unreachable {
                s.error(Message::UnreachableArm, pattern_span(arms[n - 1].pattern))
            } else {
                s
            }
        }
    }
}

/// Compile the arms of a match from `i` on.
pub open spec fn arms_from(arms: Seq<Arm>, i: nat, tail: bool, slot: i32, a: Arms) -> Arms
    decreases arms, arms.len() - i,
{
    if i >= arms.len() {
        a
    } else {
        let arm = arms[i as int];
        let c = check_pattern(arm.pattern, Checked::new(a.s.push_block()));
        let m = pattern(
            arm.pattern,
            Matching {
                s: c.s.bind_idents(c.ids, c.ids.len()).emit_arg(Op::PushLocal, slot),
                fails: Seq::empty(),
            },
        );
        let g = match arm.guard {
            Some(guard) => m.at(expr(guard, m.s).misfit(arm.guard_faults@)).fail_if_false(),
            None => m,
        };
        let b = expr(arm.body, g.s.set_tail(tail)).set_tail(false).misfit(arm.faults@);
        arms_from(
            arms,
            i + 1,
            tail,
            slot,
            Arms {
                s: b.emit_arg(Op::Jump, 0).patch_all(g.fails, g.fails.len()).pop_block(),
                ends: a.ends.push(b.pos()),
                ok: a.ok && c.ok,
            },
        )
    }
}

/// Compile the array elements from `i` up to `j`.
pub open spec fn items_from(es: Seq<ArrayElement>, i: nat, j: nat, s: State) -> State
    decreases
            es,
            (if i < es.len() {
                es.len() - i
            } else {
                0
            }),
{
    if i >= j || i >= es.len() {
        s
    } else {
        items_from(
            es,
            i + 1,
            j,
            match es[i as int] {
                ArrayElement::Item { value, faults } => expr(value, s).misfit(faults@),
                ArrayElement::Spread { .. } => s,
            },
        )
    }
}

/// Compile an array literal.
pub open spec fn array(es: Seq<ArrayElement>, s: State) -> State
    decreases es, 2 * es.len() + 5,
{
    array_body(es, s)
}

/// What [`array`] amounts to.
#[verifier::opaque]
pub open spec fn array_body(es: Seq<ArrayElement>, s: State) -> State
    decreases es, 2 * es.len() + 4,
{
    if has_spread(es, 0) {
        groups_from(es, 0, false, s)
    } else {
        items_from(es, 0, es.len(), s).emit_arg(Op::MakeArray, es.len() as i32)
    }
}

/// What one step through an array literal with spreads leaves: the place to go on
/// from, whether there is an array on the stack, and the state.
pub struct Group {
    pub next: nat,
    pub have: bool,
    pub s: State,
}

/// Compile the spread at place `i`.
pub open spec fn spread_group(
    expression: Option<Expr>,
    faults: Seq<TypeFault>,
    span: Span,
    i: nat,
    have: bool,
    s: State,
) -> Group
    decreases expression, 0nat,
{
    match expression {
        None => Group { next: i + 1, have, s: s.error(Message::SpreadWithoutValue, span) },
        Some(inner) => {
            let t = expr(inner, s).misfit(faults);
            Group {
                next: i + 1,
                have: true,
                s: if have {
                    t.emit(Op::ArrayConcat)
                } else {
                    t
                },
            }
        },
    }
}

/// Compile the run of elements from `i` to `j`: it is appended to the array that is
/// there, put in front of the spread behind it, or makes up an array of its own.
pub open spec fn run_group(es: Seq<ArrayElement>, i: nat, j: nat, have: bool, s: State) -> Group
    decreases es, es.len() + 1,
{
    let t = items_from(es, i, j, s);
    let count = (j - i) as i32;
    if have {
        Group { next: j, have: true, s: t.emit_arg(Op::Append, count) }
    } else if j < es.len() {
        match es[j as int] {
            ArrayElement::Spread { expression: Some(inner), faults, .. } => Group {
                next: j + 1,
                have: true,
                s: expr(inner, t).misfit(faults@).emit_arg(Op::Prepend, count),
            },
            _ => Group { next: j, have: true, s: t.emit_arg(Op::MakeArray, count) },
        }
    } else {
        Group { next: j, have: true, s: t.emit_arg(Op::MakeArray, count) }
    }
}

/// Compile the spread or the run of elements at `i`.
pub open spec fn group(es: Seq<ArrayElement>, i: nat, have: bool, s: State) -> Group
    decreases es, es.len() + 2,
{
    match es[i as int] {
        ArrayElement::Spread { expression, faults, span } => if i < es.len() {
            spread_group(expression, faults@, span, i, have, s)
        } else {
            Group { next: i, have, s }
        },
        ArrayElement::Item { .. } => if i < item_run(es, i) <= es.len() {
            run_group(es, i, item_run(es, i), have, s)
        } else {
            Group { next: i, have, s }
        },
    }
}

/// Compile an array literal with spreads from `i` on; `have` says whether there
/// is an array on the stack already.
pub open spec fn groups_from(es: Seq<ArrayElement>, i: nat, have: bool, s: State) -> State
    decreases es, es.len() + 3 + (es.len() - i),
{
    if i >= es.len() {
        if have {
            s
        } else {
            s.emit_arg(Op::MakeArray, 0)
        }
    } else {
        let g = group(es, i, have, s);
        if i < g.next <= es.len() {
            groups_from(es, g.next, g.have, g.s)
        } else {
            g.s
        }
    }
}

/// Compile a call.
pub open spec fn call(c: CallExpr, tail: bool, s: State) -> State
    decreases c, 1nat,
{
    call_body(c, tail, s)
}

/// What [`call`] amounts to.
#[verifier::opaque]
pub open spec fn call_body(c: CallExpr, tail: bool, s: State) -> State
    decreases c, 0nat,
{
    let (r, callee) = s.callee(*c.callee);
    let t = match callee {
        Some((id, b, _)) => r.record(None, id, b.doc),
        None => r,
    };
    match callee {
        Some((id, b, access)) => match b.kind {
            ValueKind::Constructor { ty_name, type_id, arity, labels, .. } => ctor_call(
                CtorView {
                    type_id,
                    ty_name,
                    shape: CtorShape { name: id.name, arity: arity as usize, labels },
                },
                c.args@,
                c.span,
                t,
            ),
            ValueKind::Builtin { key } => positional(c.shape, c.args@, c.span, t).builtin(
                key,
                c.span,
            ),
            _ => {
                let u = positional(c.shape, c.args@, c.span, t);
                let general = if tail {
                    Op::TailCall
                } else {
                    Op::Call
                };
                match access {
                    Some(VarAccess::Self_) => u.emit_arg(
                        if tail {
                            Op::TailCallSelf
                        } else {
                            Op::CallSelf
                        },
                        c.args@.len() as i32,
                    ),
                    Some(a) => u.load(a).emit_arg(general, c.args@.len() as i32),
                    None => u.no_binding(id.name, None, id.span).emit_arg(
                        general,
                        c.args@.len() as i32,
                    ),
                }
            },
        },
        None => {
            let u = expr(*c.callee, t);
            let v = positional(c.shape, c.args@, c.span, u.spill());
            v.emit_arg(Op::PushLocal, u.next_slot()).emit_arg(
                if tail {
                    Op::TailCall
                } else {
                    Op::Call
                },
                c.args@.len() as i32,
            )
        },
    }
}

/// Compile positional arguments. Labels and spreads are reported, unless the
/// callee is no function at all.
pub open spec fn positional(shape: CalleeShape, args: Seq<CallArg>, span: Span, s: State) -> State
    decreases args, args.len() + 1 + 1,
{
    positional_body(shape, args, span, s)
}

/// What [`positional`] amounts to.
#[verifier::opaque]
pub open spec fn positional_body(shape: CalleeShape, args: Seq<CallArg>, span: Span, s: State) -> State
    decreases args, args.len() + 1,
{
    match shape {
        CalleeShape::Fits => args_from(args, 0, true, s),
        CalleeShape::Arity { expected } => args_from(
            args,
            0,
            true,
            s.error(Message::ArgumentCount { expected, given: args.len() as usize }, span),
        ),
        CalleeShape::NotFn { ty } => args_from(
            args,
            0,
            false,
            s.error(Message::NotCallable { ty }, span),
        ),
    }
}

/// Compile arguments from `i` on.
pub open spec fn args_from(args: Seq<CallArg>, i: nat, strict: bool, s: State) -> State
    decreases args, args.len() - i,
{
    if i >= args.len() {
        s
    } else {
        args_from(
            args,
            i + 1,
            strict,
            match args[i as int] {
                CallArg::Positional { value: e, .. } => expr(e, s),
                CallArg::Labeled { label, value, .. } => expr(
                    value,
                    if strict {
                        s.error(Message::LabelledArgument, label.span)
                    } else {
                        s
                    },
                ),
                CallArg::Spread { value: e, .. } => expr(
                    e,
                    if strict {
                        s.error(Message::SpreadArgument, span_of(e))
                    } else {
                        s
                    },
                ),
            }.misfit(
                if strict {
                    arg_faults(args[i as int])
                } else {
                    Seq::empty()
                },
            ),
        )
    }
}

/// A record update under way: the state, and the slot of the value that is updated.
pub struct Base {
    pub s: State,
    pub slot: Option<i32>,
}

/// Compile the value that a constructor call updates, into a slot.
pub open spec fn update_base(args: Seq<CallArg>, spread: Option<int>, s: State) -> Base
    decreases args, 1nat,
{
    update_base_body(args, spread, s)
}

/// What [`update_base`] amounts to.
#[verifier::opaque]
pub open spec fn update_base_body(args: Seq<CallArg>, spread: Option<int>, s: State) -> Base
    decreases args, 0nat,
{
    match spread {
        Some(k) => if 0 <= k < args.len() {
            match args[k] {
                CallArg::Spread { value: e, faults } => {
                    let t = expr(e, s).misfit(faults@);
                    Base { s: t.spill(), slot: Some(t.next_slot()) }
                },
                _ => Base { s, slot: None },
            }
        } else {
            Base { s, slot: None }
        },
        None => Base { s, slot: None },
    }
}

/// Compile a constructor call. The arguments are taken in field order; fields
/// that a spread stands in for are projected out of it.
pub open spec fn ctor_call(v: CtorView, args: Seq<CallArg>, span: Span, s: State) -> State
    decreases args, 65538nat,
{
    ctor_call_body(v, args, span, s)
}

/// What [`ctor_call`] amounts to.
#[verifier::opaque]
pub open spec fn ctor_call_body(v: CtorView, args: Seq<CallArg>, span: Span, s: State) -> State
    decreases args, 65537nat,
{
    let spread = last_spread(args, args.len());
    let t = slotted(
        s.report_spreads(args, args.len()),
        v.shape,
        true,
        call_keys(args, args.len()),
        if spread is Some {
            None
        } else {
            Some(MissingReport { span, in_pattern: false })
        },
    );
    let u = update_base(args, spread, t.s).s;
    let base = update_base(args, spread, t.s).slot;
    if v.shape.arity == 0 && u.is_bool(v.type_id) {
        u.bool_value(v.shape.name)
    } else {
        let known = slice_of(u.labels, v.shape.labels).len();
        let h = u.construct_header(v.type_id, v.ty_name, v.shape.name, v.shape.labels);
        payload_from(
            args,
            t.by_pos,
            0,
            known,
            base,
            h.pool(ConstView::NameHash { ty_name: v.ty_name, variant: v.shape.name }),
        ).emit_b(Op::MakeEnumPayload, v.shape.arity as u16, h.pool_index())
    }
}

/// Push the payload of a constructor from field `i` on, for the first `known`
/// fields.
pub open spec fn payload_from(
    args: Seq<CallArg>,
    by_pos: Seq<Option<usize>>,
    i: nat,
    known: nat,
    base: Option<i32>,
    s: State,
) -> State
    decreases args, known - i,
{
    if i >= by_pos.len() || i >= known {
        s
    } else {
        match by_pos[i as int] {
            Some(k) => if k < args.len() {
                payload_from(
                    args,
                    by_pos,
                    i + 1,
                    known,
                    base,
                    match args[k as int] {
                        CallArg::Positional { value: e, .. } => expr(e, s),
                        CallArg::Labeled { value, .. } => expr(value, s),
                        CallArg::Spread { value: e, .. } => expr(e, s),
                    }.misfit(arg_faults(args[k as int])),
                )
            } else {
                s
            },
            None => payload_from(
                args,
                by_pos,
                i + 1,
                known,
                base,
                match base {
                    Some(slot) => s.emit_arg(Op::PushLocal, slot).emit_arg(Op::GetField, i as i32),
                    None => s.nil(),
                },
            ),
        }
    }
}

/// Compile a property access: a module member, a tuple element, or a field.
pub open spec fn property(pa: PropertyExpr, s: State) -> State
    decreases pa, 1nat,
{
    property_body(pa, s)
}

/// What [`property`] amounts to.
#[verifier::opaque]
pub open spec fn property_body(pa: PropertyExpr, s: State) -> State
    decreases pa, 0nat,
{
    let (t, q) = s.qualified(pa);
    match q {
        QualifiedView::LookupFailed => t.nil(),
        QualifiedView::Resolved { module, member, binding, slot } => t.record(
            None,
            member,
            None,
        ).named_value(
            member.name,
            Some(module),
            member.span,
            binding.kind,
            State::slot_access(slot),
        ),
        QualifiedView::NotQualified => {
            let u = expr(*pa.left, t);
            match *pa.right {
                Expr::Number(n) => match i64_of(u.text(n.text)) {
                    Some(i) => if i32::MIN <= i <= i32::MAX {
                        u.tuple_index(pa.receiver, i as i32, n.span)
                    } else {
                        u.error(Message::TupleIndexNotInt { text: n.text }, n.span)
                    },
                    None => u.error(Message::TupleIndexNotInt { text: n.text }, n.span),
                },
                Expr::Name { id, .. } => u.field(pa.receiver, id, pa.faults@),
                _ => u.error(Message::BadProperty, span_of(*pa.right)),
            }
        },
    }
}

impl State {
    /// Take an element out of a tuple.
    #[verifier::opaque]
    pub open spec fn tuple_index(self, receiver: Receiver, index: i32, span: Span) -> State {
        let s = self.emit_arg(Op::TupleIndex, index);
        match receiver.shape {
            TypeShape::Tuple { len } => if 0 <= index < len {
                s
            } else {
                s.error(Message::TupleIndexRange { index, len }, span)
            },
            _ => s.error(Message::NotATuple { index }, span),
        }
    }
}

/// What failing means for the left side of an `or`.
pub enum OrFailure {
    /// An absent value, with nothing to bind.
    Absent { id: TypeId },
    /// An error, with a payload.
    Error { id: TypeId },
    /// The left side cannot fail.
    Never,
}

impl State {
    /// What failing means for a value of a type.
    #[verifier::opaque]
    pub open spec fn or_failure(self, left: Receiver) -> OrFailure {
        match (left.shape, self.known.prelude) {
            (TypeShape::Con { id, .. }, Some(p)) => if same_type(p.option.id, id) {
                OrFailure::Absent { id: p.option.id }
            } else if same_type(p.result.id, id) {
                OrFailure::Error { id: p.result.id }
            } else {
                OrFailure::Never
            },
            _ => OrFailure::Never,
        }
    }
}

/// Compile an `or`. Indexing an array falls through to the recovery directly,
/// without building an optional value.
pub open spec fn or_expr(o: OrExpr, s: State) -> State
    decreases o, 3nat,
{
    match (o.receiver, *o.expression) {
        (None, Expr::Index { array, array_faults, index, index_faults, .. }) => if *index is Range {
            or_general(o, s)
        } else {
            let t = expr(*index, expr(*array, s).misfit(array_faults@)).misfit(index_faults@);
            let u = t.emit_arg(Op::IndexOrElse, 0);
            let v = u.emit_arg(Op::Jump, 0).patch(t.pos() as int).push_block();
            expr(*o.body, v).pop_block().patch(u.pos() as int).misfit(o.body_faults@)
        },
        _ => or_general(o, s),
    }
}

/// Compile an `or` on any optional value or result.
pub open spec fn or_general(o: OrExpr, s: State) -> State
    decreases o, 1nat,
{
    or_general_body(o, s)
}

/// What [`or_general`] amounts to.
#[verifier::opaque]
pub open spec fn or_general_body(o: OrExpr, s: State) -> State
    decreases o, 0nat,
{
    let t = expr(*o.expression, s);
    match t.or_failure(o.left) {
        OrFailure::Never => expr(
            *o.body,
            t.error(Message::OrOperand { ty: o.left.text }, span_of(*o.expression)).push_block(),
        ).emit(Op::Pop).pop_block(),
        OrFailure::Absent { id } => {
            let u = match o.receiver {
                Some(r) => t.error(Message::OrBindsNothing, r.span),
                None => t,
            }.misfit(o.left_faults@);
            or_recover(
                *o.body,
                o.body_faults@,
                u.or_test(id, u.world.none_name).pos(),
                u.or_test(id, u.world.none_name).emit_arg(Op::JumpIfFalse, 0).push_block().emit(
                    Op::Pop,
                ),
            )
        },
        OrFailure::Error { id } => {
            let u = t.misfit(o.left_faults@).or_test(id, t.world.err_name);
            let v = u.emit_arg(Op::JumpIfFalse, 0).push_block().emit(Op::UnwrapEnum);
            or_recover(
                *o.body,
                o.body_faults@,
                u.pos(),
                match o.receiver {
                    Some(r) => v.store_name(r.name).register(r, None),
                    None => v.emit(Op::Pop),
                },
            )
        },
    }
}

impl State {
    /// Test whether the value on top of the stack has failed, keeping it.
    pub open spec fn or_test(self, id: TypeId, variant: StrId) -> State {
        self.emit(Op::Dup).match_header(id, variant).emit(Op::MatchEnum)
    }
}

/// The recovery of an `or`, and behind it the success, which `skip` jumps to.
pub open spec fn or_recover(body: Expr, faults: Seq<TypeFault>, skip: usize, s: State) -> State
    decreases body, 2nat,
{
    let t = expr(body, s).pop_block().misfit(faults);
    t.emit_arg(Op::Jump, 0).patch(skip as int).emit(Op::UnwrapEnum).patch(t.pos() as int)
}

/// Compile a binary literal. One that is literal throughout is a constant; any
/// other is put together from its segments.
pub open spec fn binary_literal(segs: Seq<BinSegment>, s: State) -> State
    decreases segs, segs.len() + 1 + 1,
{
    binary_literal_body(segs, s)
}

/// What [`binary_literal`] amounts to.
#[verifier::opaque]
pub open spec fn binary_literal_body(segs: Seq<BinSegment>, s: State) -> State
    decreases segs, segs.len() + 1,
{
    match folded(s.world.names@, segs, segs.len()) {
        Some(bits) => s.push_const(
            ConstView::Binary { bytes: packed(bits), bit_len: bits.len() as u64 },
        ),
        None => {
            let t = literal_segments_from(segs, 0, s);
            if segs.len() > 1 {
                t.emit_arg(Op::BinConcatN, segs.len() as i32)
            } else {
                t
            }
        },
    }
}

/// Compile the segments of a binary literal from `i` on.
pub open spec fn literal_segments_from(segs: Seq<BinSegment>, i: nat, s: State) -> State
    decreases segs, segs.len() - i,
{
    if i >= segs.len() {
        s
    } else {
        literal_segments_from(segs, i + 1, literal_segment(segs[i as int], s))
    }
}

/// Compile one segment of a binary literal to a piece of a binary.
pub open spec fn literal_segment(seg: BinSegment, s: State) -> State
    decreases seg, 3nat,
{
    literal_segment_body(seg, s)
}

/// What [`literal_segment`] amounts to.
#[verifier::opaque]
pub open spec fn literal_segment_body(seg: BinSegment, s: State) -> State
    decreases seg, 2nat,
{
    let t = expr(seg.value, s).misfit(seg.value_faults@);
    match seg.kind {
        BinKind::Int => segment_size(seg, 8, t).emit(Op::BinFromInt),
        BinKind::Binary => if seg.size is Some {
            segment_size(seg, 0, t).emit(Op::BinTake)
        } else {
            t
        },
        BinKind::Utf8 => t.emit(Op::BinFromString),
    }
}

/// Push the width of a segment in bits; without a size it is `default`.
pub open spec fn segment_size(seg: BinSegment, default: i64, s: State) -> State
    decreases seg, 1nat,
{
    match seg.size {
        None => s.push_int(default),
        Some(e) => {
            let t = expr(e, s).misfit(seg.size_faults@);
            if seg.unit == BinUnit::Bytes {
                t.push_int(8).emit(Op::Mul)
            } else {
                t
            }
        },
    }
}

/// Compile a declared function: the body and the closure over it.
pub open spec fn declared_function(
    name: StrId,
    params: Seq<Ident>,
    body: Expr,
    faults: Seq<TypeFault>,
    s: State,
) -> State {
    let t = s.enter(Some(name)).bind_idents(params, params.len());
    expr(body, t).misfit(faults).finish(s.frame(), s.text(name), params.len() as i32)
}

} // verus!

//! Compiling the leaves of expressions: names, constructors, builtins, fields
//! and module members.
use crate::ast::{
    Expr, Ident, NumberLiteral, Pattern, PropertyExpr, Receiver, Span, StrId, TypeFault, TypeShape,
};
use crate::diag::{ArenaSlice, Message};
use crate::gen::{field_place, label_place, CtorView, QualifiedView};
use crate::literal::number_literal_value;
use crate::op::{builtin_op, Const, ConstView, Function, Op};
use crate::prelude_bindings::TypeId;
use crate::refs::{DefinitionLocation, ReferenceKind};
use crate::slots::{entries_of, CtorShape};
use crate::state::{Binding, Compiler, ExportedValue, State, ValueKind, VarAccess, VariantInfo};
use vstd::prelude::*;
use vstd::string::*;

verus! {

broadcast use vstd::std_specs::hash::group_hash_axioms;

/// What `module.member` resolves to.
#[derive(Debug, Clone, Copy, PartialEq, Eq, Structural)]
pub enum QualifiedMember {
    /// Not a qualified member at all.
    NotQualified,
    /// A qualified member that its module does not offer; it has been reported.
    LookupFailed,
    /// A member, with its slot in the entry frame if it has one.
    Resolved { module: StrId, member: Ident, binding: Binding, slot: Option<i32> },
}

impl View for QualifiedMember {
    type V = QualifiedView;

    open spec fn view(&self) -> QualifiedView {
        match *self {
            QualifiedMember::NotQualified => QualifiedView::NotQualified,
            QualifiedMember::LookupFailed => QualifiedView::LookupFailed,
            QualifiedMember::Resolved { module, member, binding, slot } => QualifiedView::Resolved {
                module,
                member,
                binding,
                slot,
            },
        }
    }
}

/// A constructor by its name.
#[derive(Debug, Clone, Copy, PartialEq, Eq, Structural)]
pub struct CtorInfo {
    pub type_id: TypeId,
    pub ty_name: StrId,
    pub shape: CtorShape,
}

impl View for CtorInfo {
    type V = CtorView;

    open spec fn view(&self) -> CtorView {
        CtorView { type_id: self.type_id, ty_name: self.ty_name, shape: self.shape }
    }
}

fn find_label(labels: &Vec<StrId>, label: StrId) -> (res: Option<usize>)
    ensures
        res == label_place(labels@, 0, label),
{
    let mut i: usize = 0;
    while i < labels.len()
        invariant
            i <= labels.len(),
            label_place(labels@, 0, label) == label_place(labels@, i as nat, label),
        decreases labels.len() - i,
    {
        if labels[i] == label {
            return Some(i);
        }
        i = i + 1;
    }
    None
}

proof fn lemma_field_fault_stays(
    labels: Seq<StrId>,
    variants: Seq<VariantInfo>,
    i: nat,
    n: nat,
    ty: StrId,
    field: StrId,
)
    requires
        i <= n,
        field_place(labels, variants, i, ty, field) is Err,
    ensures
        field_place(labels, variants, n, ty, field) == field_place(labels, variants, i, ty, field),
    decreases n,
{
    if i < n {
        lemma_field_fault_stays(labels, variants, i, (n - 1) as nat, ty, field);
    }
}

/// Where all variants of a type have a field.
pub fn shared_field(
    labels: &Vec<StrId>,
    variants: &Vec<VariantInfo>,
    ty: StrId,
    field: StrId,
) -> (res: Result<Option<usize>, Message>)
    ensures
        res == field_place(labels@, variants@, variants@.len(), ty, field),
{
    let mut place: Option<usize> = None;
    let mut n: usize = 0;
    while n < variants.len()
        invariant
            n <= variants.len(),
            field_place(labels@, variants@, n as nat, ty, field) == Ok::<Option<usize>, Message>(place),
        decreases variants.len() - n,
    {
        let v: VariantInfo = variants[n];
        proof {
            if field_place(labels@, variants@, (n + 1) as nat, ty, field) is Err {
                lemma_field_fault_stays(labels@, variants@, (n + 1) as nat, variants@.len(), ty, field);
            }
        }
        match find_label(&entries_of(labels, v.labels), field) {
            None => {
                return Err(Message::FieldMissing { field, ty, variant: v.name });
            },
            Some(i) => {
                if let Some(prev) = place {
                    if prev != i {
                        return Err(
                            Message::FieldMoves {
                                field,
                                ty,
                                at: i,
                                variant: v.name,
                                expected: prev,
                            },
                        );
                    }
                }
                place = Some(i);
            },
        }
        n = n + 1;
    }
    Ok(place)
}

impl Compiler {
    /// Push the nil value.
    pub fn emit_nil(&mut self)
        ensures
            final(self)@ == old(self)@.nil(),
    {
        self.emit(Op::PushNil);
    }

    /// Push the boolean that a constructor's name stands for.
    fn emit_bool(&mut self, variant: StrId)
        ensures
            final(self)@ == old(self)@.bool_value(variant),
    {
        if self.world().names.is(variant, "True") {
            self.emit(Op::PushTrue);
        } else {
            self.emit(Op::PushFalse);
        }
    }

    /// Push a boolean constructor as the unboxed value it is at run time. Returns
    /// whether the type is the boolean one.
    pub fn try_emit_bool_value(&mut self, id: TypeId, variant: StrId) -> (res: bool)
        ensures
            res == old(self)@.is_bool(id),
            final(self)@ == (if res {
                old(self)@.bool_value(variant)
            } else {
                old(self)@
            }),
    {
        proof {
            reveal(State::is_bool);
        }
        let known: bool = match self.prelude_bindings() {
            Some(p) => p.bool.is(id),
            None => false,
        };
        if known {
            self.emit_bool(variant);
        }
        known
    }

    /// Push what a value is built from beneath its payload.
    pub fn emit_construct_header(
        &mut self,
        id: TypeId,
        ty_name: StrId,
        variant: StrId,
        labels: ArenaSlice,
    )
        ensures
            final(self)@ == old(self)@.construct_header(id, ty_name, variant, labels),
    {
        proof {
            reveal(State::construct_header);
        }
        self.push_int(id.0 as i64);
        self.push_const(Const::Str(ty_name));
        self.push_const(Const::Str(variant));
        self.push_const(Const::Labels(labels));
    }

    /// Push what a value is built from, and pool the hash of its names, which
    /// construction reads from the pool.
    pub fn emit_construct_header_for_build(
        &mut self,
        id: TypeId,
        ty_name: StrId,
        variant: StrId,
        labels: ArenaSlice,
    ) -> (hash: i32)
        ensures
            ({
                let h = old(self)@.construct_header(id, ty_name, variant, labels);
                final(self)@ == h.pool(ConstView::NameHash { ty_name, variant }) && hash
                    == h.pool_index()
            }),
    {
        proof {
            reveal(State::construct_header);
        }
        self.emit_construct_header(id, ty_name, variant, labels);
        self.add_constant(Const::NameHash { ty_name, variant })
    }

    /// Push what a value is matched against.
    pub fn emit_match_header(&mut self, id: TypeId, variant: StrId)
        ensures
            final(self)@ == old(self)@.match_header(id, variant),
    {
        proof {
            reveal(State::match_header);
        }
        self.push_int(id.0 as i64);
        self.push_const(Const::Str(variant));
    }

    /// The value of a numeric literal; one without a value is reported and
    /// stands for a zero.
    pub fn const_number(&mut self, n: NumberLiteral) -> (res: Const)
        ensures
            final(self)@ == old(self)@.number(n).0,
            res@ == old(self)@.number(n).1,
    {
        proof {
            reveal(State::number);
        }
        match number_literal_value(&self.world().names, n.text) {
            Ok(c) => c,
            Err(e) => {
                self.error(e.message(n.text), n.span);
                e.recovery()
            },
        }
    }

    /// Push a numeric literal.
    pub fn push_number(&mut self, n: NumberLiteral)
        ensures
            final(self)@ == old(self)@.push_number(n),
    {
        proof {
            reveal(State::push_number);
        }
        let c: Const = self.const_number(n);
        self.push_const(c);
    }

    /// Push the bound of a range pattern.
    pub fn emit_range_bound(&mut self, p: &Pattern)
        ensures
            final(self)@ == old(self)@.range_bound(*p),
    {
        proof {
            reveal(State::range_bound);
        }
        match p {
            Pattern::Number { literal: n, .. } => self.push_number(*n),
            _ => self.push_int(0),
        }
    }

    /// Push a constructor with fields as a function value.
    pub fn emit_ctor_closure(
        &mut self,
        id: TypeId,
        ty_name: StrId,
        variant: StrId,
        labels: ArenaSlice,
        arity: u16,
    )
        ensures
            final(self)@ == old(self)@.ctor_closure(id, ty_name, variant, labels, arity),
    {
        proof {
            reveal(State::ctor_closure);
        }
        if self.is_check_only() {
            return;
        }
        let jump_over: usize = self.emit_jump(Op::Jump);
        let func_start: i32 = self.current_addr();
        let hash: i32 = self.emit_construct_header_for_build(id, ty_name, variant, labels);
        let ghost s = self@;
        proof {
            reveal(State::push_params);
        }
        let mut i: u16 = 0;
        while i < arity
            invariant
                i <= arity,
                self@ == s.push_params(i as nat),
            decreases arity - i,
        {
            proof {
                reveal(State::push_params);
            }
            self.emit_arg(Op::PushLocal, i as i32);
            i = i + 1;
        }
        self.emit_b(Op::MakeEnumPayload, arity, hash);
        self.emit(Op::Ret);
        self.patch_jump(jump_over);
        let here: i32 = self.current_addr();
        let name: String = String::from_str(self.world().names.text(ty_name)).concat(".").concat(
            self.world().names.text(variant),
        );
        self.add_function(
            Function {
                name,
                arity: arity as i32,
                locals: arity as i32,
                capture_count: 0,
                code_start: func_start,
                code_len: here.wrapping_sub(func_start),
            },
        );
        let func_idx: i32 = self.last_function();
        self.emit_arg(Op::MakeClosure, func_idx);
    }

    /// Push a constructor as a value.
    pub fn emit_ctor_as_value(
        &mut self,
        id: TypeId,
        ty_name: StrId,
        variant: StrId,
        labels: ArenaSlice,
        arity: u16,
    )
        ensures
            final(self)@ == old(self)@.ctor_value(id, ty_name, variant, labels, arity),
    {
        proof {
            reveal(State::ctor_value);
        }
        if arity == 0 {
            if self.try_emit_bool_value(id, variant) {
                return;
            }
            let hash: i32 = self.emit_construct_header_for_build(id, ty_name, variant, labels);
            self.emit_b(Op::MakeEnumPayload, 0, hash);
        } else {
            self.emit_ctor_closure(id, ty_name, variant, labels, arity);
        }
    }

    /// Report a name without a value, and push nil in its place.
    pub fn no_runtime_binding(&mut self, name: StrId, module: Option<StrId>, span: Span)
        ensures
            final(self)@ == old(self)@.no_binding(name, module, span),
    {
        proof {
            reveal(State::no_binding);
        }
        let message: Message = match module {
            Some(module) => Message::NoBindingIn { name, module },
            None => Message::NoBinding { name },
        };
        self.error(message, span);
        self.emit_nil();
    }

    /// Report a builtin that is not called, and push nil in its place.
    pub fn error_builtin_as_value(&mut self, name: StrId, span: Span)
        ensures
            final(self)@ == old(self)@.error(Message::BuiltinAsValue { name }, span).nil(),
    {
        self.error(Message::BuiltinAsValue { name }, span);
        self.emit_nil();
    }

    /// Push what a name stands for.
    pub fn emit_named_value(
        &mut self,
        name: StrId,
        module: Option<StrId>,
        span: Span,
        kind: ValueKind,
        access: Option<VarAccess>,
    )
        ensures
            final(self)@ == old(self)@.named_value(name, module, span, kind, access),
    {
        proof {
            reveal(State::named_value);
        }
        match kind {
            ValueKind::Constructor { ty_name, type_id, arity, labels, .. } => {
                self.emit_ctor_as_value(type_id, ty_name, name, labels, arity)
            },
            ValueKind::Builtin { .. } => self.error_builtin_as_value(name, span),
            _ => match access {
                Some(a) => self.emit_load(a),
                None => self.no_runtime_binding(name, module, span),
            },
        }
    }

    /// How a name of a kind is loaded. Constructors and builtins are not loaded
    /// from a variable.
    pub fn value_load(&mut self, name: StrId, kind: ValueKind) -> (res: Option<VarAccess>)
        ensures
            final(self)@ == old(self)@.value_resolve(name, kind),
            res == old(self)@.value_access(name, kind),
    {
        match kind {
            ValueKind::Local => self.resolve_variable(name),
            ValueKind::ModuleFn => self.resolve_variable(name),
            _ => None,
        }
    }

    /// Push what an identifier stands for.
    pub fn compile_identifier(&mut self, id: Ident, near: Option<StrId>)
        ensures
            final(self)@ == old(self)@.identifier(id, near),
    {
        proof {
            reveal(State::identifier);
        }
        match self.lookup(id.name) {
            None => {
                let message: Message = match near {
                    Some(near) => Message::UnknownNameNear { name: id.name, near },
                    None => Message::UnknownName { name: id.name },
                };
                self.error(message, id.span);
                self.emit_nil();
            },
            Some(b) => {
                self.record(None, id, b.doc);
                self.record_value_use(b.def, id.span, ReferenceKind::Unqualified);
                let access: Option<VarAccess> = self.value_load(id.name, b.kind);
                self.emit_named_value(id.name, None, id.span, b.kind, access);
            },
        }
    }

    /// Run a builtin.
    pub fn emit_builtin_op(&mut self, key: StrId, span: Span)
        ensures
            final(self)@ == old(self)@.builtin(key, span),
    {
        proof {
            reveal(State::builtin);
        }
        if self.world().names.is(key, "println") {
            self.emit(Op::Print);
            self.emit_nil();
        } else {
            let found: Option<Op> = builtin_op(self.world().names.text(key));
            match found {
                Some(o) => self.emit(o),
                None => self.error(Message::NoCodegen { op: key }, span),
            }
        }
    }

    /// Give up on a field: report it, drop the receiver, and push nil.
    pub fn field_access_bail(&mut self, message: Message, span: Span)
        ensures
            final(self)@ == old(self)@.field_bail(message, span),
    {
        self.error(message, span);
        self.emit(Op::Pop);
        self.emit_nil();
    }

    /// Project a field out of a value. Which variant the value is of is not
    /// known, so every variant of its type must have the field, at one place.
    pub fn compile_field_access(
        &mut self,
        receiver: Receiver,
        field: Ident,
        faults: &Vec<TypeFault>,
    )
        ensures
            final(self)@ == old(self)@.field(receiver, field, faults@),
    {
        proof {
            reveal(State::field);
        }
        match receiver.shape {
            TypeShape::Con { id, name } => {
                proof {
                    reveal(Compiler::model);
                }
                let def: Option<DefinitionLocation> = self.field_def(name, field.name);
                let mut compared: bool = false;
                let found: Result<Option<usize>, Message> = match self.infos.get(&id.0) {
                    None => Err(Message::NoField { ty: name, field: field.name }),
                    Some(info) => match info.variants {
                        None => Err(Message::NoFields { ty: name }),
                        Some(variants) => {
                            compared = true;
                            shared_field(
                                &self.labels,
                                &entries_of(&self.variants, variants),
                                name,
                                field.name,
                            )
                        },
                    },
                };
                if compared {
                    self.misfit(faults);
                }
                match found {
                    Err(m) => self.field_access_bail(m, field.span),
                    Ok(place) => {
                        let at: i32 = match place {
                            Some(i) => i as i32,
                            None => 0,
                        };
                        self.emit_arg(Op::GetField, at);
                        self.record(Some(name), field, None);
                        self.record_value_use(def, field.span, ReferenceKind::Unqualified);
                    },
                }
            },
            TypeShape::Var => self.field_access_bail(
                Message::FieldOfUnknown { field: field.name },
                field.span,
            ),
            _ => self.field_access_bail(
                Message::NoField { ty: receiver.text, field: field.name },
                field.span,
            ),
        }
    }

    /// Take an element out of a tuple.
    pub fn emit_tuple_index(&mut self, receiver: Receiver, index: i32, span: Span)
        ensures
            final(self)@ == old(self)@.tuple_index(receiver, index, span),
    {
        proof {
            reveal(State::tuple_index);
        }
        self.emit_arg(Op::TupleIndex, index);
        match receiver.shape {
            TypeShape::Tuple { len } => {
                if index < 0 || index as u32 >= len {
                    self.error(Message::TupleIndexRange { index, len }, span);
                }
            },
            _ => self.error(Message::NotATuple { index }, span),
        }
    }

    /// The value that a module exports under a name; one it does not offer is
    /// reported.
    pub fn lookup_module_member(&mut self, module: StrId, member: Ident) -> (res: Option<
        ExportedValue,
    >)
        ensures
            ({
                let (s, t) = (old(self)@, final(self)@);
                if !s.known.modules.dom().contains(module) {
                    res is None && t == s.error(Message::ModuleNotLoaded { module }, member.span)
                } else {
                    let iface = s.known.modules[module];
                    if iface.values.dom().contains(member.name) {
                        res == Some(iface.values[member.name]) && t == s
                    } else if iface.private_names.dom().contains(member.name) {
                        res is None && t == s.error(
                            Message::PrivateMember { member: member.name, module },
                            member.span,
                        )
                    } else {
                        res is None && t == s.error(
                            Message::NoMember { module, member: member.name },
                            member.span,
                        )
                    }
                }
            }),
    {
        proof {
            reveal(Compiler::model);
        }
        let fault: Message = match self.modules.get(&module) {
            None => Message::ModuleNotLoaded { module },
            Some(iface) => {
                if let Some(ev) = iface.values.get(&member.name) {
                    return Some(*ev);
                }
                if iface.private_names.contains_key(&member.name) {
                    Message::PrivateMember { member: member.name, module }
                } else {
                    Message::NoMember { module, member: member.name }
                }
            },
        };
        self.error(fault, member.span);
        None
    }

    /// Resolve a property access as a module member.
    pub fn resolve_qualified_member(&mut self, pa: &PropertyExpr) -> (res: QualifiedMember)
        ensures
            final(self)@ == old(self)@.qualified(*pa).0,
            res@ == old(self)@.qualified(*pa).1,
    {
        proof {
            reveal(State::qualified);
        }
        let (left, member): (Ident, Ident) = match (&*pa.left, &*pa.right) {
            (Expr::Name { id: left, .. }, Expr::Name { id: member, .. }) => (*left, *member),
            _ => {
                return QualifiedMember::NotQualified;
            },
        };
        proof {
            reveal(Compiler::model);
        }
        let module: StrId = match self.qualifiers.get(&left.name) {
            Some(m) => *m,
            None => {
                return QualifiedMember::NotQualified;
            },
        };
        match self.lookup_module_member(module, member) {
            None => QualifiedMember::LookupFailed,
            Some(ev) => {
                self.record_value_use(ev.binding.def, member.span, ReferenceKind::Qualified);
                QualifiedMember::Resolved { module, member, binding: ev.binding, slot: ev.slot }
            },
        }
    }

    /// The name, binding and load of a callee that is a plain or qualified name.
    pub fn resolve_simple_callee(&mut self, callee: &Expr) -> (res: Option<
        (Ident, Binding, Option<VarAccess>),
    >)
        ensures
            final(self)@ == old(self)@.callee(*callee).0,
            res == old(self)@.callee(*callee).1,
    {
        proof {
            reveal(State::callee);
        }
        match callee {
            Expr::Name { id, .. } => match self.lookup(id.name) {
                None => None,
                Some(b) => {
                    let access: Option<VarAccess> = self.value_load(id.name, b.kind);
                    self.record_value_use(b.def, id.span, ReferenceKind::Unqualified);
                    Some((*id, b, access))
                },
            },
            Expr::Property(pa) => match self.resolve_qualified_member(pa) {
                QualifiedMember::Resolved { member, binding, slot, .. } => {
                    let access: Option<VarAccess> = match slot {
                        Some(i) => Some(VarAccess::Global(i)),
                        None => None,
                    };
                    Some((member, binding, access))
                },
                _ => None,
            },
            _ => None,
        }
    }

    /// The constructor a name denotes.
    pub fn lookup_ctor(&self, name: StrId) -> (res: Option<CtorInfo>)
        ensures
            match res {
                Some(v) => self@.ctor(name) == Some(v@) && v.shape.arity <= u16::MAX,
                None => self@.ctor(name) is None,
            },
    {
        match self.lookup(name) {
            Some(b) => match b.kind {
                ValueKind::Constructor { ty_name, type_id, arity, labels, .. } => Some(
                    CtorInfo {
                        type_id,
                        ty_name,
                        shape: CtorShape { name, arity: arity as usize, labels },
                    },
                ),
                _ => None,
            },
            None => None,
        }
    }
}

} // verus!

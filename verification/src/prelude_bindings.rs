//! Typed handles to every prelude type and constructor the compiler may know
//! about. Captured once after the prelude loads; every later identity check
//! compares against the ids here, never against a name. A prelude that drifted
//! from what is expected is reported by [`PreludeBindings::capture`].
use crate::numbers::{decimal_text, digits_of};
use vstd::prelude::*;
use vstd::string::*;

verus! {

/// A nominal type's identity. Zero is no type.
#[derive(Debug, Clone, Copy, PartialEq, Eq, Structural)]
pub struct TypeId(pub u32);

impl TypeId {
    /// The id that no type has.
    pub fn none() -> (res: TypeId)
        ensures
            res == TypeId(0),
    {
        TypeId(0)
    }
}

/// A captured prelude type.
#[derive(Debug, Clone, Copy)]
pub struct TypeRef {
    pub id: TypeId,
    pub name: &'static str,
}

/// Whether `id` is the type captured as `captured`. Nothing captured matches
/// nothing.
pub open spec fn same_type(captured: TypeId, id: TypeId) -> bool {
    id != TypeId(0) && id == captured
}

impl TypeRef {
    /// A binding that has not been captured.
    pub fn pending(name: &'static str) -> (res: TypeRef)
        ensures
            res.id == TypeId(0),
            res.name == name,
    {
        TypeRef { id: TypeId::none(), name }
    }

    /// Whether `id` is this prelude type. A pending binding never matches.
    pub fn is(&self, id: TypeId) -> (res: bool)
        ensures
            res == same_type(self.id, id),
    {
        id.0 != 0 && id.0 == self.id.0
    }
}

/// A captured prelude constructor.
#[derive(Debug, Clone, Copy)]
pub struct CtorRef {
    pub type_id: TypeId,
    pub variant_idx: u16,
    pub arity: u16,
}

impl CtorRef {
    /// A binding that has not been captured.
    pub fn zero() -> (res: CtorRef)
        ensures
            res == (CtorRef { type_id: TypeId(0), variant_idx: 0, arity: 0 }),
    {
        CtorRef { type_id: TypeId::none(), variant_idx: 0, arity: 0 }
    }

    /// Whether `(type_id, variant_idx)` is this prelude constructor. A pending
    /// binding never matches.
    pub fn is(&self, type_id: TypeId, variant_idx: u16) -> (res: bool)
        ensures
            res == (same_type(self.type_id, type_id) && variant_idx == self.variant_idx),
    {
        type_id.0 != 0 && type_id.0 == self.type_id.0 && variant_idx == self.variant_idx
    }
}

/// The prelude names, in the order in which they are captured: first the types.
#[derive(Debug, Clone, Copy, PartialEq, Eq, Structural)]
pub enum PreludeType {
    Int,
    Float,
    String,
    Bool,
    Array,
    Binary,
    Nil,
    Option,
    Result,
}

/// The prelude constructors, in the order in which they are captured.
#[derive(Debug, Clone, Copy, PartialEq, Eq, Structural)]
pub enum PreludeCtor {
    TrueCtor,
    FalseCtor,
    NilCtor,
    SomeCtor,
    NoneCtor,
    OkCtor,
    ErrCtor,
}

/// The name of a prelude type.
pub open spec fn type_name_of(t: PreludeType) -> &'static str {
    match t {
        PreludeType::Int => "Int",
        PreludeType::Float => "Float",
        PreludeType::String => "String",
        PreludeType::Bool => "Bool",
        PreludeType::Array => "Array",
        PreludeType::Binary => "Binary",
        PreludeType::Nil => "Nil",
        PreludeType::Option => "Option",
        PreludeType::Result => "Result",
    }
}

/// How many parameters a prelude type has.
pub open spec fn type_arity_of(t: PreludeType) -> usize {
    match t {
        PreludeType::Array => 1,
        PreludeType::Option => 1,
        PreludeType::Result => 2,
        _ => 0,
    }
}

/// The name of a prelude constructor.
pub open spec fn ctor_name_of(c: PreludeCtor) -> &'static str {
    match c {
        PreludeCtor::TrueCtor => "True",
        PreludeCtor::FalseCtor => "False",
        PreludeCtor::NilCtor => "Nil",
        PreludeCtor::SomeCtor => "Some",
        PreludeCtor::NoneCtor => "None",
        PreludeCtor::OkCtor => "Ok",
        PreludeCtor::ErrCtor => "Err",
    }
}

/// The type a prelude constructor belongs to.
pub open spec fn ctor_type_of(c: PreludeCtor) -> PreludeType {
    match c {
        PreludeCtor::TrueCtor => PreludeType::Bool,
        PreludeCtor::FalseCtor => PreludeType::Bool,
        PreludeCtor::NilCtor => PreludeType::Nil,
        PreludeCtor::SomeCtor => PreludeType::Option,
        PreludeCtor::NoneCtor => PreludeType::Option,
        PreludeCtor::OkCtor => PreludeType::Result,
        PreludeCtor::ErrCtor => PreludeType::Result,
    }
}

/// How many fields a prelude constructor has.
pub open spec fn ctor_arity_of(c: PreludeCtor) -> u16 {
    match c {
        PreludeCtor::SomeCtor => 1,
        PreludeCtor::OkCtor => 1,
        PreludeCtor::ErrCtor => 1,
        _ => 0,
    }
}

impl PreludeType {
    /// The type's name.
    pub fn name(self) -> (res: &'static str)
        ensures
            res == type_name_of(self),
    {
        match self {
            PreludeType::Int => "Int",
            PreludeType::Float => "Float",
            PreludeType::String => "String",
            PreludeType::Bool => "Bool",
            PreludeType::Array => "Array",
            PreludeType::Binary => "Binary",
            PreludeType::Nil => "Nil",
            PreludeType::Option => "Option",
            PreludeType::Result => "Result",
        }
    }

    /// How many parameters the type has.
    pub fn arity(self) -> (res: usize)
        ensures
            res == type_arity_of(self),
    {
        match self {
            PreludeType::Array => 1,
            PreludeType::Option => 1,
            PreludeType::Result => 2,
            _ => 0,
        }
    }
}

impl PreludeCtor {
    /// The constructor's name.
    pub fn name(self) -> (res: &'static str)
        ensures
            res == ctor_name_of(self),
    {
        match self {
            PreludeCtor::TrueCtor => "True",
            PreludeCtor::FalseCtor => "False",
            PreludeCtor::NilCtor => "Nil",
            PreludeCtor::SomeCtor => "Some",
            PreludeCtor::NoneCtor => "None",
            PreludeCtor::OkCtor => "Ok",
            PreludeCtor::ErrCtor => "Err",
        }
    }

    /// The type the constructor belongs to.
    pub fn of(self) -> (res: PreludeType)
        ensures
            res == ctor_type_of(self),
    {
        match self {
            PreludeCtor::TrueCtor => PreludeType::Bool,
            PreludeCtor::FalseCtor => PreludeType::Bool,
            PreludeCtor::NilCtor => PreludeType::Nil,
            PreludeCtor::SomeCtor => PreludeType::Option,
            PreludeCtor::NoneCtor => PreludeType::Option,
            PreludeCtor::OkCtor => PreludeType::Result,
            PreludeCtor::ErrCtor => PreludeType::Result,
        }
    }

    /// How many fields the constructor has.
    pub fn arity(self) -> (res: u16)
        ensures
            res == ctor_arity_of(self),
    {
        match self {
            PreludeCtor::SomeCtor => 1,
            PreludeCtor::OkCtor => 1,
            PreludeCtor::ErrCtor => 1,
            _ => 0,
        }
    }
}

/// What a name in scope denotes, as far as the prelude check reads it.
#[derive(Debug, Clone, Copy, PartialEq, Eq, Structural)]
pub enum ScopeValue {
    /// A data constructor.
    Constructor { type_id: TypeId, variant_idx: u16, arity: u16 },
    /// Any other value.
    Other,
}

/// A type in scope: its identity and its number of parameters.
#[derive(Debug, Clone, Copy, PartialEq, Eq, Structural)]
pub struct ScopeType {
    pub id: TypeId,
    pub arity: usize,
}

/// The names in scope once the prelude has loaded. A later entry of a name hides
/// an earlier one.
#[derive(Debug)]
pub struct PreludeScope {
    pub types: Vec<(String, ScopeType)>,
    pub values: Vec<(String, ScopeValue)>,
}

/// The latest of the first `n` entries under a name.
pub open spec fn latest<T>(entries: Seq<(String, T)>, n: nat, name: Seq<char>) -> Option<T>
    decreases n,
{
    if n == 0 {
        None
    } else if entries[n - 1].0@ == name {
        Some(entries[n - 1].1)
    } else {
        latest(entries, (n - 1) as nat, name)
    }
}

impl PreludeScope {
    /// A scope that knows no name.
    pub fn new() -> (res: PreludeScope)
        ensures
            res.types@ == Seq::<(String, ScopeType)>::empty(),
            res.values@ == Seq::<(String, ScopeValue)>::empty(),
    {
        PreludeScope { types: Vec::new(), values: Vec::new() }
    }

    /// Enter a type.
    pub fn add_type(&mut self, name: &str, info: ScopeType)
        ensures
            final(self).values@ == old(self).values@,
            final(self).types@.len() == old(self).types@.len() + 1,
            final(self).types@.drop_last() == old(self).types@,
            final(self).types@.last().0@ == name@,
            final(self).types@.last().1 == info,
    {
        self.types.push((String::from_str(name), info));
        assert(self.types@.drop_last() =~= old(self).types@);
    }

    /// Enter a value.
    pub fn add_value(&mut self, name: &str, value: ScopeValue)
        ensures
            final(self).types@ == old(self).types@,
            final(self).values@.len() == old(self).values@.len() + 1,
            final(self).values@.drop_last() == old(self).values@,
            final(self).values@.last().0@ == name@,
            final(self).values@.last().1 == value,
    {
        self.values.push((String::from_str(name), value));
        assert(self.values@.drop_last() =~= old(self).values@);
    }

    /// The type a name denotes.
    pub fn type_of(&self, name: &str) -> (res: Option<ScopeType>)
        ensures
            res == latest(self.types@, self.types@.len(), name@),
    {
        let mut n: usize = self.types.len();
        while n > 0
            invariant
                n <= self.types.len(),
                latest(self.types@, self.types@.len(), name@) == latest(
                    self.types@,
                    n as nat,
                    name@,
                ),
            decreases n,
        {
            if *self.types[n - 1].0.as_str() == *name {
                return Some(self.types[n - 1].1);
            }
            n = n - 1;
        }
        None
    }

    /// The value a name denotes.
    pub fn value_of(&self, name: &str) -> (res: Option<ScopeValue>)
        ensures
            res == latest(self.values@, self.values@.len(), name@),
    {
        let mut n: usize = self.values.len();
        while n > 0
            invariant
                n <= self.values.len(),
                latest(self.values@, self.values@.len(), name@) == latest(
                    self.values@,
                    n as nat,
                    name@,
                ),
            decreases n,
        {
            if *self.values[n - 1].0.as_str() == *name {
                return Some(self.values[n - 1].1);
            }
            n = n - 1;
        }
        None
    }
}

/// Why [`PreludeBindings::capture`] rejected the loaded prelude.
#[derive(Debug, Clone, Copy, PartialEq, Eq, Structural)]
#[allow(inconsistent_fields)]
pub enum PreludeCaptureError {
    MissingType(PreludeType),
    TypeArity { name: PreludeType, expected: usize, found: usize },
    MissingCtor(PreludeCtor),
    CtorShape { name: PreludeCtor, of: PreludeType, arity: u16 },
}

/// The message of a capture error.
pub open spec fn capture_message(e: PreludeCaptureError) -> Seq<char> {
    match e {
        PreludeCaptureError::MissingType(t) => "prelude: type '"@ + type_name_of(t)@
            + "' is required"@,
        PreludeCaptureError::TypeArity { name, expected, found } => "prelude: type '"@
            + type_name_of(name)@ + "' must have arity "@ + digits_of(expected as nat)
            + ", found "@ + digits_of(found as nat),
        PreludeCaptureError::MissingCtor(c) => "prelude: constructor '"@ + ctor_name_of(c)@
            + "' is required"@,
        PreludeCaptureError::CtorShape { name, of, arity } => "prelude: '"@ + ctor_name_of(name)@
            + "' must be a "@ + digits_of(arity as nat) + "-arity constructor of '"@
            + type_name_of(of)@ + "'"@,
    }
}

impl PreludeCaptureError {
    /// The message the compiler reports.
    pub fn message(&self) -> (res: String)
        ensures
            res@ == capture_message(*self),
    {
        match *self {
            PreludeCaptureError::MissingType(t) => String::from_str("prelude: type '").concat(
                t.name(),
            ).concat("' is required"),
            PreludeCaptureError::TypeArity { name, expected, found } => {
                let e: String = decimal_text(expected as u64);
                let f: String = decimal_text(found as u64);
                String::from_str("prelude: type '").concat(name.name()).concat(
                    "' must have arity ",
                ).concat(e.as_str()).concat(", found ").concat(f.as_str())
            },
            PreludeCaptureError::MissingCtor(c) => String::from_str(
                "prelude: constructor '",
            ).concat(c.name()).concat("' is required"),
            PreludeCaptureError::CtorShape { name, of, arity } => {
                let a: String = decimal_text(arity as u64);
                String::from_str("prelude: '").concat(name.name()).concat("' must be a ").concat(
                    a.as_str(),
                ).concat("-arity constructor of '").concat(of.name()).concat("'")
            },
        }
    }
}

/// Every prelude binding. The default holds none.
#[derive(Debug, Clone, Copy)]
pub struct PreludeBindings {
    pub int: TypeRef,
    pub float: TypeRef,
    pub string: TypeRef,
    pub bool: TypeRef,
    pub array: TypeRef,
    pub binary: TypeRef,
    pub nil: TypeRef,
    pub option: TypeRef,
    pub result: TypeRef,
    pub true_: CtorRef,
    pub false_: CtorRef,
    pub nil_ctor: CtorRef,
    pub some: CtorRef,
    pub none: CtorRef,
    pub ok: CtorRef,
    pub err: CtorRef,
}

/// The ids of the primitive types the inference engine recognises directly.
#[derive(Debug, Clone, Copy, PartialEq, Eq, Structural)]
pub struct PrimIds {
    pub int: TypeId,
    pub float: TypeId,
    pub string: TypeId,
    pub array: TypeId,
}

/// What capturing one type yields.
pub open spec fn captured_type(scope: PreludeScope, t: PreludeType) -> Result<
    TypeId,
    PreludeCaptureError,
> {
    match latest(scope.types@, scope.types@.len(), type_name_of(t)@) {
        None => Err(PreludeCaptureError::MissingType(t)),
        Some(info) => if info.arity != type_arity_of(t) {
            Err(
                PreludeCaptureError::TypeArity {
                    name: t,
                    expected: type_arity_of(t),
                    found: info.arity,
                },
            )
        } else {
            Ok(info.id)
        },
    }
}

/// What capturing one constructor yields, its type having been captured as `of`.
pub open spec fn captured_ctor(scope: PreludeScope, c: PreludeCtor, of: TypeId) -> Result<
    CtorRef,
    PreludeCaptureError,
> {
    match latest(scope.values@, scope.values@.len(), ctor_name_of(c)@) {
        None => Err(PreludeCaptureError::MissingCtor(c)),
        Some(v) => match v {
            ScopeValue::Constructor { type_id, variant_idx, arity } => if type_id == of && arity
                == ctor_arity_of(c) {
                Ok(CtorRef { type_id, variant_idx, arity })
            } else {
                Err(
                    PreludeCaptureError::CtorShape {
                        name: c,
                        of: ctor_type_of(c),
                        arity: ctor_arity_of(c),
                    },
                )
            },
            ScopeValue::Other => Err(
                PreludeCaptureError::CtorShape {
                    name: c,
                    of: ctor_type_of(c),
                    arity: ctor_arity_of(c),
                },
            ),
        },
    }
}

/// The order in which types are captured.
pub open spec fn type_order() -> Seq<PreludeType> {
    seq![
        PreludeType::Int,
        PreludeType::Float,
        PreludeType::String,
        PreludeType::Bool,
        PreludeType::Array,
        PreludeType::Binary,
        PreludeType::Nil,
        PreludeType::Option,
        PreludeType::Result,
    ]
}

/// The order in which constructors are captured, after all types.
pub open spec fn ctor_order() -> Seq<PreludeCtor> {
    seq![
        PreludeCtor::TrueCtor,
        PreludeCtor::FalseCtor,
        PreludeCtor::NilCtor,
        PreludeCtor::SomeCtor,
        PreludeCtor::NoneCtor,
        PreludeCtor::OkCtor,
        PreludeCtor::ErrCtor,
    ]
}

/// The constructor `c` captured under the type that its name must belong to.
pub open spec fn ctor_in_scope(scope: PreludeScope, c: PreludeCtor) -> Result<
    CtorRef,
    PreludeCaptureError,
> {
    captured_ctor(scope, c, captured_type(scope, ctor_type_of(c))->Ok_0)
}

/// The first thing wrong with a scope: a type in capture order, and only when
/// all types are right a constructor in capture order.
pub open spec fn first_fault(scope: PreludeScope, n: nat) -> Option<PreludeCaptureError>
    decreases 16 - n,
{
    if n < 9 {
        match captured_type(scope, type_order()[n as int]) {
            Err(e) => Some(e),
            Ok(_) => first_fault(scope, n + 1),
        }
    } else if n < 16 {
        match ctor_in_scope(scope, ctor_order()[n - 9]) {
            Err(e) => Some(e),
            Ok(_) => first_fault(scope, n + 1),
        }
    } else {
        None
    }
}

/// Whether `b` holds what `scope` says of every prelude name.
pub open spec fn holds_scope(b: PreludeBindings, scope: PreludeScope) -> bool {
    &&& captured_type(scope, PreludeType::Int) == Ok::<TypeId, PreludeCaptureError>(b.int.id)
    &&& captured_type(scope, PreludeType::Float) == Ok::<TypeId, PreludeCaptureError>(b.float.id)
    &&& captured_type(scope, PreludeType::String) == Ok::<TypeId, PreludeCaptureError>(b.string.id)
    &&& captured_type(scope, PreludeType::Bool) == Ok::<TypeId, PreludeCaptureError>(b.bool.id)
    &&& captured_type(scope, PreludeType::Array) == Ok::<TypeId, PreludeCaptureError>(b.array.id)
    &&& captured_type(scope, PreludeType::Binary) == Ok::<TypeId, PreludeCaptureError>(b.binary.id)
    &&& captured_type(scope, PreludeType::Nil) == Ok::<TypeId, PreludeCaptureError>(b.nil.id)
    &&& captured_type(scope, PreludeType::Option) == Ok::<TypeId, PreludeCaptureError>(b.option.id)
    &&& captured_type(scope, PreludeType::Result) == Ok::<TypeId, PreludeCaptureError>(b.result.id)
    &&& ctor_in_scope(scope, PreludeCtor::TrueCtor) == Ok::<CtorRef, PreludeCaptureError>(b.true_)
    &&& ctor_in_scope(scope, PreludeCtor::FalseCtor) == Ok::<CtorRef, PreludeCaptureError>(b.false_)
    &&& ctor_in_scope(scope, PreludeCtor::NilCtor) == Ok::<CtorRef, PreludeCaptureError>(b.nil_ctor)
    &&& ctor_in_scope(scope, PreludeCtor::SomeCtor) == Ok::<CtorRef, PreludeCaptureError>(b.some)
    &&& ctor_in_scope(scope, PreludeCtor::NoneCtor) == Ok::<CtorRef, PreludeCaptureError>(b.none)
    &&& ctor_in_scope(scope, PreludeCtor::OkCtor) == Ok::<CtorRef, PreludeCaptureError>(b.ok)
    &&& ctor_in_scope(scope, PreludeCtor::ErrCtor) == Ok::<CtorRef, PreludeCaptureError>(b.err)
}

/// Whether every type reference carries its own name.
pub open spec fn named(b: PreludeBindings) -> bool {
    &&& b.int.name == "Int"
    &&& b.float.name == "Float"
    &&& b.string.name == "String"
    &&& b.bool.name == "Bool"
    &&& b.array.name == "Array"
    &&& b.binary.name == "Binary"
    &&& b.nil.name == "Nil"
    &&& b.option.name == "Option"
    &&& b.result.name == "Result"
}

fn capture_type(scope: &PreludeScope, t: PreludeType) -> (res: Result<TypeRef, PreludeCaptureError>)
    ensures
        match res {
            Ok(r) => captured_type(*scope, t) == Ok::<TypeId, PreludeCaptureError>(r.id) && r.name
                == type_name_of(t),
            Err(e) => captured_type(*scope, t) == Err::<TypeId, PreludeCaptureError>(e),
        },
{
    match scope.type_of(t.name()) {
        None => Err(PreludeCaptureError::MissingType(t)),
        Some(info) => if info.arity != t.arity() {
            Err(
                PreludeCaptureError::TypeArity { name: t, expected: t.arity(), found: info.arity },
            )
        } else {
            Ok(TypeRef { id: info.id, name: t.name() })
        },
    }
}

fn capture_ctor(scope: &PreludeScope, c: PreludeCtor, of: TypeRef) -> (res: Result<
    CtorRef,
    PreludeCaptureError,
>)
    ensures
        res == captured_ctor(*scope, c, of.id),
{
    match scope.value_of(c.name()) {
        None => Err(PreludeCaptureError::MissingCtor(c)),
        Some(ScopeValue::Constructor { type_id, variant_idx, arity }) if type_id.0 == of.id.0
            && arity == c.arity() => Ok(CtorRef { type_id, variant_idx, arity }),
        Some(_) => Err(
            PreludeCaptureError::CtorShape { name: c, of: c.of(), arity: c.arity() },
        ),
    }
}

/// Whether a constructor stands for one that is not bound yet.
pub open spec fn is_zero(c: CtorRef) -> bool {
    c.type_id == TypeId(0) && c.variant_idx == 0 && c.arity == 0
}

impl Default for PreludeBindings {
    fn default() -> (res: PreludeBindings)
        ensures
            named(res),
            res.int.id == TypeId(0) && res.float.id == TypeId(0) && res.string.id == TypeId(0),
            res.bool.id == TypeId(0) && res.array.id == TypeId(0) && res.binary.id == TypeId(0),
            res.nil.id == TypeId(0) && res.option.id == TypeId(0) && res.result.id == TypeId(0),
            is_zero(res.true_) && is_zero(res.false_) && is_zero(res.nil_ctor),
            is_zero(res.some) && is_zero(res.none) && is_zero(res.ok) && is_zero(res.err),
    {
        PreludeBindings {
            int: TypeRef::pending("Int"),
            float: TypeRef::pending("Float"),
            string: TypeRef::pending("String"),
            bool: TypeRef::pending("Bool"),
            array: TypeRef::pending("Array"),
            binary: TypeRef::pending("Binary"),
            nil: TypeRef::pending("Nil"),
            option: TypeRef::pending("Option"),
            result: TypeRef::pending("Result"),
            true_: CtorRef::zero(),
            false_: CtorRef::zero(),
            nil_ctor: CtorRef::zero(),
            some: CtorRef::zero(),
            none: CtorRef::zero(),
            ok: CtorRef::zero(),
            err: CtorRef::zero(),
        }
    }
}

impl PreludeBindings {
    /// Capture every prelude binding from what is in scope. Succeeds exactly when
    /// nothing is missing or of another shape; otherwise the first fault in
    /// capture order is reported.
    pub fn capture(scope: &PreludeScope) -> (res: Result<PreludeBindings, PreludeCaptureError>)
        ensures
            match res {
                Ok(b) => first_fault(*scope, 0) is None && holds_scope(b, *scope) && named(b),
                Err(e) => first_fault(*scope, 0) == Some(e),
            },
    {
        proof {
            reveal_with_fuel(first_fault, 17);
        }
        let int_ref: TypeRef = match capture_type(scope, PreludeType::Int) {
            Ok(r) => r,
            Err(e) => return Err(e),
        };
        let float: TypeRef = match capture_type(scope, PreludeType::Float) {
            Ok(r) => r,
            Err(e) => return Err(e),
        };
        let string: TypeRef = match capture_type(scope, PreludeType::String) {
            Ok(r) => r,
            Err(e) => return Err(e),
        };
        let bool: TypeRef = match capture_type(scope, PreludeType::Bool) {
            Ok(r) => r,
            Err(e) => return Err(e),
        };
        let array: TypeRef = match capture_type(scope, PreludeType::Array) {
            Ok(r) => r,
            Err(e) => return Err(e),
        };
        let binary: TypeRef = match capture_type(scope, PreludeType::Binary) {
            Ok(r) => r,
            Err(e) => return Err(e),
        };
        let nil: TypeRef = match capture_type(scope, PreludeType::Nil) {
            Ok(r) => r,
            Err(e) => return Err(e),
        };
        let option: TypeRef = match capture_type(scope, PreludeType::Option) {
            Ok(r) => r,
            Err(e) => return Err(e),
        };
        let result: TypeRef = match capture_type(scope, PreludeType::Result) {
            Ok(r) => r,
            Err(e) => return Err(e),
        };
        let true_: CtorRef = match capture_ctor(scope, PreludeCtor::TrueCtor, bool) {
            Ok(r) => r,
            Err(e) => return Err(e),
        };
        let false_: CtorRef = match capture_ctor(scope, PreludeCtor::FalseCtor, bool) {
            Ok(r) => r,
            Err(e) => return Err(e),
        };
        let nil_ctor: CtorRef = match capture_ctor(scope, PreludeCtor::NilCtor, nil) {
            Ok(r) => r,
            Err(e) => return Err(e),
        };
        let some: CtorRef = match capture_ctor(scope, PreludeCtor::SomeCtor, option) {
            Ok(r) => r,
            Err(e) => return Err(e),
        };
        let none: CtorRef = match capture_ctor(scope, PreludeCtor::NoneCtor, option) {
            Ok(r) => r,
            Err(e) => return Err(e),
        };
        let ok: CtorRef = match capture_ctor(scope, PreludeCtor::OkCtor, result) {
            Ok(r) => r,
            Err(e) => return Err(e),
        };
        let err: CtorRef = match capture_ctor(scope, PreludeCtor::ErrCtor, result) {
            Ok(r) => r,
            Err(e) => return Err(e),
        };
        Ok(
            PreludeBindings {
                int: int_ref,
                float,
                string,
                bool,
                array,
                binary,
                nil,
                option,
                result,
                true_,
                false_,
                nil_ctor,
                some,
                none,
                ok,
                err,
            },
        )
    }

    /// The ids of the primitive types.
    pub fn prim_ids(&self) -> (res: PrimIds)
        ensures
            res == (PrimIds {
                int: self.int.id,
                float: self.float.id,
                string: self.string.id,
                array: self.array.id,
            }),
    {
        PrimIds {
            int: self.int.id,
            float: self.float.id,
            string: self.string.id,
            array: self.array.id,
        }
    }

    /// Every type binding, with the field it is kept in.
    pub fn type_fields(&self) -> (res: Vec<(&'static str, TypeRef)>)
        ensures
            res@ == seq![
                ("int", self.int),
                ("float", self.float),
                ("string", self.string),
                ("bool", self.bool),
                ("array", self.array),
                ("binary", self.binary),
                ("nil", self.nil),
                ("option", self.option),
                ("result", self.result),
            ],
    {
        let mut res: Vec<(&'static str, TypeRef)> = Vec::new();
        res.push(("int", self.int));
        res.push(("float", self.float));
        res.push(("string", self.string));
        res.push(("bool", self.bool));
        res.push(("array", self.array));
        res.push(("binary", self.binary));
        res.push(("nil", self.nil));
        res.push(("option", self.option));
        res.push(("result", self.result));
        res
    }

    /// Every constructor binding, with the field it is kept in.
    pub fn ctor_fields(&self) -> (res: Vec<(&'static str, CtorRef)>)
        ensures
            res@ == seq![
                ("true_", self.true_),
                ("false_", self.false_),
                ("nil_ctor", self.nil_ctor),
                ("some", self.some),
                ("none", self.none),
                ("ok", self.ok),
                ("err", self.err),
            ],
    {
        let mut res: Vec<(&'static str, CtorRef)> = Vec::new();
        res.push(("true_", self.true_));
        res.push(("false_", self.false_));
        res.push(("nil_ctor", self.nil_ctor));
        res.push(("some", self.some));
        res.push(("none", self.none));
        res.push(("ok", self.ok));
        res.push(("err", self.err));
        res
    }
}

/// A binding that was never captured matches no type.
pub proof fn law_pending_never_matches(id: TypeId)
    ensures
        !same_type(TypeId(0), id),
{
}

/// Every captured constructor belongs to the captured type of its own name, with
/// the number of fields it must have.
pub proof fn law_captured_ctors_belong(b: PreludeBindings, scope: PreludeScope)
    requires
        holds_scope(b, scope),
    ensures
        b.true_.type_id == b.bool.id && b.true_.arity == 0,
        b.false_.type_id == b.bool.id && b.false_.arity == 0,
        b.nil_ctor.type_id == b.nil.id && b.nil_ctor.arity == 0,
        b.some.type_id == b.option.id && b.some.arity == 1,
        b.none.type_id == b.option.id && b.none.arity == 0,
        b.ok.type_id == b.result.id && b.ok.arity == 1,
        b.err.type_id == b.result.id && b.err.arity == 1,
{
}

} // verus!

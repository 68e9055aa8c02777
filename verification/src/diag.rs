//! Diagnostics and their wording.
use crate::ast::{Span, StrId};
use crate::names::{text_of, Interner};
use crate::numbers::{decimal_text, digits_of, int_text, int_text_of};
use crate::prelude_bindings::{capture_message, PreludeCaptureError};
use vstd::prelude::*;
use vstd::string::*;

verus! {

/// A run of entries of an append-only pool.
#[derive(Debug, Clone, Copy, PartialEq, Eq, Structural)]
pub struct ArenaSlice {
    pub start: u32,
    pub len: u16,
}

/// The entries a slice stands for. A slice that reaches past the pool stands for
/// none.
pub open spec fn slice_of<T>(pool: Seq<T>, sl: ArenaSlice) -> Seq<T> {
    if sl.start + sl.len <= pool.len() {
        pool.subrange(sl.start as int, sl.start + sl.len)
    } else {
        Seq::empty()
    }
}

/// How bad a diagnostic is.
#[derive(Debug, Clone, Copy, PartialEq, Eq, Structural)]
pub enum Severity {
    Error,
    Hint,
}

/// What kind of declaration a message speaks of.
#[derive(Debug, Clone, Copy, PartialEq, Eq, Structural)]
pub enum DeclKind {
    Function,
    Type,
    Const,
}

/// A declaration kind in words.
pub open spec fn decl_kind_text(kind: DeclKind) -> Seq<char> {
    match kind {
        DeclKind::Function => "named function"@,
        DeclKind::Type => "type"@,
        DeclKind::Const => "const"@,
    }
}

impl DeclKind {
    /// The kind in words.
    pub fn text(self) -> (res: &'static str)
        ensures
            res@ == decl_kind_text(self),
    {
        match self {
            DeclKind::Function => "named function",
            DeclKind::Type => "type",
            DeclKind::Const => "const",
        }
    }
}

/// What a diagnostic says.
#[derive(Debug, Clone, Copy, PartialEq, Eq, Structural)]
#[allow(inconsistent_fields)]
pub enum Message {
    /// A binding nothing reads.
    Unused { name: StrId },
    /// A tuple binding that may fail.
    RefutableBinding,
    /// A declaration inside a block.
    NestedDeclaration { kind: DeclKind },
    /// A constructor where a type is meant.
    NotAType { name: StrId },
    /// A constructor binding that may fail.
    RefutableCtorBinding { missing: StrId },
    /// A member its module keeps to itself.
    PrivateMember { member: StrId, module: StrId },
    /// A member its module does not have.
    NoMember { module: StrId, member: StrId },
    /// A module that imports itself, directly or not.
    ImportCycle { module: StrId },
    /// A module that cannot be found.
    UnknownModule { module: StrId },
    /// A relative import with nothing to be relative to.
    NoBaseDir,
    /// A module whose source cannot be read.
    ModuleUnreadable { module: StrId },
    /// What the parser has to say of a module.
    InModule { module: StrId, fault: StrId },
    /// What the parser could not read.
    Unreadable { fault: StrId },
    /// Two types that do not fit.
    TypeError { fault: StrId },
    /// What is wrong with a type annotation.
    BadAnnotation { fault: StrId },
    /// A qualifier whose module is not there.
    ModuleNotLoaded { module: StrId },
    /// A value dropped silently.
    MustConsume { ty: StrId },
    /// A name nothing defines.
    UnknownName { name: StrId },
    /// A name nothing defines, with a guess.
    UnknownNameNear { name: StrId, near: StrId },
    /// A module member without a value.
    NoBindingIn { name: StrId, module: StrId },
    /// A name without a value.
    NoBinding { name: StrId },
    /// A builtin that is not called.
    BuiltinAsValue { name: StrId },
    /// A spread of nothing.
    SpreadWithoutValue,
    /// A call with the wrong number of arguments.
    ArgumentCount { expected: u32, given: usize },
    /// A call of something that is no function.
    NotCallable { ty: StrId },
    /// A label in a function call.
    LabelledArgument,
    /// A spread in a function call.
    SpreadArgument,
    /// A second record-update base.
    ManySpreads,
    /// A builtin the machine does not have.
    NoCodegen { op: StrId },
    /// A tuple index that is no integer.
    TupleIndexNotInt { text: StrId },
    /// A tuple index past the tuple.
    TupleIndexRange { index: i32, len: u32 },
    /// A tuple index on something else.
    NotATuple { index: i32 },
    /// A property that is neither field nor index.
    BadProperty,
    /// A field of a value whose type is open.
    FieldOfUnknown { field: StrId },
    /// A field the type does not have.
    NoField { ty: StrId, field: StrId },
    /// A field of a type without any.
    NoFields { ty: StrId },
    /// A field whose position depends on the variant.
    FieldMoves { field: StrId, ty: StrId, at: usize, variant: StrId, expected: usize },
    /// A field some variant lacks.
    FieldMissing { field: StrId, ty: StrId, variant: StrId },
    /// A receiver where there is nothing to receive.
    OrBindsNothing,
    /// An `or` on something that cannot fail.
    OrOperand { ty: StrId },
    /// A match that misses a value.
    NotExhaustive { missing: StrId },
    /// An arm that never runs.
    UnreachableArm,
    /// A second spread in an array pattern.
    ManyPatternSpreads,
    /// A spread before the end of an array pattern.
    PatternSpreadNotLast,
    /// A pattern that names another kind of value.
    NotAConstructor { name: StrId },
    /// A pattern that names nothing.
    UnknownConstructor { name: StrId },
    /// Arguments for a constructor without fields.
    NoArguments { name: StrId, given: usize },
    /// A positional argument past the last field.
    TooManyFields { name: StrId, arity: usize },
    /// A label the constructor does not have.
    UnknownField { name: StrId, label: StrId, known: ArenaSlice },
    /// A field given twice.
    FieldTwice { label: Option<StrId> },
    /// Fields left out.
    MissingFields { name: StrId, fields: ArenaSlice, in_pattern: bool },
    /// An alias that stands for itself.
    RecursiveAlias { name: StrId },
    /// A builtin key the machine does not have.
    UnknownBuiltin { name: StrId },
    /// A second definition of a name.
    AlreadyDefined { name: StrId },
    /// Where the first definition stands.
    FirstDefinition,
    /// A prelude name redefined.
    Reserved { name: StrId },
    /// A builtin declared by a user.
    VmOutsideStdlib,
    /// A builtin that is no function.
    VmOnNonFunction,
    /// A builtin without a key.
    VmArguments,
    /// An attribute nobody knows.
    UnknownAttribute { name: StrId },
    /// A statement in an imported module.
    OnlyDeclarations,
    /// A type parameter given twice.
    DuplicateTypeParameter { name: StrId },
    /// An integer that does not fit.
    IntOutOfRange { text: StrId },
    /// A number that cannot be read.
    InvalidNumber { text: StrId },
    /// A prelude of another shape than expected.
    Prelude { fault: PreludeCaptureError },
}

/// A diagnostic: what is said of which piece of source.
#[derive(Debug, Clone, Copy, PartialEq, Eq, Structural)]
pub struct Diagnostic {
    pub span: Span,
    pub severity: Severity,
    pub message: Message,
}

/// The first `n` labels, separated by commas.
pub open spec fn joined(names: Seq<Seq<char>>, labels: Seq<StrId>, n: nat) -> Seq<char>
    decreases n,
{
    if n == 0 {
        Seq::empty()
    } else if n == 1 {
        text_of(names, labels[0])
    } else {
        joined(names, labels, (n - 1) as nat) + ", "@ + text_of(names, labels[n - 1])
    }
}

/// A field's label, or the placeholder for a field without one.
pub open spec fn label_text(names: Seq<Seq<char>>, label: Option<StrId>) -> Seq<char> {
    match label {
        Some(l) => text_of(names, l),
        None => "_"@,
    }
}

/// The wording of a message.
pub open spec fn wording(m: Message, names: Seq<Seq<char>>, labels: Seq<StrId>) -> Seq<char> {
    match m {
        Message::Unused { name } => "'"@ + text_of(names, name) + "' is unused; prefix with '_' to ignore"@,
        Message::RefutableBinding => "Destructuring binding pattern must be irrefutable"@,
        Message::NestedDeclaration { kind } => decl_kind_text(kind) + " declarations are only allowed at the top level"@,
        Message::NotAType { name } => "'"@ + text_of(names, name) + "' is not a type"@,
        Message::RefutableCtorBinding { missing } => "constructor destructuring binding must be irrefutable; pattern does not cover "@ + text_of(names, missing),
        Message::PrivateMember { member, module } => "'"@ + text_of(names, member) + "' is private in module '"@ + text_of(names, module) + "'"@,
        Message::NoMember { module, member } => "Module '"@ + text_of(names, module) + "' has no member '"@ + text_of(names, member) + "'"@,
        Message::ImportCycle { module } => "Import cycle detected at module '"@ + text_of(names, module) + "'"@,
        Message::UnknownModule { module } => "Unknown module '"@ + text_of(names, module) + "' (not found)"@,
        Message::NoBaseDir => "Relative imports are not allowed without a file context (e.g. REPL)"@,
        Message::ModuleUnreadable { module } => "Failed to read module '"@ + text_of(names, module) + "'"@,
        Message::InModule { module, fault } => "In module '"@ + text_of(names, module) + "': "@ + text_of(names, fault),
        Message::Unreadable { fault } => text_of(names, fault),
        Message::BadAnnotation { fault } => text_of(names, fault),
        Message::TypeError { fault } => text_of(names, fault),
        Message::ModuleNotLoaded { module } => "Module '"@ + text_of(names, module) + "' is not loaded"@,
        Message::MustConsume { ty } => "Expression of type '"@ + text_of(names, ty) + "' must be consumed. Assign it to a variable or use '_ = ...' to discard"@,
        Message::UnknownName { name } => "Unknown identifier '"@ + text_of(names, name) + "'"@,
        Message::UnknownNameNear { name, near } => "Unknown identifier '"@ + text_of(names, name) + "'. Did you mean '"@ + text_of(names, near) + "'?"@,
        Message::NoBindingIn { name, module } => "'"@ + text_of(names, name) + "' in module '"@ + text_of(names, module) + "' has no runtime binding"@,
        Message::NoBinding { name } => "'"@ + text_of(names, name) + "' has a type but no runtime binding here"@,
        Message::BuiltinAsValue { name } => "'"@ + text_of(names, name) + "' is a builtin and cannot be used as a value"@,
        Message::SpreadWithoutValue => "Spread in array literal missing expression"@,
        Message::ArgumentCount { expected, given } => "Expected "@ + digits_of(expected as nat) + " argument(s), got "@ + digits_of(given as nat),
        Message::NotCallable { ty } => "This value of type '"@ + text_of(names, ty) + "' is not a function and cannot be called"@,
        Message::LabelledArgument => "Labelled arguments are only allowed in constructor calls"@,
        Message::SpreadArgument => "Spread arguments are only allowed in constructor record-update calls"@,
        Message::ManySpreads => "Constructor call may have at most one spread"@,
        Message::NoCodegen { op } => "Internal: builtin '"@ + text_of(names, op) + "' has no codegen"@,
        Message::TupleIndexNotInt { text } => "Tuple index must be an integer, got '"@ + text_of(names, text) + "'"@,
        Message::TupleIndexRange { index, len } => "Tuple index "@ + int_text_of(index as int) + " out of bounds (tuple has "@ + digits_of(len as nat) + " elements)"@,
        Message::NotATuple { index } => "Cannot index ."@ + int_text_of(index as int) + " on non-tuple type"@,
        Message::BadProperty => "Invalid property access"@,
        Message::FieldOfUnknown { field } => "Cannot access field '"@ + text_of(names, field) + "' on a value of unknown type \u{2014} add a type annotation"@,
        Message::NoField { ty, field } => "Type '"@ + text_of(names, ty) + "' has no field '"@ + text_of(names, field) + "'"@,
        Message::NoFields { ty } => "Type '"@ + text_of(names, ty) + "' has no accessible fields"@,
        Message::FieldMoves { field, ty, at, variant, expected } => "Field '"@ + text_of(names, field) + "' is not at the same position in every variant of '"@ + text_of(names, ty) + "' (position "@ + digits_of(at as nat) + " in '"@ + text_of(names, variant) + "', expected "@ + digits_of(expected as nat) + ")"@,
        Message::FieldMissing { field, ty, variant } => "Field '"@ + text_of(names, field) + "' is not present on every variant of '"@ + text_of(names, ty) + "' (missing on '"@ + text_of(names, variant) + "')"@,
        Message::OrBindsNothing => "'or' on an Option does not bind a value (the failure case carries nothing)"@,
        Message::OrOperand { ty } => "'or' requires the left side to be Option(_) or Result(_, _), got '"@ + text_of(names, ty) + "'"@,
        Message::NotExhaustive { missing } => "Match is not exhaustive, missing: "@ + text_of(names, missing),
        Message::UnreachableArm => "This pattern is unreachable; a previous pattern matches the same values"@,
        Message::ManyPatternSpreads => "Array pattern may contain at most one spread"@,
        Message::PatternSpreadNotLast => "Spread in array pattern must be the last element"@,
        Message::NotAConstructor { name } => "'"@ + text_of(names, name) + "' is not a constructor and cannot be used in a pattern"@,
        Message::UnknownConstructor { name } => "Unknown constructor '"@ + text_of(names, name) + "' in pattern"@,
        Message::NoArguments { name, given } => "Constructor '"@ + text_of(names, name) + "' takes no arguments but "@ + digits_of(given as nat) + " were given"@,
        Message::TooManyFields { name, arity } => "Constructor '"@ + text_of(names, name) + "' has "@ + digits_of(arity as nat) + " field(s) but more were supplied"@,
        Message::UnknownField { name, label, known } => "Constructor '"@ + text_of(names, name) + "' has no field '"@ + text_of(names, label) + "'. Available: "@ + joined(names, slice_of(labels, known), slice_of(labels, known).len()),
        Message::FieldTwice { label } => "Field '"@ + label_text(names, label) + "' is specified more than once"@,
        Message::MissingFields { name, fields, in_pattern } => "Constructor '"@ + text_of(names, name) + "' is missing field(s): "@ + joined(names, slice_of(labels, fields), slice_of(labels, fields).len()) + (if in_pattern {
            ". Use '..' to ignore them"@
        } else {
            ""@
        }),
        Message::RecursiveAlias { name } => "Recursive type alias '"@ + text_of(names, name) + "'"@,
        Message::UnknownBuiltin { name } => "unknown @vm builtin '"@ + text_of(names, name) + "'"@,
        Message::AlreadyDefined { name } => "'"@ + text_of(names, name) + "' is already defined"@,
        Message::FirstDefinition => "first definition was here"@,
        Message::Reserved { name } => "'"@ + text_of(names, name) + "' is defined in the prelude and cannot be redefined"@,
        Message::VmOutsideStdlib => "'@vm' is only allowed in the standard library"@,
        Message::VmOnNonFunction => "'@vm' may only be used on functions"@,
        Message::VmArguments => "'@vm' takes exactly one argument: the VM op key"@,
        Message::UnknownAttribute { name } => "Unknown attribute '@"@ + text_of(names, name) + "'"@,
        Message::OnlyDeclarations => "Modules may only contain declarations at the top level"@,
        Message::DuplicateTypeParameter { name } => "Duplicate type parameter '"@ + text_of(names, name) + "'"@,
        Message::IntOutOfRange { text } => "integer literal '"@ + text_of(names, text) + "' out of range for Int (must be between -9223372036854775808 and 9223372036854775807)"@,
        Message::InvalidNumber { text } => "invalid number literal '"@ + text_of(names, text) + "'"@,
        Message::Prelude { fault } => capture_message(fault),
    }
}

fn join_labels(names: &Interner, labels: &Vec<StrId>, sl: ArenaSlice) -> (res: String)
    ensures
        res@ == joined(names@, slice_of(labels@, sl), slice_of(labels@, sl).len()),
{
    let ghost all = slice_of(labels@, sl);
    let start: usize = sl.start as usize;
    let len: usize = sl.len as usize;
    if start > labels.len() || len > labels.len() - start || len == 0 {
        return String::new();
    }
    let mut res: String = String::from_str(names.text(labels[start]));
    let mut i: usize = 1;
    while i < len
        invariant
            1 <= i <= len,
            start + len <= labels.len(),
            all == labels@.subrange(start as int, start + len),
            res@ == joined(names@, all, i as nat),
        decreases len - i,
    {
        res = res.concat(", ").concat(names.text(labels[start + i]));
        i = i + 1;
    }
    res
}

impl Message {
    /// The message in words.
    pub fn text(&self, names: &Interner, labels: &Vec<StrId>) -> (res: String)
        ensures
            res@ == wording(*self, names@, labels@),
    {
        match *self {
            Message::Unused { name } => String::from_str("'").concat(names.text(name)).concat("' is unused; prefix with '_' to ignore"),
            Message::RefutableBinding => String::from_str("Destructuring binding pattern must be irrefutable"),
            Message::NestedDeclaration { kind } => String::from_str(kind.text()).concat(" declarations are only allowed at the top level"),
            Message::NotAType { name } => String::from_str("'").concat(names.text(name)).concat("' is not a type"),
            Message::RefutableCtorBinding { missing } => String::from_str("constructor destructuring binding must be irrefutable; pattern does not cover ").concat(names.text(missing)),
            Message::PrivateMember { member, module } => String::from_str("'").concat(names.text(member)).concat("' is private in module '").concat(names.text(module)).concat("'"),
            Message::NoMember { module, member } => String::from_str("Module '").concat(names.text(module)).concat("' has no member '").concat(names.text(member)).concat("'"),
            Message::ImportCycle { module } => String::from_str("Import cycle detected at module '").concat(names.text(module)).concat("'"),
            Message::UnknownModule { module } => String::from_str("Unknown module '").concat(names.text(module)).concat("' (not found)"),
            Message::NoBaseDir => String::from_str("Relative imports are not allowed without a file context (e.g. REPL)"),
            Message::ModuleUnreadable { module } => String::from_str("Failed to read module '").concat(names.text(module)).concat("'"),
            Message::InModule { module, fault } => String::from_str("In module '").concat(names.text(module)).concat("': ").concat(names.text(fault)),
            Message::Unreadable { fault } => String::from_str(names.text(fault)),
            Message::BadAnnotation { fault } => String::from_str(names.text(fault)),
            Message::TypeError { fault } => String::from_str(names.text(fault)),
            Message::ModuleNotLoaded { module } => String::from_str("Module '").concat(names.text(module)).concat("' is not loaded"),
            Message::MustConsume { ty } => String::from_str("Expression of type '").concat(names.text(ty)).concat("' must be consumed. Assign it to a variable or use '_ = ...' to discard"),
            Message::UnknownName { name } => String::from_str("Unknown identifier '").concat(names.text(name)).concat("'"),
            Message::UnknownNameNear { name, near } => String::from_str("Unknown identifier '").concat(names.text(name)).concat("'. Did you mean '").concat(names.text(near)).concat("'?"),
            Message::NoBindingIn { name, module } => String::from_str("'").concat(names.text(name)).concat("' in module '").concat(names.text(module)).concat("' has no runtime binding"),
            Message::NoBinding { name } => String::from_str("'").concat(names.text(name)).concat("' has a type but no runtime binding here"),
            Message::BuiltinAsValue { name } => String::from_str("'").concat(names.text(name)).concat("' is a builtin and cannot be used as a value"),
            Message::SpreadWithoutValue => String::from_str("Spread in array literal missing expression"),
            Message::ArgumentCount { expected, given } => {
                let expected_text: String = decimal_text(expected as u64);
                let given_text: String = decimal_text(given as u64);
                String::from_str("Expected ").concat(expected_text.as_str()).concat(" argument(s), got ").concat(given_text.as_str())
            },
            Message::NotCallable { ty } => String::from_str("This value of type '").concat(names.text(ty)).concat("' is not a function and cannot be called"),
            Message::LabelledArgument => String::from_str("Labelled arguments are only allowed in constructor calls"),
            Message::SpreadArgument => String::from_str("Spread arguments are only allowed in constructor record-update calls"),
            Message::ManySpreads => String::from_str("Constructor call may have at most one spread"),
            Message::NoCodegen { op } => String::from_str("Internal: builtin '").concat(names.text(op)).concat("' has no codegen"),
            Message::TupleIndexNotInt { text } => String::from_str("Tuple index must be an integer, got '").concat(names.text(text)).concat("'"),
            Message::TupleIndexRange { index, len } => {
                let index_text: String = int_text(index as i64);
                let len_text: String = decimal_text(len as u64);
                String::from_str("Tuple index ").concat(index_text.as_str()).concat(" out of bounds (tuple has ").concat(len_text.as_str()).concat(" elements)")
            },
            Message::NotATuple { index } => {
                let index_text: String = int_text(index as i64);
                String::from_str("Cannot index .").concat(index_text.as_str()).concat(" on non-tuple type")
            },
            Message::BadProperty => String::from_str("Invalid property access"),
            Message::FieldOfUnknown { field } => String::from_str("Cannot access field '").concat(names.text(field)).concat("' on a value of unknown type \u{2014} add a type annotation"),
            Message::NoField { ty, field } => String::from_str("Type '").concat(names.text(ty)).concat("' has no field '").concat(names.text(field)).concat("'"),
            Message::NoFields { ty } => String::from_str("Type '").concat(names.text(ty)).concat("' has no accessible fields"),
            Message::FieldMoves { field, ty, at, variant, expected } => {
                let at_text: String = decimal_text(at as u64);
                let expected_text: String = decimal_text(expected as u64);
                String::from_str("Field '").concat(names.text(field)).concat("' is not at the same position in every variant of '").concat(names.text(ty)).concat("' (position ").concat(at_text.as_str()).concat(" in '").concat(names.text(variant)).concat("', expected ").concat(expected_text.as_str()).concat(")")
            },
            Message::FieldMissing { field, ty, variant } => String::from_str("Field '").concat(names.text(field)).concat("' is not present on every variant of '").concat(names.text(ty)).concat("' (missing on '").concat(names.text(variant)).concat("')"),
            Message::OrBindsNothing => String::from_str("'or' on an Option does not bind a value (the failure case carries nothing)"),
            Message::OrOperand { ty } => String::from_str("'or' requires the left side to be Option(_) or Result(_, _), got '").concat(names.text(ty)).concat("'"),
            Message::NotExhaustive { missing } => String::from_str("Match is not exhaustive, missing: ").concat(names.text(missing)),
            Message::UnreachableArm => String::from_str("This pattern is unreachable; a previous pattern matches the same values"),
            Message::ManyPatternSpreads => String::from_str("Array pattern may contain at most one spread"),
            Message::PatternSpreadNotLast => String::from_str("Spread in array pattern must be the last element"),
            Message::NotAConstructor { name } => String::from_str("'").concat(names.text(name)).concat("' is not a constructor and cannot be used in a pattern"),
            Message::UnknownConstructor { name } => String::from_str("Unknown constructor '").concat(names.text(name)).concat("' in pattern"),
            Message::NoArguments { name, given } => {
                let given_text: String = decimal_text(given as u64);
                String::from_str("Constructor '").concat(names.text(name)).concat("' takes no arguments but ").concat(given_text.as_str()).concat(" were given")
            },
            Message::TooManyFields { name, arity } => {
                let arity_text: String = decimal_text(arity as u64);
                String::from_str("Constructor '").concat(names.text(name)).concat("' has ").concat(arity_text.as_str()).concat(" field(s) but more were supplied")
            },
            Message::UnknownField { name, label, known } => {
                let known_text: String = join_labels(names, labels, known);
                String::from_str("Constructor '").concat(names.text(name)).concat("' has no field '").concat(names.text(label)).concat("'. Available: ").concat(known_text.as_str())
            },
            Message::FieldTwice { label } => {
                let label_text: &str = match label {
                    Some(l) => names.text(l),
                    None => "_",
                };
                String::from_str("Field '").concat(label_text).concat("' is specified more than once")
            },
            Message::MissingFields { name, fields, in_pattern } => {
                let fields_text: String = join_labels(names, labels, fields);
                let hint: &str = if in_pattern {
                    ". Use '..' to ignore them"
                } else {
                    ""
                };
                String::from_str("Constructor '").concat(names.text(name)).concat("' is missing field(s): ").concat(fields_text.as_str()).concat(hint)
            },
            Message::RecursiveAlias { name } => String::from_str("Recursive type alias '").concat(names.text(name)).concat("'"),
            Message::UnknownBuiltin { name } => String::from_str("unknown @vm builtin '").concat(names.text(name)).concat("'"),
            Message::AlreadyDefined { name } => String::from_str("'").concat(names.text(name)).concat("' is already defined"),
            Message::FirstDefinition => String::from_str("first definition was here"),
            Message::Reserved { name } => String::from_str("'").concat(names.text(name)).concat("' is defined in the prelude and cannot be redefined"),
            Message::VmOutsideStdlib => String::from_str("'@vm' is only allowed in the standard library"),
            Message::VmOnNonFunction => String::from_str("'@vm' may only be used on functions"),
            Message::VmArguments => String::from_str("'@vm' takes exactly one argument: the VM op key"),
            Message::UnknownAttribute { name } => String::from_str("Unknown attribute '@").concat(names.text(name)).concat("'"),
            Message::OnlyDeclarations => String::from_str("Modules may only contain declarations at the top level"),
            Message::DuplicateTypeParameter { name } => String::from_str("Duplicate type parameter '").concat(names.text(name)).concat("'"),
            Message::IntOutOfRange { text } => String::from_str("integer literal '").concat(names.text(text)).concat("' out of range for Int (must be between -9223372036854775808 and 9223372036854775807)"),
            Message::InvalidNumber { text } => String::from_str("invalid number literal '").concat(names.text(text)).concat("'"),
            Message::Prelude { fault } => {
                let text: String = fault.message();
                String::from_str(text.as_str())
            },
        }
    }
}

/// Whether a list of diagnostics holds an error.
pub open spec fn any_error(diags: Seq<Diagnostic>) -> bool {
    exists|i: int| 0 <= i < diags.len() && (#[trigger] diags[i]).severity == Severity::Error
}

/// Whether a list of diagnostics holds an error.
pub fn has_errors(diags: &[Diagnostic]) -> (res: bool)
    ensures
        res == any_error(diags@),
{
    let mut i: usize = 0;
    while i < diags.len()
        invariant
            i <= diags.len(),
            forall|k: int| 0 <= k < i ==> (#[trigger] diags@[k]).severity != Severity::Error,
        decreases diags.len() - i,
    {
        if diags[i].severity == Severity::Error {
            return true;
        }
        i = i + 1;
    }
    false
}

} // verus!

//! The syntax tree the compiler walks.
//!
//! Every piece of source text is interned: a [`StrId`] stands for a name, a
//! literal's text or the rendering of a type. Type inference has run by the time
//! a tree gets here, and each node carries what it resolved: the primitive type
//! of an operand, the shape of a callee or of a receiver, the verdict on a
//! match, and what does not fit where two types have to.
use crate::binop::{BinaryOp, Prim};
use crate::prelude_bindings::TypeId;
use vstd::prelude::*;

verus! {

/// An interned string.
pub type StrId = u32;

/// A range of source text.
#[derive(Debug, Clone, Copy, PartialEq, Eq, Structural)]
pub struct Span {
    pub start_line: i32,
    pub start_column: i32,
    pub end_line: i32,
    pub end_column: i32,
}

/// A name where it stands in the source.
#[derive(Debug, Clone, Copy, PartialEq, Eq, Structural)]
pub struct Ident {
    pub name: StrId,
    pub span: Span,
}

/// A numeric literal, by its text.
#[derive(Debug, Clone, Copy, PartialEq, Eq, Structural)]
pub struct NumberLiteral {
    pub text: StrId,
    pub span: Span,
}

/// A prefix operator.
#[derive(Debug, Clone, Copy, PartialEq, Eq, Structural)]
pub enum UnaryOp {
    Not,
    Neg,
}

/// How a binary segment's value is encoded.
#[derive(Debug, Clone, Copy, PartialEq, Eq, Structural)]
pub enum BinKind {
    Int,
    Binary,
    Utf8,
}

/// What a binary segment's size counts.
#[derive(Debug, Clone, Copy, PartialEq, Eq, Structural)]
pub enum BinUnit {
    Bits,
    Bytes,
}

/// How the arguments of a call fit the callee's type.
#[derive(Debug, Clone, Copy, PartialEq, Eq, Structural)]
pub enum CalleeShape {
    /// As many parameters as arguments.
    Fits,
    /// A function of another number of parameters.
    Arity { expected: u32 },
    /// Not a function, but a value of the type rendered as `ty`.
    NotFn { ty: StrId },
}

/// The outermost form of a type.
#[derive(Debug, Clone, Copy, PartialEq, Eq, Structural)]
pub enum TypeShape {
    /// A nominal type.
    Con { id: TypeId, name: StrId },
    /// A tuple of so many elements.
    Tuple { len: u32 },
    /// Not resolved.
    Var,
    /// Anything else.
    Other,
}

/// Two types that do not fit: what inference says of them, and where.
#[derive(Debug, Clone, Copy, PartialEq, Eq, Structural)]
pub struct TypeFault {
    pub text: StrId,
    pub span: Span,
}

/// What is known of the type of a value that is projected from or unwrapped.
#[derive(Debug, Clone, Copy, PartialEq, Eq, Structural)]
pub struct Receiver {
    pub shape: TypeShape,
    /// The type as diagnostics render it.
    pub text: StrId,
}

/// An expression. Wherever a type is asked of a part of it, `faults` are those of the
/// part, in the order they were found.
#[derive(Debug)]
#[allow(inconsistent_fields)]
pub enum Expr {
    BinaryLiteral { segments: Vec<BinSegment>, span: Span },
    Block { body: Vec<Node>, span: Span },
    Number(NumberLiteral),
    Str { value: StrId, span: Span },
    Interpolated { parts: Vec<Expr>, span: Span },
    /// `near` is the closest known name, offered when this one is unknown.
    Name { id: Ident, near: Option<StrId> },
    Binary(BinaryExpr),
    Unary {
        op: UnaryOp,
        operand: Box<Expr>,
        prim: Option<Prim>,
        faults: Vec<TypeFault>,
        span: Span,
    },
    If {
        condition: Box<Expr>,
        condition_faults: Vec<TypeFault>,
        body: Box<Expr>,
        else_body: Box<Expr>,
        branch_faults: Vec<TypeFault>,
        span: Span,
    },
    Match(MatchExpr),
    Array { elements: Vec<ArrayElement>, span: Span },
    Tuple { elements: Vec<Expr>, span: Span },
    Index {
        array: Box<Expr>,
        array_faults: Vec<TypeFault>,
        index: Box<Expr>,
        index_faults: Vec<TypeFault>,
        span: Span,
    },
    Range { start: Box<Expr>, end: Box<Expr>, faults: Vec<TypeFault>, span: Span },
    /// A nameless function; `annotations` are those of its parameters, as far as they go.
    Function {
        params: Vec<Ident>,
        annotations: Vec<Annotation>,
        body: Box<Expr>,
        ret: Annotation,
        faults: Vec<TypeFault>,
        span: Span,
    },
    Call(CallExpr),
    Property(PropertyExpr),
    Or(OrExpr),
    /// What the parser could not read, and what it says of it.
    Error { message: StrId, span: Span },
}

/// A binary operation on operands of a primitive type, where that is resolved.
#[derive(Debug)]
pub struct BinaryExpr {
    pub op: BinaryOp,
    pub left: Box<Expr>,
    pub left_faults: Vec<TypeFault>,
    pub right: Box<Expr>,
    pub right_faults: Vec<TypeFault>,
    pub prim: Option<Prim>,
    pub span: Span,
}

/// A match. `missing` renders a value that no arm covers.
#[derive(Debug)]
pub struct MatchExpr {
    pub subject: Box<Expr>,
    pub arms: Vec<Arm>,
    pub missing: Option<StrId>,
    pub span: Span,
}

/// A call.
#[derive(Debug)]
pub struct CallExpr {
    pub callee: Box<Expr>,
    pub args: Vec<CallArg>,
    pub shape: CalleeShape,
    pub span: Span,
}

/// A property of a value: `left.right`.
#[derive(Debug)]
pub struct PropertyExpr {
    pub left: Box<Expr>,
    pub right: Box<Expr>,
    /// The type of the left side.
    pub receiver: Receiver,
    /// The types that a field has in different variants, where they do not fit.
    pub faults: Vec<TypeFault>,
    pub span: Span,
}

/// An `or`: a value that may have failed, and what to do then.
#[derive(Debug)]
pub struct OrExpr {
    pub expression: Box<Expr>,
    /// The type of the expression.
    pub left: Receiver,
    pub left_faults: Vec<TypeFault>,
    /// The name the failure is bound to.
    pub receiver: Option<Ident>,
    pub body: Box<Expr>,
    pub body_faults: Vec<TypeFault>,
    pub span: Span,
}

/// One arm of a match. `unreachable` says that earlier arms cover it.
#[derive(Debug)]
pub struct Arm {
    pub pattern: Pattern,
    pub guard: Option<Expr>,
    pub guard_faults: Vec<TypeFault>,
    pub body: Expr,
    pub faults: Vec<TypeFault>,
    pub unreachable: bool,
}

/// An element of an array literal.
#[derive(Debug)]
pub enum ArrayElement {
    Item { value: Expr, faults: Vec<TypeFault> },
    Spread { expression: Option<Expr>, faults: Vec<TypeFault>, span: Span },
}

/// An argument of a call.
#[derive(Debug)]
pub enum CallArg {
    Positional { value: Expr, faults: Vec<TypeFault> },
    Labeled { label: Ident, value: Expr, faults: Vec<TypeFault> },
    Spread { value: Expr, faults: Vec<TypeFault> },
}

/// A segment of a binary literal.
#[derive(Debug)]
pub struct BinSegment {
    pub value: Expr,
    pub value_faults: Vec<TypeFault>,
    pub size: Option<Expr>,
    pub size_faults: Vec<TypeFault>,
    pub kind: BinKind,
    pub unit: BinUnit,
}

/// A statement or an expression of a block. `unconsumed` renders the type of an
/// expression whose value may not be dropped silently.
#[derive(Debug)]
pub enum Node {
    Statement(Statement),
    Expression { expr: Expr, unconsumed: Option<StrId> },
}

/// A statement.
#[derive(Debug)]
pub enum Statement {
    Binding {
        target: Ident,
        annotation: Annotation,
        init: Expr,
        faults: Vec<TypeFault>,
        doc: Option<StrId>,
        span: Span,
    },
    TupleBinding { patterns: Vec<Pattern>, init: Expr, faults: Vec<TypeFault>, span: Span },
    /// `uncovered` renders a value that the pattern does not cover.
    CtorBinding { pattern: Pattern, init: Expr, uncovered: Option<StrId>, span: Span },
    /// `annotation` is the name read as an annotation.
    TypedDiscard {
        ty_name: Ident,
        annotation: Annotation,
        init: Expr,
        faults: Vec<TypeFault>,
        span: Span,
    },
    Declaration { decl: Declaration, public: bool },
    Import(ImportDecl),
}

/// A declaration.
#[derive(Debug)]
pub enum Declaration {
    Function(FunctionDecl),
    Type(TypeDecl),
    Const(ConstDecl),
}

/// A named function. `signature` holds the annotations of its parameters and of what it
/// returns, as far as there are any; `faults` are those of its body.
#[derive(Debug)]
pub struct FunctionDecl {
    pub name: Ident,
    pub params: Vec<Ident>,
    pub signature: Vec<Annotation>,
    pub body: FnBody,
    pub faults: Vec<TypeFault>,
    pub attributes: Vec<Attribute>,
    pub doc: Option<StrId>,
    pub span: Span,
}

/// What a function runs: a virtual-machine builtin or a body of its own.
#[derive(Debug)]
pub enum FnBody {
    Vm(Ident),
    Block(Expr),
}

/// A constant.
#[derive(Debug)]
pub struct ConstDecl {
    pub name: Ident,
    pub annotation: Annotation,
    pub init: Expr,
    pub faults: Vec<TypeFault>,
    pub doc: Option<StrId>,
    pub span: Span,
}

/// A type declaration.
#[derive(Debug)]
pub struct TypeDecl {
    pub name: Ident,
    pub params: Vec<Ident>,
    pub body: TypeBody,
    pub attributes: Vec<Attribute>,
    pub doc: Option<StrId>,
    pub span: Span,
}

/// What a type declaration says.
#[derive(Debug)]
pub enum TypeBody {
    /// The right side, and how reading it as an annotation went.
    Alias(TypeExpr, Annotation),
    External,
    Variants { ctors: Vec<CtorDecl>, opaque: bool },
}

/// A constructor and its field labels; `annotations` are those of its fields.
#[derive(Debug)]
pub struct CtorDecl {
    pub name: Ident,
    pub fields: Vec<Ident>,
    pub annotations: Vec<Annotation>,
    pub doc: Option<StrId>,
}

/// An attribute with its number of arguments.
#[derive(Debug, Clone, Copy, PartialEq, Eq, Structural)]
pub struct Attribute {
    pub name: Ident,
    pub args: usize,
    pub span: Span,
}

/// A type that an annotation names: the module that declares it, and where it is named.
#[derive(Debug, Clone, Copy, PartialEq, Eq, Structural)]
pub struct TypeMention {
    pub module: StrId,
    pub name: StrId,
    pub span: Span,
}

/// How reading a type annotation went: the types it names, in their order, and what is
/// wrong with it. An annotation that is not there names nothing.
#[derive(Debug)]
pub struct Annotation {
    pub mentions: Vec<TypeMention>,
    pub fault: Option<(StrId, Span)>,
}

/// A type annotation.
#[derive(Debug)]
pub enum TypeExpr {
    Named { name: Ident, args: Vec<TypeExpr> },
    Function { params: Vec<TypeExpr>, ret: Option<Box<TypeExpr>> },
    Tuple { elements: Vec<TypeExpr> },
}

/// An import. `key` is the module's canonical key, `path` the segments that name it in
/// the source.
#[derive(Debug)]
pub struct ImportDecl {
    pub key: StrId,
    pub path: Vec<StrId>,
    pub path_span: Span,
    pub alias: Option<Ident>,
    pub items: Vec<ImportItem>,
    pub span: Span,
}

/// A selectively imported name.
#[derive(Debug, Clone, Copy, PartialEq, Eq, Structural)]
pub struct ImportItem {
    pub name: Ident,
    pub alias: Option<Ident>,
}

/// A pattern. `faults` say where its type is not that of what it is matched against, or
/// where a name cannot be bound.
#[derive(Debug)]
#[allow(inconsistent_fields)]
pub enum Pattern {
    Binary {
        segments: Vec<BinSegmentPat>,
        rest: Option<BinaryRest>,
        faults: Vec<TypeFault>,
        rest_faults: Vec<TypeFault>,
        span: Span,
    },
    Wildcard { span: Span },
    Var { id: Ident, faults: Vec<TypeFault> },
    Number { literal: NumberLiteral, faults: Vec<TypeFault> },
    Str { value: StrId, faults: Vec<TypeFault>, span: Span },
    Range { start: Box<Pattern>, end: Box<Pattern>, faults: Vec<TypeFault>, span: Span },
    Tuple { elements: Vec<Pattern>, faults: Vec<TypeFault>, span: Span },
    Array { elements: Vec<ArrayPattern>, faults: Vec<TypeFault>, span: Span },
    Constructor {
        name: Ident,
        args: Vec<PatternArg>,
        rest: bool,
        faults: Vec<TypeFault>,
        span: Span,
    },
    /// `unlike` says of each alternative but the first where it does not bind the names
    /// that the first one binds, as far as any does not.
    Or { patterns: Vec<Pattern>, unlike: Vec<Vec<TypeFault>>, span: Span },
}

/// A segment of a binary pattern.
#[derive(Debug)]
pub struct BinSegmentPat {
    pub value: Pattern,
    pub size: Option<Expr>,
    pub size_faults: Vec<TypeFault>,
    pub kind: BinKind,
    pub unit: BinUnit,
}

/// The `..rest` of a binary pattern.
#[derive(Debug, Clone, Copy, PartialEq, Eq, Structural)]
pub struct BinaryRest {
    pub binding: Option<Ident>,
}

/// An element of an array pattern.
#[derive(Debug)]
pub enum ArrayPattern {
    Item(Pattern),
    Spread { binding: Option<Ident>, faults: Vec<TypeFault>, span: Span },
}

/// An argument of a constructor pattern.
#[derive(Debug)]
pub enum PatternArg {
    Positional(Pattern),
    Labeled { label: Ident, pattern: Pattern },
}

/// Where an expression stands.
pub open spec fn span_of(e: Expr) -> Span {
    match e {
        Expr::BinaryLiteral { span, .. } => span,
        Expr::Block { span, .. } => span,
        Expr::Number(n) => n.span,
        Expr::Str { span, .. } => span,
        Expr::Interpolated { span, .. } => span,
        Expr::Name { id, .. } => id.span,
        Expr::Binary(x) => x.span,
        Expr::Unary { span, .. } => span,
        Expr::If { span, .. } => span,
        Expr::Match(x) => x.span,
        Expr::Array { span, .. } => span,
        Expr::Tuple { span, .. } => span,
        Expr::Index { span, .. } => span,
        Expr::Range { span, .. } => span,
        Expr::Function { span, .. } => span,
        Expr::Call(x) => x.span,
        Expr::Property(x) => x.span,
        Expr::Or(x) => x.span,
        Expr::Error { span, .. } => span,
    }
}

/// Where a pattern stands.
pub open spec fn pattern_span(p: Pattern) -> Span {
    match p {
        Pattern::Binary { span, .. } => span,
        Pattern::Wildcard { span } => span,
        Pattern::Var { id, .. } => id.span,
        Pattern::Number { literal: n, .. } => n.span,
        Pattern::Str { span, .. } => span,
        Pattern::Range { span, .. } => span,
        Pattern::Tuple { span, .. } => span,
        Pattern::Array { span, .. } => span,
        Pattern::Constructor { span, .. } => span,
        Pattern::Or { span, .. } => span,
    }
}

/// Where a declaration stands.
pub open spec fn decl_span(d: Declaration) -> Span {
    match d {
        Declaration::Function(f) => f.span,
        Declaration::Type(t) => t.span,
        Declaration::Const(c) => c.span,
    }
}

/// Where a node stands.
pub open spec fn node_span(n: Node) -> Span {
    match n {
        Node::Expression { expr, .. } => span_of(expr),
        Node::Statement(s) => match s {
            Statement::Binding { span, .. } => span,
            Statement::TupleBinding { span, .. } => span,
            Statement::CtorBinding { span, .. } => span,
            Statement::TypedDiscard { span, .. } => span,
            Statement::Declaration { decl, .. } => decl_span(decl),
            Statement::Import(i) => i.span,
        },
    }
}

impl Expr {
    /// Where the expression stands.
    pub fn span(&self) -> (res: Span)
        ensures
            res == span_of(*self),
    {
        match self {
            Expr::BinaryLiteral { span, .. } => *span,
            Expr::Block { span, .. } => *span,
            Expr::Number(n) => n.span,
            Expr::Str { span, .. } => *span,
            Expr::Interpolated { span, .. } => *span,
            Expr::Name { id, .. } => id.span,
            Expr::Binary(x) => x.span,
            Expr::Unary { span, .. } => *span,
            Expr::If { span, .. } => *span,
            Expr::Match(x) => x.span,
            Expr::Array { span, .. } => *span,
            Expr::Tuple { span, .. } => *span,
            Expr::Index { span, .. } => *span,
            Expr::Range { span, .. } => *span,
            Expr::Function { span, .. } => *span,
            Expr::Call(x) => x.span,
            Expr::Property(x) => x.span,
            Expr::Or(x) => x.span,
            Expr::Error { span, .. } => *span,
        }
    }
}

impl Pattern {
    /// Where the pattern stands.
    pub fn span(&self) -> (res: Span)
        ensures
            res == pattern_span(*self),
    {
        match self {
            Pattern::Binary { span, .. } => *span,
            Pattern::Wildcard { span } => *span,
            Pattern::Var { id, .. } => id.span,
            Pattern::Number { literal: n, .. } => n.span,
            Pattern::Str { span, .. } => *span,
            Pattern::Range { span, .. } => *span,
            Pattern::Tuple { span, .. } => *span,
            Pattern::Array { span, .. } => *span,
            Pattern::Constructor { span, .. } => *span,
            Pattern::Or { span, .. } => *span,
        }
    }
}

impl Declaration {
    /// Where the declaration stands.
    pub fn span(&self) -> (res: Span)
        ensures
            res == decl_span(*self),
    {
        match self {
            Declaration::Function(f) => f.span,
            Declaration::Type(t) => t.span,
            Declaration::Const(c) => c.span,
        }
    }
}

impl Node {
    /// Where the node stands.
    pub fn span(&self) -> (res: Span)
        ensures
            res == node_span(*self),
    {
        match self {
            Node::Expression { expr, .. } => expr.span(),
            Node::Statement(s) => match s {
                Statement::Binding { span, .. } => *span,
                Statement::TupleBinding { span, .. } => *span,
                Statement::CtorBinding { span, .. } => *span,
                Statement::TypedDiscard { span, .. } => *span,
                Statement::Declaration { decl, .. } => decl.span(),
                Statement::Import(i) => i.span,
            },
        }
    }
}

/// The span that a type mismatch in `e` is reported at: for a block its last
/// node, however deep, otherwise the expression itself.
pub open spec fn defining_span(e: Expr) -> Span
    decreases e,
{
    match e {
        Expr::Block { body, span } => if body@.len() == 0 {
            span
        } else {
            match body@[body@.len() - 1] {
                Node::Expression { expr, .. } => defining_span(expr),
                Node::Statement(_) => node_span(body@[body@.len() - 1]),
            }
        },
        _ => span_of(e),
    }
}

/// The span that "defines" the type of an expression for error reporting.
pub fn type_defining_span(expr: &Expr) -> (res: Span)
    ensures
        res == defining_span(*expr),
    decreases *expr,
{
    match expr {
        Expr::Block { body, span } => {
            if body.len() == 0 {
                return *span;
            }
            match &body[body.len() - 1] {
                Node::Expression { expr: e, .. } => type_defining_span(e),
                n => n.span(),
            }
        },
        _ => expr.span(),
    }
}

} // verus!

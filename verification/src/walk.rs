//! Which top-level declarations an expression refers to.
//!
//! A name bound inside the expression hides the declaration of the same name for
//! as long as the binding is in scope.
use crate::ast::{
    Arm, ArrayElement, ArrayPattern, BinSegment, BinSegmentPat, CallArg, Declaration, Expr, FnBody,
    Ident, Node, Pattern, PatternArg, Statement, StrId,
};
use crate::shadows::{lemma_steady_self, steady, RefWalker, Walk};
use vstd::prelude::*;

verus! {

broadcast use crate::shadows::lemma_steady;

/// Walk an expression.
pub open spec fn free(e: Expr, w: Walk) -> Walk
    decreases e, 1nat,
{
    free_body(e, w)
}

/// What is walked of each form of expression.
#[verifier::opaque]
pub open spec fn free_body(e: Expr, w: Walk) -> Walk
    decreases e, 0nat,
{
    match e {
        Expr::Name { id, .. } => w.referenced(id.name),
        Expr::Number(_) => w,
        Expr::Str { .. } => w,
        Expr::Error { .. } => w,
        Expr::BinaryLiteral { segments, .. } => free_segments(segments@, segments@.len(), w),
        Expr::Interpolated { parts, .. } => free_all(parts@, parts@.len(), w),
        Expr::Array { elements, .. } => free_elements(elements@, elements@.len(), w),
        Expr::Tuple { elements, .. } => free_all(elements@, elements@.len(), w),
        Expr::Index { array, index, .. } => free(*index, free(*array, w)),
        Expr::Range { start, end, .. } => free(*end, free(*start, w)),
        Expr::Binary(b) => free(*b.right, free(*b.left, w)),
        Expr::Unary { operand, .. } => free(*operand, w),
        Expr::Property(pa) => free(*pa.left, w),
        Expr::Call(c) => free_args(c.args@, c.args@.len(), free(*c.callee, w)),
        Expr::If { condition, body, else_body, .. } => free(
            *else_body,
            free(*body, free(*condition, w)),
        ),
        Expr::Or(o) => {
            let u = free(*o.expression, w);
            u.leave(free(*o.body, u.define_opt(o.receiver)))
        },
        Expr::Match(m) => free_arms(m.arms@, m.arms@.len(), free(*m.subject, w)),
        Expr::Function { params, body, .. } => w.leave(
            free(*body, w.define_all(params@, params@.len())),
        ),
        Expr::Block { body, .. } => w.leave(free_nodes(body@, body@.len(), w)),
    }
}

/// Walk the first `n` of several expressions.
pub open spec fn free_all(es: Seq<Expr>, n: nat, w: Walk) -> Walk
    decreases es, n,
{
    if n == 0 || n > es.len() {
        w
    } else {
        let u = free_all(es, (n - 1) as nat, w);
        free(es[n - 1], u)
    }
}

/// Walk the first `n` segments of a binary literal.
pub open spec fn free_segments(es: Seq<BinSegment>, n: nat, w: Walk) -> Walk
    decreases es, n,
{
    if n == 0 || n > es.len() {
        w
    } else {
        let u = free_segments(es, (n - 1) as nat, w);
        let v = free(es[n - 1].value, u);
        match es[n - 1].size {
            Some(size) => free(size, v),
            None => v,
        }
    }
}

/// Walk the first `n` elements of an array.
pub open spec fn free_elements(es: Seq<ArrayElement>, n: nat, w: Walk) -> Walk
    decreases es, n,
{
    if n == 0 || n > es.len() {
        w
    } else {
        let u = free_elements(es, (n - 1) as nat, w);
        match es[n - 1] {
            ArrayElement::Item { value: e, .. } => free(e, u),
            ArrayElement::Spread { expression: Some(e), .. } => free(e, u),
            ArrayElement::Spread { expression: None, .. } => u,
        }
    }
}

/// Walk the first `n` arguments of a call.
pub open spec fn free_args(es: Seq<CallArg>, n: nat, w: Walk) -> Walk
    decreases es, n,
{
    if n == 0 || n > es.len() {
        w
    } else {
        let u = free_args(es, (n - 1) as nat, w);
        match es[n - 1] {
            CallArg::Positional { value: e, .. } => free(e, u),
            CallArg::Labeled { value, .. } => free(value, u),
            CallArg::Spread { value: e, .. } => free(e, u),
        }
    }
}

/// Walk the first `n` arms of a match. What a pattern binds is hidden in its arm.
pub open spec fn free_arms(es: Seq<Arm>, n: nat, w: Walk) -> Walk
    decreases es, n,
{
    if n == 0 || n > es.len() {
        w
    } else {
        let u = free_arms(es, (n - 1) as nat, w);
        let v = binds(es[n - 1].pattern, u);
        let x = match es[n - 1].guard {
            Some(guard) => free(guard, v),
            None => v,
        };
        u.leave(free(es[n - 1].body, x))
    }
}

/// Walk the first `n` nodes of a block.
pub open spec fn free_nodes(es: Seq<Node>, n: nat, w: Walk) -> Walk
    decreases es, n,
{
    if n == 0 || n > es.len() {
        w
    } else {
        let u = free_nodes(es, (n - 1) as nat, w);
        free_node(es[n - 1], u)
    }
}

/// Walk a node. A value binding is hidden from its own initialiser on; a function
/// is hidden in its own body too.
pub open spec fn free_node(n: Node, w: Walk) -> Walk
    decreases n, 0nat,
{
    match n {
        Node::Expression { expr, .. } => free(expr, w),
        Node::Statement(st) => match st {
            Statement::Binding { target, init, .. } => free(init, w).define(target.name),
            Statement::TupleBinding { patterns, init, .. } => binds_all(
                patterns@,
                patterns@.len(),
                free(init, w),
            ),
            Statement::CtorBinding { pattern, init, .. } => binds(pattern, free(init, w)),
            Statement::TypedDiscard { init, .. } => free(init, w),
            Statement::Declaration { decl, .. } => match decl {
                Declaration::Const(c) => free(c.init, w).define(c.name.name),
                Declaration::Function(f) => {
                    let u = w.define(f.name.name);
                    match f.body {
                        FnBody::Block(body) => u.leave(
                            free(body, u.define_all(f.params@, f.params@.len())),
                        ),
                        FnBody::Vm(_) => u,
                    }
                },
                Declaration::Type(_) => w,
            },
            Statement::Import(_) => w,
        },
    }
}

/// Walk a pattern: the names it binds are hidden, in all alternatives, and the
/// sizes of binary segments are walked where they stand.
pub open spec fn binds(p: Pattern, w: Walk) -> Walk
    decreases p, 0nat,
{
    match p {
        Pattern::Binary { segments, rest, .. } => {
            let u = binds_segments(segments@, segments@.len(), w);
            match rest {
                Some(r) => u.define_opt(r.binding),
                None => u,
            }
        },
        Pattern::Wildcard { .. } => w,
        Pattern::Var { id, .. } => w.define(id.name),
        Pattern::Number { .. } => w,
        Pattern::Str { .. } => w,
        Pattern::Range { start, end, .. } => binds(*end, binds(*start, w)),
        Pattern::Tuple { elements, .. } => binds_all(elements@, elements@.len(), w),
        Pattern::Array { elements, .. } => binds_elements(elements@, elements@.len(), w),
        Pattern::Constructor { args, .. } => binds_args(args@, args@.len(), w),
        Pattern::Or { patterns, .. } => binds_all(patterns@, patterns@.len(), w),
    }
}

/// Walk the first `n` of several patterns.
pub open spec fn binds_all(es: Seq<Pattern>, n: nat, w: Walk) -> Walk
    decreases es, n,
{
    if n == 0 || n > es.len() {
        w
    } else {
        let u = binds_all(es, (n - 1) as nat, w);
        binds(es[n - 1], u)
    }
}

/// Walk the first `n` segments of a binary pattern.
pub open spec fn binds_segments(es: Seq<BinSegmentPat>, n: nat, w: Walk) -> Walk
    decreases es, n,
{
    if n == 0 || n > es.len() {
        w
    } else {
        let u = binds_segments(es, (n - 1) as nat, w);
        binds(
            es[n - 1].value,
            match es[n - 1].size {
                Some(size) => free(size, u),
                None => u,
            },
        )
    }
}

/// Walk the first `n` elements of an array pattern.
pub open spec fn binds_elements(es: Seq<ArrayPattern>, n: nat, w: Walk) -> Walk
    decreases es, n,
{
    if n == 0 || n > es.len() {
        w
    } else {
        let u = binds_elements(es, (n - 1) as nat, w);
        match es[n - 1] {
            ArrayPattern::Item(p) => binds(p, u),
            ArrayPattern::Spread { binding, .. } => u.define_opt(binding),
        }
    }
}

/// Walk the first `n` arguments of a constructor pattern.
pub open spec fn binds_args(es: Seq<PatternArg>, n: nat, w: Walk) -> Walk
    decreases es, n,
{
    if n == 0 || n > es.len() {
        w
    } else {
        let u = binds_args(es, (n - 1) as nat, w);
        match es[n - 1] {
            PatternArg::Positional(p) => binds(p, u),
            PatternArg::Labeled { pattern, .. } => binds(pattern, u),
        }
    }
}

impl<'a> RefWalker<'a> {
    /// Walk an expression.
    pub fn expr(&mut self, e: &Expr)
        requires
            old(self).wf(),
        ensures
            final(self)@ == free(*e, old(self)@),
            steady(*old(self), *final(self)),
            final(self).wf(),
        decreases *e, 0nat,
    {
        let ghost entry = *self;
        proof {
            reveal(free_body);
            assert(free(*e, self@) == free_body(*e, self@));
            lemma_steady_self(*self);
        }
        match e {
            Expr::Name { id, .. } => self.referenced(id.name),
            Expr::Number(_) => {},
            Expr::Str { .. } => {},
            Expr::Error { .. } => {},
            Expr::BinaryLiteral { segments, .. } => self.segments(segments),
            Expr::Interpolated { parts, .. } => self.exprs(parts),
            Expr::Array { elements, .. } => self.elements(elements),
            Expr::Tuple { elements, .. } => self.exprs(elements),
            Expr::Index { array, index, .. } => {
                self.expr(array);
                self.expr(index);
            },
            Expr::Range { start, end, .. } => {
                self.expr(start);
                self.expr(end);
            },
            Expr::Binary(b) => {
                self.expr(&b.left);
                self.expr(&b.right);
            },
            Expr::Unary { operand, .. } => self.expr(operand),
            Expr::Property(pa) => self.expr(&pa.left),
            Expr::Call(c) => {
                self.expr(&c.callee);
                self.args(&c.args);
            },
            Expr::If { condition, body, else_body, .. } => {
                self.expr(condition);
                self.expr(body);
                self.expr(else_body);
            },
            Expr::Or(o) => {
                self.expr(&o.expression);
                let ghost outer = *self;
                proof {
                    lemma_steady_self(outer);
                }
                let mark: usize = self.undo.len();
                self.define_opt(o.receiver);
                self.expr(&o.body);
                self.leave(mark, Ghost(outer));
            },
            Expr::Match(m) => {
                self.expr(&m.subject);
                self.arms(&m.arms);
            },
            Expr::Function { params, body, .. } => {
                let mark: usize = self.undo.len();
                self.define_all(params);
                self.expr(body);
                self.leave(mark, Ghost(entry));
            },
            Expr::Block { body, .. } => {
                let mark: usize = self.undo.len();
                self.nodes(body);
                self.leave(mark, Ghost(entry));
            },
        }
    }

    /// Walk several expressions.
    fn exprs(&mut self, es: &Vec<Expr>)
        requires
            old(self).wf(),
        ensures
            final(self)@ == free_all(es@, es@.len(), old(self)@),
            steady(*old(self), *final(self)),
            final(self).wf(),
        decreases es@, 0nat,
    {
        let ghost entry = *self;
        proof {
            lemma_steady_self(entry);
        }
        let mut n: usize = 0;
        while n < es.len()
            invariant
                n <= es.len(),
                self.wf(),
                steady(entry, *self),
                self@ == free_all(es@, n as nat, entry@),
            decreases es.len() - n,
        {
            self.expr(&es[n]);
            n = n + 1;
        }
    }

    /// Walk the segments of a binary literal.
    fn segments(&mut self, es: &Vec<BinSegment>)
        requires
            old(self).wf(),
        ensures
            final(self)@ == free_segments(es@, es@.len(), old(self)@),
            steady(*old(self), *final(self)),
            final(self).wf(),
        decreases es@, 0nat,
    {
        let ghost entry = *self;
        proof {
            lemma_steady_self(entry);
        }
        let mut n: usize = 0;
        while n < es.len()
            invariant
                n <= es.len(),
                self.wf(),
                steady(entry, *self),
                self@ == free_segments(es@, n as nat, entry@),
            decreases es.len() - n,
        {
            self.expr(&es[n].value);
            if let Some(size) = &es[n].size {
                self.expr(size);
            }
            n = n + 1;
        }
    }

    /// Walk the elements of an array.
    fn elements(&mut self, es: &Vec<ArrayElement>)
        requires
            old(self).wf(),
        ensures
            final(self)@ == free_elements(es@, es@.len(), old(self)@),
            steady(*old(self), *final(self)),
            final(self).wf(),
        decreases es@, 0nat,
    {
        let ghost entry = *self;
        proof {
            lemma_steady_self(entry);
        }
        let mut n: usize = 0;
        while n < es.len()
            invariant
                n <= es.len(),
                self.wf(),
                steady(entry, *self),
                self@ == free_elements(es@, n as nat, entry@),
            decreases es.len() - n,
        {
            match &es[n] {
                ArrayElement::Item { value: e, .. } => self.expr(e),
                ArrayElement::Spread { expression, .. } => {
                    if let Some(e) = expression {
                        self.expr(e);
                    }
                },
            }
            n = n + 1;
        }
    }

    /// Walk the arguments of a call.
    fn args(&mut self, es: &Vec<CallArg>)
        requires
            old(self).wf(),
        ensures
            final(self)@ == free_args(es@, es@.len(), old(self)@),
            steady(*old(self), *final(self)),
            final(self).wf(),
        decreases es@, 0nat,
    {
        let ghost entry = *self;
        proof {
            lemma_steady_self(entry);
        }
        let mut n: usize = 0;
        while n < es.len()
            invariant
                n <= es.len(),
                self.wf(),
                steady(entry, *self),
                self@ == free_args(es@, n as nat, entry@),
            decreases es.len() - n,
        {
            match &es[n] {
                CallArg::Positional { value: e, .. } => self.expr(e),
                CallArg::Labeled { value, .. } => self.expr(value),
                CallArg::Spread { value: e, .. } => self.expr(e),
            }
            n = n + 1;
        }
    }

    /// Walk the arms of a match.
    fn arms(&mut self, es: &Vec<Arm>)
        requires
            old(self).wf(),
        ensures
            final(self)@ == free_arms(es@, es@.len(), old(self)@),
            steady(*old(self), *final(self)),
            final(self).wf(),
        decreases es@, 0nat,
    {
        let ghost entry = *self;
        proof {
            lemma_steady_self(entry);
        }
        let mut n: usize = 0;
        while n < es.len()
            invariant
                n <= es.len(),
                self.wf(),
                steady(entry, *self),
                self@ == free_arms(es@, n as nat, entry@),
            decreases es.len() - n,
        {
            let ghost outer = *self;
            proof {
                lemma_steady_self(outer);
            }
            let mark: usize = self.undo.len();
            self.pattern(&es[n].pattern);
            if let Some(guard) = &es[n].guard {
                self.expr(guard);
            }
            self.expr(&es[n].body);
            self.leave(mark, Ghost(outer));
            n = n + 1;
        }
    }

    /// Walk the nodes of a block.
    fn nodes(&mut self, es: &Vec<Node>)
        requires
            old(self).wf(),
        ensures
            final(self)@ == free_nodes(es@, es@.len(), old(self)@),
            steady(*old(self), *final(self)),
            final(self).wf(),
        decreases es@, 0nat,
    {
        let ghost entry = *self;
        proof {
            lemma_steady_self(entry);
        }
        let mut n: usize = 0;
        while n < es.len()
            invariant
                n <= es.len(),
                self.wf(),
                steady(entry, *self),
                self@ == free_nodes(es@, n as nat, entry@),
            decreases es.len() - n,
        {
            self.node(&es[n]);
            n = n + 1;
        }
    }

    /// Walk a node.
    pub fn node(&mut self, n: &Node)
        requires
            old(self).wf(),
        ensures
            final(self)@ == free_node(*n, old(self)@),
            steady(*old(self), *final(self)),
            final(self).wf(),
        decreases *n, 0nat,
    {
        proof {
            lemma_steady_self(*self);
        }
        match n {
            Node::Expression { expr, .. } => self.expr(expr),
            Node::Statement(st) => match st {
                Statement::Binding { target, init, .. } => {
                    self.expr(init);
                    self.define(target.name);
                },
                Statement::TupleBinding { patterns, init, .. } => {
                    self.expr(init);
                    self.patterns(patterns);
                },
                Statement::CtorBinding { pattern, init, .. } => {
                    self.expr(init);
                    self.pattern(pattern);
                },
                Statement::TypedDiscard { init, .. } => self.expr(init),
                Statement::Declaration { decl, .. } => match decl {
                    Declaration::Const(c) => {
                        self.expr(&c.init);
                        self.define(c.name.name);
                    },
                    Declaration::Function(f) => {
                        self.define(f.name.name);
                        if let FnBody::Block(body) = &f.body {
                            let ghost outer = *self;
                            proof {
                                lemma_steady_self(outer);
                            }
                            let mark: usize = self.undo.len();
                            self.define_all(&f.params);
                            self.expr(body);
                            self.leave(mark, Ghost(outer));
                        }
                    },
                    Declaration::Type(_) => {},
                },
                Statement::Import(_) => {},
            },
        }
    }

    /// Walk a pattern.
    pub fn pattern(&mut self, p: &Pattern)
        requires
            old(self).wf(),
        ensures
            final(self)@ == binds(*p, old(self)@),
            steady(*old(self), *final(self)),
            final(self).wf(),
        decreases *p, 0nat,
    {
        proof {
            lemma_steady_self(*self);
        }
        match p {
            Pattern::Binary { segments, rest, .. } => {
                self.segment_patterns(segments);
                if let Some(r) = rest {
                    self.define_opt(r.binding);
                }
            },
            Pattern::Wildcard { .. } => {},
            Pattern::Var { id, .. } => self.define(id.name),
            Pattern::Number { .. } => {},
            Pattern::Str { .. } => {},
            Pattern::Range { start, end, .. } => {
                self.pattern(start);
                self.pattern(end);
            },
            Pattern::Tuple { elements, .. } => self.patterns(elements),
            Pattern::Array { elements, .. } => self.element_patterns(elements),
            Pattern::Constructor { args, .. } => self.arg_patterns(args),
            Pattern::Or { patterns, .. } => self.patterns(patterns),
        }
    }

    /// Walk several patterns.
    fn patterns(&mut self, es: &Vec<Pattern>)
        requires
            old(self).wf(),
        ensures
            final(self)@ == binds_all(es@, es@.len(), old(self)@),
            steady(*old(self), *final(self)),
            final(self).wf(),
        decreases es@, 0nat,
    {
        let ghost entry = *self;
        proof {
            lemma_steady_self(entry);
        }
        let mut n: usize = 0;
        while n < es.len()
            invariant
                n <= es.len(),
                self.wf(),
                steady(entry, *self),
                self@ == binds_all(es@, n as nat, entry@),
            decreases es.len() - n,
        {
            self.pattern(&es[n]);
            n = n + 1;
        }
    }

    /// Walk the segments of a binary pattern.
    fn segment_patterns(&mut self, es: &Vec<BinSegmentPat>)
        requires
            old(self).wf(),
        ensures
            final(self)@ == binds_segments(es@, es@.len(), old(self)@),
            steady(*old(self), *final(self)),
            final(self).wf(),
        decreases es@, 0nat,
    {
        let ghost entry = *self;
        proof {
            lemma_steady_self(entry);
        }
        let mut n: usize = 0;
        while n < es.len()
            invariant
                n <= es.len(),
                self.wf(),
                steady(entry, *self),
                self@ == binds_segments(es@, n as nat, entry@),
            decreases es.len() - n,
        {
            if let Some(size) = &es[n].size {
                self.expr(size);
            }
            self.pattern(&es[n].value);
            n = n + 1;
        }
    }

    /// Walk the elements of an array pattern.
    fn element_patterns(&mut self, es: &Vec<ArrayPattern>)
        requires
            old(self).wf(),
        ensures
            final(self)@ == binds_elements(es@, es@.len(), old(self)@),
            steady(*old(self), *final(self)),
            final(self).wf(),
        decreases es@, 0nat,
    {
        let ghost entry = *self;
        proof {
            lemma_steady_self(entry);
        }
        let mut n: usize = 0;
        while n < es.len()
            invariant
                n <= es.len(),
                self.wf(),
                steady(entry, *self),
                self@ == binds_elements(es@, n as nat, entry@),
            decreases es.len() - n,
        {
            match &es[n] {
                ArrayPattern::Item(p) => self.pattern(p),
                ArrayPattern::Spread { binding, .. } => self.define_opt(*binding),
            }
            n = n + 1;
        }
    }

    /// Walk the arguments of a constructor pattern.
    fn arg_patterns(&mut self, es: &Vec<PatternArg>)
        requires
            old(self).wf(),
        ensures
            final(self)@ == binds_args(es@, es@.len(), old(self)@),
            steady(*old(self), *final(self)),
            final(self).wf(),
        decreases es@, 0nat,
    {
        let ghost entry = *self;
        proof {
            lemma_steady_self(entry);
        }
        let mut n: usize = 0;
        while n < es.len()
            invariant
                n <= es.len(),
                self.wf(),
                steady(entry, *self),
                self@ == binds_args(es@, n as nat, entry@),
            decreases es.len() - n,
        {
            match &es[n] {
                PatternArg::Positional(p) => self.pattern(p),
                PatternArg::Labeled { pattern, .. } => self.pattern(pattern),
            }
            n = n + 1;
        }
    }
}

/// Whether the declarations and what has been found of them are before `n`.
pub open spec fn bounded(w: Walk, n: nat) -> bool {
    &&& forall|name: StrId| #[trigger] w.targets.dom().contains(name) ==> w.targets[name] < n
    &&& forall|i: int| 0 <= i < w.found.len() ==> (#[trigger] w.found[i]) < n
}

/// A walk finds only declarations it was given.
pub proof fn lemma_targets(e: Expr, w: Walk, n: nat)
    requires
        bounded(w, n),
    ensures
        bounded(free(e, w), n),
        free(e, w).targets == w.targets,
    decreases e, 1nat,
{
    reveal(free_body);
    assert(free(e, w) == free_body(e, w));
    match e {
        Expr::Name { .. } => {},
        Expr::Number(_) => {},
        Expr::Str { .. } => {},
        Expr::Error { .. } => {},
        Expr::BinaryLiteral { segments, .. } => lemma_segments(segments@, segments@.len(), w, n),
        Expr::Interpolated { parts, .. } => lemma_all(parts@, parts@.len(), w, n),
        Expr::Array { elements, .. } => lemma_elements(elements@, elements@.len(), w, n),
        Expr::Tuple { elements, .. } => lemma_all(elements@, elements@.len(), w, n),
        Expr::Index { array, index, .. } => {
            lemma_targets(*array, w, n);
            lemma_targets(*index, free(*array, w), n);
        },
        Expr::Range { start, end, .. } => {
            lemma_targets(*start, w, n);
            lemma_targets(*end, free(*start, w), n);
        },
        Expr::Binary(b) => {
            lemma_targets(*b.left, w, n);
            lemma_targets(*b.right, free(*b.left, w), n);
        },
        Expr::Unary { operand, .. } => lemma_targets(*operand, w, n),
        Expr::Property(pa) => lemma_targets(*pa.left, w, n),
        Expr::Call(c) => {
            lemma_targets(*c.callee, w, n);
            lemma_args(c.args@, c.args@.len(), free(*c.callee, w), n);
        },
        Expr::If { condition, body, else_body, .. } => {
            let u = free(*condition, w);
            lemma_targets(*condition, w, n);
            lemma_targets(*body, u, n);
            lemma_targets(*else_body, free(*body, u), n);
        },
        Expr::Or(o) => {
            let u = free(*o.expression, w);
            lemma_targets(*o.expression, w, n);
            lemma_targets(*o.body, u.define_opt(o.receiver), n);
        },
        Expr::Match(m) => {
            lemma_targets(*m.subject, w, n);
            lemma_arms(m.arms@, m.arms@.len(), free(*m.subject, w), n);
        },
        Expr::Function { params, body, .. } => {
            lemma_defined(w, params@, params@.len());
            lemma_targets(*body, w.define_all(params@, params@.len()), n);
        },
        Expr::Block { body, .. } => lemma_nodes(body@, body@.len(), w, n),
    }
}

/// Defining names finds nothing.
pub proof fn lemma_defined(w: Walk, ids: Seq<Ident>, n: nat)
    ensures
        w.define_all(ids, n).targets == w.targets,
        w.define_all(ids, n).found == w.found,
    decreases n,
{
    if n > 0 {
        lemma_defined(w, ids, (n - 1) as nat);
    }
}

proof fn lemma_all(es: Seq<Expr>, k: nat, w: Walk, n: nat)
    requires
        bounded(w, n),
    ensures
        bounded(free_all(es, k, w), n),
        free_all(es, k, w).targets == w.targets,
    decreases es, k,
{
    if 0 < k <= es.len() {
        let u = free_all(es, (k - 1) as nat, w);
        lemma_all(es, (k - 1) as nat, w, n);
        lemma_targets(es[k - 1], u, n);
    }
}

proof fn lemma_segments(es: Seq<BinSegment>, k: nat, w: Walk, n: nat)
    requires
        bounded(w, n),
    ensures
        bounded(free_segments(es, k, w), n),
        free_segments(es, k, w).targets == w.targets,
    decreases es, k,
{
    if 0 < k <= es.len() {
        let u = free_segments(es, (k - 1) as nat, w);
        lemma_segments(es, (k - 1) as nat, w, n);
        lemma_targets(es[k - 1].value, u, n);
        if let Some(size) = es[k - 1].size {
            lemma_targets(size, free(es[k - 1].value, u), n);
        }
    }
}

proof fn lemma_elements(es: Seq<ArrayElement>, k: nat, w: Walk, n: nat)
    requires
        bounded(w, n),
    ensures
        bounded(free_elements(es, k, w), n),
        free_elements(es, k, w).targets == w.targets,
    decreases es, k,
{
    if 0 < k <= es.len() {
        let u = free_elements(es, (k - 1) as nat, w);
        lemma_elements(es, (k - 1) as nat, w, n);
        match es[k - 1] {
            ArrayElement::Item { value: e, .. } => lemma_targets(e, u, n),
            ArrayElement::Spread { expression: Some(e), .. } => lemma_targets(e, u, n),
            ArrayElement::Spread { expression: None, .. } => {},
        }
    }
}

proof fn lemma_args(es: Seq<CallArg>, k: nat, w: Walk, n: nat)
    requires
        bounded(w, n),
    ensures
        bounded(free_args(es, k, w), n),
        free_args(es, k, w).targets == w.targets,
    decreases es, k,
{
    if 0 < k <= es.len() {
        let u = free_args(es, (k - 1) as nat, w);
        lemma_args(es, (k - 1) as nat, w, n);
        match es[k - 1] {
            CallArg::Positional { value: e, .. } => lemma_targets(e, u, n),
            CallArg::Labeled { value, .. } => lemma_targets(value, u, n),
            CallArg::Spread { value: e, .. } => lemma_targets(e, u, n),
        }
    }
}

proof fn lemma_arms(es: Seq<Arm>, k: nat, w: Walk, n: nat)
    requires
        bounded(w, n),
    ensures
        bounded(free_arms(es, k, w), n),
        free_arms(es, k, w).targets == w.targets,
    decreases es, k,
{
    if 0 < k <= es.len() {
        let u = free_arms(es, (k - 1) as nat, w);
        lemma_arms(es, (k - 1) as nat, w, n);
        let v = binds(es[k - 1].pattern, u);
        lemma_binds(es[k - 1].pattern, u, n);
        let x = match es[k - 1].guard {
            Some(guard) => free(guard, v),
            None => v,
        };
        if let Some(guard) = es[k - 1].guard {
            lemma_targets(guard, v, n);
        }
        lemma_targets(es[k - 1].body, x, n);
    }
}

proof fn lemma_nodes(es: Seq<Node>, k: nat, w: Walk, n: nat)
    requires
        bounded(w, n),
    ensures
        bounded(free_nodes(es, k, w), n),
        free_nodes(es, k, w).targets == w.targets,
    decreases es, k,
{
    if 0 < k <= es.len() {
        let u = free_nodes(es, (k - 1) as nat, w);
        lemma_nodes(es, (k - 1) as nat, w, n);
        lemma_node(es[k - 1], u, n);
    }
}

proof fn lemma_node(d: Node, w: Walk, n: nat)
    requires
        bounded(w, n),
    ensures
        bounded(free_node(d, w), n),
        free_node(d, w).targets == w.targets,
    decreases d, 0nat,
{
    match d {
        Node::Expression { expr, .. } => lemma_targets(expr, w, n),
        Node::Statement(st) => match st {
            Statement::Binding { init, .. } => lemma_targets(init, w, n),
            Statement::TupleBinding { patterns, init, .. } => {
                lemma_targets(init, w, n);
                lemma_binds_all(patterns@, patterns@.len(), free(init, w), n);
            },
            Statement::CtorBinding { pattern, init, .. } => {
                lemma_targets(init, w, n);
                lemma_binds(pattern, free(init, w), n);
            },
            Statement::TypedDiscard { init, .. } => lemma_targets(init, w, n),
            Statement::Declaration { decl, .. } => match decl {
                Declaration::Const(c) => lemma_targets(c.init, w, n),
                Declaration::Function(f) => {
                    let u = w.define(f.name.name);
                    if let FnBody::Block(body) = f.body {
                        lemma_defined(u, f.params@, f.params@.len());
                        lemma_targets(body, u.define_all(f.params@, f.params@.len()), n);
                    }
                },
                Declaration::Type(_) => {},
            },
            Statement::Import(_) => {},
        },
    }
}

proof fn lemma_binds(p: Pattern, w: Walk, n: nat)
    requires
        bounded(w, n),
    ensures
        bounded(binds(p, w), n),
        binds(p, w).targets == w.targets,
    decreases p, 0nat,
{
    match p {
        Pattern::Binary { segments, .. } => lemma_binds_segments(
            segments@,
            segments@.len(),
            w,
            n,
        ),
        Pattern::Range { start, end, .. } => {
            lemma_binds(*start, w, n);
            lemma_binds(*end, binds(*start, w), n);
        },
        Pattern::Tuple { elements, .. } => lemma_binds_all(elements@, elements@.len(), w, n),
        Pattern::Array { elements, .. } => lemma_binds_elements(elements@, elements@.len(), w, n),
        Pattern::Constructor { args, .. } => lemma_binds_args(args@, args@.len(), w, n),
        Pattern::Or { patterns, .. } => lemma_binds_all(patterns@, patterns@.len(), w, n),
        _ => {},
    }
}

proof fn lemma_binds_all(es: Seq<Pattern>, k: nat, w: Walk, n: nat)
    requires
        bounded(w, n),
    ensures
        bounded(binds_all(es, k, w), n),
        binds_all(es, k, w).targets == w.targets,
    decreases es, k,
{
    if 0 < k <= es.len() {
        let u = binds_all(es, (k - 1) as nat, w);
        lemma_binds_all(es, (k - 1) as nat, w, n);
        lemma_binds(es[k - 1], u, n);
    }
}

proof fn lemma_binds_segments(es: Seq<BinSegmentPat>, k: nat, w: Walk, n: nat)
    requires
        bounded(w, n),
    ensures
        bounded(binds_segments(es, k, w), n),
        binds_segments(es, k, w).targets == w.targets,
    decreases es, k,
{
    if 0 < k <= es.len() {
        let u = binds_segments(es, (k - 1) as nat, w);
        lemma_binds_segments(es, (k - 1) as nat, w, n);
        let v = match es[k - 1].size {
            Some(size) => free(size, u),
            None => u,
        };
        if let Some(size) = es[k - 1].size {
            lemma_targets(size, u, n);
        }
        lemma_binds(es[k - 1].value, v, n);
    }
}

proof fn lemma_binds_elements(es: Seq<ArrayPattern>, k: nat, w: Walk, n: nat)
    requires
        bounded(w, n),
    ensures
        bounded(binds_elements(es, k, w), n),
        binds_elements(es, k, w).targets == w.targets,
    decreases es, k,
{
    if 0 < k <= es.len() {
        let u = binds_elements(es, (k - 1) as nat, w);
        lemma_binds_elements(es, (k - 1) as nat, w, n);
        if let ArrayPattern::Item(p) = es[k - 1] {
            lemma_binds(p, u, n);
        }
    }
}

proof fn lemma_binds_args(es: Seq<PatternArg>, k: nat, w: Walk, n: nat)
    requires
        bounded(w, n),
    ensures
        bounded(binds_args(es, k, w), n),
        binds_args(es, k, w).targets == w.targets,
    decreases es, k,
{
    if 0 < k <= es.len() {
        let u = binds_args(es, (k - 1) as nat, w);
        lemma_binds_args(es, (k - 1) as nat, w, n);
        match es[k - 1] {
            PatternArg::Positional(p) => lemma_binds(p, u, n),
            PatternArg::Labeled { pattern, .. } => lemma_binds(pattern, u, n),
        }
    }
}

} // verus!

//! Compiling expressions.
use crate::ast::{
    Annotation, BinaryExpr, Expr, Ident, Node, PropertyExpr, Span, Statement, StrId, TypeFault,
    UnaryOp,
};
use crate::binop::{specialize_binop, BinopKind, Prim, ShortCircuitOp};
use crate::diag::Message;
use crate::gen::{
    array, binary, binary_body, declared_function, expr, expr_body, exprs_from, node, nodes_from,
    parts_from, property, property_body,
};
use crate::numbers::parse_i64;
use crate::op::{Const, Op};
use crate::state::{Compiler, FnFrame, State, VarAccess};
use crate::values::QualifiedMember;
use vstd::prelude::*;
use vstd::string::*;

verus! {

impl Compiler {
    /// Compile a node.
    pub fn compile_node(&mut self, n: &Node)
        ensures
            final(self)@ == node(*n, old(self)@),
        decreases *n, 0nat,
    {
        match n {
            Node::Statement(st) => self.compile_statement(st),
            Node::Expression { expr: e, .. } => self.compile_expr(e),
        }
    }

    /// Compile an expression; its value ends up on top of the stack.
    pub fn compile_expr(&mut self, e: &Expr)
        ensures
            final(self)@ == expr(*e, old(self)@),
        decreases *e, 0nat,
    {
        proof {
            reveal(expr_body);
            assert(expr(*e, self@) == expr_body(*e, self@.loc.tail, self@.set_tail(false)));
        }
        let tail: bool = self.is_tail();
        self.set_tail(false);
        match e {
            Expr::BinaryLiteral { segments, .. } => self.compile_binary_literal(segments),
            Expr::Block { body, .. } => {
                self.push_block_scope();
                self.compile_nodes(body, tail);
                let mut has_value: bool = false;
                if body.len() > 0 {
                    if let Node::Expression { .. } = &body[body.len() - 1] {
                        has_value = true;
                    }
                }
                if !has_value {
                    self.emit_nil();
                }
                self.pop_block_scope();
            },
            Expr::Number(n) => self.push_number(*n),
            Expr::Str { value, .. } => self.push_const(Const::Str(*value)),
            Expr::Interpolated { parts, .. } => {
                if parts.len() == 0 {
                    let empty: StrId = self.world().empty;
                    self.push_const(Const::Str(empty));
                } else {
                    let mut i: usize = 0;
                    let ghost goal = parts_from(parts@, 0, self@);
                    while i < parts.len()
                        invariant
                            i <= parts.len(),
                            decreases_to!(*e => parts@),
                            goal == parts_from(parts@, i as nat, self@),
                        decreases parts.len() - i,
                    {
                        self.compile_expr(&parts[i]);
                        self.emit(Op::ToString);
                        i = i + 1;
                    }
                    if parts.len() > 1 {
                        self.emit_arg(Op::StrConcatN, parts.len() as i32);
                    }
                }
            },
            Expr::Name { id, near } => self.compile_identifier(*id, *near),
            Expr::Binary(b) => self.compile_binary(b),
            Expr::Unary { op, operand, prim, faults, .. } => {
                self.compile_expr(operand);
                self.misfit(faults);
                match op {
                    UnaryOp::Not => self.emit(Op::Not),
                    UnaryOp::Neg => {
                        let o: Op = match prim {
                            Some(Prim::Int) => Op::NegInt,
                            Some(Prim::Float) => Op::NegFloat,
                            _ => Op::Neg,
                        };
                        self.emit(o);
                    },
                }
            },
            Expr::If { condition, condition_faults, body, else_body, branch_faults, .. } => {
                self.compile_expr(condition);
                self.misfit(condition_faults);
                let else_jump: usize = self.emit_jump(Op::JumpIfFalse);
                self.set_tail(tail);
                self.compile_expr(body);
                self.set_tail(false);
                let end_jump: usize = self.emit_jump(Op::Jump);
                self.patch_jump(else_jump);
                self.set_tail(tail);
                self.compile_expr(else_body);
                self.set_tail(false);
                self.patch_jump(end_jump);
                self.misfit(branch_faults);
            },
            Expr::Match(m) => self.compile_match(m, tail),
            Expr::Array { elements, .. } => self.compile_array(elements),
            Expr::Tuple { elements, .. } => {
                let mut i: usize = 0;
                let ghost goal = exprs_from(elements@, 0, self@);
                while i < elements.len()
                    invariant
                        i <= elements.len(),
                        decreases_to!(*e => elements@),
                        goal == exprs_from(elements@, i as nat, self@),
                    decreases elements.len() - i,
                {
                    self.compile_expr(&elements[i]);
                    i = i + 1;
                }
                self.emit_arg(Op::MakeTuple, elements.len() as i32);
            },
            Expr::Index { array, array_faults, index, index_faults, .. } => {
                self.compile_expr(array);
                self.misfit(array_faults);
                match &**index {
                    Expr::Range { start, end, faults, .. } => {
                        self.compile_expr(start);
                        self.compile_expr(end);
                        self.misfit(faults);
                        self.emit(Op::ArraySlice);
                    },
                    _ => {
                        self.compile_expr(index);
                        self.misfit(index_faults);
                        self.emit(Op::Index);
                    },
                }
            },
            Expr::Range { start, end, faults, .. } => {
                self.compile_expr(start);
                self.compile_expr(end);
                self.misfit(faults);
                self.emit(Op::MakeRange);
            },
            Expr::Function { params, annotations, body, ret, faults, .. } => {
                self.compile_function_common(params, annotations, body, ret, faults)
            },
            Expr::Call(c) => self.compile_call(c, tail),
            Expr::Property(pa) => self.compile_property_access(pa),
            Expr::Or(o) => self.compile_or(o),
            Expr::Error { message, span } => self.error_node(*message, *span),
        }
    }

    /// Report what the parser could not read. It has been reported where it was
    /// read, so this is only for a module in which nothing else is wrong.
    fn error_node(&mut self, fault: StrId, span: Span)
        ensures
            final(self)@ == old(self)@.unreadable(fault, span),
    {
        proof {
            reveal(State::unreadable);
        }
        if !self.has_failed() {
            self.error(Message::Unreadable { fault }, span);
        }
    }

    /// Compile the nodes of a block. The value of every expression but the last
    /// is dropped.
    fn compile_nodes(&mut self, body: &Vec<Node>, tail: bool)
        ensures
            final(self)@ == nodes_from(body@, 0, tail, old(self)@),
        decreases body@, 0nat,
    {
        let mut i: usize = 0;
        let ghost goal = nodes_from(body@, 0, tail, self@);
        while i < body.len()
            invariant
                i <= body.len(),
                goal == nodes_from(body@, i as nat, tail, self@),
            decreases body.len() - i,
        {
            let last: bool = i == body.len() - 1;
            self.set_tail(tail && last);
            self.compile_node(&body[i]);
            self.set_tail(false);
            if !last {
                if let Node::Expression { unconsumed, .. } = &body[i] {
                    if let Some(ty) = unconsumed {
                        self.error(Message::MustConsume { ty: *ty }, body[i].span());
                    }
                    self.emit(Op::Pop);
                }
            }
            i = i + 1;
        }
    }

    /// Compile a nameless function.
    pub fn compile_function_common(
        &mut self,
        params: &Vec<Ident>,
        annotations: &Vec<Annotation>,
        body: &Expr,
        ret: &Annotation,
        faults: &Vec<TypeFault>,
    )
        ensures
            final(self)@ == expr(
                *body,
                old(self)@.enter(None).bind_params(params@, annotations@, params@.len()),
            ).hydrate(*ret).misfit(faults@).finish(
                old(self)@.frame(),
                "__anon__"@,
                params@.len() as i32,
            ),
        decreases *body, 2nat,
    {
        let frame: FnFrame = self.enter_fn_frame(None);
        self.bind_params(params, annotations);
        self.compile_expr(body);
        self.hydrate(ret);
        self.misfit(faults);
        self.finish_fn_frame(frame, String::from_str("__anon__"), params.len() as i32);
    }

    /// Compile a declared function.
    pub fn compile_declared_function(
        &mut self,
        name: StrId,
        params: &Vec<Ident>,
        body: &Expr,
        faults: &Vec<TypeFault>,
    )
        ensures
            final(self)@ == declared_function(name, params@, *body, faults@, old(self)@),
    {
        let text: String = String::from_str(self.world().names.text(name));
        let frame: FnFrame = self.enter_fn_frame(Some(name));
        self.bind_pattern_initials(params);
        self.compile_expr(body);
        self.misfit(faults);
        self.finish_fn_frame(frame, text, params.len() as i32);
    }

    /// Compile a binary operation.
    pub fn compile_binary(&mut self, b: &BinaryExpr)
        ensures
            final(self)@ == binary(*b, old(self)@),
        decreases *b, 0nat,
    {
        proof {
            reveal(binary_body);
            assert(binary(*b, self@) == binary_body(*b, self@));
        }
        match BinopKind::of(b.op) {
            BinopKind::ShortCircuit(o) => {
                self.compile_expr(&b.left);
                self.misfit(&b.left_faults);
                self.emit(Op::Dup);
                let jump: Op = match o {
                    ShortCircuitOp::And => Op::JumpIfFalse,
                    ShortCircuitOp::Or => Op::JumpIfTrue,
                };
                let end_jump: usize = self.emit_jump(jump);
                self.emit(Op::Pop);
                self.compile_expr(&b.right);
                self.misfit(&b.right_faults);
                self.patch_jump(end_jump);
            },
            BinopKind::Value(o) => {
                self.compile_expr(&b.left);
                self.compile_expr(&b.right);
                self.misfit(&b.left_faults);
                self.misfit(&b.right_faults);
                self.emit(specialize_binop(o, b.prim));
            },
        }
    }

    /// Compile a property access.
    pub fn compile_property_access(&mut self, pa: &PropertyExpr)
        ensures
            final(self)@ == property(*pa, old(self)@),
        decreases *pa, 0nat,
    {
        proof {
            reveal(property_body);
            assert(property(*pa, self@) == property_body(*pa, self@));
        }
        match self.resolve_qualified_member(pa) {
            QualifiedMember::LookupFailed => {
                self.emit_nil();
                return;
            },
            QualifiedMember::Resolved { module, member, binding, slot } => {
                let access: Option<VarAccess> = match slot {
                    Some(i) => Some(VarAccess::Global(i)),
                    None => None,
                };
                self.record(None, member, None);
                self.emit_named_value(member.name, Some(module), member.span, binding.kind, access);
                return;
            },
            QualifiedMember::NotQualified => {},
        }
        self.compile_expr(&pa.left);
        match &*pa.right {
            Expr::Number(n) => {
                let index: Option<i64> = parse_i64(self.world().names.text(n.text));
                match index {
                    Some(i) => {
                        if i32::MIN as i64 <= i && i <= i32::MAX as i64 {
                            self.emit_tuple_index(pa.receiver, i as i32, n.span);
                        } else {
                            self.error(Message::TupleIndexNotInt { text: n.text }, n.span);
                        }
                    },
                    None => self.error(Message::TupleIndexNotInt { text: n.text }, n.span),
                }
            },
            Expr::Name { id, .. } => self.compile_field_access(pa.receiver, *id, &pa.faults),
            _ => self.error(Message::BadProperty, pa.right.span()),
        }
    }
}

} // verus!

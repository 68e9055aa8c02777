//! Compiling what recovers from a failure.
use crate::ast::{Expr, OrExpr, Receiver, StrId, TypeFault, TypeShape};
use crate::diag::Message;
use crate::gen::{array, expr, or_expr, or_general, or_general_body, or_recover, OrFailure};
use crate::op::Op;
use crate::prelude_bindings::TypeId;
use crate::state::{Compiler, State};
use vstd::prelude::*;
use vstd::string::*;

verus! {

/// What failing means for the left side of an `or`.
#[derive(Debug, Clone, Copy, PartialEq, Eq, Structural)]
pub(crate) enum Failure {
    Absent(TypeId),
    Error(TypeId),
    Never,
}

impl Compiler {
    /// What failing means for a value of a type.
    pub(crate) fn or_failure(&self, left: Receiver) -> (res: Failure)
        ensures
            match self@.or_failure(left) {
                OrFailure::Absent { id } => res == Failure::Absent(id),
                OrFailure::Error { id } => res == Failure::Error(id),
                OrFailure::Never => res == Failure::Never,
            },
    {
        proof {
            reveal(State::or_failure);
        }
        if let TypeShape::Con { id, .. } = left.shape {
            if let Some(p) = self.prelude_bindings() {
                if p.option.is(id) {
                    return Failure::Absent(p.option.id);
                }
                if p.result.is(id) {
                    return Failure::Error(p.result.id);
                }
            }
        }
        Failure::Never
    }

    /// Compile an `or`.
    pub fn compile_or(&mut self, o: &OrExpr)
        ensures
            final(self)@ == or_expr(*o, old(self)@),
        decreases *o, 1nat,
    {
        if o.receiver.is_none() {
            if let Expr::Index { array, array_faults, index, index_faults, .. } = &*o.expression {
                let is_slice: bool = if let Expr::Range { .. } = &**index {
                    true
                } else {
                    false
                };
                if !is_slice {
                    self.compile_expr(array);
                    self.misfit(array_faults);
                    self.compile_expr(index);
                    self.misfit(index_faults);
                    self.compile_index_or_else(&o.body);
                    self.misfit(&o.body_faults);
                    return;
                }
            }
        }
        self.compile_or_general(o);
    }

    /// The recovery of an array index, whose array and index are on the stack.
    pub(crate) fn compile_index_or_else(&mut self, body: &Expr)
        ensures
            ({
                let t = old(self)@;
                let u = t.emit_arg(Op::IndexOrElse, 0);
                let v = u.emit_arg(Op::Jump, 0).patch(t.pos() as int).push_block();
                final(self)@ == expr(*body, v).pop_block().patch(u.pos() as int)
            }),
        decreases *body, 2nat,
    {
        let to_body: usize = self.emit_jump(Op::IndexOrElse);
        let end: usize = self.emit_jump(Op::Jump);
        self.patch_jump(to_body);
        self.push_block_scope();
        self.compile_expr(body);
        self.pop_block_scope();
        self.patch_jump(end);
    }

    /// Test whether the value on top of the stack has failed, keeping it.
    pub(crate) fn emit_or_test(&mut self, id: TypeId, variant: StrId)
        ensures
            final(self)@ == old(self)@.or_test(id, variant),
    {
        self.emit(Op::Dup);
        self.emit_match_header(id, variant);
        self.emit(Op::MatchEnum);
    }

    /// Compile an `or` on any optional value or result.
    pub(crate) fn compile_or_general(&mut self, o: &OrExpr)
        ensures
            final(self)@ == or_general(*o, old(self)@),
        decreases *o, 0nat,
    {
        proof {
            reveal(or_general_body);
            assert(or_general(*o, self@) == or_general_body(*o, self@));
        }
        self.compile_expr(&o.expression);
        match self.or_failure(o.left) {
            Failure::Never => {
                self.error(Message::OrOperand { ty: o.left.text }, o.expression.span());
                self.push_block_scope();
                self.compile_expr(&o.body);
                self.emit(Op::Pop);
                self.pop_block_scope();
            },
            Failure::Absent(id) => {
                if let Some(r) = o.receiver {
                    self.error(Message::OrBindsNothing, r.span);
                }
                self.misfit(&o.left_faults);
                let name: StrId = self.world().none_name;
                self.emit_or_test(id, name);
                let skip: usize = self.emit_jump(Op::JumpIfFalse);
                self.push_block_scope();
                self.emit(Op::Pop);
                self.finish_or(&o.body, &o.body_faults, skip);
            },
            Failure::Error(id) => {
                let name: StrId = self.world().err_name;
                self.misfit(&o.left_faults);
                self.emit_or_test(id, name);
                let skip: usize = self.emit_jump(Op::JumpIfFalse);
                self.push_block_scope();
                self.emit(Op::UnwrapEnum);
                match o.receiver {
                    Some(r) => {
                        self.store_name(r.name);
                        self.register_local_binding(r, None);
                    },
                    None => self.emit(Op::Pop),
                }
                self.finish_or(&o.body, &o.body_faults, skip);
            },
        }
    }

    /// The recovery of an `or`, and behind it the success, which `skip` jumps to.
    pub(crate) fn finish_or(&mut self, body: &Expr, faults: &Vec<TypeFault>, skip: usize)
        ensures
            final(self)@ == or_recover(*body, faults@, skip, old(self)@),
        decreases *body, 2nat,
    {
        self.compile_expr(body);
        self.pop_block_scope();
        self.misfit(faults);
        let end: usize = self.emit_jump(Op::Jump);
        self.patch_jump(skip);
        self.emit(Op::UnwrapEnum);
        self.patch_jump(end);
    }
}

} // verus!

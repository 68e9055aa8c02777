//! Compiling statements.
use crate::ast::{Declaration, Expr, Ident, Statement, StrId};
use crate::diag::{DeclKind, Message};
use crate::gen::{elements_from, pattern, statement, statement_body};
use crate::op::{Const, Op};
use crate::state::{Binding, Compiler, ValueKind};
use vstd::prelude::*;
use vstd::string::*;

verus! {

impl Compiler {
    /// Compile a statement.
    pub fn compile_statement(&mut self, st: &Statement)
        ensures
            final(self)@ == statement(*st, old(self)@),
        decreases *st, 0nat,
    {
        proof {
            reveal(statement_body);
            assert(statement(*st, self@) == statement_body(*st, self@));
        }
        match st {
            Statement::Binding { target, annotation, init, faults, doc, .. } => {
                let late: bool = self.at_module_scope() && self.has_local(target.name);
                let mut slot: i32 = 0;
                if !late {
                    slot = self.get_or_create_local(target.name);
                }
                self.hydrate(annotation);
                let mut self_name: Option<StrId> = None;
                if let Expr::Function { .. } = init {
                    self.define(target.name, Binding { kind: ValueKind::Local, def: None, doc: *doc });
                    self_name = Some(target.name);
                }
                let before: Option<StrId> = self.replace_next_self(self_name);
                self.compile_expr(init);
                let _ = self.replace_next_self(before);
                self.misfit(faults);
                self.register_local_binding(*target, *doc);
                if late {
                    self.store_name(target.name);
                } else {
                    self.emit_arg(Op::StoreLocal, slot);
                }
            },
            Statement::TupleBinding { patterns, init, faults, .. } => {
                self.compile_expr(init);
                self.misfit(faults);
                let mut ids: Vec<Ident> = Vec::new();
                let _ = self.check_patterns_onto(patterns, true, &mut ids);
                self.bind_pattern_initials(&ids);
                let temp: i32 = self.spill_temp();
                let mut i: usize = 0;
                let ghost goal = elements_from(patterns@, 0, temp, self@);
                while i < patterns.len()
                    invariant
                        i <= patterns.len(),
                        decreases_to!(*st => patterns@),
                        goal == elements_from(patterns@, i as nat, temp, self@),
                    decreases patterns.len() - i,
                {
                    self.emit_arg(Op::PushLocal, temp);
                    self.emit_arg(Op::TupleIndex, i as i32);
                    let mut fails: Vec<usize> = Vec::new();
                    self.emit_pattern(&patterns[i], &mut fails);
                    if fails.len() > 0 {
                        self.error(Message::RefutableBinding, patterns[i].span());
                        self.patch_all(&fails);
                    }
                    i = i + 1;
                }
            },
            Statement::CtorBinding { pattern: p, init, uncovered, span } => {
                self.compile_expr(init);
                let mut ids: Vec<Ident> = Vec::new();
                let ok: bool = self.type_pattern(p, &mut ids);
                self.bind_pattern_initials(&ids);
                if let Some(missing) = uncovered {
                    if ok {
                        self.error(Message::RefutableCtorBinding { missing: *missing }, *span);
                    }
                }
                let temp: i32 = self.spill_temp();
                self.emit_arg(Op::PushLocal, temp);
                let mut fails: Vec<usize> = Vec::new();
                self.emit_pattern(p, &mut fails);
                self.patch_all(&fails);
            },
            Statement::TypedDiscard { ty_name, annotation, init, faults, .. } => {
                if !self.knows_type(ty_name.name) && self.lookup_ctor(
                    ty_name.name,
                ).is_some() {
                    self.error(Message::NotAType { name: ty_name.name }, ty_name.span);
                } else {
                    self.hydrate(annotation);
                }
                self.compile_expr(init);
                self.misfit(faults);
                self.emit(Op::Pop);
            },
            Statement::Declaration { decl, .. } => {
                let kind: DeclKind = match decl {
                    Declaration::Function(_) => DeclKind::Function,
                    Declaration::Type(_) => DeclKind::Type,
                    Declaration::Const(_) => DeclKind::Const,
                };
                self.error(Message::NestedDeclaration { kind }, decl.span());
            },
            Statement::Import(_) => {},
        }
    }
}

} // verus!

//! The executable steps of the compiler, each proved to do what the step of the
//! same meaning does to the model in [`crate::state`].
use crate::ast::{Ident, Span, StrId};
use crate::diag::{slice_of, ArenaSlice, Diagnostic, Message, Severity};
use crate::op::{op, op_ab, op_arg, Const, ConstView, Function, Instruction, Op};
use crate::prelude_bindings::PreludeBindings;
use crate::refs::{
    def_loc, defid_of, DefId, Definition, DefinitionLocation, EntityKind, Occurrence, ReferenceKind,
};
use crate::slots::entries_of;
use crate::state::{
    by_start, field_def, frame_of, insert_by_start, lookup_in, pins, tracked_at, unused_errors,
    unwound, used, Binding, Compiler, FieldDef, FnFrame, GlobalSlot, LocalSlot, Locals, Sighting,
    State, ValueKind, VarAccess, World,
};
use std::collections::HashMap;
use vstd::prelude::*;

verus! {

broadcast use vstd::std_specs::hash::group_hash_axioms;

/// Find a name among tracked bindings, from the back.
fn find_tracked(scope: &Vec<(StrId, Span)>, name: StrId) -> (res: Option<usize>)
    ensures
        match res {
            Some(i) => tracked_at(scope@, scope@.len(), name) == Some(i as int) && i < scope@.len(),
            None => tracked_at(scope@, scope@.len(), name) is None,
        },
{
    let mut n: usize = scope.len();
    while n > 0
        invariant
            n <= scope.len(),
            tracked_at(scope@, scope@.len(), name) == tracked_at(scope@, n as nat, name),
        decreases n,
    {
        if scope[n - 1].0 == name {
            return Some(n - 1);
        }
        n = n - 1;
    }
    None
}

/// Insert an entry into a list in source order.
fn insert_sorted(sorted: &mut Vec<(StrId, Span)>, x: (StrId, Span))
    ensures
        final(sorted)@ == insert_by_start(old(sorted)@, x),
    decreases old(sorted)@.len(),
{
    if sorted.len() > 0 {
        let last: (StrId, Span) = sorted[sorted.len() - 1];
        if x.1.start_line < last.1.start_line || (x.1.start_line == last.1.start_line
            && x.1.start_column < last.1.start_column) {
            sorted.pop();
            assert(sorted@ =~= old(sorted)@.drop_last());
            insert_sorted(sorted, x);
            sorted.push(last);
            return;
        }
    }
    sorted.push(x);
}

/// A list in source order.
fn sort_by_start(list: &Vec<(StrId, Span)>) -> (res: Vec<(StrId, Span)>)
    ensures
        res@ == by_start(list@),
{
    let mut res: Vec<(StrId, Span)> = Vec::new();
    let mut i: usize = 0;
    assert(list@.take(0) =~= Seq::empty());
    assert(res@ =~= Seq::empty());
    while i < list.len()
        invariant
            i <= list.len(),
            res@ == by_start(list@.take(i as int)),
        decreases list.len() - i,
    {
        insert_sorted(&mut res, list[i]);
        assert(list@.take(i + 1).drop_last() =~= list@.take(i as int));
        assert(list@.take(i + 1).last() == list@[i as int]);
        i = i + 1;
    }
    assert(list@.take(list@.len() as int) =~= list@);
    res
}

impl Compiler {
    /// What the compiler knows of the world around the module.
    pub fn world(&self) -> (world: &World)
        ensures
            *world == self@.world,
    {
        proof {
            reveal(Compiler::model);
        }
        &self.world
    }

    /// Whether what is compiled next stands in tail position.
    pub fn is_tail(&self) -> (res: bool)
        ensures
            res == self@.loc.tail,
    {
        proof {
            reveal(Compiler::model);
        }
        self.in_tail_position
    }

    /// Whether nothing is emitted.
    pub fn is_check_only(&self) -> (res: bool)
        ensures
            res == self@.out.check_only,
    {
        proof {
            reveal(Compiler::model);
        }
        self.check_only
    }

    /// The prelude's bindings.
    pub fn prelude_bindings(&self) -> (res: Option<PreludeBindings>)
        ensures
            res == self@.known.prelude,
    {
        proof {
            reveal(Compiler::model);
        }
        self.prelude
    }

    /// Whether a name is a type's.
    pub fn knows_type(&self, name: StrId) -> (res: bool)
        ensures
            res == self@.known.types.dom().contains(name),
    {
        proof {
            reveal(Compiler::model);
        }
        self.types.contains_key(&name)
    }

    /// The labels that a slice of the label pool holds.
    pub fn labels_at(&self, slice: ArenaSlice) -> (res: Vec<StrId>)
        ensures
            res@ == slice_of(self@.labels, slice),
    {
        proof {
            reveal(Compiler::model);
        }
        entries_of(&self.labels, slice)
    }

    /// Append an instruction, unless only checking.
    fn push_instr(&mut self, ins: Instruction)
        ensures
            final(self)@ == old(self)@.push(ins),
    {
        proof {
            reveal(Compiler::model);
            reveal(State::push);
        }
        if !self.check_only {
            self.program.code.push(ins);
        }
    }

    /// Append an operation without operands.
    pub fn emit(&mut self, o: Op)
        ensures
            final(self)@ == old(self)@.emit(o),
    {
        self.push_instr(op(o));
    }

    /// Append an operation with an operand.
    pub fn emit_arg(&mut self, o: Op, operand: i32)
        ensures
            final(self)@ == old(self)@.emit_arg(o, operand),
    {
        self.push_instr(op_arg(o, operand));
    }

    /// Append an operation with a packed count and an operand.
    pub fn emit_b(&mut self, o: Op, b: u16, operand: i32)
        ensures
            final(self)@ == old(self)@.emit_b(o, b, operand),
    {
        self.push_instr(op_ab(o, 0, b, operand));
    }

    /// Append a jump whose target is patched in later, and return its place.
    pub fn emit_jump(&mut self, o: Op) -> (at: usize)
        ensures
            final(self)@ == old(self)@.emit_arg(o, 0),
            at == old(self)@.pos(),
    {
        proof {
            reveal(Compiler::model);
            reveal(State::pos);
        }
        let at: usize = self.program.code.len();
        self.emit_arg(o, 0);
        at
    }

    /// Make the jump at a place land on the next instruction.
    pub fn patch_jump(&mut self, at: usize)
        ensures
            final(self)@ == old(self)@.patch(at as int),
    {
        proof {
            reveal(Compiler::model);
            reveal(State::patch);
        }
        if !self.check_only && at < self.program.code.len() {
            let here: i32 = self.current_addr();
            let mut ins: Instruction = self.program.code[at];
            ins.operand = here;
            self.program.code.set(at, ins);
        }
    }

    /// Make several jumps land on the next instruction.
    pub fn patch_all(&mut self, at: &Vec<usize>)
        ensures
            final(self)@ == old(self)@.patch_all(at@, at@.len()),
    {
        proof {
            reveal(Compiler::model);
            reveal(State::patch_all);
        }
        let mut i: usize = 0;
        while i < at.len()
            invariant
                i <= at.len(),
                self@ == old(self)@.patch_all(at@, i as nat),
            decreases at.len() - i,
        {
            proof {
                reveal(Compiler::model);
                reveal(State::patch_all);
            }
            self.patch_jump(at[i]);
            i = i + 1;
        }
    }

    /// The address of the next instruction.
    pub fn current_addr(&self) -> (res: i32)
        ensures
            res == self@.here(),
    {
        proof {
            reveal(Compiler::model);
        }
        self.program.code.len() as i32
    }

    /// Pool a constant and return its index.
    pub fn add_constant(&mut self, c: Const) -> (idx: i32)
        ensures
            final(self)@ == old(self)@.pool(c@),
            idx == old(self)@.pool_index(),
    {
        proof {
            reveal(Compiler::model);
            reveal(State::pool);
            reveal(State::pool_index);
        }
        if self.check_only {
            return 0;
        }
        let idx: i32 = self.program.constants.len() as i32;
        self.program.constants.push(c);
        assert(self@.out.consts =~= old(self)@.out.consts.push(c@));
        idx
    }

    /// Pool an integer.
    pub fn const_int(&mut self, i: i64) -> (idx: i32)
        ensures
            final(self)@ == old(self)@.pool(ConstView::Int(i)),
            idx == old(self)@.pool_index(),
    {
        self.add_constant(Const::Int(i))
    }

    /// Pool a string.
    pub fn const_str(&mut self, s: StrId) -> (idx: i32)
        ensures
            final(self)@ == old(self)@.pool(ConstView::Str(s)),
            idx == old(self)@.pool_index(),
    {
        self.add_constant(Const::Str(s))
    }

    /// Pool the labels of a constructor's fields.
    pub fn const_str_array(&mut self, labels: ArenaSlice) -> (idx: i32)
        ensures
            final(self)@ == old(self)@.pool(ConstView::Labels(labels)),
            idx == old(self)@.pool_index(),
    {
        self.add_constant(Const::Labels(labels))
    }

    /// Pool a bit string.
    pub fn const_binary(&mut self, bytes: Vec<u8>, bit_len: u64) -> (idx: i32)
        ensures
            final(self)@ == old(self)@.pool(ConstView::Binary { bytes: bytes@, bit_len }),
            idx == old(self)@.pool_index(),
    {
        self.add_constant(Const::Binary { bytes, bit_len })
    }

    /// Pool a constant and push it.
    pub fn push_const(&mut self, c: Const)
        ensures
            final(self)@ == old(self)@.push_const(c@),
    {
        let idx: i32 = self.add_constant(c);
        self.emit_arg(Op::PushConst, idx);
    }

    /// Push an integer constant.
    pub fn push_int(&mut self, i: i64)
        ensures
            final(self)@ == old(self)@.push_int(i),
    {
        self.push_const(Const::Int(i));
    }

    /// Reserve a slot.
    pub fn alloc_temp(&mut self) -> (slot: i32)
        ensures
            final(self)@ == old(self)@.take_slot(),
            slot == old(self)@.next_slot(),
    {
        proof {
            reveal(Compiler::model);
            reveal(State::take_slot);
            reveal(State::next_slot);
        }
        let slot: i32 = self.local_count;
        self.local_count = self.local_count.wrapping_add(1);
        slot
    }

    /// Pop the stack into a fresh slot.
    pub fn spill_temp(&mut self) -> (slot: i32)
        ensures
            final(self)@ == old(self)@.spill(),
            slot == old(self)@.next_slot(),
    {
        let slot: i32 = self.alloc_temp();
        self.emit_arg(Op::StoreLocal, slot);
        slot
    }

    /// Bind a name to a slot in the current scope. The displaced entry goes on
    /// the undo log; outside any open scope there is nothing to unwind.
    fn bind_local_raw(&mut self, name: StrId, slot: i32)
        ensures
            final(self)@ == old(self)@.bind_raw(name, slot),
    {
        proof {
            reveal(Compiler::model);
            reveal(State::bind_raw);
        }
        let entry: LocalSlot = LocalSlot { slot, depth: self.scope_marks.len() as u32 };
        let prev: Option<LocalSlot> = self.locals.insert(name, entry);
        if self.scope_marks.len() > 0 {
            self.undo_log.push((name, prev));
        }
    }

    /// Bind a name to a slot, queueing the slot of a module-scope binding that
    /// the walk over the module's own statements makes.
    pub fn bind_local(&mut self, name: StrId, slot: i32)
        ensures
            final(self)@ == old(self)@.bind(name, slot),
    {
        proof {
            reveal(Compiler::model);
            reveal(State::bind);
            reveal(State::bind_raw);
        }
        self.bind_local_raw(name, slot);
        if self.walking_module_statements && self.outer_scopes.len() == 0 && self.scope_marks.len()
            <= 1 {
            self.toplevel_binds.push_back(GlobalSlot(slot));
        }
    }

    /// Reserve the slot of a top-level declaration. Never a slot that is in use,
    /// and never queued.
    pub fn alloc_decl_slot(&mut self, name: StrId) -> (slot: i32)
        ensures
            final(self)@ == old(self)@.take_slot().bind_raw(name, old(self)@.next_slot()),
            slot == old(self)@.next_slot(),
    {
        let slot: i32 = self.alloc_temp();
        self.bind_local_raw(name, slot);
        slot
    }

    /// Take the next queued module-scope slot; inside a function there is none.
    pub fn take_global_slot(&mut self) -> (res: Option<GlobalSlot>)
        ensures
            ({
                let (s, t) = (old(self)@, final(self)@);
                if s.loc.outer.len() > 0 || s.loc.binds.len() == 0 {
                    res is None && t == s
                } else {
                    res == Some(s.loc.binds[0]) && t == (State {
                        loc: Locals { binds: s.loc.binds.skip(1), ..s.loc },
                        ..s
                    })
                }
            }),
    {
        proof {
            reveal(Compiler::model);
        }
        if self.outer_scopes.len() > 0 {
            return None;
        }
        let res: Option<GlobalSlot> = self.toplevel_binds.pop_front();
        proof {
            if old(self)@.loc.binds.len() > 0 {
                assert(self@.loc.binds =~= old(self)@.loc.binds.skip(1));
            }
        }
        res
    }

    /// The slot for a binding of `name`. A name bound in this very block keeps
    /// its slot; a name of an enclosing block, or any name at module scope, gets
    /// a fresh one so that the earlier value survives.
    pub fn get_or_create_local(&mut self, name: StrId) -> (slot: i32)
        ensures
            final(self)@ == old(self)@.reserve(name),
            slot == old(self)@.slot_of(name),
    {
        proof {
            reveal(Compiler::model);
            reveal(State::reserve);
            reveal(State::slot_of);
            reveal(State::take_slot);
            reveal(State::next_slot);
            reveal(State::bind);
        }
        if self.or_bind_overrides.len() > 0 {
            let top: usize = self.or_bind_overrides.len() - 1;
            assert(self@.loc.overrides.last() == self.or_bind_overrides@[top as int]@);
            if let Some(slot) = self.or_bind_overrides[top].get(&name) {
                return *slot;
            }
        }
        if let Some(entry) = self.locals.get(&name) {
            let inherited: bool = self.scope_marks.len() > 0 && entry.depth
                < self.scope_marks.len() as u32;
            if !inherited && self.outer_scopes.len() > 0 {
                return entry.slot;
            }
        }
        let slot: i32 = self.alloc_temp();
        self.bind_local(name, slot);
        slot
    }

    /// Open a block of locals.
    pub fn push_local_scope(&mut self)
        ensures
            final(self)@ == old(self)@.push_locals(),
    {
        proof {
            reveal(Compiler::model);
            reveal(State::push_locals);
        }
        let mark: usize = self.undo_log.len();
        self.scope_marks.push(mark);
        self.unused.push(Vec::new());
        assert(self@.unused =~= old(self)@.unused.push(Seq::empty()));
        assert(self@.loc.marks =~= old(self)@.loc.marks.push(mark as nat));
    }

    /// Close a block of locals.
    pub fn pop_local_scope(&mut self)
        ensures
            final(self)@ == old(self)@.pop_locals(),
    {
        proof {
            reveal(Compiler::model);
            reveal(State::pop_locals);
        }
        if let Some(mark) = self.scope_marks.pop() {
            let ghost s = self@;
            assert(s.loc.marks =~= old(self)@.loc.marks.drop_last());
            while self.undo_log.len() > mark
                invariant
                    self@ == (State {
                        loc: Locals { map: self@.loc.map, undo: self@.loc.undo, ..s.loc },
                        ..s
                    }),
                    unwound(self@.loc.map, self@.loc.undo, mark as nat) == unwound(
                        s.loc.map,
                        s.loc.undo,
                        mark as nat,
                    ),
                    self@.loc.undo == s.loc.undo.take(self@.loc.undo.len() as int),
                    self@.loc.undo.len() <= s.loc.undo.len(),
                    self@.loc.undo.len() >= mark || self@.loc.undo == s.loc.undo,
                decreases self.undo_log.len(),
            {
                proof {
                    reveal(Compiler::model);
                }
                let ghost before = self@;
                if let Some((name, prev)) = self.undo_log.pop() {
                    match prev {
                        Some(entry) => {
                            self.locals.insert(name, entry);
                        },
                        None => {
                            self.locals.remove(&name);
                        },
                    }
                    assert(self@.loc.undo =~= before.loc.undo.drop_last());
                    assert(self@.loc.undo =~= s.loc.undo.take(self@.loc.undo.len() as int));
                }
            }
            proof {
                assert(s.loc.undo.take(s.loc.undo.len() as int) =~= s.loc.undo);
                assert(self@.loc == old(self)@.loc.close_block());
            }
        }
        self.pop_unused_scope();
    }

    /// Report an error.
    pub fn error(&mut self, message: Message, span: Span)
        ensures
            final(self)@ == old(self)@.error(message, span),
    {
        proof {
            reveal(Compiler::model);
            reveal(State::error);
        }
        self.diagnostics.push(Diagnostic { span, severity: Severity::Error, message });
    }

    /// Add a remark to an error.
    pub fn note(&mut self, message: Message, span: Span)
        ensures
            final(self)@ == old(self)@.note(message, span),
    {
        proof {
            reveal(Compiler::model);
            reveal(State::note);
        }
        self.diagnostics.push(Diagnostic { span, severity: Severity::Hint, message });
    }

    /// Watch whether a binding is used.
    pub fn track_binding(&mut self, name: StrId, span: Span)
        ensures
            final(self)@ == old(self)@.track(name, span),
    {
        proof {
            reveal(Compiler::model);
            reveal(State::track);
            reveal(State::error);
        }
        if self.world.names.is_ignored(name) || self.unused.len() == 0 {
            return;
        }
        let last: usize = self.unused.len() - 1;
        let found: Option<usize> = find_tracked(&self.unused[last], name);
        let ghost scope = self@.unused[last as int];
        match found {
            Some(i) => {
                let prev: Span = self.unused[last][i].1;
                self.unused[last].set(i, (name, span));
                assert(self@.unused =~= old(self)@.unused.update(
                    last as int,
                    scope.update(i as int, (name, span)),
                ));
                self.error(Message::Unused { name }, prev);
            },
            None => {
                self.unused[last].push((name, span));
                assert(self@.unused =~= old(self)@.unused.update(
                    last as int,
                    scope.push((name, span)),
                ));
            },
        }
    }

    /// Count a name as used.
    pub fn mark_used(&mut self, name: StrId)
        ensures
            final(self)@ == old(self)@.mark_used(name),
    {
        proof {
            reveal(Compiler::model);
            reveal(State::mark_used);
        }
        let mut n: usize = self.unused.len();
        while n > 0
            invariant
                n <= self.unused.len(),
                self@ == old(self)@,
                self@.unused.len() == self.unused@.len(),
                used(self@.unused, self@.unused.len(), name) == used(self@.unused, n as nat, name),
            decreases n,
        {
            proof {
                reveal(Compiler::model);
            }
            let found: Option<usize> = find_tracked(&self.unused[n - 1], name);
            if let Some(i) = found {
                proof {
                    reveal(State::mark_used);
                }
                let ghost scope = self@.unused[n - 1];
                self.unused[n - 1].remove(i);
                assert(self@.unused =~= old(self)@.unused.update(n - 1, scope.remove(i as int)));
                return;
            }
            n = n - 1;
        }
    }

    /// Close a scope of watched bindings and report what is left.
    pub fn pop_unused_scope(&mut self)
        ensures
            final(self)@ == old(self)@.pop_unused(),
    {
        proof {
            reveal(Compiler::model);
            reveal(State::pop_unused);
            reveal(State::error);
        }
        if let Some(scope) = self.unused.pop() {
            let ghost s = self@;
            assert(s.unused =~= old(self)@.unused.drop_last());
            let leftover: Vec<(StrId, Span)> = sort_by_start(&scope);
            let mut i: usize = 0;
            assert(self@.diags =~= s.diags + unused_errors(leftover@, 0));
            while i < leftover.len()
                invariant
                    i <= leftover.len(),
                    self@ == (State {
                        diags: s.diags + unused_errors(leftover@, i as nat),
                        ..s
                    }),
                decreases leftover.len() - i,
            {
                proof {
                    reveal(Compiler::model);
                    reveal(State::error);
                }
                self.error(Message::Unused { name: leftover[i].0 }, leftover[i].1);
                i = i + 1;
                assert(self@.diags =~= s.diags + unused_errors(leftover@, i as nat));
            }
        }
    }

    /// Load a variable.
    pub fn emit_load(&mut self, access: VarAccess)
        ensures
            final(self)@ == old(self)@.load(access),
    {
        match access {
            VarAccess::Local(i) => self.emit_arg(Op::PushLocal, i),
            VarAccess::Capture(i) => self.emit_arg(Op::PushCapture, i),
            VarAccess::Global(i) => self.emit_arg(Op::PushGlobal, i),
            VarAccess::Self_ => self.emit(Op::PushSelf),
        }
    }

    /// How a variable is loaded. It counts as used, and is captured where it must
    /// be.
    pub fn resolve_variable(&mut self, name: StrId) -> (res: Option<VarAccess>)
        ensures
            final(self)@ == old(self)@.resolve(name),
            res == old(self)@.access(name),
    {
        proof {
            reveal(Compiler::model);
            reveal(State::resolve);
            reveal(State::access);
            reveal(State::mark_used);
        }
        self.mark_used(name);
        if let Some(entry) = self.locals.get(&name) {
            return Some(VarAccess::Local(entry.slot));
        }
        if let Some(idx) = self.captures.get(&name) {
            return Some(VarAccess::Capture(*idx));
        }
        let mut n: usize = self.outer_scopes.len();
        while n > 0
            invariant
                n <= self.outer_scopes.len(),
                self@ == old(self)@.mark_used(name),
                self@.loc.outer.len() == self.outer_scopes@.len(),
                !self@.loc.map.dom().contains(name),
                !self@.loc.captures.dom().contains(name),
                frame_of(self@.loc.outer, self@.loc.outer.len(), name) == frame_of(
                    self@.loc.outer,
                    n as nat,
                    name,
                ),
            decreases n,
        {
            proof {
                reveal(Compiler::model);
                reveal(State::resolve);
                reveal(State::access);
                reveal(State::mark_used);
            }
            assert(self@.loc.outer[n - 1] == self.outer_scopes@[n - 1]@);
            if let Some(entry) = self.outer_scopes[n - 1].get(&name) {
                if self.current_binding == Some(name) {
                    return Some(VarAccess::Self_);
                }
                if n - 1 == 0 {
                    return Some(VarAccess::Global(entry.slot));
                }
                let idx: i32 = self.capture_names.len() as i32;
                self.captures.insert(name, idx);
                self.capture_names.push(name);
                return Some(VarAccess::Capture(idx));
            }
            n = n - 1;
        }
        None
    }

    /// What a name denotes.
    pub fn lookup(&self, name: StrId) -> (res: Option<Binding>)
        ensures
            res == self@.lookup(name),
    {
        proof {
            reveal(Compiler::model);
            reveal(State::lookup);
        }
        let mut n: usize = self.env.len();
        while n > 0
            invariant
                n <= self.env.len(),
                self@.env.len() == self.env@.len(),
                lookup_in(self@.env, self@.env.len(), name) == lookup_in(
                    self@.env,
                    n as nat,
                    name,
                ),
            decreases n,
        {
            proof {
                reveal(Compiler::model);
                reveal(State::lookup);
            }
            assert(self@.env[n - 1] == self.env@[n - 1]@);
            if let Some(b) = self.env[n - 1].get(&name) {
                return Some(*b);
            }
            n = n - 1;
        }
        None
    }

    /// Define a name in the innermost scope.
    pub fn define(&mut self, name: StrId, b: Binding)
        ensures
            final(self)@ == old(self)@.define(name, b),
    {
        proof {
            reveal(Compiler::model);
            reveal(State::define);
        }
        let at: usize = self.root_len();
        self.define_at(name, b, at);
    }

    /// The number of names in the outermost scope.
    pub fn root_len(&self) -> (n: usize)
        ensures
            n == self@.root_len(),
    {
        proof {
            reveal(Compiler::model);
        }
        if self.env.len() == 0 {
            0
        } else {
            assert(self@.env[0] == self.env@[0]@);
            self.env[0].len()
        }
    }

    /// Define a name that comes to the outermost scope, if it does, behind `at` others.
    pub fn define_at(&mut self, name: StrId, b: Binding, at: usize)
        ensures
            final(self)@ == old(self)@.define_at(name, b, at),
    {
        proof {
            reveal(Compiler::model);
        }
        let len: usize = self.env.len();
        if len > 0 {
            assert(self@.env[len - 1] == self.env@[len - 1]@);
            if len == 1 && !self.env[0].contains_key(&name) {
                self.rooted.insert(name, at);
            }
            self.env[len - 1].insert(name, b);
            assert(self@.env =~= old(self)@.env.update(
                len - 1,
                old(self)@.env.last().insert(name, b),
            ));
        }
    }

    /// Open a scope of names.
    pub fn push_env(&mut self)
        ensures
            final(self)@ == old(self)@.push_env(),
    {
        proof {
            reveal(Compiler::model);
            reveal(State::push_env);
        }
        self.env.push(HashMap::new());
        assert(self@.env =~= old(self)@.env.push(Map::empty()));
    }

    /// Close a scope of names.
    pub fn pop_env(&mut self)
        ensures
            final(self)@ == old(self)@.pop_env(),
    {
        proof {
            reveal(Compiler::model);
            reveal(State::pop_env);
        }
        let _ = self.env.pop();
        proof {
            if old(self)@.env.len() > 0 {
                assert(self@.env =~= old(self)@.env.drop_last());
            }
        }
    }

    /// Open a block.
    pub fn push_block_scope(&mut self)
        ensures
            final(self)@ == old(self)@.push_block(),
    {
        self.push_env();
        self.push_local_scope();
    }

    /// Close a block.
    pub fn pop_block_scope(&mut self)
        ensures
            final(self)@ == old(self)@.pop_block(),
    {
        self.pop_local_scope();
        self.pop_env();
    }

    /// Enter an occurrence that refers to `target`, owned by the definition whose
    /// body is being compiled.
    pub fn record_ref(&mut self, span: Span, kind: ReferenceKind, target: DefId)
        ensures
            final(self)@ == old(self)@.refer(span, kind, target),
    {
        proof {
            reveal(Compiler::model);
            reveal(State::refer);
        }
        self.met.insert(target.module, ());
        self.module_refs.add_reference(
            Occurrence { owner: self.current_owner, span, kind, target },
        );
    }

    /// Enter an occurrence of a value whose declaration is known.
    pub fn record_value_use(
        &mut self,
        def: Option<DefinitionLocation>,
        span: Span,
        kind: ReferenceKind,
    )
        ensures
            final(self)@ == old(self)@.value_use(def, span, kind),
    {
        if let Some(dl) = def {
            self.record_ref(span, kind, defid_of(dl));
        }
    }

    /// Enter a definition and, the first time it is seen, its declaring name as
    /// an occurrence of it.
    pub fn emit_def(
        &mut self,
        dl: DefinitionLocation,
        name: StrId,
        doc: Option<StrId>,
        public: bool,
    )
        ensures
            final(self)@ == old(self)@.def(dl, name, doc, public),
    {
        proof {
            reveal(Compiler::model);
            reveal(State::def);
        }
        let id: DefId = defid_of(dl);
        let first: bool = self.module_refs.definition(id).is_none();
        self.met.insert(id.module, ());
        self.module_refs.add_definition(Definition { id, name, doc, public, alias_of: None });
        if first {
            self.module_refs.add_reference(
                Occurrence {
                    owner: Some(id),
                    span: id.span,
                    kind: ReferenceKind::Definition,
                    target: id,
                },
            );
        }
    }

    /// Remember where a field of a constructor is declared.
    pub fn add_field(&mut self, f: FieldDef)
        ensures
            final(self)@ == old(self)@.add_field(f),
    {
        proof {
            reveal(Compiler::model);
            reveal(State::add_field);
        }
        self.field_defs.push(f);
    }

    /// Remember what type a constructor belongs to.
    pub fn set_ctor_of(&mut self, ctor: DefId, ty: DefId)
        ensures
            final(self)@ == old(self)@.ctor_belongs(ctor, ty),
    {
        proof {
            reveal(Compiler::model);
            reveal(State::ctor_belongs);
        }
        self.module_refs.ctors.push((ctor, ty));
    }

    /// Remember the names of what a definition takes.
    pub fn set_param_names(&mut self, id: DefId, names: &Vec<Ident>)
        ensures
            final(self)@ == old(self)@.name_params(id, names@),
    {
        proof {
            reveal(Compiler::model);
            reveal(State::name_params);
        }
        self.module_refs.set_param_names(id, names);
    }

    /// Where a field is declared that the constructor named like its type has.
    pub fn field_def(&self, ty: StrId, field: StrId) -> (res: Option<DefinitionLocation>)
        ensures
            res == self@.field_decl(ty, field),
    {
        proof {
            reveal(Compiler::model);
            reveal(State::field_decl);
        }
        let mut n: usize = self.field_defs.len();
        while n > 0
            invariant
                n <= self.field_defs.len(),
                field_def(self.field_defs@, self.field_defs@.len(), ty, field) == field_def(
                    self.field_defs@,
                    n as nat,
                    ty,
                    field,
                ),
            decreases n,
        {
            proof {
                reveal(Compiler::model);
                reveal(State::field_decl);
            }
            let f: FieldDef = self.field_defs[n - 1];
            if f.ctor == ty && f.label == field {
                return Some(f.def);
            }
            n = n - 1;
        }
        None
    }

    /// Enter the definition of a local binder, where those are collected.
    pub fn emit_value_def(&mut self, span: Span, name: StrId, doc: Option<StrId>)
        ensures
            final(self)@ == old(self)@.value_def(span, name, doc),
    {
        proof {
            reveal(Compiler::model);
            reveal(State::value_def);
        }
        if self.collect_local_defs {
            let dl: DefinitionLocation = def_loc(span, self.current_module, EntityKind::Value);
            self.emit_def(dl, name, doc, false);
        }
    }

    /// Remember a name whose type can be shown, where those are collected.
    pub fn record(&mut self, qualifier: Option<StrId>, id: Ident, doc: Option<StrId>)
        ensures
            final(self)@ == old(self)@.record(qualifier, id, doc),
    {
        proof {
            reveal(Compiler::model);
            reveal(State::record);
        }
        if self.collect_local_defs {
            self.recorded.push(
                Sighting {
                    module: self.current_module,
                    span: id.span,
                    qualifier,
                    name: id.name,
                    doc,
                },
            );
        }
    }

    /// Make a local binder known under its name.
    pub fn register_local_binding(&mut self, id: Ident, doc: Option<StrId>)
        ensures
            final(self)@ == old(self)@.register(id, doc),
    {
        proof {
            reveal(Compiler::model);
            reveal(State::local_binding);
        }
        let dl: DefinitionLocation = def_loc(id.span, self.current_module, EntityKind::Value);
        self.define(id.name, Binding { kind: ValueKind::Local, def: Some(dl), doc });
        self.track_binding(id.name, id.span);
        self.record(None, id, doc);
        self.emit_value_def(id.span, id.name, doc);
    }

    /// Bind a parameter.
    pub fn bind_param(&mut self, id: Ident)
        ensures
            final(self)@ == old(self)@.bind_ident(id),
    {
        let _ = self.get_or_create_local(id.name);
        self.register_local_binding(id, None);
    }

    /// Bind the names a pattern introduces.
    pub fn bind_pattern_initials(&mut self, ids: &Vec<Ident>)
        ensures
            final(self)@ == old(self)@.bind_idents(ids@, ids@.len()),
    {
        proof {
            reveal(Compiler::model);
            reveal(State::bind_idents);
        }
        let mut i: usize = 0;
        while i < ids.len()
            invariant
                i <= ids.len(),
                self@ == old(self)@.bind_idents(ids@, i as nat),
            decreases ids.len() - i,
        {
            proof {
                reveal(Compiler::model);
                reveal(State::bind_idents);
            }
            self.bind_param(ids[i]);
            i = i + 1;
        }
    }

    /// Enter a function body. `declared` is its name where it has one; a nameless
    /// function goes by the name of the binding it initialises.
    pub fn enter_fn_frame(&mut self, declared: Option<StrId>) -> (frame: FnFrame)
        ensures
            final(self)@ == old(self)@.enter(declared),
            frame@ == old(self)@.frame(),
    {
        proof {
            reveal(Compiler::model);
            reveal(State::pos);
            reveal(State::enter);
            reveal(State::frame);
            reveal(State::push);
            reveal(State::push_env);
        }
        let mut locals: HashMap<StrId, LocalSlot> = HashMap::new();
        core::mem::swap(&mut locals, &mut self.locals);
        self.outer_scopes.push(locals);
        assert(self@.loc.outer =~= old(self)@.loc.outer.push(old(self)@.loc.map));
        let jump_over: usize = self.emit_jump(Op::Jump);
        self.push_env();
        self.unused.push(Vec::new());
        assert(self@.unused =~= old(self)@.unused.push(Seq::empty()));
        let undo_base: usize = self.undo_log.len();
        let marks_base: usize = self.scope_marks.len();
        let local_count: i32 = self.local_count;
        self.local_count = 0;
        let mut captures: HashMap<StrId, i32> = HashMap::new();
        core::mem::swap(&mut captures, &mut self.captures);
        let mut capture_names: Vec<StrId> = Vec::new();
        core::mem::swap(&mut capture_names, &mut self.capture_names);
        let binding: Option<StrId> = self.current_binding;
        match declared {
            Some(n) => {
                self.current_binding = Some(n);
            },
            None => {
                self.current_binding = self.next_fn_self_name;
                self.next_fn_self_name = None;
            },
        }
        let tail: bool = self.in_tail_position;
        self.in_tail_position = true;
        let func_start: i32 = self.current_addr();
        FnFrame {
            undo_base,
            marks_base,
            local_count,
            captures,
            capture_names,
            binding,
            tail,
            jump_over,
            func_start,
        }
    }

    /// Give the enclosing frame back, and return the captured names.
    fn leave_fn_frame(&mut self, frame: FnFrame) -> (captured: Vec<StrId>)
        ensures
            final(self)@ == old(self)@.leave(frame@),
            captured@ == old(self)@.captured(),
    {
        proof {
            reveal(Compiler::model);
            reveal(State::leave);
            reveal(State::captured);
        }
        let ghost s = self@;
        self.in_tail_position = frame.tail;
        self.current_binding = frame.binding;
        let mut captured: Vec<StrId> = frame.capture_names;
        core::mem::swap(&mut captured, &mut self.capture_names);
        let popped: Option<HashMap<StrId, LocalSlot>> = self.outer_scopes.pop();
        if let Some(locals) = popped {
            assert(s.loc.outer.last() == locals@);
            self.locals = locals;
            assert(self@.loc.outer =~= s.loc.outer.drop_last());
        }
        self.undo_log.truncate(frame.undo_base);
        self.scope_marks.truncate(frame.marks_base);
        self.local_count = frame.local_count;
        self.captures = frame.captures;
        proof {
            if frame.undo_base < s.loc.undo.len() {
                assert(self@.loc.undo =~= s.loc.undo.take(frame.undo_base as int));
            } else {
                assert(self@.loc.undo =~= s.loc.undo);
            }
            if frame.marks_base < s.loc.marks.len() {
                assert(self@.loc.marks =~= s.loc.marks.take(frame.marks_base as int));
            } else {
                assert(self@.loc.marks =~= s.loc.marks);
            }
        }
        captured
    }

    /// Enter a function.
    pub fn add_function(&mut self, f: Function)
        ensures
            final(self)@ == old(self)@.add_fn(f@),
    {
        proof {
            reveal(Compiler::model);
            reveal(State::add_fn);
        }
        if !self.check_only {
            self.program.functions.push(f);
            assert(self@.out.fns =~= old(self)@.out.fns.push(f@));
        }
    }

    /// The index of the function entered last.
    pub fn last_function(&self) -> (res: i32)
        ensures
            res == self@.last_fn(),
    {
        proof {
            reveal(Compiler::model);
            reveal(State::last_fn);
        }
        (self.program.functions.len() as i32).wrapping_sub(1)
    }

    /// Close a function body, enter its function, and push the closure over it.
    pub fn finish_fn_frame(&mut self, frame: FnFrame, name: String, arity: i32)
        ensures
            final(self)@ == old(self)@.finish(frame@, name@, arity),
    {
        proof {
            reveal(Compiler::model);
            reveal(State::finish);
            reveal(State::closed_fn);
            reveal(State::load_captured);
        }
        self.emit(Op::Ret);
        self.pop_env();
        self.pop_unused_scope();
        self.patch_jump(frame.jump_over);
        let here: i32 = self.current_addr();
        let f: Function = Function {
            name,
            arity,
            locals: self.local_count,
            capture_count: self.capture_names.len() as i32,
            code_start: frame.func_start,
            code_len: here.wrapping_sub(frame.func_start).wrapping_sub(1),
        };
        assert(f@ == self@.closed_fn(frame@, name@, arity));
        let ghost s = self@;
        self.add_function(f);
        proof {
            reveal(Compiler::model);
            reveal(State::captured);
            reveal(State::add_fn);
        }
        let captured: Vec<StrId> = self.leave_fn_frame(frame);
        let func_idx: i32 = self.last_function();
        let ghost left = self@;
        assert(captured@ == s.captured());
        let mut i: usize = 0;
        while i < captured.len()
            invariant
                i <= captured.len(),
                self@ == left.load_captured(captured@, i as nat),
            decreases captured.len() - i,
        {
            proof {
                reveal(Compiler::model);
                reveal(State::load_captured);
            }
            let access: Option<VarAccess> = self.resolve_variable(captured[i]);
            if let Some(a) = access {
                self.emit_load(a);
            }
            i = i + 1;
        }
        self.emit_arg(Op::MakeClosure, func_idx);
    }

    /// Say whether the next expression stands in tail position.
    pub fn set_tail(&mut self, tail: bool)
        ensures
            final(self)@ == old(self)@.set_tail(tail),
    {
        proof {
            reveal(Compiler::model);
            reveal(State::set_tail);
        }
        self.in_tail_position = tail;
    }

    /// Set the name that the next nameless function goes by, and return the one
    /// set before.
    pub fn replace_next_self(&mut self, name: Option<StrId>) -> (before: Option<StrId>)
        ensures
            final(self)@ == old(self)@.set_next_self(name),
            before == old(self)@.loc.next_self,
    {
        proof {
            reveal(Compiler::model);
            reveal(State::set_next_self);
        }
        let before: Option<StrId> = self.next_fn_self_name;
        self.next_fn_self_name = name;
        before
    }

    /// Reserve consecutive slots.
    pub fn alloc_temps(&mut self, n: i32) -> (first: i32)
        ensures
            final(self)@ == old(self)@.take_slots(n),
            first == old(self)@.next_slot(),
    {
        proof {
            reveal(Compiler::model);
            reveal(State::take_slots);
            reveal(State::next_slot);
        }
        let first: i32 = self.local_count;
        self.local_count = self.local_count.wrapping_add(n);
        first
    }

    /// Whether a name has a slot in the frame itself.
    pub fn has_local(&self, name: StrId) -> (res: bool)
        ensures
            res == self@.has_local(name),
    {
        proof {
            reveal(Compiler::model);
            reveal(State::has_local);
        }
        self.locals.contains_key(&name)
    }

    /// Whether no function is being compiled.
    pub fn at_module_scope(&self) -> (res: bool)
        ensures
            res == self@.at_module_scope(),
    {
        proof {
            reveal(Compiler::model);
            reveal(State::at_module_scope);
        }
        self.outer_scopes.len() == 0
    }

    /// Pin the slots of an or-pattern's names for its further alternatives.
    pub fn push_overrides(&mut self, ids: &Vec<Ident>)
        ensures
            final(self)@ == old(self)@.push_pins(ids@),
    {
        proof {
            reveal(Compiler::model);
            reveal(State::push_pins);
        }
        let mut map: HashMap<StrId, i32> = HashMap::new();
        let mut i: usize = 0;
        while i < ids.len()
            invariant
                i <= ids.len(),
                self@ == old(self)@,
                map@ == pins(self@.loc.map, ids@, i as nat),
            decreases ids.len() - i,
        {
            proof {
                reveal(Compiler::model);
            }
            let name: StrId = ids[i].name;
            if let Some(e) = self.locals.get(&name) {
                map.insert(name, e.slot);
            }
            i = i + 1;
        }
        self.or_bind_overrides.push(map);
        assert(self@.loc.overrides =~= old(self)@.loc.overrides.push(map@));
    }

    /// Lift the pins of an or-pattern.
    pub fn pop_overrides(&mut self)
        ensures
            final(self)@ == old(self)@.pop_pins(),
    {
        proof {
            reveal(Compiler::model);
            reveal(State::pop_pins);
        }
        let _ = self.or_bind_overrides.pop();
        proof {
            if old(self)@.loc.overrides.len() > 0 {
                assert(self@.loc.overrides =~= old(self)@.loc.overrides.drop_last());
            }
        }
    }
}

} // verus!

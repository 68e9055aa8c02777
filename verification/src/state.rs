//! The compiler's state and the primitive steps on it: emitting code, pooling
//! constants, binding locals, opening and closing scopes and function frames.
//!
//! [`State`] is the mathematical model of a [`Compiler`]. Each step is a function
//! on states, and the executable step of the same name is proved to take the
//! compiler from one state to the other.
//!
//! A compiler that only checks emits nothing and pools nothing, but tracks names
//! and reports diagnostics all the same. Slot numbers and code addresses are as
//! wide as the operand that carries them and wrap like it.
use crate::ast::{Ident, Span, StrId};
use crate::diag::{ArenaSlice, Diagnostic, Message, Severity};
use crate::names::{ignored, text_of, Interner};
use crate::op::{instr, Const, ConstView, Function, FunctionView, Instruction, Op, Program};
use crate::prelude_bindings::{PreludeBindings, TypeId};
use crate::refs::{
    defid_at, defined, location, params_of, place_of, DefId, Definition, DefinitionLocation,
    EntityKind, ModuleReferences, Occurrence, ReferenceKind, References,
};
use std::collections::{HashMap, VecDeque};
use vstd::prelude::*;

verus! {

broadcast use vstd::std_specs::hash::group_hash_axioms;

/// A live local binding: its stack slot and the block depth it was bound at.
#[derive(Debug, Clone, Copy, PartialEq, Eq, Structural)]
pub struct LocalSlot {
    pub slot: i32,
    pub depth: u32,
}

/// A slot of the entry frame.
#[derive(Debug, Clone, Copy, PartialEq, Eq, Structural)]
pub struct GlobalSlot(pub i32);

/// What kind of value a name denotes.
#[derive(Debug, Clone, Copy, PartialEq, Eq, Structural)]
pub enum ValueKind {
    /// A binding of some frame.
    Local,
    /// A function declared at the top level.
    ModuleFn,
    /// A virtual-machine builtin, by its key.
    Builtin { key: StrId },
    /// A data constructor.
    Constructor {
        ty_name: StrId,
        type_id: TypeId,
        variant_idx: u16,
        arity: u16,
        labels: ArenaSlice,
    },
}

/// A name in scope: its kind, where it is declared, and what is documented of it.
#[derive(Debug, Clone, Copy, PartialEq, Eq, Structural)]
pub struct Binding {
    pub kind: ValueKind,
    pub def: Option<DefinitionLocation>,
    pub doc: Option<StrId>,
}

/// How a variable is loaded.
#[derive(Debug, Clone, Copy, PartialEq, Eq, Structural)]
pub enum VarAccess {
    Local(i32),
    Capture(i32),
    Global(i32),
    Self_,
}

/// A constructor of a type: its name and where its field labels stand in the
/// label pool.
#[derive(Debug, Clone, Copy, PartialEq, Eq, Structural)]
pub struct VariantInfo {
    pub name: StrId,
    pub labels: ArenaSlice,
}

/// Where a field of a constructor is declared.
#[derive(Debug, Clone, Copy, PartialEq, Eq, Structural)]
pub struct FieldDef {
    pub ctor: StrId,
    pub label: StrId,
    pub def: DefinitionLocation,
}

/// A name at whose place a type can be shown, with the type it belongs to if it is that of
/// a field or a constructor.
#[derive(Debug, Clone, Copy, PartialEq, Eq, Structural)]
pub struct Sighting {
    pub module: StrId,
    pub span: Span,
    pub qualifier: Option<StrId>,
    pub name: StrId,
    /// What is documented of what the name refers to.
    pub doc: Option<StrId>,
}

/// What is known of a type: the number of its parameters, and where its
/// constructors stand in the variant pool. A type without variants has no fields to
/// project.
#[derive(Debug, Clone, Copy, PartialEq, Eq, Structural)]
pub struct TypeInfo {
    pub arity: usize,
    pub variants: Option<ArenaSlice>,
}

/// Where a module comes from.
#[derive(Debug, Clone, Copy, PartialEq, Eq, Structural)]
pub enum Origin {
    /// A module of the user.
    User,
    /// A module of the standard library.
    Stdlib,
    /// The prelude, which is part of the standard library.
    Prelude,
}

/// A value that a module exports, and its slot in the entry frame if it has one.
#[derive(Debug, Clone, Copy, PartialEq, Eq, Structural)]
pub struct ExportedValue {
    pub binding: Binding,
    pub slot: Option<i32>,
    pub doc: Option<StrId>,
    /// Where the names of what it takes stand in the label pool.
    pub params: ArenaSlice,
}

/// How far a compiler had come at some point. Of two points the one with the
/// smaller stamp came first.
#[derive(Debug, Clone, Copy, PartialEq, Eq, Structural)]
pub struct Watermark {
    /// The number of modules compiled before.
    pub stamp: u32,
    pub code: usize,
    pub functions: usize,
    pub constants: usize,
    pub local_count: i32,
    pub labels: usize,
    pub variants: usize,
    pub fields: usize,
    pub infos: usize,
    pub next_type_id: u32,
    pub type_log: usize,
    pub diagnostics: usize,
    /// The number of names in the outermost scope.
    pub root: usize,
}

/// What a module offers to its importers.
#[derive(Debug)]
pub struct ModuleInterface {
    pub values: HashMap<StrId, ExportedValue>,
    pub types: HashMap<StrId, TypeId>,
    pub private_names: HashMap<StrId, ()>,
}

/// The mathematical model of a [`ModuleInterface`].
pub struct Interface {
    pub values: Map<StrId, ExportedValue>,
    pub types: Map<StrId, TypeId>,
    pub private_names: Map<StrId, ()>,
}

impl View for ModuleInterface {
    type V = Interface;

    open spec fn view(&self) -> Interface {
        Interface {
            values: self.values@,
            types: self.types@,
            private_names: self.private_names@,
        }
    }
}

/// What compilation reads and never changes.
#[derive(Debug)]
pub struct World {
    pub names: Interner,
    /// The interned empty string.
    pub empty: StrId,
    /// The interned placeholder `_`.
    pub blank: StrId,
    /// The interned name of the constructor of an absent value.
    pub none_name: StrId,
    /// The interned name of the constructor of an error.
    pub err_name: StrId,
    /// The key of the entry module.
    pub main: StrId,
}

/// The compiler.
pub struct Compiler {
    pub program: Program,
    pub locals: HashMap<StrId, LocalSlot>,
    pub undo_log: Vec<(StrId, Option<LocalSlot>)>,
    pub scope_marks: Vec<usize>,
    pub or_bind_overrides: Vec<HashMap<StrId, i32>>,
    pub unused: Vec<Vec<(StrId, Span)>>,
    pub outer_scopes: Vec<HashMap<StrId, LocalSlot>>,
    pub local_count: i32,
    pub captures: HashMap<StrId, i32>,
    pub capture_names: Vec<StrId>,
    pub current_binding: Option<StrId>,
    pub next_fn_self_name: Option<StrId>,
    pub in_tail_position: bool,
    pub current_owner: Option<DefId>,
    pub env: Vec<HashMap<StrId, Binding>>,
    /// How many names the outermost scope held when each of its names came to it.
    pub rooted: HashMap<StrId, usize>,
    pub labels: Vec<StrId>,
    pub module_refs: ModuleReferences,
    /// The names whose types can be shown.
    pub recorded: Vec<Sighting>,
    /// The modules that were compiled or referred to.
    pub met: HashMap<StrId, ()>,
    pub diagnostics: Vec<Diagnostic>,
    pub current_module: StrId,
    pub check_only: bool,
    pub collect_local_defs: bool,
    pub walking_module_statements: bool,
    pub toplevel_binds: VecDeque<GlobalSlot>,
    /// Types by name.
    pub types: HashMap<StrId, TypeId>,
    /// Types by identity.
    pub infos: HashMap<u32, TypeInfo>,
    /// The identities of the declared types, in the order of their declaration.
    pub info_ids: Vec<u32>,
    /// The constructors of all types.
    pub variants: Vec<VariantInfo>,
    /// Where their fields are declared.
    pub field_defs: Vec<FieldDef>,
    /// The identity of the next type to be declared.
    pub next_type_id: u32,
    /// Where the identities of each module's types begin.
    pub id_bases: HashMap<StrId, u32>,
    /// The first identity behind all that modules have reserved.
    pub id_high_water: u32,
    /// Whether a module that was compiled again has outgrown what it had reserved.
    pub id_range_overflow: bool,
    /// What every name of a type was bound to before it was bound anew.
    pub type_log: Vec<(StrId, Option<TypeId>)>,
    /// The prelude's bindings, once they have been captured.
    pub prelude: Option<PreludeBindings>,
    /// The names that only the prelude may define.
    pub reserved: HashMap<StrId, ()>,
    /// Module keys by the qualifier they are imported under.
    pub qualifiers: HashMap<StrId, StrId>,
    /// Loaded modules by key.
    pub modules: HashMap<StrId, ModuleInterface>,
    /// What has been collected in each loaded module.
    pub stored: HashMap<StrId, ModuleReferences>,
    /// Where each module of the user began.
    pub marks: HashMap<StrId, Watermark>,
    /// Which module is imported by which.
    pub dependents: Vec<(StrId, StrId)>,
    /// How many modules have been compiled.
    pub compile_count: u32,
    /// Where the current module comes from.
    pub origin: Origin,
    pub world: World,
}

/// What has been produced: code, constants and functions. Nothing is produced
/// while only checking.
pub struct Output {
    pub code: Seq<Instruction>,
    pub consts: Seq<ConstView>,
    pub fns: Seq<FunctionView>,
    pub entry: i32,
    pub check_only: bool,
}

/// The locals of the function being compiled and of those around it.
pub struct Locals {
    pub map: Map<StrId, LocalSlot>,
    pub undo: Seq<(StrId, Option<LocalSlot>)>,
    pub marks: Seq<nat>,
    pub overrides: Seq<Map<StrId, i32>>,
    pub outer: Seq<Map<StrId, LocalSlot>>,
    pub count: i32,
    pub captures: Map<StrId, i32>,
    pub capture_names: Seq<StrId>,
    pub binding: Option<StrId>,
    pub next_self: Option<StrId>,
    pub tail: bool,
    pub walking: bool,
    pub binds: Seq<GlobalSlot>,
}

/// The definitions and occurrences collected so far.
pub struct Refs {
    pub module: StrId,
    pub defs: Seq<Definition>,
    pub occs: Seq<Occurrence>,
    pub ctors: Seq<(DefId, DefId)>,
    pub params: Seq<(DefId, StrId)>,
    /// The modules met so far, however they were.
    pub met: Map<StrId, ()>,
    pub seen: Seq<Sighting>,
    pub owner: Option<DefId>,
    pub current: StrId,
    pub collect: bool,
}

/// What is known of types and other modules.
pub struct Known {
    pub types: Map<StrId, TypeId>,
    pub infos: Map<u32, TypeInfo>,
    pub variants: Seq<VariantInfo>,
    pub fields: Seq<FieldDef>,
    pub ids: Seq<u32>,
    pub bases: Map<StrId, u32>,
    pub high: u32,
    pub spilled: bool,
    pub next: u32,
    pub log: Seq<(StrId, Option<TypeId>)>,
    pub prelude: Option<PreludeBindings>,
    pub reserved: Map<StrId, ()>,
    pub qualifiers: Map<StrId, StrId>,
    pub modules: Map<StrId, Interface>,
    pub stored: Map<StrId, References>,
    pub marks: Map<StrId, Watermark>,
    pub dependents: Seq<(StrId, StrId)>,
    pub count: u32,
    pub origin: Origin,
}

/// The models of what has been collected in the modules.
pub open spec fn references(stored: Map<StrId, ModuleReferences>) -> Map<StrId, References> {
    stored.map_values(|m: ModuleReferences| m@)
}

/// The models of the modules.
pub open spec fn interfaces(modules: Map<StrId, ModuleInterface>) -> Map<StrId, Interface> {
    modules.map_values(|m: ModuleInterface| m@)
}

/// The mathematical model of a [`Compiler`].
pub struct State {
    pub out: Output,
    pub loc: Locals,
    pub refs: Refs,
    pub env: Seq<Map<StrId, Binding>>,
    pub rooted: Map<StrId, usize>,
    pub unused: Seq<Seq<(StrId, Span)>>,
    pub labels: Seq<StrId>,
    pub diags: Seq<Diagnostic>,
    pub known: Known,
    pub world: World,
}

/// The models of a stack of maps.
pub open spec fn maps<V>(stack: Seq<HashMap<StrId, V>>) -> Seq<Map<StrId, V>> {
    stack.map_values(|m: HashMap<StrId, V>| m@)
}

/// The models of a list of constants.
pub open spec fn const_views(consts: Seq<Const>) -> Seq<ConstView> {
    consts.map_values(|c: Const| c@)
}

/// The models of a list of functions.
pub open spec fn fn_views(fns: Seq<Function>) -> Seq<FunctionView> {
    fns.map_values(|f: Function| f@)
}

/// The models of a list of lengths.
pub open spec fn lengths(list: Seq<usize>) -> Seq<nat> {
    list.map_values(|n: usize| n as nat)
}

/// The models of a stack of lists.
pub open spec fn lists(stack: Seq<Vec<(StrId, Span)>>) -> Seq<Seq<(StrId, Span)>> {
    stack.map_values(|v: Vec<(StrId, Span)>| v@)
}

impl Compiler {
    /// What a compiler stands for.
    #[verifier::opaque]
    pub open spec fn model(&self) -> State {
        State {
            out: Output {
                code: self.program.code@,
                consts: const_views(self.program.constants@),
                fns: fn_views(self.program.functions@),
                entry: self.program.entry,
                check_only: self.check_only,
            },
            loc: Locals {
                map: self.locals@,
                undo: self.undo_log@,
                marks: lengths(self.scope_marks@),
                overrides: maps(self.or_bind_overrides@),
                outer: maps(self.outer_scopes@),
                count: self.local_count,
                captures: self.captures@,
                capture_names: self.capture_names@,
                binding: self.current_binding,
                next_self: self.next_fn_self_name,
                tail: self.in_tail_position,
                walking: self.walking_module_statements,
                binds: self.toplevel_binds@,
            },
            refs: Refs {
                module: self.module_refs.module,
                defs: self.module_refs.definitions@,
                occs: self.module_refs.occurrences@,
                ctors: self.module_refs.ctors@,
                params: self.module_refs.params@,
                met: self.met@,
                seen: self.recorded@,
                owner: self.current_owner,
                current: self.current_module,
                collect: self.collect_local_defs,
            },
            env: maps(self.env@),
            rooted: self.rooted@,
            unused: lists(self.unused@),
            labels: self.labels@,
            diags: self.diagnostics@,
            known: Known {
                types: self.types@,
                infos: self.infos@,
                variants: self.variants@,
                fields: self.field_defs@,
                ids: self.info_ids@,
                bases: self.id_bases@,
                high: self.id_high_water,
                spilled: self.id_range_overflow,
                next: self.next_type_id,
                log: self.type_log@,
                prelude: self.prelude,
                reserved: self.reserved@,
                qualifiers: self.qualifiers@,
                modules: interfaces(self.modules@),
                stored: references(self.stored@),
                marks: self.marks@,
                dependents: self.dependents@,
                count: self.compile_count,
                origin: self.origin,
            },
            world: self.world,
        }
    }
}

impl View for Compiler {
    type V = State;

    open spec fn view(&self) -> State {
        self.model()
    }
}

/// Where the latest of the first `n` fields of a constructor and a label is declared.
pub open spec fn field_def(fields: Seq<FieldDef>, n: nat, ctor: StrId, label: StrId) -> Option<
    DefinitionLocation,
>
    decreases n,
{
    if n == 0 {
        None
    } else if fields[n - 1].ctor == ctor && fields[n - 1].label == label {
        Some(fields[n - 1].def)
    } else {
        field_def(fields, (n - 1) as nat, ctor, label)
    }
}

/// The entry of a name, if it has one.
pub open spec fn entry_of<V>(m: Map<StrId, V>, name: StrId) -> Option<V> {
    if m.dom().contains(name) {
        Some(m[name])
    } else {
        None
    }
}

/// The place of a name in a list of tracked bindings, searched from the back.
pub open spec fn tracked_at(scope: Seq<(StrId, Span)>, n: nat, name: StrId) -> Option<int>
    decreases n,
{
    if n == 0 {
        None
    } else if scope[n - 1].0 == name {
        Some(n - 1)
    } else {
        tracked_at(scope, (n - 1) as nat, name)
    }
}

/// The tracked bindings once `name` has been used: it leaves the innermost of the
/// first `n` scopes that tracks it.
pub open spec fn used(unused: Seq<Seq<(StrId, Span)>>, n: nat, name: StrId) -> Seq<
    Seq<(StrId, Span)>,
>
    decreases n,
{
    if n == 0 {
        unused
    } else {
        match tracked_at(unused[n - 1], unused[n - 1].len(), name) {
            Some(i) => unused.update(n - 1, unused[n - 1].remove(i)),
            None => used(unused, (n - 1) as nat, name),
        }
    }
}

/// Whether one span starts before another.
pub open spec fn starts_before(a: Span, b: Span) -> bool {
    a.start_line < b.start_line || (a.start_line == b.start_line && a.start_column
        < b.start_column)
}

/// Insert an entry behind every entry that does not start after it.
pub open spec fn insert_by_start(sorted: Seq<(StrId, Span)>, x: (StrId, Span)) -> Seq<(StrId, Span)>
    decreases sorted.len(),
{
    if sorted.len() > 0 && starts_before(x.1, sorted.last().1) {
        insert_by_start(sorted.drop_last(), x).push(sorted.last())
    } else {
        sorted.push(x)
    }
}

/// Entries in source order; entries that start together keep their order.
pub open spec fn by_start(s: Seq<(StrId, Span)>) -> Seq<(StrId, Span)>
    decreases s.len(),
{
    if s.len() == 0 {
        s
    } else {
        insert_by_start(by_start(s.drop_last()), s.last())
    }
}

/// The diagnostics about the first `n` leftover bindings.
pub open spec fn unused_errors(leftover: Seq<(StrId, Span)>, n: nat) -> Seq<Diagnostic> {
    Seq::new(n, |i: int| error_at(Message::Unused { name: leftover[i].0 }, leftover[i].1))
}

/// An error.
pub open spec fn error_at(message: Message, span: Span) -> Diagnostic {
    Diagnostic { span, severity: Severity::Error, message }
}

/// The locals after the undo log has been unwound down to `mark`.
pub open spec fn unwound<V>(
    locals: Map<StrId, V>,
    undo: Seq<(StrId, Option<V>)>,
    mark: nat,
) -> Map<StrId, V>
    decreases undo.len(),
{
    if undo.len() <= mark {
        locals
    } else {
        let back = match undo.last().1 {
            Some(prev) => locals.insert(undo.last().0, prev),
            None => locals.remove(undo.last().0),
        };
        unwound(back, undo.drop_last(), mark)
    }
}

/// The innermost of the first `n` frames that binds a name.
pub open spec fn frame_of(outer: Seq<Map<StrId, LocalSlot>>, n: nat, name: StrId) -> Option<int>
    decreases n,
{
    if n == 0 {
        None
    } else if outer[n - 1].dom().contains(name) {
        Some(n - 1)
    } else {
        frame_of(outer, (n - 1) as nat, name)
    }
}

/// What a name denotes in the innermost of the first `n` scopes that knows it.
pub open spec fn lookup_in(env: Seq<Map<StrId, Binding>>, n: nat, name: StrId) -> Option<Binding>
    decreases n,
{
    if n == 0 {
        None
    } else if env[n - 1].dom().contains(name) {
        Some(env[n - 1][name])
    } else {
        lookup_in(env, (n - 1) as nat, name)
    }
}

/// What a nested function body must give back when it closes.
pub struct FrameView {
    pub undo_base: nat,
    pub marks_base: nat,
    pub local_count: i32,
    pub captures: Map<StrId, i32>,
    pub capture_names: Seq<StrId>,
    pub binding: Option<StrId>,
    pub tail: bool,
    pub jump_over: usize,
    pub func_start: i32,
}

/// State of the enclosing frame, kept while a nested function body is compiled.
pub struct FnFrame {
    pub undo_base: usize,
    pub marks_base: usize,
    pub local_count: i32,
    pub captures: HashMap<StrId, i32>,
    pub capture_names: Vec<StrId>,
    pub binding: Option<StrId>,
    pub tail: bool,
    pub jump_over: usize,
    pub func_start: i32,
}

impl View for FnFrame {
    type V = FrameView;

    open spec fn view(&self) -> FrameView {
        FrameView {
            undo_base: self.undo_base as nat,
            marks_base: self.marks_base as nat,
            local_count: self.local_count,
            captures: self.captures@,
            capture_names: self.capture_names@,
            binding: self.binding,
            tail: self.tail,
            jump_over: self.jump_over,
            func_start: self.func_start,
        }
    }
}

impl Output {
    /// Append an instruction.
    pub open spec fn push(self, ins: Instruction) -> Output {
        if self.check_only {
            self
        } else {
            Output { code: self.code.push(ins), ..self }
        }
    }

    /// The address of the next instruction, as an operand carries it.
    pub open spec fn here(self) -> i32 {
        self.code.len() as i32
    }

    /// Make the jump at `pos` land on the next instruction.
    pub open spec fn patch(self, pos: int) -> Output {
        if self.check_only || !(0 <= pos < self.code.len()) {
            self
        } else {
            Output {
                code: self.code.update(
                    pos,
                    Instruction { operand: self.here(), ..self.code[pos] },
                ),
                ..self
            }
        }
    }

    /// The index the next pooled constant gets.
    pub open spec fn pool_index(self) -> i32 {
        if self.check_only {
            0
        } else {
            self.consts.len() as i32
        }
    }

    /// Pool a constant.
    pub open spec fn pool(self, c: ConstView) -> Output {
        if self.check_only {
            self
        } else {
            Output { consts: self.consts.push(c), ..self }
        }
    }

    /// Enter a function.
    pub open spec fn add_fn(self, f: FunctionView) -> Output {
        if self.check_only {
            self
        } else {
            Output { fns: self.fns.push(f), ..self }
        }
    }

    /// The index of the function entered last.
    pub open spec fn last_fn(self) -> i32 {
        i32::wrapping_sub(self.fns.len() as i32, 1)
    }
}

impl Locals {
    /// Reserve a slot; its number is the slot count before.
    pub open spec fn take_slot(self) -> Locals {
        Locals { count: i32::wrapping_add(self.count, 1), ..self }
    }

    /// Bind a name to a slot in the current scope.
    pub open spec fn bind_raw(self, name: StrId, slot: i32) -> Locals {
        Locals {
            map: self.map.insert(name, LocalSlot { slot, depth: self.marks.len() as u32 }),
            undo: if self.marks.len() > 0 {
                self.undo.push((name, entry_of(self.map, name)))
            } else {
                self.undo
            },
            ..self
        }
    }

    /// Whether a binding made now lands in the entry frame.
    pub open spec fn binds_global(self) -> bool {
        self.outer.len() == 0 && self.marks.len() <= 1
    }

    /// Bind a name to a slot, queueing the slot of a module-scope binding that
    /// the walk over the module's own statements makes.
    pub open spec fn bind(self, name: StrId, slot: i32) -> Locals {
        let l = self.bind_raw(name, slot);
        if self.walking && self.binds_global() {
            Locals { binds: l.binds.push(GlobalSlot(slot)), ..l }
        } else {
            l
        }
    }

    /// The slot that the alternatives of an or-pattern must share for a name.
    pub open spec fn pinned(self, name: StrId) -> Option<i32> {
        if self.overrides.len() > 0 {
            entry_of(self.overrides.last(), name)
        } else {
            None
        }
    }

    /// Whether a name already has a slot that a binding made now takes over: one
    /// bound in this very block, inside a function.
    pub open spec fn rebinds(self, name: StrId) -> bool {
        match entry_of(self.map, name) {
            Some(e) => !(self.marks.len() > 0 && e.depth < self.marks.len() as u32)
                && self.outer.len() > 0,
            None => false,
        }
    }

    /// The slot a binding of `name` gets.
    pub open spec fn slot_of(self, name: StrId) -> i32 {
        match self.pinned(name) {
            Some(slot) => slot,
            None => if self.rebinds(name) {
                self.map[name].slot
            } else {
                self.count
            },
        }
    }

    /// Reserve the slot a binding of `name` gets.
    pub open spec fn reserve(self, name: StrId) -> Locals {
        if self.pinned(name) is Some || self.rebinds(name) {
            self
        } else {
            self.take_slot().bind(name, self.count)
        }
    }

    /// Open a block.
    pub open spec fn open_block(self) -> Locals {
        Locals { marks: self.marks.push(self.undo.len()), ..self }
    }

    /// Close a block: every name it bound is as it was before.
    pub open spec fn close_block(self) -> Locals {
        if self.marks.len() > 0 {
            let mark = self.marks.last();
            Locals {
                map: unwound(self.map, self.undo, mark),
                undo: if mark < self.undo.len() {
                    self.undo.take(mark as int)
                } else {
                    self.undo
                },
                marks: self.marks.drop_last(),
                ..self
            }
        } else {
            self
        }
    }

    /// How a variable is loaded: from the frame itself, from its captures, or
    /// from the innermost enclosing frame that binds it. The function's own name
    /// is the function; what the entry frame binds is read in place; anything
    /// else is captured.
    pub open spec fn access(self, name: StrId) -> Option<VarAccess> {
        if self.map.dom().contains(name) {
            Some(VarAccess::Local(self.map[name].slot))
        } else if self.captures.dom().contains(name) {
            Some(VarAccess::Capture(self.captures[name]))
        } else {
            match frame_of(self.outer, self.outer.len(), name) {
                None => None,
                Some(i) => if self.binding == Some(name) {
                    Some(VarAccess::Self_)
                } else if i == 0 {
                    Some(VarAccess::Global(self.outer[0][name].slot))
                } else {
                    Some(VarAccess::Capture(self.capture_names.len() as i32))
                },
            }
        }
    }

    /// Whether loading a variable adds it to the captures.
    pub open spec fn captures_new(self, name: StrId) -> bool {
        &&& !self.map.dom().contains(name)
        &&& !self.captures.dom().contains(name)
        &&& self.binding != Some(name)
        &&& frame_of(self.outer, self.outer.len(), name) matches Some(i) && i != 0
    }

    /// Capture a variable where loading it makes that necessary.
    pub open spec fn capture(self, name: StrId) -> Locals {
        if self.captures_new(name) {
            Locals {
                captures: self.captures.insert(name, self.capture_names.len() as i32),
                capture_names: self.capture_names.push(name),
                ..self
            }
        } else {
            self
        }
    }

    /// The name the next function body goes by: the declared one, or that of the
    /// binding it initialises.
    pub open spec fn self_name(self, declared: Option<StrId>) -> Option<StrId> {
        match declared {
            Some(n) => Some(n),
            None => self.next_self,
        }
    }

    /// Enter a function body: the enclosing frame's locals are out of reach but
    /// for capture.
    pub open spec fn enter(self, declared: Option<StrId>) -> Locals {
        Locals {
            outer: self.outer.push(self.map),
            map: Map::empty(),
            count: 0,
            captures: Map::empty(),
            capture_names: Seq::empty(),
            binding: self.self_name(declared),
            next_self: if declared is None {
                None
            } else {
                self.next_self
            },
            tail: true,
            ..self
        }
    }

    /// Leave a function body: the enclosing frame is as it was.
    pub open spec fn leave(self, f: FrameView) -> Locals {
        Locals {
            tail: f.tail,
            binding: f.binding,
            capture_names: f.capture_names,
            map: if self.outer.len() > 0 {
                self.outer.last()
            } else {
                self.map
            },
            outer: if self.outer.len() > 0 {
                self.outer.drop_last()
            } else {
                self.outer
            },
            undo: if f.undo_base < self.undo.len() {
                self.undo.take(f.undo_base as int)
            } else {
                self.undo
            },
            marks: if f.marks_base < self.marks.len() {
                self.marks.take(f.marks_base as int)
            } else {
                self.marks
            },
            count: f.local_count,
            captures: f.captures,
            ..self
        }
    }
}

impl State {
    /// The text of an interned string.
    pub open spec fn text(self, id: StrId) -> Seq<char> {
        text_of(self.world.names@, id)
    }

    /// The address of the next instruction.
    pub open spec fn here(self) -> i32 {
        self.out.here()
    }

    /// The place of the next instruction.
    #[verifier::opaque]
    pub open spec fn pos(self) -> usize {
        self.out.code.len() as usize
    }

    /// Append an instruction.
    #[verifier::opaque]
    pub open spec fn push(self, ins: Instruction) -> State {
        State { out: self.out.push(ins), ..self }
    }

    /// Append an operation without operands.
    pub open spec fn emit(self, o: Op) -> State {
        self.push(instr(o, 0, 0, 0))
    }

    /// Append an operation with an operand.
    pub open spec fn emit_arg(self, o: Op, operand: i32) -> State {
        self.push(instr(o, 0, 0, operand))
    }

    /// Append an operation with a packed count and an operand.
    pub open spec fn emit_b(self, o: Op, b: u16, operand: i32) -> State {
        self.push(instr(o, 0, b, operand))
    }

    /// Make the jump at `pos` land on the next instruction.
    #[verifier::opaque]
    pub open spec fn patch(self, pos: int) -> State {
        State { out: self.out.patch(pos), ..self }
    }

    /// Make the first `n` of several jumps land on the next instruction.
    #[verifier::opaque]
    pub open spec fn patch_all(self, at: Seq<usize>, n: nat) -> State
        decreases n,
    {
        if n == 0 {
            self
        } else {
            self.patch_all(at, (n - 1) as nat).patch(at[n - 1] as int)
        }
    }

    /// The index the next pooled constant gets.
    #[verifier::opaque]
    pub open spec fn pool_index(self) -> i32 {
        self.out.pool_index()
    }

    /// Pool a constant.
    #[verifier::opaque]
    pub open spec fn pool(self, c: ConstView) -> State {
        State { out: self.out.pool(c), ..self }
    }

    /// Pool a constant and push it.
    pub open spec fn push_const(self, c: ConstView) -> State {
        self.pool(c).emit_arg(Op::PushConst, self.pool_index())
    }

    /// Push an integer constant.
    pub open spec fn push_int(self, i: i64) -> State {
        self.push_const(ConstView::Int(i))
    }

    /// Enter a function.
    #[verifier::opaque]
    pub open spec fn add_fn(self, f: FunctionView) -> State {
        State { out: self.out.add_fn(f), ..self }
    }

    /// Say whether the next expression stands in tail position.
    #[verifier::opaque]
    pub open spec fn set_tail(self, tail: bool) -> State {
        State { loc: Locals { tail, ..self.loc }, ..self }
    }

    /// Set the name that the next nameless function goes by.
    #[verifier::opaque]
    pub open spec fn set_next_self(self, name: Option<StrId>) -> State {
        State { loc: Locals { next_self: name, ..self.loc }, ..self }
    }

    /// Reserve a slot; its number is the slot count before.
    #[verifier::opaque]
    pub open spec fn take_slot(self) -> State {
        State { loc: self.loc.take_slot(), ..self }
    }

    /// Reserve `n` consecutive slots; the first one is numbered by the slot count
    /// before.
    #[verifier::opaque]
    pub open spec fn take_slots(self, n: i32) -> State {
        State {
            loc: Locals { count: i32::wrapping_add(self.loc.count, n), ..self.loc },
            ..self
        }
    }

    /// The number of the next slot.
    #[verifier::opaque]
    pub open spec fn next_slot(self) -> i32 {
        self.loc.count
    }

    /// Pop the stack into a fresh slot.
    pub open spec fn spill(self) -> State {
        self.take_slot().emit_arg(Op::StoreLocal, self.next_slot())
    }

    /// Bind a name to a slot in the current scope.
    #[verifier::opaque]
    pub open spec fn bind_raw(self, name: StrId, slot: i32) -> State {
        State { loc: self.loc.bind_raw(name, slot), ..self }
    }

    /// Bind a name to a slot, queueing the slot where the module's own statements
    /// bind it.
    #[verifier::opaque]
    pub open spec fn bind(self, name: StrId, slot: i32) -> State {
        State { loc: self.loc.bind(name, slot), ..self }
    }

    /// The slot a binding of `name` gets.
    #[verifier::opaque]
    pub open spec fn slot_of(self, name: StrId) -> i32 {
        self.loc.slot_of(name)
    }

    /// Reserve the slot a binding of `name` gets.
    #[verifier::opaque]
    pub open spec fn reserve(self, name: StrId) -> State {
        State { loc: self.loc.reserve(name), ..self }
    }

    /// Whether a name has a slot in the frame itself.
    #[verifier::opaque]
    pub open spec fn has_local(self, name: StrId) -> bool {
        self.loc.map.dom().contains(name)
    }

    /// Whether no function is being compiled.
    #[verifier::opaque]
    pub open spec fn at_module_scope(self) -> bool {
        self.loc.outer.len() == 0
    }

    /// Open a block of locals.
    #[verifier::opaque]
    pub open spec fn push_locals(self) -> State {
        State { loc: self.loc.open_block(), unused: self.unused.push(Seq::empty()), ..self }
    }

    /// Close a block of locals: every name it bound is as it was before, and the
    /// bindings nothing used are reported.
    #[verifier::opaque]
    pub open spec fn pop_locals(self) -> State {
        (State { loc: self.loc.close_block(), ..self }).pop_unused()
    }

    /// Report an error.
    #[verifier::opaque]
    pub open spec fn error(self, message: Message, span: Span) -> State {
        State { diags: self.diags.push(error_at(message, span)), ..self }
    }

    /// Add a remark to an error.
    #[verifier::opaque]
    pub open spec fn note(self, message: Message, span: Span) -> State {
        State {
            diags: self.diags.push(Diagnostic { span, severity: Severity::Hint, message }),
            ..self
        }
    }

    /// Watch whether a binding is used. One of the same name that is still
    /// unused in this scope can no longer be, and is reported.
    #[verifier::opaque]
    pub open spec fn track(self, name: StrId, span: Span) -> State {
        if ignored(self.world.names@, name) || self.unused.len() == 0 {
            self
        } else {
            let last = self.unused.len() - 1;
            let scope = self.unused[last];
            match tracked_at(scope, scope.len(), name) {
                Some(i) => (State {
                    unused: self.unused.update(last, scope.update(i, (name, span))),
                    ..self
                }).error(Message::Unused { name }, scope[i].1),
                None => State {
                    unused: self.unused.update(last, scope.push((name, span))),
                    ..self
                },
            }
        }
    }

    /// Count a name as used, in the innermost scope that watches it.
    #[verifier::opaque]
    pub open spec fn mark_used(self, name: StrId) -> State {
        State { unused: used(self.unused, self.unused.len(), name), ..self }
    }

    /// Close a scope of watched bindings and report what is left, in source
    /// order.
    #[verifier::opaque]
    pub open spec fn pop_unused(self) -> State {
        if self.unused.len() == 0 {
            self
        } else {
            let leftover = by_start(self.unused.last());
            State {
                unused: self.unused.drop_last(),
                diags: self.diags + unused_errors(leftover, leftover.len()),
                ..self
            }
        }
    }

    /// Load a variable.
    pub open spec fn load(self, access: VarAccess) -> State {
        match access {
            VarAccess::Local(i) => self.emit_arg(Op::PushLocal, i),
            VarAccess::Capture(i) => self.emit_arg(Op::PushCapture, i),
            VarAccess::Global(i) => self.emit_arg(Op::PushGlobal, i),
            VarAccess::Self_ => self.emit(Op::PushSelf),
        }
    }

    /// How a variable is loaded.
    #[verifier::opaque]
    pub open spec fn access(self, name: StrId) -> Option<VarAccess> {
        self.loc.access(name)
    }

    /// Note that a variable is loaded: it counts as used, and is captured where
    /// it must be.
    #[verifier::opaque]
    pub open spec fn resolve(self, name: StrId) -> State {
        State { loc: self.loc.capture(name), ..self.mark_used(name) }
    }

    /// What a name denotes.
    #[verifier::opaque]
    pub open spec fn lookup(self, name: StrId) -> Option<Binding> {
        lookup_in(self.env, self.env.len(), name)
    }

    /// Define a name in the innermost scope.
    #[verifier::opaque]
    pub open spec fn define(self, name: StrId, b: Binding) -> State {
        self.define_at(name, b, self.root_len())
    }

    /// The number of names in the outermost scope.
    pub open spec fn root_len(self) -> usize {
        if self.env.len() == 0 {
            0
        } else {
            self.env[0].dom().len() as usize
        }
    }

    /// Define a name in the innermost scope. One that is new in the outermost scope comes
    /// to it behind `at` others.
    pub open spec fn define_at(self, name: StrId, b: Binding, at: usize) -> State {
        if self.env.len() == 0 {
            self
        } else {
            State {
                env: self.env.update(self.env.len() - 1, self.env.last().insert(name, b)),
                rooted: if self.env.len() == 1 && !self.env[0].dom().contains(name) {
                    self.rooted.insert(name, at)
                } else {
                    self.rooted
                },
                ..self
            }
        }
    }

    /// Open a scope of names.
    #[verifier::opaque]
    pub open spec fn push_env(self) -> State {
        State { env: self.env.push(Map::empty()), ..self }
    }

    /// Close a scope of names.
    #[verifier::opaque]
    pub open spec fn pop_env(self) -> State {
        State {
            env: if self.env.len() > 0 {
                self.env.drop_last()
            } else {
                self.env
            },
            ..self
        }
    }

    /// Open a block.
    pub open spec fn push_block(self) -> State {
        self.push_env().push_locals()
    }

    /// Close a block.
    pub open spec fn pop_block(self) -> State {
        self.pop_locals().pop_env()
    }

    /// Pin the slots of an or-pattern's names for its further alternatives.
    #[verifier::opaque]
    pub open spec fn push_pins(self, ids: Seq<Ident>) -> State {
        State {
            loc: Locals {
                overrides: self.loc.overrides.push(pins(self.loc.map, ids, ids.len())),
                ..self.loc
            },
            ..self
        }
    }

    /// Lift the pins of an or-pattern.
    #[verifier::opaque]
    pub open spec fn pop_pins(self) -> State {
        State {
            loc: Locals {
                overrides: if self.loc.overrides.len() > 0 {
                    self.loc.overrides.drop_last()
                } else {
                    self.loc.overrides
                },
                ..self.loc
            },
            ..self
        }
    }

    /// Enter an occurrence that refers to `target`.
    #[verifier::opaque]
    pub open spec fn refer(self, span: Span, kind: ReferenceKind, target: DefId) -> State {
        State {
            refs: Refs {
                occs: self.refs.occs.push(
                    Occurrence { owner: self.refs.owner, span, kind, target },
                ),
                met: self.refs.met.insert(target.module, ()),
                ..self.refs
            },
            ..self
        }
    }

    /// Enter an occurrence of a value whose declaration is known.
    pub open spec fn value_use(
        self,
        def: Option<DefinitionLocation>,
        span: Span,
        kind: ReferenceKind,
    ) -> State {
        match def {
            Some(dl) => self.refer(span, kind, defid_at(dl)),
            None => self,
        }
    }

    /// Enter a definition. The first time it is seen its declaring name counts as
    /// an occurrence of it, owned by the definition itself.
    #[verifier::opaque]
    pub open spec fn def(
        self,
        dl: DefinitionLocation,
        name: StrId,
        doc: Option<StrId>,
        public: bool,
    ) -> State {
        let id = defid_at(dl);
        State {
            refs: Refs {
                defs: defined(
                    self.refs.defs,
                    Definition { id, name, doc, public, alias_of: None },
                ),
                occs: if place_of(self.refs.defs, self.refs.defs.len(), id) is None {
                    self.refs.occs.push(
                        Occurrence {
                            owner: Some(id),
                            span: id.span,
                            kind: ReferenceKind::Definition,
                            target: id,
                        },
                    )
                } else {
                    self.refs.occs
                },
                met: self.refs.met.insert(id.module, ()),
                ..self.refs
            },
            ..self
        }
    }

    /// Remember where a field of a constructor is declared.
    #[verifier::opaque]
    pub open spec fn add_field(self, f: FieldDef) -> State {
        State { known: Known { fields: self.known.fields.push(f), ..self.known }, ..self }
    }

    /// Remember what type a constructor belongs to.
    #[verifier::opaque]
    pub open spec fn ctor_belongs(self, ctor: DefId, ty: DefId) -> State {
        State { refs: Refs { ctors: self.refs.ctors.push((ctor, ty)), ..self.refs }, ..self }
    }

    /// Remember the names of what a definition takes.
    #[verifier::opaque]
    pub open spec fn name_params(self, id: DefId, names: Seq<Ident>) -> State {
        State {
            refs: Refs { params: self.refs.params + params_of(id, names), ..self.refs },
            ..self
        }
    }

    /// Where a field is declared that the constructor named like its type has.
    #[verifier::opaque]
    pub open spec fn field_decl(self, ty: StrId, field: StrId) -> Option<DefinitionLocation> {
        field_def(self.known.fields, self.known.fields.len(), ty, field)
    }

    /// Remember a name whose type can be shown, where those are collected.
    #[verifier::opaque]
    pub open spec fn record(
        self,
        qualifier: Option<StrId>,
        id: Ident,
        doc: Option<StrId>,
    ) -> State {
        if self.refs.collect {
            State {
                refs: Refs {
                    seen: self.refs.seen.push(
                        Sighting {
                            module: self.refs.current,
                            span: id.span,
                            qualifier,
                            name: id.name,
                            doc,
                        },
                    ),
                    ..self.refs
                },
                ..self
            }
        } else {
            self
        }
    }

    /// Enter the definition of a local binder, where those are collected.
    #[verifier::opaque]
    pub open spec fn value_def(self, span: Span, name: StrId, doc: Option<StrId>) -> State {
        if self.refs.collect {
            self.def(location(span, self.refs.current, EntityKind::Value), name, doc, false)
        } else {
            self
        }
    }

    /// What a local binder of this module denotes.
    #[verifier::opaque]
    pub open spec fn local_binding(self, span: Span, doc: Option<StrId>) -> Binding {
        Binding {
            kind: ValueKind::Local,
            def: Some(location(span, self.refs.current, EntityKind::Value)),
            doc,
        }
    }

    /// Make a local binder known under its name.
    pub open spec fn register(self, id: Ident, doc: Option<StrId>) -> State {
        self.define(id.name, self.local_binding(id.span, doc)).track(id.name, id.span).record(
            None,
            id,
            doc,
        ).value_def(id.span, id.name, doc)
    }

    /// Bind a name that a parameter or a pattern introduces.
    pub open spec fn bind_ident(self, id: Ident) -> State {
        self.reserve(id.name).register(id, None)
    }

    /// Bind the first `n` of several names.
    #[verifier::opaque]
    pub open spec fn bind_idents(self, ids: Seq<Ident>, n: nat) -> State
        decreases n,
    {
        if n == 0 {
            self
        } else {
            self.bind_idents(ids, (n - 1) as nat).bind_ident(ids[n - 1])
        }
    }

    /// What closing the function body entered now must give back.
    #[verifier::opaque]
    pub open spec fn frame(self) -> FrameView {
        FrameView {
            undo_base: self.loc.undo.len(),
            marks_base: self.loc.marks.len(),
            local_count: self.loc.count,
            captures: self.loc.captures,
            capture_names: self.loc.capture_names,
            binding: self.loc.binding,
            tail: self.loc.tail,
            jump_over: self.out.code.len() as usize,
            func_start: self.out.push(instr(Op::Jump, 0, 0, 0)).here(),
        }
    }

    /// Enter a function body; a jump leads past it.
    #[verifier::opaque]
    pub open spec fn enter(self, declared: Option<StrId>) -> State {
        State {
            out: self.out.push(instr(Op::Jump, 0, 0, 0)),
            loc: self.loc.enter(declared),
            env: self.env.push(Map::empty()),
            unused: self.unused.push(Seq::empty()),
            ..self
        }
    }

    /// Load the first `n` captured names for a closure.
    #[verifier::opaque]
    pub open spec fn load_captured(self, captured: Seq<StrId>, n: nat) -> State
        decreases n,
    {
        if n == 0 {
            self
        } else {
            let s = self.load_captured(captured, (n - 1) as nat);
            let name = captured[n - 1];
            match s.access(name) {
                Some(a) => s.resolve(name).load(a),
                None => s.resolve(name),
            }
        }
    }

    /// The function that a body closed now makes up.
    #[verifier::opaque]
    pub open spec fn closed_fn(self, f: FrameView, name: Seq<char>, arity: i32) -> FunctionView {
        FunctionView {
            name,
            arity,
            locals: self.loc.count,
            capture_count: self.loc.capture_names.len() as i32,
            code_start: f.func_start,
            code_len: i32::wrapping_sub(i32::wrapping_sub(self.here(), f.func_start), 1),
        }
    }

    /// Give the enclosing frame back.
    #[verifier::opaque]
    pub open spec fn leave(self, f: FrameView) -> State {
        State { loc: self.loc.leave(f), ..self }
    }

    /// The names the function being compiled has captured.
    #[verifier::opaque]
    pub open spec fn captured(self) -> Seq<StrId> {
        self.loc.capture_names
    }

    /// The index of the function entered last.
    #[verifier::opaque]
    pub open spec fn last_fn(self) -> i32 {
        self.out.last_fn()
    }

    /// Close a function body and push the closure over it.
    #[verifier::opaque]
    pub open spec fn finish(self, f: FrameView, name: Seq<char>, arity: i32) -> State {
        let s = self.emit(Op::Ret).pop_env().pop_unused().patch(f.jump_over as int);
        let t = s.add_fn(s.closed_fn(f, name, arity)).leave(f);
        t.load_captured(s.captured(), s.captured().len()).emit_arg(Op::MakeClosure, t.last_fn())
    }
}

/// The slots of the first `n` of several names, where they have one.
pub open spec fn pins(map: Map<StrId, LocalSlot>, ids: Seq<Ident>, n: nat) -> Map<StrId, i32>
    decreases n,
{
    if n == 0 {
        Map::empty()
    } else {
        let before = pins(map, ids, (n - 1) as nat);
        match entry_of(map, ids[n - 1].name) {
            Some(e) => before.insert(ids[n - 1].name, e.slot),
            None => before,
        }
    }
}

} // verus!

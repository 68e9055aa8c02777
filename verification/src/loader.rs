//! Loading the modules that a module imports, and theirs in turn.
//!
//! Where a module's source comes from is settled beforehand: the library is handed
//! what was found of each module that may be asked for. A module is compiled when
//! it is first imported, in the middle of its importer.
use crate::ast::{ImportDecl, Node, Span, Statement, StrId};
use crate::decls::{analysed, fits};
use crate::diag::{Diagnostic, Message, Severity};
use crate::refs::{ModuleReferences, References};
use crate::state::{
    entry_of, Compiler, Interface, Known, Locals, ModuleInterface, Origin, Refs, State, Watermark,
};
use std::collections::HashMap;
use vstd::prelude::*;

verus! {

broadcast use vstd::std_specs::hash::group_hash_axioms;

/// Something the parser has to say.
#[derive(Debug, Clone, Copy, PartialEq, Eq, Structural)]
pub struct ParseFault {
    pub severity: Severity,
    pub text: StrId,
}

/// What was found of a module.
#[derive(Debug)]
pub enum Found {
    /// Nothing.
    Missing,
    /// A relative path with nothing to be relative to.
    NoBaseDir,
    /// A source that cannot be read.
    Unreadable,
    /// Its nodes, and what the parser has to say of them.
    Parsed { body: Vec<Node>, faults: Vec<ParseFault> },
}

/// A module that may be asked for.
#[derive(Debug)]
pub struct Source {
    pub key: StrId,
    pub origin: Origin,
    pub found: Found,
}

/// The first place of a module among the sources from `i` on.
pub open spec fn source_place(sources: Seq<Source>, i: nat, key: StrId) -> Option<nat>
    decreases sources.len() - i,
{
    if i >= sources.len() {
        None
    } else if sources[i as int].key == key {
        Some(i)
    } else {
        source_place(sources, i + 1, key)
    }
}

/// Whether the graphs of all modules are small enough for their indices.
pub open spec fn all_fit(sources: Seq<Source>) -> bool {
    forall|i: int|
        0 <= i < sources.len() ==> ((#[trigger] sources[i]).found matches Found::Parsed {
            body,
            ..
        } ==> fits(body@))
}

/// How many identities a module reserves for its types.
pub const ID_RANGE: u32 = 256;

/// The first block of identities from `n` on.
pub open spec fn block_at(n: u32) -> u32 {
    if n % ID_RANGE == 0 {
        n
    } else {
        u32::wrapping_add(n, (ID_RANGE - n % ID_RANGE) as u32)
    }
}

impl State {
    /// How far the compiler has come.
    #[verifier::opaque]
    pub open spec fn watermark(self) -> Watermark {
        Watermark {
            stamp: self.known.count,
            code: self.out.code.len() as usize,
            functions: self.out.fns.len() as usize,
            constants: self.out.consts.len() as usize,
            local_count: self.loc.count,
            labels: self.labels.len() as usize,
            variants: self.known.variants.len() as usize,
            fields: self.known.fields.len() as usize,
            infos: self.known.ids.len() as usize,
            next_type_id: self.known.next,
            type_log: self.known.log.len() as usize,
            diagnostics: self.diags.len() as usize,
            root: self.root_len(),
        }
    }

    /// Where the identities of a module's types begin: where they did before, or in a
    /// block of their own behind all others.
    pub open spec fn base_for(self, key: StrId) -> u32 {
        match entry_of(self.known.bases, key) {
            Some(base) => base,
            None => block_at(
                if self.known.high > self.known.next {
                    self.known.high
                } else {
                    self.known.next
                },
            ),
        }
    }

    /// Go to where the identities of a module's types begin, and keep to it. No slot of
    /// another module is queued.
    #[verifier::opaque]
    pub open spec fn reserve_ids(self, key: StrId) -> State {
        State {
            loc: Locals { binds: Seq::empty(), ..self.loc },
            known: Known {
                bases: self.known.bases.insert(key, self.base_for(key)),
                next: self.base_for(key),
                ..self.known
            },
            ..self
        }
    }

    /// Take the block of a module that began at `base` as reserved. One that was there
    /// before must not have outgrown its block.
    #[verifier::opaque]
    pub open spec fn note_ids(self, base: u32, reused: bool) -> State {
        let used = u32::wrapping_sub(self.known.next, base);
        let end = if used > ID_RANGE {
            block_at(self.known.next)
        } else {
            u32::wrapping_add(base, ID_RANGE)
        };
        State {
            known: Known {
                high: if end > self.known.high {
                    end
                } else {
                    self.known.high
                },
                spilled: self.known.spilled || reused && used > ID_RANGE,
                ..self.known
            },
            ..self
        }
    }

    /// Go past all identities that are reserved. No slot of another module is queued.
    #[verifier::opaque]
    pub open spec fn skip_ids(self) -> State {
        State {
            loc: Locals { binds: Seq::empty(), ..self.loc },
            known: Known {
                next: if self.known.high > self.known.next {
                    self.known.high
                } else {
                    self.known.next
                },
                ..self.known
            },
            ..self
        }
    }

    /// Remember that a module is imported by the current one.
    #[verifier::opaque]
    pub open spec fn depend(self, key: StrId) -> State {
        State {
            known: Known {
                dependents: self.known.dependents.push((key, self.refs.current)),
                ..self.known
            },
            ..self
        }
    }

    /// Pass on what the parser has to say of a module, at the import of it.
    #[verifier::opaque]
    pub open spec fn fault(self, key: StrId, fault: ParseFault, at: Span) -> State {
        State {
            diags: self.diags.push(
                Diagnostic {
                    span: at,
                    severity: fault.severity,
                    message: Message::InModule { module: key, fault: fault.text },
                },
            ),
            ..self
        }
    }

    /// Pass on the first `n` things the parser has to say.
    #[verifier::opaque]
    pub open spec fn faults(self, key: StrId, faults: Seq<ParseFault>, n: nat, at: Span) -> State
        decreases n,
    {
        if n == 0 {
            self
        } else {
            self.faults(key, faults, (n - 1) as nat, at).fault(key, faults[n - 1], at)
        }
    }

    /// Begin a module: nothing has been collected in it, and it imports nothing
    /// yet.
    #[verifier::opaque]
    pub open spec fn enter_module(self, key: StrId, origin: Origin) -> State {
        State {
            refs: Refs {
                module: key,
                defs: Seq::empty(),
                occs: Seq::empty(),
                ctors: Seq::empty(),
                params: Seq::empty(),
                met: self.refs.met.insert(key, ()),
                current: key,
                ..self.refs
            },
            known: Known { qualifiers: Map::empty(), origin, ..self.known },
            ..self
        }
    }

    /// What has been collected in the current module.
    pub open spec fn collected(self) -> References {
        References {
            module: self.refs.module,
            defs: self.refs.defs,
            occs: self.refs.occs,
            ctors: self.refs.ctors,
            params: self.refs.params,
        }
    }

    /// Go back to the module that was under way in state `outer`.
    #[verifier::opaque]
    pub open spec fn leave_module(self, outer: State) -> State {
        State {
            refs: Refs {
                module: outer.refs.module,
                defs: outer.refs.defs,
                occs: outer.refs.occs,
                ctors: outer.refs.ctors,
                params: outer.refs.params,
                current: outer.refs.current,
                ..self.refs
            },
            known: Known {
                qualifiers: outer.known.qualifiers,
                origin: outer.known.origin,
                ..self.known
            },
            ..self
        }
    }

    /// Keep a compiled module, and where it began if it is the user's.
    #[verifier::opaque]
    pub open spec fn keep_module(
        self,
        key: StrId,
        iface: Interface,
        refs: References,
        mark: Option<Watermark>,
    ) -> State {
        State {
            known: Known {
                modules: self.known.modules.insert(key, iface),
                stored: self.known.stored.insert(key, refs),
                marks: match mark {
                    Some(w) => self.known.marks.insert(key, w),
                    None => self.known.marks,
                },
                count: u32::wrapping_add(self.known.count, 1),
                ..self.known
            },
            ..self
        }
    }
}

/// Load a module, unless it is loaded. A module that is being loaded further out is
/// a cycle. Tells whether the module is there.
pub open spec fn load(
    sources: Seq<Source>,
    loading: Seq<StrId>,
    key: StrId,
    at: Span,
    s: State,
) -> (State, bool)
    decreases sources.len() - loading.len(), 0nat, 0nat,
{
    if s.known.modules.dom().contains(key) {
        (s.depend(key), true)
    } else if loading.contains(key) {
        (s.error(Message::ImportCycle { module: key }, at), false)
    } else {
        match source_place(sources, 0, key) {
            None => (s.error(Message::UnknownModule { module: key }, at), false),
            Some(i) => match sources[i as int].found {
                Found::Missing => (s.error(Message::UnknownModule { module: key }, at), false),
                Found::NoBaseDir => (s.error(Message::NoBaseDir, at), false),
                Found::Unreadable => (
                    s.error(Message::ModuleUnreadable { module: key }, at),
                    false,
                ),
                Found::Parsed { body, faults } => if loading.len() < sources.len() {
                    (
                        module_body(
                            sources,
                            loading.push(key),
                            sources[i as int],
                            body@,
                            s.faults(key, faults@, faults@.len(), at),
                        ).depend(key),
                        true,
                    )
                } else {
                    (s, false)
                },
            },
        }
    }
}

/// Compile a module and keep what it exports and what was collected in it.
pub open spec fn module_body(
    sources: Seq<Source>,
    loading: Seq<StrId>,
    source: Source,
    body: Seq<Node>,
    s: State,
) -> State
    decreases sources.len() - loading.len(), 3nat, 0nat,
{
    let s0 = imports(sources, loading, body, 0, s.enter_module(source.key, source.origin));
    let reused = s0.known.bases.dom().contains(source.key);
    let s1 = s0.reserve_ids(source.key);
    let x = analysed(body, true, s1.push_env());
    let t = x.s.pop_env().note_ids(s0.base_for(source.key), reused);
    let mark = if source.origin == Origin::User {
        Some(s1.watermark())
    } else {
        None
    };
    t.leave_module(s).keep_module(source.key, x.iface, t.collected(), mark)
}

/// Take the imports that a module begins with, from node `i` on.
pub open spec fn imports(
    sources: Seq<Source>,
    loading: Seq<StrId>,
    body: Seq<Node>,
    i: nat,
    s: State,
) -> State
    decreases sources.len() - loading.len(), 2nat, body.len() - i,
{
    if i >= body.len() {
        s
    } else {
        match body[i as int] {
            Node::Statement(Statement::Import(imp)) => imports(
                sources,
                loading,
                body,
                i + 1,
                import(sources, loading, imp, s),
            ),
            _ => s,
        }
    }
}

/// Take one import: load its module and bind what it brings.
pub open spec fn import(
    sources: Seq<Source>,
    loading: Seq<StrId>,
    imp: ImportDecl,
    s: State,
) -> State
    decreases sources.len() - loading.len(), 1nat, 0nat,
{
    let (t, ok) = load(sources, loading, imp.key, imp.span, s);
    if ok {
        t.bind_import(imp)
    } else {
        t
    }
}

/// Whether the modules under way are different ones, each with a source.
pub open spec fn under_way(sources: Seq<Source>, loading: Seq<StrId>) -> bool {
    &&& loading.no_duplicates()
    &&& forall|i: int|
        0 <= i < loading.len() ==> source_place(sources, 0, #[trigger] loading[i]) is Some
}

/// A place that is found holds a source for the key.
pub proof fn lemma_place(sources: Seq<Source>, i: nat, key: StrId)
    ensures
        source_place(sources, i, key) matches Some(k) ==> i <= k < sources.len()
            && sources[k as int].key == key,
    decreases sources.len() - i,
{
    if i < sources.len() {
        lemma_place(sources, i + 1, key);
    }
}

/// There is room for one more module under way that has a source.
proof fn lemma_room(sources: Seq<Source>, loading: Seq<StrId>, key: StrId)
    requires
        under_way(sources, loading),
        !loading.contains(key),
        source_place(sources, 0, key) is Some,
    ensures
        loading.len() < sources.len(),
        under_way(sources, loading.push(key)),
{
    let all = loading.push(key);
    assert forall|i: int| 0 <= i < all.len() implies source_place(
        sources,
        0,
        #[trigger] all[i],
    ) is Some by {
        if i < loading.len() {
            assert(all[i] == loading[i]);
        }
    }
    assert(all.no_duplicates()) by {
        assert forall|i: int, j: int| 0 <= i < all.len() && 0 <= j < all.len() && i != j implies all[i]
            != all[j] by {
            if i == loading.len() {
                assert(loading.contains(all[j]));
            } else if j == loading.len() {
                assert(loading.contains(all[i]));
            }
        }
    }
    let at = Seq::new(all.len(), |i: int| source_place(sources, 0, all[i])->0 as int);
    assert forall|i: int, j: int| 0 <= i < at.len() && 0 <= j < at.len() && i != j implies at[i]
        != at[j] by {
        lemma_place(sources, 0, all[i]);
        lemma_place(sources, 0, all[j]);
    }
    at.unique_seq_to_set();
    vstd::set_lib::lemma_int_range(0, sources.len() as int);
    assert forall|x: int| at.to_set().contains(x) implies vstd::set_lib::set_int_range(
        0,
        sources.len() as int,
    ).contains(x) by {
        let i = choose|i: int| 0 <= i < at.len() && at[i] == x;
        lemma_place(sources, 0, all[i]);
    }
    vstd::set_lib::lemma_len_subset(
        at.to_set(),
        vstd::set_lib::set_int_range(0, sources.len() as int),
    );
}

/// The first place of a module among the sources.
pub fn find_source(sources: &Vec<Source>, key: StrId) -> (res: Option<usize>)
    ensures
        match res {
            Some(i) => source_place(sources@, 0, key) == Some(i as nat) && i < sources@.len(),
            None => source_place(sources@, 0, key) is None,
        },
{
    let mut i: usize = 0;
    while i < sources.len()
        invariant
            i <= sources.len(),
            source_place(sources@, 0, key) == source_place(sources@, i as nat, key),
        decreases sources.len() - i,
    {
        if sources[i].key == key {
            return Some(i);
        }
        i = i + 1;
    }
    None
}

fn is_loading(loading: &Vec<StrId>, key: StrId) -> (res: bool)
    ensures
        res == loading@.contains(key),
{
    let mut i: usize = 0;
    while i < loading.len()
        invariant
            i <= loading.len(),
            forall|k: int| 0 <= k < i ==> loading@[k] != key,
        decreases loading.len() - i,
    {
        if loading[i] == key {
            return true;
        }
        i = i + 1;
    }
    false
}

/// The first block of identities from `n` on.
fn next_block(n: u32) -> (res: u32)
    ensures
        res == block_at(n),
{
    let past: u32 = n % ID_RANGE;
    if past == 0 {
        n
    } else {
        n.wrapping_add(ID_RANGE - past)
    }
}

impl Compiler {
    /// Whether a module is loaded.
    pub fn is_loaded(&self, key: StrId) -> (res: bool)
        ensures
            res == self@.known.modules.dom().contains(key),
    {
        proof {
            reveal(Compiler::model);
        }
        self.modules.contains_key(&key)
    }

    /// How far the compiler has come.
    pub fn watermark(&self) -> (w: Watermark)
        ensures
            w == self@.watermark(),
    {
        proof {
            reveal(Compiler::model);
            reveal(State::watermark);
        }
        Watermark {
            stamp: self.compile_count,
            code: self.program.code.len(),
            functions: self.program.functions.len(),
            constants: self.program.constants.len(),
            local_count: self.local_count,
            labels: self.labels.len(),
            variants: self.variants.len(),
            fields: self.field_defs.len(),
            infos: self.info_ids.len(),
            next_type_id: self.next_type_id,
            type_log: self.type_log.len(),
            diagnostics: self.diagnostics.len(),
            root: self.root_len(),
        }
    }

    /// Go to where the identities of a module's types begin. Tells where that is, and
    /// whether the module has begun there before.
    fn id_base_for(&mut self, key: StrId) -> (res: (u32, bool))
        ensures
            final(self)@ == old(self)@.reserve_ids(key),
            res.0 == old(self)@.base_for(key),
            res.1 == old(self)@.known.bases.dom().contains(key),
    {
        proof {
            reveal(Compiler::model);
            reveal(State::reserve_ids);
        }
        let found: Option<u32> = match self.id_bases.get(&key) {
            Some(base) => Some(*base),
            None => None,
        };
        let base: u32 = match found {
            Some(base) => base,
            None => next_block(
                if self.id_high_water > self.next_type_id {
                    self.id_high_water
                } else {
                    self.next_type_id
                },
            ),
        };
        self.id_bases.insert(key, base);
        self.next_type_id = base;
        self.toplevel_binds.clear();
        (base, found.is_some())
    }

    /// Take the block of a module as reserved.
    fn note_id_usage(&mut self, base: u32, reused: bool)
        ensures
            final(self)@ == old(self)@.note_ids(base, reused),
    {
        proof {
            reveal(Compiler::model);
            reveal(State::note_ids);
        }
        let used: u32 = self.next_type_id.wrapping_sub(base);
        let end: u32 = if used > ID_RANGE {
            next_block(self.next_type_id)
        } else {
            base.wrapping_add(ID_RANGE)
        };
        if end > self.id_high_water {
            self.id_high_water = end;
        }
        self.id_range_overflow = self.id_range_overflow || reused && used > ID_RANGE;
    }

    /// Go past all identities that are reserved.
    pub fn bump_type_ids_past_reserved(&mut self)
        ensures
            final(self)@ == old(self)@.skip_ids(),
    {
        proof {
            reveal(Compiler::model);
            reveal(State::skip_ids);
        }
        if self.id_high_water > self.next_type_id {
            self.next_type_id = self.id_high_water;
        }
        self.toplevel_binds.clear();
    }

    /// Remember that a module is imported by the current one.
    fn record_dependent(&mut self, key: StrId)
        ensures
            final(self)@ == old(self)@.depend(key),
    {
        proof {
            reveal(Compiler::model);
            reveal(State::depend);
        }
        let importer: StrId = self.current_module;
        self.dependents.push((key, importer));
    }

    /// Pass on what the parser has to say of a module.
    fn report_faults(&mut self, key: StrId, faults: &Vec<ParseFault>, at: Span)
        ensures
            final(self)@ == old(self)@.faults(key, faults@, faults@.len(), at),
    {
        let ghost s = self@;
        proof {
            reveal(State::faults);
        }
        let mut n: usize = 0;
        while n < faults.len()
            invariant
                n <= faults.len(),
                self@ == s.faults(key, faults@, n as nat, at),
            decreases faults.len() - n,
        {
            proof {
                reveal(State::faults);
                reveal(State::fault);
                reveal(Compiler::model);
            }
            self.diagnostics.push(
                Diagnostic {
                    span: at,
                    severity: faults[n].severity,
                    message: Message::InModule { module: key, fault: faults[n].text },
                },
            );
            n = n + 1;
        }
    }

    /// Load a module, unless it is loaded. Returns whether it is there.
    pub fn load_module(
        &mut self,
        sources: &Vec<Source>,
        loading: &mut Vec<StrId>,
        key: StrId,
        at: Span,
    ) -> (ok: bool)
        requires
            all_fit(sources@),
            under_way(sources@, old(loading)@),
        ensures
            (final(self)@, ok) == load(sources@, old(loading)@, key, at, old(self)@),
            final(loading)@ == old(loading)@,
        decreases sources@.len() - old(loading)@.len(), 0nat, 0nat,
    {
        if self.is_loaded(key) {
            self.record_dependent(key);
            return true;
        }
        if is_loading(loading, key) {
            self.error(Message::ImportCycle { module: key }, at);
            return false;
        }
        let place: Option<usize> = find_source(sources, key);
        match place {
            None => {
                self.error(Message::UnknownModule { module: key }, at);
                false
            },
            Some(i) => match &sources[i].found {
                Found::Missing => {
                    self.error(Message::UnknownModule { module: key }, at);
                    false
                },
                Found::NoBaseDir => {
                    self.error(Message::NoBaseDir, at);
                    false
                },
                Found::Unreadable => {
                    self.error(Message::ModuleUnreadable { module: key }, at);
                    false
                },
                Found::Parsed { body, faults } => {
                    let ghost before = loading@;
                    proof {
                        lemma_room(sources@, loading@, key);
                        assert(sources@[i as int].found matches Found::Parsed { body: b, .. }
                            && b == *body);
                    }
                    self.report_faults(key, faults, at);
                    loading.push(key);
                    self.compile_module_body(sources, loading, i, body);
                    loading.pop();
                    assert(loading@ =~= before);
                    self.record_dependent(key);
                    true
                },
            },
        }
    }

    /// Begin a module. Returns what has to be put back when it is left.
    fn enter_module_frame(&mut self, key: StrId, origin: Origin) -> (frame: ModuleFrame)
        ensures
            final(self)@ == old(self)@.enter_module(key, origin),
            frame.holds(old(self)@),
    {
        proof {
            reveal(Compiler::model);
            reveal(State::enter_module);
        }
        let mut frame: ModuleFrame = ModuleFrame {
            module: self.current_module,
            origin: self.origin,
            qualifiers: HashMap::new(),
            refs: ModuleReferences::new(key),
        };
        core::mem::swap(&mut frame.qualifiers, &mut self.qualifiers);
        core::mem::swap(&mut frame.refs, &mut self.module_refs);
        self.met.insert(key, ());
        self.current_module = key;
        self.origin = origin;
        frame
    }

    /// Go back to the module that was under way. Returns what was collected in
    /// the one that is left.
    fn leave_module_frame(&mut self, frame: ModuleFrame, Ghost(outer): Ghost<State>) -> (refs:
        ModuleReferences)
        requires
            frame.holds(outer),
        ensures
            final(self)@ == old(self)@.leave_module(outer),
            refs@ == old(self)@.collected(),
    {
        proof {
            reveal(Compiler::model);
            reveal(State::leave_module);
        }
        let mut frame: ModuleFrame = frame;
        core::mem::swap(&mut frame.qualifiers, &mut self.qualifiers);
        core::mem::swap(&mut frame.refs, &mut self.module_refs);
        self.current_module = frame.module;
        self.origin = frame.origin;
        frame.refs
    }

    /// Keep a compiled module.
    fn insert_module(
        &mut self,
        key: StrId,
        iface: ModuleInterface,
        refs: ModuleReferences,
        mark: Option<Watermark>,
    )
        ensures
            final(self)@ == old(self)@.keep_module(key, iface@, refs@, mark),
    {
        proof {
            reveal(Compiler::model);
            reveal(State::keep_module);
        }
        let ghost before = self@;
        self.modules.insert(key, iface);
        self.stored.insert(key, refs);
        if let Some(w) = mark {
            self.marks.insert(key, w);
        }
        self.compile_count = self.compile_count.wrapping_add(1);
        assert(self@.known.modules =~= before.known.modules.insert(key, iface@));
        assert(self@.known.stored =~= before.known.stored.insert(key, refs@));
    }

    /// Compile a module and keep what it exports and what was collected in it.
    fn compile_module_body(
        &mut self,
        sources: &Vec<Source>,
        loading: &mut Vec<StrId>,
        i: usize,
        body: &Vec<Node>,
    )
        requires
            all_fit(sources@),
            under_way(sources@, old(loading)@),
            i < sources@.len(),
            fits(body@),
        ensures
            final(self)@ == module_body(
                sources@,
                old(loading)@,
                sources@[i as int],
                body@,
                old(self)@,
            ),
            final(loading)@ == old(loading)@,
        decreases sources@.len() - old(loading)@.len(), 3nat, 0nat,
    {
        let ghost s = self@;
        let key: StrId = sources[i].key;
        let frame: ModuleFrame = self.enter_module_frame(key, sources[i].origin);
        self.process_imports(sources, loading, body);
        let (base, reused): (u32, bool) = self.id_base_for(key);
        let mark: Option<Watermark> = if sources[i].origin == Origin::User {
            Some(self.watermark())
        } else {
            None
        };
        self.push_env();
        let iface: ModuleInterface = self.analyse_module(body, true);
        self.pop_env();
        self.note_id_usage(base, reused);
        let refs: ModuleReferences = self.leave_module_frame(frame, Ghost(s));
        self.insert_module(key, iface, refs, mark);
    }

    /// Take the imports that a module begins with.
    pub fn process_imports(
        &mut self,
        sources: &Vec<Source>,
        loading: &mut Vec<StrId>,
        body: &Vec<Node>,
    )
        requires
            all_fit(sources@),
            under_way(sources@, old(loading)@),
        ensures
            final(self)@ == imports(sources@, old(loading)@, body@, 0, old(self)@),
            final(loading)@ == old(loading)@,
        decreases sources@.len() - old(loading)@.len(), 2nat, 0nat,
    {
        let ghost goal = imports(sources@, loading@, body@, 0, self@);
        let ghost before = loading@;
        let mut i: usize = 0;
        let mut open: bool = true;
        while open && i < body.len()
            invariant
                i <= body.len(),
                all_fit(sources@),
                under_way(sources@, loading@),
                loading@ == before,
                before == old(loading)@,
                open ==> goal == imports(sources@, before, body@, i as nat, self@),
                !open ==> goal == self@,
            decreases body.len() - i, (if open { 1int } else { 0int }),
        {
            match &body[i] {
                Node::Statement(Statement::Import(imp)) => {
                    self.process_import(sources, loading, imp);
                    i = i + 1;
                },
                _ => {
                    open = false;
                },
            }
        }
    }

    /// Take one import.
    pub fn process_import(
        &mut self,
        sources: &Vec<Source>,
        loading: &mut Vec<StrId>,
        imp: &ImportDecl,
    )
        requires
            all_fit(sources@),
            under_way(sources@, old(loading)@),
        ensures
            final(self)@ == import(sources@, old(loading)@, *imp, old(self)@),
            final(loading)@ == old(loading)@,
        decreases sources@.len() - old(loading)@.len(), 1nat, 0nat,
    {
        if self.load_module(sources, loading, imp.key, imp.span) {
            self.bind_import(imp);
        }
    }
}

/// What is put aside while another module is compiled.
pub struct ModuleFrame {
    pub module: StrId,
    pub origin: Origin,
    pub qualifiers: HashMap<StrId, StrId>,
    pub refs: ModuleReferences,
}

impl ModuleFrame {
    /// Whether the frame holds what belongs to the module under way in a state.
    pub open spec fn holds(self, s: State) -> bool {
        &&& self.module == s.refs.current
        &&& self.origin == s.known.origin
        &&& self.qualifiers@ == s.known.qualifiers
        &&& self.refs@ == s.collected()
    }
}

// ---- laws --------------------------------------------------------------------

/// A module that is compiled for the first time begins a block of identities behind all
/// that are taken or reserved, as long as there are any left.
pub proof fn law_blocks_do_not_overlap(s: State, key: StrId)
    requires
        !s.known.bases.dom().contains(key),
        s.known.next <= u32::MAX - ID_RANGE,
        s.known.high <= u32::MAX - ID_RANGE,
    ensures
        s.base_for(key) >= s.known.next,
        s.base_for(key) >= s.known.high,
        s.base_for(key) % ID_RANGE == 0,
{
}

/// What a module has used of its block, and the block itself, lies below what is reserved
/// afterwards, as long as there are identities left.
pub proof fn law_blocks_are_reserved(s: State, base: u32, reused: bool)
    requires
        base <= s.known.next <= u32::MAX - ID_RANGE,
    ensures
        s.note_ids(base, reused).known.high >= s.known.next,
        s.note_ids(base, reused).known.high >= base + ID_RANGE,
        s.note_ids(base, reused).known.high >= s.known.high,
{
    reveal(State::note_ids);
}

} // verus!

//! Definitions and the occurrences that refer to them, collected per module.
use crate::ast::{Ident, Span, StrId};
use vstd::prelude::*;

verus! {

/// What a definition introduces.
#[derive(Debug, Clone, Copy, PartialEq, Eq, Structural)]
pub enum EntityKind {
    Value,
    Function,
    Constant,
    Type,
    Constructor,
    Field,
    ModuleAlias,
}

/// Where a name is declared. A declaring name stands on one line.
#[derive(Debug, Clone, Copy, PartialEq, Eq, Structural)]
pub struct DefinitionLocation {
    pub line: i32,
    pub column: i32,
    pub end_col: i32,
    pub module: StrId,
    pub entity: EntityKind,
}

/// The identity of a definition.
#[derive(Debug, Clone, Copy, PartialEq, Eq, Structural)]
pub struct DefId {
    pub module: StrId,
    pub span: Span,
    pub entity: EntityKind,
}

/// How an occurrence refers to its target.
#[derive(Debug, Clone, Copy, PartialEq, Eq, Structural)]
pub enum ReferenceKind {
    Definition,
    Unqualified,
    Qualified,
    Import,
    Alias,
}

/// An occurrence of a name, and the definition whose body it stands in.
#[derive(Debug, Clone, Copy, PartialEq, Eq, Structural)]
pub struct Occurrence {
    pub owner: Option<DefId>,
    pub span: Span,
    pub kind: ReferenceKind,
    pub target: DefId,
}

/// A definition. An import alias names the definition it stands for.
#[derive(Debug, Clone, Copy, PartialEq, Eq, Structural)]
pub struct Definition {
    pub id: DefId,
    pub name: StrId,
    /// What the documentation says of it.
    pub doc: Option<StrId>,
    pub public: bool,
    pub alias_of: Option<DefId>,
}

/// The location of a declaring name.
pub open spec fn location(span: Span, module: StrId, entity: EntityKind) -> DefinitionLocation {
    DefinitionLocation {
        line: span.start_line,
        column: span.start_column,
        end_col: span.end_column,
        module,
        entity,
    }
}

/// The location of a declaring name.
pub fn def_loc(span: Span, module: StrId, entity: EntityKind) -> (res: DefinitionLocation)
    ensures
        res == location(span, module, entity),
{
    DefinitionLocation {
        line: span.start_line,
        column: span.start_column,
        end_col: span.end_column,
        module,
        entity,
    }
}

/// The span of a declaring name.
pub open spec fn location_span(dl: DefinitionLocation) -> Span {
    Span {
        start_line: dl.line,
        start_column: dl.column,
        end_line: dl.line,
        end_column: dl.end_col,
    }
}

/// The span of a declaring name.
pub fn def_loc_span(dl: &DefinitionLocation) -> (res: Span)
    ensures
        res == location_span(*dl),
{
    Span {
        start_line: dl.line,
        start_column: dl.column,
        end_line: dl.line,
        end_column: dl.end_col,
    }
}

/// The identity that a location gives its definition.
pub open spec fn defid_at(dl: DefinitionLocation) -> DefId {
    DefId { module: dl.module, span: location_span(dl), entity: dl.entity }
}

/// The identity that a location gives its definition.
pub fn defid_of(dl: DefinitionLocation) -> (res: DefId)
    ensures
        res == defid_at(dl),
{
    DefId { module: dl.module, span: def_loc_span(&dl), entity: dl.entity }
}

/// A single-line name keeps its span through its location, so a definition and
/// every occurrence of it agree on its identity.
pub proof fn law_location_keeps_single_line_spans(span: Span, module: StrId, entity: EntityKind)
    requires
        span.start_line == span.end_line,
    ensures
        defid_at(location(span, module, entity)) == (DefId { module, span, entity }),
{
}

/// The place of the first definition with an identity among the first `n`.
pub open spec fn place_of(defs: Seq<Definition>, n: nat, id: DefId) -> Option<int>
    decreases n,
{
    if n == 0 {
        None
    } else {
        match place_of(defs, (n - 1) as nat, id) {
            Some(i) => Some(i),
            None => if defs[n - 1].id == id {
                Some(n - 1)
            } else {
                None
            },
        }
    }
}

/// The definitions after one was entered: the last write of an identity wins.
pub open spec fn defined(defs: Seq<Definition>, def: Definition) -> Seq<Definition> {
    match place_of(defs, defs.len(), def.id) {
        Some(i) => defs.update(i, def),
        None => defs.push(def),
    }
}

/// Whether a position lies within a span.
pub open spec fn within(span: Span, line: i32, col: i32) -> bool {
    &&& span.start_line < line || (span.start_line == line && span.start_column <= col)
    &&& line < span.end_line || (line == span.end_line && col < span.end_column)
}

/// Whether a position lies within a span.
pub fn span_contains(span: &Span, line: i32, col: i32) -> (res: bool)
    ensures
        res == within(*span, line, col),
{
    (span.start_line < line || (span.start_line == line && span.start_column <= col)) && (line
        < span.end_line || (line == span.end_line && col < span.end_column))
}

/// Whether one span is narrower than another: fewer lines, or as many lines and
/// fewer columns.
pub open spec fn narrower(a: Span, b: Span) -> bool {
    ||| a.end_line - a.start_line < b.end_line - b.start_line
    ||| a.end_line - a.start_line == b.end_line - b.start_line && a.end_column - a.start_column
        < b.end_column - b.start_column
}

/// Whether one span is narrower than another.
pub fn span_narrower(a: &Span, b: &Span) -> (res: bool)
    ensures
        res == narrower(*a, *b),
{
    let al: i64 = a.end_line as i64 - a.start_line as i64;
    let bl: i64 = b.end_line as i64 - b.start_line as i64;
    let ac: i64 = a.end_column as i64 - a.start_column as i64;
    let bc: i64 = b.end_column as i64 - b.start_column as i64;
    al < bl || (al == bl && ac < bc)
}

/// Among the first `n` occurrences that hold a position, the narrowest; the
/// first of several equally narrow ones.
pub open spec fn tightest(occs: Seq<Occurrence>, n: nat, line: i32, col: i32) -> Option<int>
    decreases n,
{
    if n == 0 {
        None
    } else {
        let prev = tightest(occs, (n - 1) as nat, line, col);
        if within(occs[n - 1].span, line, col) && (prev is None || narrower(
            occs[n - 1].span,
            occs[prev->0].span,
        )) {
            Some(n - 1)
        } else {
            prev
        }
    }
}

/// The definitions and occurrences of one module.
#[derive(Debug)]
pub struct ModuleReferences {
    pub module: StrId,
    pub definitions: Vec<Definition>,
    pub occurrences: Vec<Occurrence>,
    /// Constructors with the types they belong to.
    pub ctors: Vec<(DefId, DefId)>,
    /// The parameters of functions and the fields of constructors, each with what it
    /// belongs to, in the order they are written.
    pub params: Vec<(DefId, StrId)>,
}

/// The mathematical model of [`ModuleReferences`].
pub struct References {
    pub module: StrId,
    pub defs: Seq<Definition>,
    pub occs: Seq<Occurrence>,
    pub ctors: Seq<(DefId, DefId)>,
    pub params: Seq<(DefId, StrId)>,
}

/// The names of several identifiers, each with what they belong to.
pub open spec fn params_of(id: DefId, names: Seq<Ident>) -> Seq<(DefId, StrId)> {
    Seq::new(names.len(), |i: int| (id, names[i].name))
}

impl View for ModuleReferences {
    type V = References;

    open spec fn view(&self) -> References {
        References {
            module: self.module,
            defs: self.definitions@,
            occs: self.occurrences@,
            ctors: self.ctors@,
            params: self.params@,
        }
    }
}

/// The identities defined under a name among the first `n` definitions.
pub open spec fn ids_named(defs: Seq<Definition>, n: nat, name: StrId) -> Seq<DefId>
    decreases n,
{
    if n == 0 {
        Seq::empty()
    } else if defs[n - 1].name == name {
        ids_named(defs, (n - 1) as nat, name).push(defs[n - 1].id)
    } else {
        ids_named(defs, (n - 1) as nat, name)
    }
}

/// The first definition of kind `Type` among the first `n` under a name.
pub open spec fn type_named(defs: Seq<Definition>, n: nat, name: StrId) -> Option<DefId>
    decreases n,
{
    if n == 0 {
        None
    } else {
        match type_named(defs, (n - 1) as nat, name) {
            Some(id) => Some(id),
            None => if defs[n - 1].name == name && defs[n - 1].id.entity == EntityKind::Type {
                Some(defs[n - 1].id)
            } else {
                None
            },
        }
    }
}

impl ModuleReferences {
    /// A collector for `module` that holds nothing.
    pub fn new(module: StrId) -> (res: ModuleReferences)
        ensures
            res.module == module,
            res.definitions@ == Seq::<Definition>::empty(),
            res.occurrences@ == Seq::<Occurrence>::empty(),
            res.ctors@ == Seq::<(DefId, DefId)>::empty(),
            res.params@ == Seq::<(DefId, StrId)>::empty(),
    {
        ModuleReferences {
            module,
            definitions: Vec::new(),
            occurrences: Vec::new(),
            ctors: Vec::new(),
            params: Vec::new(),
        }
    }

    /// The place of a definition.
    fn place(&self, id: DefId) -> (res: Option<usize>)
        ensures
            match res {
                Some(i) => place_of(self.definitions@, self.definitions@.len(), id) == Some(
                    i as int,
                ) && i < self.definitions@.len(),
                None => place_of(self.definitions@, self.definitions@.len(), id) is None,
            },
    {
        let mut found: Option<usize> = None;
        let mut n: usize = 0;
        while n < self.definitions.len()
            invariant
                n <= self.definitions.len(),
                match found {
                    Some(i) => place_of(self.definitions@, n as nat, id) == Some(i as int) && i < n,
                    None => place_of(self.definitions@, n as nat, id) is None,
                },
            decreases self.definitions.len() - n,
        {
            if found.is_none() && self.definitions[n].id == id {
                found = Some(n);
            }
            n = n + 1;
        }
        found
    }

    /// Enter a definition; the last write of an identity wins.
    pub fn add_definition(&mut self, def: Definition)
        ensures
            final(self).module == old(self).module,
            final(self).occurrences@ == old(self).occurrences@,
            final(self).ctors@ == old(self).ctors@,
            final(self).params@ == old(self).params@,
            final(self).definitions@ == defined(old(self).definitions@, def),
    {
        match self.place(def.id) {
            Some(i) => self.definitions.set(i, def),
            None => self.definitions.push(def),
        }
    }

    /// Enter an occurrence.
    pub fn add_reference(&mut self, occ: Occurrence)
        ensures
            final(self).module == old(self).module,
            final(self).definitions@ == old(self).definitions@,
            final(self).occurrences@ == old(self).occurrences@.push(occ),
            final(self).ctors@ == old(self).ctors@,
            final(self).params@ == old(self).params@,
    {
        self.occurrences.push(occ);
    }

    /// Remember the names of what a definition takes.
    pub fn set_param_names(&mut self, id: DefId, names: &Vec<Ident>)
        ensures
            final(self)@ == (References {
                params: old(self).params@ + params_of(id, names@),
                ..old(self)@
            }),
    {
        let ghost before = self@;
        let mut n: usize = 0;
        assert(self.params@ =~= before.params + params_of(id, names@).take(0));
        while n < names.len()
            invariant
                n <= names.len(),
                self@ == (References {
                    params: before.params + params_of(id, names@).take(n as int),
                    ..before
                }),
            decreases names.len() - n,
        {
            self.params.push((id, names[n].name));
            n = n + 1;
            assert(self.params@ =~= before.params + params_of(id, names@).take(n as int));
        }
        assert(params_of(id, names@).take(n as int) =~= params_of(id, names@));
    }

    /// The definition with an identity.
    pub fn definition(&self, id: DefId) -> (res: Option<Definition>)
        ensures
            res == match place_of(self.definitions@, self.definitions@.len(), id) {
                Some(i) => Some(self.definitions@[i]),
                None => None,
            },
    {
        match self.place(id) {
            Some(i) => Some(self.definitions[i]),
            None => None,
        }
    }

    /// Every identity defined under a name, in the order of entry.
    pub fn defs_named(&self, name: StrId) -> (res: Vec<DefId>)
        ensures
            res@ == ids_named(self.definitions@, self.definitions@.len(), name),
    {
        let mut res: Vec<DefId> = Vec::new();
        let mut n: usize = 0;
        while n < self.definitions.len()
            invariant
                n <= self.definitions.len(),
                res@ == ids_named(self.definitions@, n as nat, name),
            decreases self.definitions.len() - n,
        {
            if self.definitions[n].name == name {
                res.push(self.definitions[n].id);
            }
            n = n + 1;
        }
        res
    }

    /// The type defined under a name. A record type shares its name with its
    /// constructor, so the kind decides.
    pub fn type_defid(&self, name: StrId) -> (res: Option<DefId>)
        ensures
            res == type_named(self.definitions@, self.definitions@.len(), name),
    {
        let mut found: Option<DefId> = None;
        let mut n: usize = 0;
        while n < self.definitions.len()
            invariant
                n <= self.definitions.len(),
                found == type_named(self.definitions@, n as nat, name),
            decreases self.definitions.len() - n,
        {
            let d: Definition = self.definitions[n];
            if found.is_none() && d.name == name && d.id.entity == EntityKind::Type {
                found = Some(d.id);
            }
            n = n + 1;
        }
        found
    }

    /// What the name at a position refers to: the target of the narrowest
    /// occurrence there.
    pub fn resolve_position(&self, line: i32, col: i32) -> (res: Option<DefId>)
        ensures
            res == match tightest(self.occurrences@, self.occurrences@.len(), line, col) {
                Some(i) => Some(self.occurrences@[i].target),
                None => None,
            },
    {
        let mut best: Option<usize> = None;
        let mut n: usize = 0;
        while n < self.occurrences.len()
            invariant
                n <= self.occurrences.len(),
                match best {
                    Some(i) => tightest(self.occurrences@, n as nat, line, col) == Some(i as int)
                        && i < n,
                    None => tightest(self.occurrences@, n as nat, line, col) is None,
                },
            decreases self.occurrences.len() - n,
        {
            if span_contains(&self.occurrences[n].span, line, col) {
                match best {
                    None => {
                        best = Some(n);
                    },
                    Some(i) => {
                        if span_narrower(&self.occurrences[n].span, &self.occurrences[i].span) {
                            best = Some(n);
                        }
                    },
                }
            }
            n = n + 1;
        }
        match best {
            Some(i) => Some(self.occurrences[i].target),
            None => None,
        }
    }
}

proof fn lemma_place(defs: Seq<Definition>, n: nat, id: DefId)
    requires
        n <= defs.len(),
    ensures
        place_of(defs, n, id) matches Some(i) ==> 0 <= i < n && defs[i].id == id,
        place_of(defs, n, id) is None ==> forall|i: int| 0 <= i < n ==> (#[trigger] defs[i]).id != id,
    decreases n,
{
    if n > 0 {
        lemma_place(defs, (n - 1) as nat, id);
    }
}

proof fn lemma_place_prefix(a: Seq<Definition>, b: Seq<Definition>, n: nat, id: DefId)
    requires
        n <= a.len(),
        n <= b.len(),
        forall|i: int| 0 <= i < n ==> (#[trigger] a[i]).id == b[i].id,
    ensures
        place_of(a, n, id) == place_of(b, n, id),
    decreases n,
{
    if n > 0 {
        lemma_place_prefix(a, b, (n - 1) as nat, id);
        assert(a[n - 1].id == b[n - 1].id);
    }
}

/// A definition that was entered is found under its identity, as it was entered
/// last; every other identity is found as before.
pub proof fn law_last_definition_wins(defs: Seq<Definition>, def: Definition, other: DefId)
    ensures
        place_of(defined(defs, def), defined(defs, def).len(), def.id) matches Some(i) && defined(
            defs,
            def,
        )[i] == def,
        other != def.id ==> (match place_of(defs, defs.len(), other) {
            None => place_of(defined(defs, def), defined(defs, def).len(), other) is None,
            Some(i) => place_of(defined(defs, def), defined(defs, def).len(), other) == Some(i)
                && defined(defs, def)[i] == defs[i],
        }),
{
    let after = defined(defs, def);
    lemma_place(defs, defs.len(), def.id);
    lemma_place(defs, defs.len(), other);
    match place_of(defs, defs.len(), def.id) {
        Some(i) => {
            lemma_place_prefix(defs, after, defs.len(), def.id);
            lemma_place_prefix(defs, after, defs.len(), other);
        },
        None => {
            lemma_place_prefix(defs, after, defs.len(), def.id);
            lemma_place_prefix(defs, after, defs.len(), other);
        },
    }
}

} // verus!

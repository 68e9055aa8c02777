//! What a second run over modules that are loaded does not do again.
use crate::ast::{Expr, ImportDecl, ImportItem, Node, Span, Statement, StrId};
use crate::decls::analysed;
use crate::diag::{any_error, Diagnostic, Severity};
use crate::entry::CompileResult;
use crate::gen::expr;
use crate::growth::{adds, grows, group_growth, loads, same_modules};
use crate::imports::{items, TypeUse, ValueUse};
use crate::loader::{import, imports, lemma_place, load, Source};
use crate::quiet::{lemma_analysis, lemma_bind_import, lemma_imports};
use crate::scopes::{begins_with, from_here};
use crate::session::{entry_run, invalidated, IncrementalSession, Floor, TypeNote};
use crate::state::{Interface, State};
use crate::workspace::workspace_of;
use vstd::prelude::*;

verus! {

broadcast use group_growth;

/// Whether the modules that a body begins by importing, from node `i` on, are loaded.
pub open spec fn imports_loaded(
    body: Seq<Node>,
    i: nat,
    modules: Map<StrId, Interface>,
) -> bool
    decreases body.len() - i,
{
    if i >= body.len() {
        true
    } else {
        match body[i as int] {
            Node::Statement(Statement::Import(imp)) => modules.dom().contains(imp.key)
                && imports_loaded(body, i + 1, modules),
            _ => true,
        }
    }
}

/// Whether all that a program imports is loaded.
pub open spec fn program_loaded(e: Expr, modules: Map<StrId, Interface>) -> bool {
    e matches Expr::Block { body, .. } ==> imports_loaded(body@, 0, modules)
}

proof fn lemma_imports_again(
    sources: Seq<Source>,
    loading: Seq<StrId>,
    body: Seq<Node>,
    i: nat,
    s: State,
)
    requires
        imports_loaded(body, i, s.known.modules),
    ensures
        same_modules(s, imports(sources, loading, body, i, s)),
    decreases body.len() - i,
{
    if i < body.len() {
        if let Node::Statement(Statement::Import(imp)) = body[i as int] {
            let t = s.depend(imp.key);
            assert(load(sources, loading, imp.key, imp.span, s) == (t, true));
            assert(grows(s, t));
            lemma_bind_import(t, imp);
            let u = t.bind_import(imp);
            assert(same_modules(s, u));
            assert(import(sources, loading, imp, s) == u);
            assert(imports(sources, loading, body, i, s) == imports(
                sources,
                loading,
                body,
                i + 1,
                u,
            ));
            lemma_imports_again(sources, loading, body, i + 1, u);
        }
    }
}

/// A run over a program all of whose imports are loaded compiles no module: the modules
/// are as they were, and as many have been compiled as before.
pub proof fn law_loaded_programs_compile_no_module(e: Expr, sources: Seq<Source>, s: State)
    requires
        program_loaded(e, s.known.modules),
    ensures
        same_modules(s, entry_run(e, sources, s).s),
{
    reveal(entry_run);
    match e {
        Expr::Block { body, .. } => {
            let t = imports(sources, Seq::empty(), body@, 0, s);
            lemma_imports_again(sources, Seq::empty(), body@, 0, s);
            let u = t.skip_ids();
            assert(grows(t, u));
            lemma_analysis(body@, false, u);
        },
        _ => {
            assert(grows(s, expr(e, s)));
        },
    }
}

pub proof fn lemma_error_stays(before: Seq<Diagnostic>, after: Seq<Diagnostic>)
    requires
        begins_with(after, before),
        any_error(before),
    ensures
        any_error(after),
{
    let i = choose|i: int|
        0 <= i < before.len() && (#[trigger] before[i]).severity
            == Severity::Error;
    assert(after.take(before.len() as int)[i] == after[i]);
}

/// A module that an import does not find is reported.
proof fn lemma_import_loads(sources: Seq<Source>, imp: ImportDecl, s: State)
    ensures
        any_error(import(sources, Seq::empty(), imp, s).diags) || import(
            sources,
            Seq::empty(),
            imp,
            s,
        ).known.modules.dom().contains(imp.key),
{
    let none = Seq::<StrId>::empty();
    let (t, ok) = load(sources, none, imp.key, imp.span, s);
    if ok {
        assert(t.known.modules.dom().contains(imp.key)) by {
            reveal(State::depend);
            reveal(State::keep_module);
            lemma_place(sources, 0, imp.key);
        }
        lemma_bind_import(t, imp);
    } else {
        reveal(State::error);
        lemma_place(sources, 0, imp.key);
        assert(t.diags.len() > 0 && t.diags.last().severity == Severity::Error);
        assert(t.diags[t.diags.len() - 1] == t.diags.last());
    }
}

proof fn lemma_imports_load(sources: Seq<Source>, body: Seq<Node>, i: nat, s: State)
    ensures
        any_error(imports(sources, Seq::empty(), body, i, s).diags) || imports_loaded(
            body,
            i,
            imports(sources, Seq::empty(), body, i, s).known.modules,
        ),
    decreases body.len() - i,
{
    let none = Seq::<StrId>::empty();
    if i < body.len() {
        if let Node::Statement(Statement::Import(imp)) = body[i as int] {
            let t = import(sources, none, imp, s);
            let u = imports(sources, none, body, i + 1, t);
            lemma_import_loads(sources, imp, s);
            lemma_imports(sources, none, body, i + 1, t);
            lemma_imports_load(sources, body, i + 1, t);
            reveal(loads);
            reveal(adds);
            if any_error(t.diags) {
                lemma_error_stays(t.diags, u.diags);
            }
        }
    }
}

/// A run without errors has loaded all that the program imports.
pub proof fn law_success_loads_the_imports(e: Expr, sources: Seq<Source>, s: State)
    requires
        !any_error(entry_run(e, sources, s).s.diags),
    ensures
        program_loaded(e, entry_run(e, sources, s).s.known.modules),
{
    reveal(entry_run);
    if let Expr::Block { body, .. } = e {
        let t = imports(sources, Seq::empty(), body@, 0, s);
        let u = t.skip_ids();
        let x = analysed(body@, false, u).s;
        lemma_imports_load(sources, body@, 0, s);
        lemma_analysis(body@, false, u);
        assert(from_here(t));
        assert(grows(t, u));
        assert(grows(t, x));
        reveal(adds);
        if any_error(t.diags) {
            lemma_error_stays(t.diags, x.diags);
        }
    }
}

// ---- names that are imported ---------------------------------------------------

/// Whether a module offers what an item asks for.
pub open spec fn offers(iface: Interface, item: ImportItem) -> bool {
    iface.values.dom().contains(item.name.name) || iface.types.dom().contains(item.name.name)
}

/// Whether a module is loaded and offers the first `n` items that are imported from it.
pub open spec fn finds(
    key: StrId,
    list: Seq<ImportItem>,
    n: nat,
    modules: Map<StrId, Interface>,
) -> bool {
    modules.dom().contains(key) && forall|i: int|
        0 <= i < n ==> offers(modules[key], #[trigger] list[i])
}

/// Whether all is found that a body begins by importing, from node `i` on.
pub open spec fn imports_found(body: Seq<Node>, i: nat, modules: Map<StrId, Interface>) -> bool
    decreases body.len() - i,
{
    if i >= body.len() {
        true
    } else {
        match body[i as int] {
            Node::Statement(Statement::Import(imp)) => finds(
                imp.key,
                imp.items@,
                imp.items@.len(),
                modules,
            ) && imports_found(body, i + 1, modules),
            _ => true,
        }
    }
}

/// What is not found is reported, and nothing else.
proof fn lemma_items_found(key: StrId, list: Seq<ImportItem>, n: nat, s: State)
    requires
        s.known.modules.dom().contains(key),
        n <= list.len(),
    ensures
        items(key, list, n, s).s.known.modules == s.known.modules,
        if finds(key, list, n, s.known.modules) {
            items(key, list, n, s).s.diags == s.diags
        } else {
            any_error(items(key, list, n, s).s.diags)
        },
    decreases n,
{
    reveal(items);
    if n > 0 {
        lemma_items_found(key, list, (n - 1) as nat, s);
        let p = items(key, list, (n - 1) as nat, s);
        let item = list[n - 1];
        let q = p.item(key, item);
        let iface = s.known.modules[key];
        reveal(State::define);
        reveal(State::add_def);
        reveal(State::bind);
        reveal(State::bind_type);
        reveal(State::error);
        assert(q.s.known.modules == s.known.modules);
        if offers(iface, item) {
            assert(q.s.diags == p.s.diags);
        } else {
            assert(q.s.diags.len() == p.s.diags.len() + 1);
            assert(q.s.diags[p.s.diags.len() as int].severity == Severity::Error);
        }
        if finds(key, list, n, s.known.modules) {
            assert(finds(key, list, (n - 1) as nat, s.known.modules));
            assert(offers(iface, list[n - 1]));
        } else if finds(key, list, (n - 1) as nat, s.known.modules) {
            assert forall|i: int| 0 <= i < n && offers(iface, item) implies offers(
                iface,
                #[trigger] list[i],
            ) by {
                assert(i < n - 1 || list[i] == item);
            }
            assert(!offers(iface, item));
        } else {
            assert(begins_with(q.s.diags, p.s.diags)) by {
                assert(q.s.diags.take(p.s.diags.len() as int) =~= p.s.diags);
            }
            lemma_error_stays(p.s.diags, q.s.diags);
        }
    }
}

proof fn lemma_uses(s: State, key: StrId, values: Seq<ValueUse>, types: Seq<TypeUse>, n: nat)
    ensures
        s.value_uses(values, n).diags == s.diags,
        s.type_uses(key, types, n).diags == s.diags,
    decreases n,
{
    reveal(State::value_uses);
    reveal(State::type_uses);
    reveal(State::refer);
    if n > 0 {
        lemma_uses(s, key, values, types, (n - 1) as nat);
    }
}

/// Binding an import reports what the module does not offer, and nothing else.
proof fn lemma_bind_found(s: State, imp: ImportDecl)
    requires
        s.known.modules.dom().contains(imp.key),
    ensures
        if finds(imp.key, imp.items@, imp.items@.len(), s.known.modules) {
            s.bind_import(imp).diags == s.diags
        } else {
            any_error(s.bind_import(imp).diags)
        },
{
    let t = s.bind_module(imp);
    assert(t.diags == s.diags && t.known.modules == s.known.modules) by {
        reveal(State::add_def);
        reveal(State::refer_outside);
        reveal(State::qualify);
    }
    lemma_items_found(imp.key, imp.items@, imp.items@.len(), t);
    let i = items(imp.key, imp.items@, imp.items@.len(), t);
    lemma_uses(i.s, imp.key, i.values, i.types, i.values.len());
    let u = i.s.value_uses(i.values, i.values.len());
    lemma_uses(u, imp.key, i.values, i.types, i.types.len());
}

/// A name that an import does not find is reported.
proof fn lemma_import_finds(sources: Seq<Source>, imp: ImportDecl, s: State)
    ensures
        ({
            let t = import(sources, Seq::empty(), imp, s);
            any_error(t.diags) || finds(imp.key, imp.items@, imp.items@.len(), t.known.modules)
        }),
{
    let none = Seq::<StrId>::empty();
    lemma_import_loads(sources, imp, s);
    let (t, ok) = load(sources, none, imp.key, imp.span, s);
    if ok {
        assert(t.known.modules.dom().contains(imp.key)) by {
            reveal(State::depend);
            reveal(State::keep_module);
            lemma_place(sources, 0, imp.key);
        }
        lemma_bind_import(t, imp);
        lemma_bind_found(t, imp);
    } else {
        reveal(State::error);
        lemma_place(sources, 0, imp.key);
        assert(t.diags.len() > 0 && t.diags.last().severity == Severity::Error);
        assert(t.diags[t.diags.len() - 1] == t.diags.last());
    }
}

pub proof fn lemma_imports_find(sources: Seq<Source>, body: Seq<Node>, i: nat, s: State)
    ensures
        any_error(imports(sources, Seq::empty(), body, i, s).diags) || imports_found(
            body,
            i,
            imports(sources, Seq::empty(), body, i, s).known.modules,
        ),
    decreases body.len() - i,
{
    let none = Seq::<StrId>::empty();
    if i < body.len() {
        if let Node::Statement(Statement::Import(imp)) = body[i as int] {
            let t = import(sources, none, imp, s);
            let u = imports(sources, none, body, i + 1, t);
            lemma_import_finds(sources, imp, s);
            lemma_imports(sources, none, body, i + 1, t);
            lemma_imports_find(sources, body, i + 1, t);
            reveal(loads);
            reveal(adds);
            if any_error(t.diags) {
                lemma_error_stays(t.diags, u.diags);
            }
        }
    }
}

pub proof fn lemma_imports_silent(sources: Seq<Source>, body: Seq<Node>, i: nat, s: State)
    requires
        imports_found(body, i, s.known.modules),
    ensures
        imports(sources, Seq::empty(), body, i, s).diags == s.diags,
    decreases body.len() - i,
{
    let none = Seq::<StrId>::empty();
    if i < body.len() {
        if let Node::Statement(Statement::Import(imp)) = body[i as int] {
            let t = s.depend(imp.key);
            assert(load(sources, none, imp.key, imp.span, s) == (t, true));
            assert(t.diags == s.diags && t.known.modules == s.known.modules) by {
                reveal(State::depend);
            }
            lemma_bind_import(t, imp);
            lemma_bind_found(t, imp);
            let u = t.bind_import(imp);
            assert(import(sources, none, imp, s) == u);
            assert(imports(sources, none, body, i, s) == imports(sources, none, body, i + 1, u));
            lemma_imports_silent(sources, body, i + 1, u);
        }
    }
}

/// After a check without errors the imports of another one, with no module changed in
/// between, report nothing, whatever the sources say: it begins without errors, and what
/// it reports is what analysing the program itself reports.
pub proof fn law_imports_of_a_repeated_check_report_nothing(
    first: IncrementalSession,
    body: Vec<Node>,
    span: Span,
    sources: Seq<Source>,
    s: State,
    later_sources: Seq<Source>,
)
    requires
        first.c@ == entry_run(Expr::Block { body, span }, sources, s).s,
        !any_error(first.c@.diags),
    ensures
        ({
            let t = first.start(Seq::empty());
            let i = imports(later_sources, Seq::empty(), body@, 0, t);
            &&& !any_error(i.diags) && i.diags == t.diags
            &&& entry_run(Expr::Block { body, span }, later_sources, t).s == analysed(
                body@,
                false,
                i.skip_ids(),
            ).s
        }),
{
    reveal(entry_run);
    let a = imports(sources, Seq::empty(), body@, 0, s);
    let b = a.skip_ids();
    let f = analysed(body@, false, b).s;
    lemma_imports_find(sources, body@, 0, s);
    lemma_analysis(body@, false, b);
    assert(from_here(a));
    assert(grows(a, b));
    assert(grows(a, f));
    reveal(adds);
    if any_error(a.diags) {
        lemma_error_stays(a.diags, f.diags);
    }
    let t = first.start(Seq::empty());
    assert(t.known.modules == f.known.modules && !any_error(t.diags)) by {
        reveal(State::reset);
        assert(invalidated(Seq::empty(), 0, Floor { s: first.c@, at: first.base() }).s == first.c@);
        assert forall|i: int| 0 <= i < t.diags.len() implies (#[trigger] t.diags[i]).severity
            != Severity::Error by {
            assert(t.diags[i] == f.diags[i]);
        }
    }
    lemma_imports_silent(later_sources, body@, 0, t);
}

// ---- modules that are not compiled again ---------------------------------------

/// After a check without errors another one, with no module changed in between, compiles
/// no module, whatever the sources say: as many have been compiled as before, the same
/// modules are loaded, and the session's references are those it hands out.
pub proof fn law_unchanged_modules_are_not_compiled_again(
    first: IncrementalSession,
    second: IncrementalSession,
    e: Expr,
    sources: Seq<Source>,
    s: State,
    later_sources: Seq<Source>,
    r: CompileResult,
    notes: Seq<TypeNote>,
)
    requires
        first.c@ == entry_run(e, sources, s).s,
        !any_error(first.c@.diags),
        second.answers(r, entry_run(e, later_sources, first.start(Seq::empty())), notes),
    ensures
        same_modules(first.c@, second.c@),
        workspace_of(second.graph, second.c@),
        workspace_of(r.references, second.c@),
{
    law_success_loads_the_imports(e, sources, s);
    let t = first.start(Seq::empty());
    assert(same_modules(first.c@, t)) by {
        reveal(State::reset);
        assert(invalidated(Seq::empty(), 0, Floor { s: first.c@, at: first.base() }).s == first.c@);
    }
    law_loaded_programs_compile_no_module(e, later_sources, t);
}

} // verus!

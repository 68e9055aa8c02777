//! Compiling a program, and checking one without compiling it.
use crate::ast::{Expr, Span, StrId};
use crate::boot::{new_compiler, prelude_from, starts, Seed};
use crate::decls::{analysed, fits};
use crate::diag::{any_error, has_errors, wording, Diagnostic, Severity};
use crate::gen::expr;
use crate::loader::{all_fit, imports, under_way, Source};
use crate::op::{Function, FunctionView, Op, Program};
use crate::peephole::{fuse, fused};
use crate::state::{const_views, fn_views, Compiler, Origin, Output, State, World};
use crate::workspace::{blank_workspace, is_blank, workspace_of, Workspace};
use vstd::prelude::*;
use vstd::string::*;

verus! {

broadcast use vstd::std_specs::hash::group_hash_axioms;

/// Where the prelude comes from.
#[derive(Debug)]
pub enum PreludeFrom {
    /// What is compiled is the prelude itself.
    Itself,
    /// From source, under a key.
    Module(StrId),
    /// From a standard library compiled beforehand.
    Library(Seed),
}

/// A diagnostic with its message in words.
#[derive(Debug)]
pub struct Report {
    pub span: Span,
    pub severity: Severity,
    pub message: String,
}

/// What comes of compiling a program.
#[derive(Debug)]
pub struct CompileResult {
    pub program: Program,
    pub diagnostics: Vec<Report>,
    pub references: Workspace,
    /// Whether no error was found, neither here nor, as far as the tree says, by inference.
    pub success: bool,
}

/// Whether reports put the first `n` diagnostics in words.
pub open spec fn reports_of(
    reports: Seq<Report>,
    diags: Seq<Diagnostic>,
    n: nat,
    names: Seq<Seq<char>>,
    labels: Seq<StrId>,
) -> bool {
    &&& reports.len() == n
    &&& forall|i: int|
        0 <= i < n ==> (#[trigger] reports[i]).span == diags[i].span && reports[i].severity
            == diags[i].severity && reports[i].message@ == wording(
            diags[i].message,
            names,
            labels,
        )
}

impl State {
    /// Enter the function that runs first: it spans all code.
    #[verifier::opaque]
    pub open spec fn close_main(self) -> State {
        State {
            out: Output {
                fns: self.out.fns.push(
                    FunctionView {
                        name: "__main__"@,
                        arity: 0,
                        locals: self.loc.count,
                        capture_count: 0,
                        code_start: 0,
                        code_len: self.out.code.len() as i32,
                    },
                ),
                entry: self.out.fns.len() as i32,
                ..self.out
            },
            ..self
        }
    }
}

/// Compile the entry module: its imports, its declarations and its statements. Any
/// other expression is compiled as it is.
#[verifier::opaque]
pub open spec fn entry_module(e: Expr, sources: Seq<Source>, s: State) -> State {
    match e {
        Expr::Block { body, .. } => analysed(
            body@,
            false,
            imports(sources, Seq::empty(), body@, 0, s).skip_ids(),
        ).s,
        _ => expr(e, s),
    }
}

/// Whether an expression is small enough to be compiled as an entry module.
pub open spec fn entry_fits(e: Expr) -> bool {
    e matches Expr::Block { body, .. } ==> fits(body@)
}

/// Whether the prelude takes one state to another.
pub open spec fn prelude_taken(prelude: PreludeFrom, sources: Seq<Source>, s: State, t: State) -> bool {
    match prelude {
        PreludeFrom::Itself => t == s,
        PreludeFrom::Module(key) => prelude_from(sources, key, s, t),
        PreludeFrom::Library(seed) => t == s.seeded(seed),
    }
}

/// Whether a program holds what a state has produced. Code that is to run has been
/// fused.
pub open spec fn program_of(p: Program, s: State, fuse: bool) -> bool {
    &&& p.code@ == (if fuse {
        fused(s.out.code, Seq::empty())
    } else {
        s.out.code
    })
    &&& const_views(p.constants@) == s.out.consts
    &&& fn_views(p.functions@) == s.out.fns
    &&& p.entry == s.out.entry
}

/// Whether a result is that of a state.
pub open spec fn result_of(r: CompileResult, s: State, fuse: bool) -> bool {
    &&& program_of(r.program, s, fuse)
    &&& reports_of(r.diagnostics@, s.diags, s.diags.len(), s.world.names@, s.labels)
    &&& r.success == !any_error(s.diags)
}

/// Whether a result is that of compiling an expression behind a prelude. A prelude
/// with errors is all that is compiled, and nothing is collected then.
pub open spec fn compiled(
    r: CompileResult,
    e: Expr,
    sources: Seq<Source>,
    prelude: PreludeFrom,
    s: State,
) -> bool {
    exists|t: State| #[trigger]
        prelude_taken(prelude, sources, s, t) && if !(prelude is Itself) && any_error(t.diags) {
            result_of(r, t, false) && is_blank(r.references, t.world.main)
        } else {
            let u = entry_module(e, sources, t).emit(Op::Halt).close_main();
            result_of(r, u, !s.out.check_only) && workspace_of(r.references, u)
        }
}

impl Compiler {
    /// Enter the function that runs first.
    fn close_main(&mut self)
        ensures
            final(self)@ == old(self)@.close_main(),
    {
        proof {
            reveal(Compiler::model);
            reveal(State::close_main);
        }
        let ghost s = self@;
        let entry: i32 = self.program.functions.len() as i32;
        let code_len: i32 = self.program.code.len() as i32;
        self.program.functions.push(
            Function {
                name: String::from_str("__main__"),
                arity: 0,
                locals: self.local_count,
                capture_count: 0,
                code_start: 0,
                code_len,
            },
        );
        self.program.entry = entry;
        assert(self@.out.fns =~= s.close_main().out.fns);
    }

    /// Compile the entry module.
    pub fn compile_entry(&mut self, e: &Expr, sources: &Vec<Source>)
        requires
            entry_fits(*e),
            all_fit(sources@),
        ensures
            final(self)@ == entry_module(*e, sources@, old(self)@),
    {
        proof {
            reveal(entry_module);
        }
        match e {
            Expr::Block { body, .. } => {
                let mut loading: Vec<StrId> = Vec::new();
                assert(under_way(sources@, loading@));
                self.process_imports(sources, &mut loading, body);
                self.bump_type_ids_past_reserved();
                let _ = self.analyse_module(body, false);
            },
            _ => self.compile_expr(e),
        }
    }

    /// Whether an error has been reported.
    pub fn has_failed(&self) -> (res: bool)
        ensures
            res == any_error(self@.diags),
    {
        proof {
            reveal(Compiler::model);
        }
        has_errors(self.diagnostics.as_slice())
    }

    /// The diagnostics in words.
    pub fn reports(&self) -> (reports: Vec<Report>)
        ensures
            reports_of(
                reports@,
                self@.diags,
                self@.diags.len(),
                self@.world.names@,
                self@.labels,
            ),
    {
        proof {
            reveal(Compiler::model);
        }
        let mut reports: Vec<Report> = Vec::new();
        let mut n: usize = 0;
        while n < self.diagnostics.len()
            invariant
                n <= self.diagnostics.len(),
                reports_of(
                    reports@,
                    self.diagnostics@,
                    n as nat,
                    self.world.names@,
                    self.labels@,
                ),
            decreases self.diagnostics.len() - n,
        {
            let d: &Diagnostic = &self.diagnostics[n];
            let message: String = d.message.text(&self.world.names, &self.labels);
            reports.push(Report { span: d.span, severity: d.severity, message });
            n = n + 1;
        }
        reports
    }

    /// What has come of compiling.
    fn into_result(self, fuse_code: bool, references: Workspace) -> (r: CompileResult)
        ensures
            result_of(r, self@, fuse_code),
            r.references == references,
    {
        proof {
            reveal(Compiler::model);
        }
        let diagnostics: Vec<Report> = self.reports();
        let mut program: Program = self.program;
        if fuse_code {
            let none: Vec<Function> = Vec::new();
            fuse(program.code.as_mut_slice(), none.as_slice());
        }
        let success: bool = !has_errors(self.diagnostics.as_slice());
        CompileResult { program, diagnostics, references, success }
    }
}

fn compile_impl(
    e: &Expr,
    sources: &Vec<Source>,
    prelude: PreludeFrom,
    c: Compiler,
) -> (r: CompileResult)
    requires
        entry_fits(*e),
        all_fit(sources@),
    ensures
        compiled(r, *e, sources@, prelude, c@),
{
    let mut c: Compiler = c;
    let ghost s = c@;
    let ghost from = prelude;
    let check_only: bool = c.is_check_only();
    let mut own: bool = false;
    match prelude {
        PreludeFrom::Itself => {
            own = true;
        },
        PreludeFrom::Module(key) => c.register_prelude(sources, key),
        PreludeFrom::Library(seed) => c.seed_static(seed),
    }
    let ghost t = c@;
    assert(prelude_taken(from, sources@, s, t));
    if !own {
        if c.has_failed() {
            let none: Workspace = blank_workspace(c.world().main);
            return c.into_result(false, none);
        }
    }
    c.compile_entry(e, sources);
    c.emit(Op::Halt);
    c.close_main();
    let references: Workspace = c.build_reference_graph();
    c.into_result(!check_only, references)
}

/// Compile a program. The types of its parts are those that inference found, and where
/// they do not fit, the tree says so: such a program fails like any other with an error.
pub fn compile(
    e: &Expr,
    sources: &Vec<Source>,
    world: World,
    prelude: PreludeFrom,
) -> (r: CompileResult)
    requires
        entry_fits(*e),
        all_fit(sources@),
    ensures
        exists|s: State| #[trigger]
            starts(s, world, world.main, Origin::User, false) && compiled(
                r,
                *e,
                sources@,
                prelude,
                s,
            ),
{
    let main: StrId = world.main;
    let c: Compiler = new_compiler(world, main, Origin::User, false);
    assert(starts(c@, world, world.main, Origin::User, false));
    compile_impl(e, sources, prelude, c)
}

/// Check a program without compiling it. What is wrong with its types is in the tree, as
/// for [`compile`].
pub fn check(
    e: &Expr,
    sources: &Vec<Source>,
    world: World,
    prelude: PreludeFrom,
) -> (r: CompileResult)
    requires
        entry_fits(*e),
        all_fit(sources@),
    ensures
        exists|s: State| #[trigger]
            starts(s, world, world.main, Origin::User, true) && compiled(r, *e, sources@, prelude, s),
{
    let main: StrId = world.main;
    let c: Compiler = new_compiler(world, main, Origin::User, true);
    assert(starts(c@, world, world.main, Origin::User, true));
    compile_impl(e, sources, prelude, c)
}

/// Where a module of the standard library comes from.
pub open spec fn origin_of(module: StrId, prelude: StrId) -> Origin {
    if module == prelude {
        Origin::Prelude
    } else {
        Origin::Stdlib
    }
}

/// The prelude that a module of the standard library is checked behind.
pub open spec fn prelude_of(module: StrId, prelude: StrId) -> PreludeFrom {
    if module == prelude {
        PreludeFrom::Itself
    } else {
        PreludeFrom::Module(prelude)
    }
}

/// Check a file as a module of the standard library. The prelude is loaded from
/// source, unless it is the file itself.
pub fn check_as_module(
    e: &Expr,
    sources: &Vec<Source>,
    world: World,
    module: StrId,
    prelude: StrId,
) -> (r: CompileResult)
    requires
        entry_fits(*e),
        all_fit(sources@),
    ensures
        exists|s: State| #[trigger]
            starts(s, world, module, origin_of(module, prelude), true) && compiled(
                r,
                *e,
                sources@,
                prelude_of(module, prelude),
                s,
            ),
{
    let own: bool = module == prelude;
    let origin: Origin = if own {
        Origin::Prelude
    } else {
        Origin::Stdlib
    };
    let from: PreludeFrom = if own {
        PreludeFrom::Itself
    } else {
        PreludeFrom::Module(prelude)
    };
    let c: Compiler = new_compiler(world, module, origin, true);
    assert(starts(c@, world, module, origin_of(module, prelude), true));
    compile_impl(e, sources, from, c)
}

} // verus!

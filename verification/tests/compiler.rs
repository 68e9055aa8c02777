use al_bytecode::abi::{abi_drift, abi_missing, slots, AbiKeys, AbiSlot, Drift};
use al_bytecode::ast::{
    Annotation, Arm, ArrayElement, Attribute, BinaryExpr, CallArg, CallExpr, CalleeShape, ConstDecl, CtorDecl,
    Declaration, Expr, FnBody, FunctionDecl, Ident, ImportDecl, ImportItem, MatchExpr, Node,
    NumberLiteral, OrExpr, Pattern, PatternArg, PropertyExpr, Receiver, Span, Statement, StrId,
    TypeBody, TypeDecl, TypeExpr, TypeFault, TypeMention, TypeShape, UnaryOp,
};
use al_bytecode::binop::{BinaryOp, Prim};
use al_bytecode::boot::new_compiler;
use al_bytecode::diag::Severity;
use al_bytecode::entry::{check, check_as_module, compile, CompileResult, PreludeFrom};
use al_bytecode::loader::{Found, ParseFault, Source};
use al_bytecode::names::Interner;
use al_bytecode::op::{fetch, Const, Instruction, Op};
use al_bytecode::prelude_bindings::TypeId;
use al_bytecode::refs::{DefId, EntityKind, ReferenceKind};
use al_bytecode::session::{IncrementalSession, TypeNote};
use al_bytecode::state::{Compiler, GlobalSlot, ModuleInterface, Origin, World};

const OPTION: u32 = 263;
const RESULT: u32 = 264;

/// Builds trees: every text is interned, and a place is a line, a column and a
/// length.
struct Build {
    names: Interner,
}

/// A pattern that binds a name.
fn var(id: Ident) -> Pattern {
    Pattern::Var { id, faults: vec![] }
}

/// An annotation that is not there.
fn nothing() -> Annotation {
    Annotation {
        mentions: vec![],
        fault: None,
    }
}

impl Build {
    fn new() -> Build {
        Build {
            names: Interner::new(),
        }
    }

    fn id(&mut self, text: &str) -> StrId {
        self.names.intern(text)
    }

    fn at(&self, line: i32, col: i32, len: i32) -> Span {
        Span {
            start_line: line,
            start_column: col,
            end_line: line,
            end_column: col + len,
        }
    }

    fn ident(&mut self, text: &str, line: i32, col: i32) -> Ident {
        Ident {
            name: self.id(text),
            span: self.at(line, col, text.len() as i32),
        }
    }

    fn name(&mut self, text: &str, line: i32, col: i32) -> Expr {
        Expr::Name {
            id: self.ident(text, line, col),
            near: None,
        }
    }

    fn num(&mut self, text: &str) -> Expr {
        Expr::Number(NumberLiteral {
            text: self.id(text),
            span: self.at(90, 0, 1),
        })
    }

    fn expr(&self, expr: Expr) -> Node {
        Node::Expression {
            expr,
            unconsumed: None,
        }
    }

    fn bind(&mut self, text: &str, line: i32, col: i32, init: Expr) -> Node {
        Node::Statement(Statement::Binding {
            target: self.ident(text, line, col),
            annotation: nothing(),
            init,
            faults: vec![],
            span: self.at(line, col, 1),
            doc: None,
        })
    }

    fn block(&self, body: Vec<Node>) -> Expr {
        Expr::Block {
            body,
            span: self.at(0, 0, 1),
        }
    }

    fn function(&mut self, name: &str, params: Vec<Ident>, body: Expr, public: bool) -> Node {
        let name = self.ident(name, 50, 3);
        Node::Statement(Statement::Declaration {
            decl: Declaration::Function(FunctionDecl {
                name,
                params,
                signature: vec![],
                body: FnBody::Block(body),
                faults: vec![],
                attributes: vec![],
                span: name.span,
                doc: None,
            }),
            public,
        })
    }

    fn constant(&mut self, name: &str, init: Expr) -> Node {
        let name = self.ident(name, 60, 6);
        Node::Statement(Statement::Declaration {
            decl: Declaration::Const(ConstDecl {
                name,
                annotation: nothing(),
                init,
                faults: vec![],
                span: name.span,
                doc: None,
            }),
            public: true,
        })
    }

    fn ty(&mut self, name: &str, params: &[&str], body: TypeBody) -> Node {
        let name = self.ident(name, 70, 5);
        let params: Vec<Ident> = params.iter().map(|p| self.ident(p, 71, 0)).collect();
        Node::Statement(Statement::Declaration {
            decl: Declaration::Type(TypeDecl {
                name,
                params,
                body,
                attributes: vec![],
                span: name.span,
                doc: None,
            }),
            public: true,
        })
    }

    fn variants(&mut self, ctors: &[(&str, &[&str])]) -> TypeBody {
        let ctors = ctors
            .iter()
            .map(|(n, fields)| CtorDecl {
                name: self.ident(n, 72, 2),
                fields: fields.iter().map(|f| self.ident(f, 73, 4)).collect(),
                annotations: vec![],
                doc: None,
            })
            .collect();
        TypeBody::Variants {
            ctors,
            opaque: false,
        }
    }

    fn call(&mut self, callee: Expr, args: Vec<Expr>) -> Expr {
        Expr::Call(CallExpr {
            callee: Box::new(callee),
            args: args.into_iter().map(|value| CallArg::Positional { value, faults: vec![] }).collect(),
            shape: CalleeShape::Fits,
            span: self.at(80, 0, 1),
        })
    }

    fn sum(&mut self, left: Expr, right: Expr) -> Expr {
        Expr::Binary(BinaryExpr {
            op: BinaryOp::Add,
            left: Box::new(left),
            left_faults: vec![],
            right: Box::new(right),
            right_faults: vec![],
            prim: Some(Prim::Int),
            span: self.at(81, 0, 1),
        })
    }

    fn ctor_pattern(&mut self, name: &str, args: Vec<Pattern>) -> Pattern {
        let name = self.ident(name, 82, 0);
        Pattern::Constructor {
            name,
            args: args.into_iter().map(PatternArg::Positional).collect(),
            rest: false,
            faults: vec![],
            span: name.span,
        }
    }

    fn matching(&mut self, subject: Expr, arms: Vec<(Pattern, Expr)>) -> Expr {
        Expr::Match(MatchExpr {
            subject: Box::new(subject),
            arms: arms
                .into_iter()
                .map(|(pattern, body)| Arm {
                    pattern,
                    guard: None,
                    guard_faults: vec![],
                    body,
                    faults: vec![],
                    unreachable: false,
                })
                .collect(),
            missing: None,
            span: self.at(83, 0, 1),
        })
    }

    fn or(&mut self, value: Expr, receiver: Option<Ident>, body: Expr) -> Expr {
        let text = self.id("Result(Int, Int)");
        let name = self.id("Result");
        Expr::Or(OrExpr {
            expression: Box::new(value),
            left: Receiver {
                shape: TypeShape::Con {
                    id: TypeId(RESULT),
                    name,
                },
                text,
            },
            left_faults: vec![],
            receiver,
            body: Box::new(body),
            body_faults: vec![],
            span: self.at(84, 0, 1),
        })
    }

    /// The prelude's types in the order that numbers them, from the first block on.
    fn prelude(&mut self) -> Source {
        let bool_body = self.variants(&[("True", &[]), ("False", &[])]);
        let nil_body = self.variants(&[("Nil", &[])]);
        let option_body = self.variants(&[("Some", &["value"]), ("None", &[])]);
        let result_body = self.variants(&[("Ok", &["value"]), ("Err", &["error"])]);
        let body = vec![
            self.ty("Int", &[], TypeBody::External),
            self.ty("Float", &[], TypeBody::External),
            self.ty("String", &[], TypeBody::External),
            self.ty("Bool", &[], bool_body),
            self.ty("Array", &["a"], TypeBody::External),
            self.ty("Binary", &[], TypeBody::External),
            self.ty("Nil", &[], nil_body),
            self.ty("Option", &["a"], option_body),
            self.ty("Result", &["a", "e"], result_body),
        ];
        Source {
            key: self.id("al"),
            origin: Origin::Prelude,
            found: Found::Parsed {
                body,
                faults: vec![],
            },
        }
    }

    fn world(mut self) -> World {
        let empty = self.id("");
        let blank = self.id("_");
        let none_name = self.id("None");
        let err_name = self.id("Err");
        let main = self.id("main");
        World {
            names: self.names,
            empty,
            blank,
            none_name,
            err_name,
            main,
        }
    }
}

/// Check a module behind the prelude, with local binders collected, and hand back
/// the compiler.
fn collect(mut b: Build, body: Vec<Node>) -> Compiler {
    let prelude = b.prelude();
    let key = b.id("al");
    let main = b.id("main");
    let mut c = new_compiler(b.world(), main, Origin::User, true);
    c.collect_local_defs = true;
    let sources = vec![prelude];
    c.register_prelude(&sources, key);
    assert!(!c.has_failed(), "prelude failed to load: {:?}", texts(&c));
    let mut loading = vec![];
    c.process_imports(&sources, &mut loading, &body);
    c.bump_type_ids_past_reserved();
    c.analyse_module(&body, false);
    assert!(!c.has_failed(), "snippet failed to compile: {:?}", texts(&c));
    c
}

fn texts(c: &Compiler) -> Vec<String> {
    c.reports().into_iter().map(|r| r.message).collect()
}

fn run(mut b: Build, body: Vec<Node>, check_only: bool) -> CompileResult {
    let prelude = b.prelude();
    let key = b.id("al");
    let main = b.id("main");
    let block = b.block(body);
    let sources = vec![prelude];
    if check_only {
        check(&block, &sources, b.world(), PreludeFrom::Module(key))
    } else {
        compile(&block, &sources, b.world(), PreludeFrom::Module(key))
    }
}

fn messages(r: &CompileResult) -> Vec<&str> {
    r.diagnostics.iter().map(|d| d.message.as_str()).collect()
}

/// The single definition under a name.
fn sole_def(c: &Compiler, name: StrId) -> DefId {
    let defs = c.module_refs.defs_named(name);
    assert_eq!(defs.len(), 1, "expected exactly one def, got {defs:?}");
    defs[0]
}

/// Whether any recorded occurrence is an unqualified use of `target`.
fn has_use(c: &Compiler, target: DefId) -> bool {
    c.module_refs
        .occurrences
        .iter()
        .any(|o| o.target == target && o.kind == ReferenceKind::Unqualified)
}

#[test]
fn only_the_module_statement_walk_queues_a_slot() {
    let mut n = Build::new();
    let a = n.id("a");
    let b = n.id("b");
    let main = n.id("main");
    let mut c = new_compiler(n.world(), main, Origin::User, true);
    c.push_block_scope();
    c.bind_local(a, 7);
    assert!(
        c.toplevel_binds.is_empty(),
        "a binding made outside the module statement walk was queued"
    );

    c.walking_module_statements = true;
    c.bind_local(b, 8);
    assert_eq!(c.toplevel_binds.pop_front(), Some(GlobalSlot(8)));
}

/// The three functions with one binder of each kind.
fn binder_kinds(b: &mut Build) -> Vec<Node> {
    let p = b.ident("p", 0, 9);
    let init = b.name("p", 1, 6);
    let v = b.bind("v", 1, 2, init);
    let v_use = b.name("v", 2, 2);
    let v_use = b.expr(v_use);
    let body = b.block(vec![v, v_use]);
    let ident = b.function("ident", vec![p], body, false);

    let o = b.ident("o", 5, 11);
    let inner = var(b.ident("inner", 7, 9));
    let some = b.ctor_pattern("Some", vec![inner]);
    let none = b.ctor_pattern("None", vec![]);
    let inner_use = b.name("inner", 7, 19);
    let zero = b.num("0");
    let subject = b.name("o", 6, 8);
    let m = b.matching(subject, vec![(some, inner_use), (none, zero)]);
    let m = b.expr(m);
    let body = b.block(vec![m]);
    let matcher = b.function("matcher", vec![o], body, false);

    let r = b.ident("r", 12, 11);
    let e = b.ident("e", 13, 7);
    let e_use = b.name("e", 13, 12);
    let r_use = b.name("r", 13, 2);
    let or = b.or(r_use, Some(e), e_use);
    let or = b.expr(or);
    let body = b.block(vec![or]);
    let recover = b.function("recover", vec![r], body, false);
    vec![ident, matcher, recover]
}

fn check_binder_kinds() {
    let mut b = Build::new();
    let body = binder_kinds(&mut b);
    let names: Vec<StrId> = ["p", "v", "inner", "e"].iter().map(|n| b.id(n)).collect();
    let c = collect(b, body);
    // p: parameter, v: binding, inner: pattern binder, e: or-receiver.
    for name in names {
        let d = sole_def(&c, name);
        assert_eq!(d.entity, EntityKind::Value);
        assert!(c.module_refs.definition(d).is_some());
        assert!(has_use(&c, d));
    }
}

/// `fn f(p Int) Int { v = p; v }`
fn check_goto_def() {
    let mut b = Build::new();
    let p = b.ident("p", 0, 5);
    let init = b.name("p", 1, 6);
    let bind = b.bind("v", 1, 2, init);
    let v_use = b.name("v", 2, 2);
    let v_use = b.expr(v_use);
    let body = b.block(vec![bind, v_use]);
    let f = b.function("f", vec![p], body, false);
    let v = b.id("v");
    let c = collect(b, vec![f]);
    let v = sole_def(&c, v);
    let target = c
        .module_refs
        .resolve_position(2, 2)
        .expect("cursor on the `v` use resolves to a target");
    assert_eq!(target, v);
    assert!(c.module_refs.definition(target).is_some());
}

/// `fn f(s Int) Int { x = s; x = x; x }`
fn check_shadowing() {
    let mut b = Build::new();
    let s = b.ident("s", 0, 5);
    let s_use = b.name("s", 1, 6);
    let first = b.bind("x", 1, 2, s_use);
    let x_use = b.name("x", 2, 6);
    let second = b.bind("x", 2, 2, x_use);
    let last = b.name("x", 3, 2);
    let last = b.expr(last);
    let body = b.block(vec![first, second, last]);
    let f = b.function("f", vec![s], body, false);
    let x = b.id("x");
    let c = collect(b, vec![f]);
    let mut defs = c.module_refs.defs_named(x);
    assert_eq!(defs.len(), 2, "expected outer + inner `x`, got {defs:?}");
    defs.sort_by_key(|d| d.span.start_line);
    let (outer, inner) = (defs[0], defs[1]);
    assert_ne!(outer, inner);
    assert!(c.module_refs.definition(outer).is_some());
    assert!(c.module_refs.definition(inner).is_some());

    // The use on line 2 targets the outer binder; the trailing `x` on line 3
    // targets the inner one.
    assert_eq!(c.module_refs.resolve_position(2, 6), Some(outer));
    assert_eq!(c.module_refs.resolve_position(3, 2), Some(inner));
}

#[test]
fn compiler_every_local_binder_kind_is_a_graph_definition() {
    check_binder_kinds();
}

#[test]
fn compiler_goto_def_on_a_local_use_resolves_to_a_real_definition() {
    check_goto_def();
}

#[test]
fn compiler_shadowing_keeps_inner_and_outer_as_distinct_definitions() {
    check_shadowing();
}

#[test]
fn tests_every_local_binder_kind_is_a_graph_definition() {
    check_binder_kinds();
}

#[test]
fn tests_goto_def_on_a_local_use_resolves_to_a_real_definition() {
    check_goto_def();
}

#[test]
fn tests_shadowing_keeps_inner_and_outer_as_distinct_definitions() {
    check_shadowing();
}

/// `fn f() Int { nope() }` and `f()`.
#[test]
fn an_unbound_name_is_reported_once() {
    let mut b = Build::new();
    let nope = b.name("nope", 0, 13);
    let call = b.call(nope, vec![]);
    let call = b.expr(call);
    let body = b.block(vec![call]);
    let f = b.function("f", vec![], body, false);
    let f_use = b.name("f", 1, 0);
    let main = b.call(f_use, vec![]);
    let main = b.expr(main);
    let r = run(b, vec![f, main], false);
    let errors = r
        .diagnostics
        .iter()
        .filter(|d| d.severity == Severity::Error)
        .count();
    assert_eq!(errors, 1, "an unbound identifier is one diagnostic, not two");
    assert_eq!(messages(&r), ["Unknown identifier 'nope'"]);
}

/// `x = 1 +`, whose right side could not be read.
#[test]
fn an_error_node_denies_the_proof() {
    let mut b = Build::new();
    let one = b.num("1");
    let message = b.id("expected an expression");
    let missing = Expr::Error {
        message,
        span: b.at(0, 7, 1),
    };
    let sum = b.sum(one, missing);
    let bind = b.bind("x", 0, 0, sum);
    let r = run(b, vec![bind], false);
    assert!(!r.success, "an unparseable program must not compile");
    assert!(messages(&r).contains(&"expected an expression"));
}

/// `match Some(1) { Some(v) -> { w = v + 1; v + w } None -> 0 }` as the whole
/// program.
#[test]
fn a_bare_match_expression_compiles_without_stealing_a_pattern_slot() {
    let mut b = Build::new();
    let one = b.num("1");
    let some = b.name("Some", 0, 6);
    let subject = b.call(some, vec![one]);
    let v = var(b.ident("v", 0, 21));
    let some_pat = b.ctor_pattern("Some", vec![v]);
    let v_use = b.name("v", 0, 32);
    let one = b.num("1");
    let sum = b.sum(v_use, one);
    let w = b.bind("w", 0, 28, sum);
    let v_use = b.name("v", 1, 1);
    let w_use = b.name("w", 1, 5);
    let sum = b.sum(v_use, w_use);
    let sum = b.expr(sum);
    let arm = b.block(vec![w, sum]);
    let none_pat = b.ctor_pattern("None", vec![]);
    let zero = b.num("0");
    let m = b.matching(subject, vec![(some_pat, arm), (none_pat, zero)]);
    let prelude = b.prelude();
    let key = b.id("al");
    let main = b.id("main");
    let r = compile(&m, &vec![prelude], b.world(), PreludeFrom::Module(key));
    assert!(r.success, "{:?}", r.diagnostics);
}

#[test]
fn a_sum_of_constants_runs_in_order() {
    let mut b = Build::new();
    let one = b.num("1");
    let two = b.num("2");
    let sum = b.sum(one, two);
    let sum = b.expr(sum);
    let r = run(b, vec![sum], false);
    assert!(r.success, "{:?}", r.diagnostics);
    let ops: Vec<Op> = r.program.code.iter().map(|i| i.op).collect();
    assert_eq!(ops, [Op::PushConst, Op::PushConst, Op::AddInt, Op::Halt]);
    assert_eq!(r.program.functions.len(), 1);
    assert_eq!(r.program.functions[0].name, "__main__");
    assert_eq!(r.program.functions[0].code_len, 4);
    assert_eq!(r.program.entry, 0);
}

#[test]
fn checking_emits_nothing() {
    let mut b = Build::new();
    let one = b.num("1");
    let two = b.num("2");
    let sum = b.sum(one, two);
    let sum = b.expr(sum);
    let r = run(b, vec![sum], true);
    assert!(r.success);
    assert!(r.program.code.is_empty());
    assert!(r.program.constants.is_empty());
}

#[test]
fn a_function_is_compiled_behind_what_it_calls() {
    let mut b = Build::new();
    let g = b.name("g", 0, 10);
    let call = b.call(g, vec![]);
    let call = b.expr(call);
    let body = b.block(vec![call]);
    let f = b.function("f", vec![], body, false);
    let one = b.num("1");
    let one = b.expr(one);
    let body = b.block(vec![one]);
    let g = b.function("g", vec![], body, false);
    let r = run(b, vec![f, g], false);
    assert!(r.success, "{:?}", r.diagnostics);
    let names: Vec<&str> = r.program.functions.iter().map(|f| f.name.as_str()).collect();
    assert_eq!(names, ["g", "f", "__main__"]);
}

#[test]
fn a_parameter_hides_the_declaration_of_its_name() {
    let mut b = Build::new();
    let g = b.ident("g", 0, 5);
    let g_use = b.name("g", 0, 10);
    let g_use = b.expr(g_use);
    let body = b.block(vec![g_use]);
    let f = b.function("f", vec![g], body, false);
    let one = b.num("1");
    let one = b.expr(one);
    let body = b.block(vec![one]);
    let g = b.function("g", vec![], body, false);
    let r = run(b, vec![f, g], false);
    assert!(r.success, "{:?}", r.diagnostics);
    let names: Vec<&str> = r.program.functions.iter().map(|f| f.name.as_str()).collect();
    assert_eq!(names, ["f", "g", "__main__"]);
}

#[test]
fn a_second_definition_is_reported_with_the_first() {
    let mut b = Build::new();
    let one = b.num("1");
    let x1 = b.constant("x", one);
    let two = b.num("2");
    let x2 = b.constant("x", two);
    let r = run(b, vec![x1, x2], false);
    assert!(!r.success);
    assert_eq!(
        messages(&r),
        ["'x' is already defined", "first definition was here"]
    );
}

#[test]
fn prelude_names_are_reserved() {
    let mut b = Build::new();
    let body = b.variants(&[("Other", &[])]);
    let t = b.ty("Option", &[], body);
    let r = run(b, vec![t], false);
    assert_eq!(
        messages(&r),
        ["'Option' is defined in the prelude and cannot be redefined"]
    );
}

fn alias(b: &mut Build, name: &str, of: &str) -> Node {
    let target = b.ident(of, 74, 9);
    b.ty(
        name,
        &[],
        TypeBody::Alias(
            TypeExpr::Named {
                name: target,
                args: vec![],
            },
            nothing(),
        ),
    )
}

#[test]
fn aliases_that_stand_for_themselves_are_reported() {
    let mut b = Build::new();
    let x = alias(&mut b, "X", "Y");
    let y = alias(&mut b, "Y", "X");
    let z = alias(&mut b, "Z", "Z");
    let fine = alias(&mut b, "W", "Int");
    let r = run(b, vec![x, y, z, fine], false);
    let mut m = messages(&r);
    m.sort();
    assert_eq!(
        m,
        [
            "Recursive type alias 'X'",
            "Recursive type alias 'Y'",
            "Recursive type alias 'Z'",
        ]
    );
}

#[test]
fn a_repeated_type_parameter_is_reported() {
    let mut b = Build::new();
    let body = b.variants(&[("Pair", &[])]);
    let t = b.ty("P", &["a", "a"], body);
    let r = run(b, vec![t], false);
    assert_eq!(messages(&r), ["Duplicate type parameter 'a'"]);
}

#[test]
fn an_unused_binding_is_reported_where_its_scope_ends() {
    let mut b = Build::new();
    let one = b.num("1");
    let bind = b.bind("x", 1, 2, one);
    let two = b.num("2");
    let two = b.expr(two);
    let body = b.block(vec![bind, two]);
    let f = b.function("f", vec![], body, false);
    let r = run(b, vec![f], false);
    assert_eq!(
        messages(&r),
        ["'x' is unused; prefix with '_' to ignore"]
    );
}

#[test]
fn an_array_puts_a_run_in_front_of_the_spread_behind_it() {
    let mut b = Build::new();
    let one = ArrayElement::Item {
        value: b.num("1"),
        faults: vec![],
    };
    let rest = Expr::Array {
        elements: vec![],
        span: b.at(0, 4, 1),
    };
    let spread = ArrayElement::Spread {
        expression: Some(rest),
        faults: vec![],
        span: b.at(0, 4, 1),
    };
    let two = ArrayElement::Item {
        value: b.num("2"),
        faults: vec![],
    };
    let a = Expr::Array {
        elements: vec![one, spread, two],
        span: b.at(0, 0, 1),
    };
    let a = b.expr(a);
    let r = run(b, vec![a], false);
    let ops: Vec<Op> = r.program.code.iter().map(|i| i.op).collect();
    assert_eq!(
        ops,
        [
            Op::PushConst,
            Op::MakeArray,
            Op::Prepend,
            Op::PushConst,
            Op::Append,
            Op::Halt
        ]
    );
}

#[test]
fn negation_goes_by_the_operand_type() {
    let mut b = Build::new();
    let one = b.num("1");
    let neg = Expr::Unary {
        op: UnaryOp::Neg,
        operand: Box::new(one),
        prim: Some(Prim::Int),
        faults: vec![],
        span: b.at(0, 0, 1),
    };
    let neg = b.expr(neg);
    let r = run(b, vec![neg], false);
    assert_eq!(r.program.code[1].op, Op::NegInt);
}

/// A module with one public and one private function.
fn library(b: &mut Build) -> Source {
    let one = b.num("1");
    let one = b.expr(one);
    let body = b.block(vec![one]);
    let open = b.function("open", vec![], body, true);
    let two = b.num("2");
    let two = b.expr(two);
    let body = b.block(vec![two]);
    let hidden = b.function("hidden", vec![], body, false);
    Source {
        key: b.id("lib"),
        origin: Origin::User,
        found: Found::Parsed {
            body: vec![open, hidden],
            faults: vec![],
        },
    }
}

fn import(b: &mut Build, path: &str, items: &[&str]) -> Node {
    let key = b.id(path);
    let items = items
        .iter()
        .map(|i| ImportItem {
            name: b.ident(i, 0, 12),
            alias: None,
        })
        .collect();
    Node::Statement(Statement::Import(ImportDecl {
        key,
        path: vec![key],
        path_span: b.at(0, 7, path.len() as i32),
        alias: None,
        items,
        span: b.at(0, 0, 20),
    }))
}

fn run_with(mut b: Build, mut sources: Vec<Source>, body: Vec<Node>) -> CompileResult {
    sources.push(b.prelude());
    let key = b.id("al");
    let main = b.id("main");
    let block = b.block(body);
    compile(&block, &sources, b.world(), PreludeFrom::Module(key))
}

#[test]
fn an_imported_function_is_called_through_its_slot() {
    let mut b = Build::new();
    let lib = library(&mut b);
    let i = import(&mut b, "lib", &["open"]);
    let open = b.name("open", 1, 0);
    let call = b.call(open, vec![]);
    let call = b.expr(call);
    let r = run_with(b, vec![lib], vec![i, call]);
    assert!(r.success, "{:?}", r.diagnostics);
    let names: Vec<&str> = r.program.functions.iter().map(|f| f.name.as_str()).collect();
    assert_eq!(names, ["open", "hidden", "__main__"]);
}

#[test]
fn what_a_module_keeps_to_itself_is_not_imported() {
    let mut b = Build::new();
    let lib = library(&mut b);
    let i = import(&mut b, "lib", &["hidden", "absent"]);
    let r = run_with(b, vec![lib], vec![i]);
    assert_eq!(
        messages(&r),
        [
            "'hidden' is private in module 'lib'",
            "Module 'lib' has no member 'absent'"
        ]
    );
}

#[test]
fn a_module_that_is_not_there_is_reported() {
    let mut b = Build::new();
    let i = import(&mut b, "lib", &[]);
    let r = run_with(b, vec![], vec![i]);
    assert_eq!(messages(&r), ["Unknown module 'lib' (not found)"]);
}

fn source(b: &mut Build, key: &str, found: Found) -> Source {
    Source {
        key: b.id(key),
        origin: Origin::User,
        found,
    }
}

#[test]
fn each_way_a_source_can_fail_is_reported() {
    let mut b = Build::new();
    let missing = source(&mut b, "a", Found::Missing);
    let lost = source(&mut b, "b", Found::NoBaseDir);
    let broken = source(&mut b, "c", Found::Unreadable);
    let body = vec![
        import(&mut b, "a", &[]),
        import(&mut b, "b", &[]),
        import(&mut b, "c", &[]),
    ];
    let r = run_with(b, vec![missing, lost, broken], body);
    assert_eq!(
        messages(&r),
        [
            "Unknown module 'a' (not found)",
            "Relative imports are not allowed without a file context (e.g. REPL)",
            "Failed to read module 'c'"
        ]
    );
}

#[test]
fn modules_that_import_each_other_are_a_cycle() {
    let mut b = Build::new();
    let to_b = import(&mut b, "b", &[]);
    let to_a = import(&mut b, "a", &[]);
    let a = source(
        &mut b,
        "a",
        Found::Parsed {
            body: vec![to_b],
            faults: vec![],
        },
    );
    let bb = source(
        &mut b,
        "b",
        Found::Parsed {
            body: vec![to_a],
            faults: vec![],
        },
    );
    let i = import(&mut b, "a", &[]);
    let r = run_with(b, vec![a, bb], vec![i]);
    assert_eq!(messages(&r), ["Import cycle detected at module 'a'"]);
}

#[test]
fn the_parser_speaks_of_a_module_where_it_is_imported() {
    let mut b = Build::new();
    let text = b.id("unexpected token");
    let a = source(
        &mut b,
        "a",
        Found::Parsed {
            body: vec![],
            faults: vec![ParseFault {
                severity: Severity::Error,
                text,
            }],
        },
    );
    let i = import(&mut b, "a", &[]);
    let r = run_with(b, vec![a], vec![i]);
    assert_eq!(messages(&r), ["In module 'a': unexpected token"]);
    assert_eq!(r.diagnostics[0].span.end_column, 20);
}

#[test]
fn an_imported_module_holds_declarations_only() {
    let mut b = Build::new();
    let one = b.num("1");
    let one = b.expr(one);
    let a = source(
        &mut b,
        "a",
        Found::Parsed {
            body: vec![one],
            faults: vec![],
        },
    );
    let i = import(&mut b, "a", &[]);
    let r = run_with(b, vec![a], vec![i]);
    assert_eq!(
        messages(&r),
        ["Modules may only contain declarations at the top level"]
    );
}

#[test]
fn a_prelude_of_another_shape_is_reported() {
    let mut b = Build::new();
    let t = b.ty("Int", &[], TypeBody::External);
    let p = Source {
        key: b.id("al"),
        origin: Origin::Prelude,
        found: Found::Parsed {
            body: vec![t],
            faults: vec![],
        },
    };
    let key = b.id("al");
    let main = b.id("main");
    let block = b.block(vec![]);
    let r = compile(&block, &vec![p], b.world(), PreludeFrom::Module(key));
    assert!(!r.success);
    assert_eq!(messages(&r), ["prelude: type 'Float' is required"]);
}

#[test]
fn an_optional_value_falls_back() {
    let mut b = Build::new();
    let o = b.ident("o", 0, 5);
    let name = b.id("Option");
    let text = b.id("Option(Int)");
    let value = b.name("o", 1, 2);
    let zero = b.num("0");
    let or = Expr::Or(OrExpr {
        expression: Box::new(value),
        left: Receiver {
            shape: TypeShape::Con {
                id: TypeId(OPTION),
                name,
            },
            text,
        },
        left_faults: vec![],
        receiver: None,
        body: Box::new(zero),
        body_faults: vec![],
        span: b.at(1, 2, 1),
    });
    let or = b.expr(or);
    let body = b.block(vec![or]);
    let f = b.function("f", vec![o], body, false);
    let r = run(b, vec![f], false);
    assert!(r.success, "{:?}", r.diagnostics);
    let f = &r.program.functions[0];
    let ops: Vec<Op> = r.program.code[f.code_start as usize..]
        .iter()
        .take(f.code_len as usize)
        .map(|i| i.op)
        .collect();
    assert!(ops.contains(&Op::MatchEnum));
    assert!(ops.contains(&Op::UnwrapEnum));
}

#[test]
fn a_session_recompiles_only_what_changed() {
    let mut b = Build::new();
    let lib = library(&mut b);
    let key = b.id("lib");
    let i = import(&mut b, "lib", &["open"]);
    let open = b.name("open", 1, 0);
    let call = b.call(open, vec![]);
    let call = b.expr(call);
    let block = b.block(vec![i, call]);
    let prelude = b.prelude();
    let mut c = IncrementalSession::new(b.world(), empty_seed());
    let sources = vec![lib, prelude];
    let none = vec![];
    let r = c.check(&block, &sources, &none, vec![]);
    assert!(r.success, "{:?}", r.diagnostics);
    assert_eq!(c.compile_count(), 1);
    let r = c.check(&block, &sources, &none, vec![]);
    assert!(r.success, "{:?}", r.diagnostics);
    assert_eq!(c.compile_count(), 1);
    let r = c.check(&block, &sources, &vec![key], vec![]);
    assert!(r.success, "{:?}", r.diagnostics);
    assert_eq!(c.compile_count(), 2);
    assert!(r.references.modules.contains_key(&key));
    assert!(r.program.code.is_empty());
}

fn empty_seed() -> al_bytecode::boot::Seed {
    al_bytecode::boot::Seed {
        program: al_bytecode::op::Program::default(),
        slots: vec![],
        prelude: al_bytecode::prelude_bindings::PreludeBindings::default(),
        next_type_id: 1,
        types: vec![],
        variants: vec![],
        labels: vec![],
        values: vec![],
        reserved: vec![],
        modules: vec![],
    }
}

#[test]
fn a_file_that_changed_on_disk_is_forgotten() {
    let mut b = Build::new();
    let lib = library(&mut b);
    let key = b.id("lib");
    let path = b.id("/src/lib.al");
    let text = b.id("fn open() {}");
    let i = import(&mut b, "lib", &["open"]);
    let block = b.block(vec![i]);
    let mut c = IncrementalSession::new(b.world(), empty_seed());
    let sources = vec![lib];
    c.set_paths(vec![(key, path)]);
    c.set_overlay(path, text);
    assert!(c.overlays.contains_key(&path));
    assert_eq!(c.module_path_for_source(path), None);
    c.check(&block, &sources, &vec![], vec![]);
    assert_eq!(c.module_path_for_source(path), Some(key));
    c.invalidate_path(path);
    assert!(!c.overlays.contains_key(&path));
    assert_eq!(c.module_path_for_source(path), None);
    c.check(&block, &sources, &vec![], vec![]);
    assert_eq!(c.compile_count(), 2);
    assert!(c.reference_graph().modules.contains_key(&key));
}

#[test]
fn hover_shows_the_narrowest_name() {
    let mut b = Build::new();
    let main = b.id("main");
    let x = b.ident("x", 1, 0);
    let wide = Ident {
        name: x.name,
        span: b.at(2, 0, 10),
    };
    let narrow = b.name("x", 2, 2);
    let one = b.num("1");
    let int = b.id("Int");
    let words = b.id("one");
    let mut binding = b.bind("x", 1, 0, one);
    if let Node::Statement(Statement::Binding { doc, .. }) = &mut binding {
        *doc = Some(words);
    }
    let around = Expr::Name {
        id: wide,
        near: None,
    };
    let around = b.expr(around);
    let inside = b.expr(narrow);
    let block = b.block(vec![binding, around, inside]);
    let note = |span| TypeNote {
        module: main,
        span,
        ty: int,
    };
    let notes = vec![
        note(x.span),
        note(wide.span),
        note(b.at(2, 2, 1)),
        note(b.at(9, 0, 1)),
    ];
    let silent = b.id("silent");
    let (first, inner) = (b.at(1, 0, 1), b.at(2, 2, 1));
    let mut seed = empty_seed();
    let nothing = ModuleInterface {
        values: Default::default(),
        types: Default::default(),
        private_names: Default::default(),
    };
    seed.modules.push((silent, nothing));
    let mut c = IncrementalSession::new(b.world(), seed);
    assert_eq!(c.hover(main, 1, 0), None);
    c.check(&block, &vec![], &vec![], notes);
    let shown = c.hover(main, 1, 0).unwrap();
    assert_eq!((shown.span, shown.name, shown.ty), (first, x.name, int));
    assert_eq!(shown.doc, Some(words));
    assert_eq!(c.hover(main, 2, 2).map(|f| (f.span, f.doc)), Some((inner, Some(words))));
    assert_eq!(c.hover(silent, 2, 2), None);
    assert_eq!(c.hover(main, 2, 5).map(|f| f.span), Some(wide.span));
    assert_eq!(c.hover(x.name, 2, 5).map(|f| f.span), Some(wide.span));
    assert_eq!(c.hover(main, 9, 0), None);
}

/// A compiler behind the prelude, and the prelude's key.
fn behind_the_prelude(mut b: Build, check_only: bool) -> (Compiler, StrId) {
    let prelude = b.prelude();
    let key = b.id("al");
    let main = b.id("main");
    let mut c = new_compiler(b.world(), main, Origin::User, check_only);
    c.register_prelude(&vec![prelude], key);
    assert!(!c.has_failed(), "{:?}", texts(&c));
    (c, key)
}

fn keys(prelude: StrId) -> AbiKeys {
    let other = u32::MAX;
    AbiKeys {
        prelude,
        io: other,
        address: other,
        socket: other,
        net_error: other,
        headers: other,
        h1: other,
    }
}

#[test]
fn slots_of_loaded_modules_are_bound() {
    let (c, key) = behind_the_prelude(Build::new(), false);
    let order = slots();
    let mut arities = vec![0; order.len()];
    arities[1] = 1;
    arities[3] = 1;
    arities[4] = 1;
    let needed = vec![AbiSlot::OptionNone, AbiSlot::IpV4];
    let table = c.bind_abi(keys(key), &arities, &needed);
    assert_eq!(
        table.bound,
        [
            AbiSlot::Unit,
            AbiSlot::OptionSome,
            AbiSlot::OptionNone,
            AbiSlot::ResultOk,
            AbiSlot::ResultErr
        ]
    );
    assert!(table.drifts.is_empty());
    assert_eq!(table.missing, [AbiSlot::IpV4]);
    let at = table.template_of(AbiSlot::OptionNone).unwrap();
    let none = &table.templates[at];
    assert_eq!((none.type_id, none.variant_idx), (TypeId(OPTION), 1));
    assert_eq!(c.world.names.text(none.ctor), "None");
    assert_eq!(c.world.names.text(none.ty), "Option");
    assert!(none.labels.is_empty());
    assert_eq!(table.template_of(AbiSlot::IpV4), None);
    assert_eq!(
        abi_missing(&vec!["IpV4".to_string(), "IpV6".to_string()]),
        "internal: emitted ops construct unbound ABI slots: IpV4, IpV6"
    );
}

#[test]
fn a_module_that_drifted_from_its_slots_is_reported() {
    let (c, key) = behind_the_prelude(Build::new(), false);
    let arities = vec![0; slots().len()];
    // The prelude stands in for the modules of addresses and of files.
    let keys = AbiKeys {
        address: key,
        ..keys(key)
    };
    let table = c.bind_abi(keys, &arities, &vec![]);
    assert_eq!(
        table.drifts,
        [
            (AbiSlot::OptionSome, Drift::Arity),
            (AbiSlot::ResultOk, Drift::Arity),
            (AbiSlot::ResultErr, Drift::Arity),
            (AbiSlot::IpV4, Drift::NoType),
            (AbiSlot::IpV6, Drift::NoType),
            (AbiSlot::SocketAddr, Drift::NoType),
        ]
    );
    assert_eq!(
        abi_drift("OptionSome", AbiSlot::OptionSome, Drift::Arity),
        "internal: ABI slot OptionSome binds Option.Some, but constructor arity changed \u{2014} \
         the stdlib no longer matches the compiler's ABI registry"
    );
}

#[test]
fn a_type_without_the_constructor_of_a_slot_is_reported() {
    let mut b = Build::new();
    let read = b.variants(&[("Data", &["bytes"])]);
    let body = vec![
        b.ty("Socket", &[], TypeBody::External),
        b.ty("Read", &[], read),
    ];
    let sock = source(
        &mut b,
        "sock",
        Found::Parsed {
            body,
            faults: vec![],
        },
    );
    let key = b.id("sock");
    let i = import(&mut b, "sock", &[]);
    let prelude = b.prelude();
    let al = b.id("al");
    let main = b.id("main");
    let mut c = new_compiler(b.world(), main, Origin::User, true);
    let sources = vec![prelude, sock];
    c.register_prelude(&sources, al);
    c.process_imports(&sources, &mut vec![], &vec![i]);
    let mut arities = vec![0; slots().len()];
    let place = slots().iter().position(|s| *s == AbiSlot::ReadData).unwrap();
    arities[place] = 1;
    let keys = AbiKeys {
        socket: key,
        ..keys(u32::MAX)
    };
    let table = c.bind_abi(keys, &arities, &vec![]);
    assert_eq!(table.bound, [AbiSlot::ReadData]);
    assert_eq!(
        table.drifts,
        [
            (AbiSlot::Socket, Drift::NoVariants),
            (AbiSlot::ReadClosed, Drift::NoConstructor)
        ]
    );
}

#[test]
fn a_jump_on_the_constructor_needs_a_tag() {
    let (mut c, _) = behind_the_prelude(Build::new(), false);
    let prelude = c.prelude_bindings().unwrap();
    let bool_ = prelude.bool.id;
    assert_eq!(
        c.switch_variant_count(&prelude, TypeId(OPTION)),
        Some(2)
    );
    assert_eq!(c.switch_variant_count(&prelude, bool_), None);
    assert_eq!(c.switch_variant_count(&prelude, prelude.int.id), None);
    assert_eq!(prelude.bool_variant(bool_, 0), Some(true));
    assert_eq!(prelude.bool_variant(bool_, 1), Some(false));
    assert_eq!(prelude.bool_variant(TypeId(OPTION), 0), None);
    let value = c.world.names.find("value").unwrap();
    assert_eq!(c.ctor_labels(TypeId(OPTION), 0), Some(vec![value]));
    assert_eq!(c.ctor_labels(TypeId(OPTION), 1), Some(vec![]));
    assert_eq!(c.ctor_labels(TypeId(OPTION), 2), None);
    let pooled = c.program.constants.len();
    assert_eq!(c.intern_labels(TypeId(OPTION), 0), pooled as i32);
    assert_eq!(c.program.constants.len(), pooled + 1);
}

#[test]
fn only_an_optional_or_a_fallible_value_comes_apart() {
    let (c, _) = behind_the_prelude(Build::new(), false);
    let prelude = c.prelude_bindings().unwrap();
    let con = |id| TypeShape::Con {
        id: TypeId(id),
        name: 0,
    };
    let option = prelude.or_shape(con(OPTION)).unwrap();
    assert!(!option.err_has_payload);
    assert_eq!(option.fail.variant_name, "None");
    assert_eq!(option.ok.variant_name, "Some");
    let result = prelude.or_shape(con(RESULT)).unwrap();
    assert!(result.err_has_payload);
    assert_eq!((result.fail.type_id, result.fail.variant_idx), (TypeId(RESULT), 1));
    assert_eq!(result.ok.variant_name, "Ok");
    assert!(prelude.or_shape(con(1)).is_none());
    assert!(prelude.or_shape(TypeShape::Var).is_none());
}

#[test]
fn a_field_has_a_place_where_every_constructor_has_it_there() {
    let mut b = Build::new();
    let shared = b.variants(&[("A", &["x", "y"]), ("B", &["z", "y"])]);
    let ty = b.ty("T", &[], shared);
    let x = b.id("x");
    let y = b.id("y");
    let name = b.id("T");
    let c = collect(b, vec![ty]);
    let t = TypeShape::Con {
        id: c.types[&name],
        name,
    };
    assert_eq!(c.ctor_field(t, y), Some(1));
    assert_eq!(c.ctor_field(t, x), None);
    assert_eq!(c.ctor_field(TypeShape::Other, y), None);
}

/// What a scope holds: the live names, the depth of blocks and of frames.
fn scope(c: &Compiler) -> (Vec<StrId>, usize, usize, usize) {
    let mut names: Vec<StrId> = c.locals.keys().copied().collect();
    names.sort();
    (
        names,
        c.scope_marks.len(),
        c.outer_scopes.len(),
        c.env.len(),
    )
}

#[test]
fn an_expression_leaves_the_scope_as_it_was() {
    let mut b = Build::new();
    let one = b.num("1");
    let x = b.bind("x", 1, 0, one);
    let x_use = b.name("x", 2, 0);
    let x_use = b.expr(x_use);
    let inner = b.block(vec![x, x_use]);
    let p = b.ident("p", 3, 0);
    let p_use = b.name("p", 3, 5);
    let f = Expr::Function {
        params: vec![p],
        annotations: vec![],
        body: Box::new(p_use),
        ret: nothing(),
        faults: vec![],
        span: b.at(3, 0, 6),
    };
    let (mut c, _) = behind_the_prelude(b, false);
    let before = scope(&c);
    c.compile_expr(&inner);
    assert_eq!(scope(&c), before);
    c.compile_expr(&f);
    assert_eq!(scope(&c), before);
    assert!(!c.has_failed(), "{:?}", texts(&c));
}

#[test]
fn a_statement_binds_in_its_own_block() {
    let mut b = Build::new();
    let one = b.num("1");
    let x = b.bind("x", 1, 0, one);
    let name = b.id("x");
    let (mut c, _) = behind_the_prelude(b, false);
    c.push_block_scope();
    let depth = c.scope_marks.len();
    c.compile_node(&x);
    assert_eq!(c.scope_marks.len(), depth);
    assert!(c.locals.contains_key(&name));
    c.pop_block_scope();
    assert!(!c.locals.contains_key(&name));
}

#[test]
fn diagnostics_are_only_added() {
    let mut b = Build::new();
    let first = b.name("nowhere", 1, 0);
    let second = b.name("neither", 2, 0);
    let (mut c, _) = behind_the_prelude(b, true);
    c.compile_expr(&first);
    let before = c.diagnostics.clone();
    c.compile_expr(&second);
    assert_eq!(c.diagnostics[..before.len()], before[..]);
    assert_eq!(c.diagnostics.len(), before.len() + 1);
    assert!(c.program.code.is_empty());
}

#[test]
fn a_check_that_is_repeated_says_the_same() {
    let mut b = Build::new();
    let lib = library(&mut b);
    let i = import(&mut b, "lib", &["open"]);
    let shape = b.variants(&[("A", &["x"])]);
    let ty = b.ty("T", &[], shape);
    let unknown = b.name("nowhere", 2, 0);
    let unknown = b.expr(unknown);
    let block = b.block(vec![i, ty, unknown]);
    let prelude = b.prelude();
    let mut c = IncrementalSession::new(b.world(), empty_seed());
    let sources = vec![lib, prelude];
    let none = vec![];
    let first = c.check(&block, &sources, &none, vec![]);
    let second = c.check(&block, &sources, &none, vec![]);
    let third = c.check(&block, &sources, &none, vec![]);
    assert_eq!(messages(&first), ["Unknown identifier 'nowhere'"]);
    assert_eq!(messages(&second), messages(&first));
    assert_eq!(messages(&third), messages(&first));
    assert_eq!(c.compile_count(), 1);
    assert!(third.program.code.is_empty());
}

#[test]
fn a_module_that_two_import_is_compiled_once() {
    let mut b = Build::new();
    let lib = library(&mut b);
    let i = import(&mut b, "lib", &["open"]);
    let open = b.name("open", 1, 0);
    let call = b.call(open, vec![]);
    let call = b.expr(call);
    let body = b.block(vec![call]);
    let f = b.function("f", vec![], body, true);
    let mid = source(
        &mut b,
        "mid",
        Found::Parsed {
            body: vec![i, f],
            faults: vec![],
        },
    );
    let first = import(&mut b, "lib", &["open"]);
    let second = import(&mut b, "mid", &["f"]);
    let r = run_with(b, vec![lib, mid], vec![first, second]);
    assert!(r.success, "{:?}", r.diagnostics);
    let names: Vec<&str> = r.program.functions.iter().map(|f| f.name.as_str()).collect();
    assert_eq!(names, ["open", "hidden", "f", "__main__"]);
}

#[test]
fn a_field_that_is_read_is_an_occurrence_of_its_declaration() {
    let mut b = Build::new();
    let shape = b.variants(&[("T", &["x"])]);
    let ty = b.ty("T", &[], shape);
    let name = b.id("T");
    let x = b.id("x");
    let t = b.ident("t", 0, 5);
    let left = b.name("t", 1, 0);
    let right = b.name("x", 1, 2);
    let read = Expr::Property(PropertyExpr {
        left: Box::new(left),
        right: Box::new(right),
        receiver: Receiver {
            shape: TypeShape::Con {
                id: TypeId(512),
                name,
            },
            text: name,
        },
        faults: vec![],
        span: b.at(1, 0, 3),
    });
    let read = b.expr(read);
    let body = b.block(vec![read]);
    let f = b.function("f", vec![t], body, false);
    let c = collect(b, vec![ty, f]);
    let field = sole_def(&c, x);
    assert_eq!(field.entity, EntityKind::Field);
    assert!(has_use(&c, field));
}

#[test]
fn a_constructor_belongs_to_its_type() {
    let mut b = Build::new();
    let shape = b.variants(&[("One", &[]), ("Other", &["x"])]);
    let ty = b.ty("T", &[], shape);
    let names = [b.id("T"), b.id("One"), b.id("Other")];
    let c = collect(b, vec![ty]);
    let [t, first, second] = names.map(|n| c.module_refs.defs_named(n)[0]);
    assert_eq!(c.module_refs.ctors, [(first, t), (second, t)]);
}

#[test]
fn every_jump_lands_in_the_code() {
    let mut b = Build::new();
    let x = b.ident("x", 0, 5);
    let subject = b.name("x", 1, 0);
    let inner = b.ident("v", 82, 4);
    let some = b.ctor_pattern("Ok", vec![var(inner)]);
    let other = Pattern::Wildcard {
        span: b.at(82, 9, 1),
    };
    let v = b.name("v", 2, 0);
    let zero = b.num("0");
    let matched = b.matching(subject, vec![(some, v), (other, zero)]);
    let value = b.name("x", 3, 0);
    let one = b.num("1");
    let or = b.or(value, None, one);
    let sum = b.sum(matched, or);
    let sum = b.expr(sum);
    let body = b.block(vec![sum]);
    let f = b.function("f", vec![x], body, false);
    let r = run(b, vec![f], false);
    assert!(r.success, "{:?}", r.diagnostics);
    let len = r.program.code.len() as i32;
    let jumps: Vec<i32> = r
        .program
        .code
        .iter()
        .filter(|i| i.op.has_jump_target())
        .map(|i| i.operand)
        .collect();
    assert!(jumps.len() >= 4);
    assert!(jumps.iter().all(|t| 0 < *t && *t <= len), "{jumps:?}");
}

/// An annotation that names one type of the entry module.
fn naming(b: &mut Build, ty: &str, line: i32) -> Annotation {
    Annotation {
        mentions: vec![TypeMention {
            module: b.id("main"),
            name: b.id(ty),
            span: b.at(line, 0, 1),
        }],
        fault: None,
    }
}

#[test]
fn a_type_occurs_wherever_an_annotation_names_it() {
    let mut b = Build::new();
    let target = b.ident("T", 20, 9);
    let shape = b.variants(&[("T", &[])]);
    let mut nodes = vec![b.ty("T", &[], shape)];
    let rhs = naming(&mut b, "T", 21);
    nodes.push(b.ty(
        "Alias",
        &[],
        TypeBody::Alias(
            TypeExpr::Named {
                name: target,
                args: vec![],
            },
            rhs,
        ),
    ));
    let field = naming(&mut b, "T", 22);
    let field_name = b.ident("x", 22, 5);
    let ctor = b.ident("Holder", 22, 1);
    nodes.push(b.ty(
        "Holder",
        &[],
        TypeBody::Variants {
            ctors: vec![CtorDecl {
                name: ctor,
                fields: vec![field_name],
                annotations: vec![field],
                doc: None,
            }],
            opaque: false,
        },
    ));
    let param = naming(&mut b, "T", 23);
    let name = b.ident("f", 23, 3);
    let p = b.ident("p", 23, 5);
    let p_use = b.name("p", 23, 9);
    nodes.push(Node::Statement(Statement::Declaration {
        decl: Declaration::Function(FunctionDecl {
            name,
            params: vec![p],
            signature: vec![param],
            body: FnBody::Block(p_use),
            faults: vec![],
            attributes: vec![],
            span: name.span,
            doc: None,
        }),
        public: false,
    }));
    let constant = naming(&mut b, "T", 24);
    let name = b.ident("k", 24, 6);
    let one = b.num("1");
    nodes.push(Node::Statement(Statement::Declaration {
        decl: Declaration::Const(ConstDecl {
            name,
            annotation: constant,
            init: one,
            faults: vec![],
            span: name.span,
            doc: None,
        }),
        public: true,
    }));
    let bound = naming(&mut b, "T", 25);
    let lambda_param = naming(&mut b, "T", 26);
    let lambda_ret = naming(&mut b, "T", 27);
    let q = b.ident("q", 26, 5);
    let q_use = b.name("q", 26, 9);
    let lambda = Expr::Function {
        params: vec![q],
        annotations: vec![lambda_param],
        body: Box::new(q_use),
        ret: lambda_ret,
        faults: vec![],
        span: b.at(26, 0, 9),
    };
    let g = b.ident("_g", 25, 0);
    nodes.push(Node::Statement(Statement::Binding {
        target: g,
        annotation: bound,
        init: lambda,
        faults: vec![],
        span: g.span,
        doc: None,
    }));
    let discard = naming(&mut b, "T", 28);
    let ty_name = b.ident("T", 28, 0);
    let one = b.num("1");
    nodes.push(Node::Statement(Statement::TypedDiscard {
        ty_name,
        annotation: discard,
        init: one,
        faults: vec![],
        span: ty_name.span,
    }));
    let t = b.id("T");
    let c = collect(b, nodes);
    let ty = c.module_refs.type_defid(t).unwrap();
    let mut lines: Vec<i32> = c
        .module_refs
        .occurrences
        .iter()
        .filter(|o| o.target == ty && o.kind == ReferenceKind::Unqualified)
        .map(|o| o.span.start_line)
        .collect();
    lines.sort();
    assert_eq!(lines, [21, 22, 23, 24, 25, 26, 27, 28]);
    let owned = c
        .module_refs
        .occurrences
        .iter()
        .find(|o| o.target == ty && o.span.start_line == 22)
        .and_then(|o| o.owner);
    assert_eq!(owned.map(|o| o.entity), Some(EntityKind::Type));
}

#[test]
fn what_is_wrong_with_an_annotation_is_reported() {
    let mut b = Build::new();
    let fault = b.id("Unknown type 'Nowhere'");
    let at = b.at(3, 4, 7);
    let x = b.ident("_x", 3, 0);
    let one = b.num("1");
    let bad = Node::Statement(Statement::Binding {
        target: x,
        annotation: Annotation {
            mentions: vec![],
            fault: Some((fault, at)),
        },
        init: one,
        faults: vec![],
        span: x.span,
        doc: None,
    });
    let r = run(b, vec![bad], true);
    assert_eq!(messages(&r), ["Unknown type 'Nowhere'"]);
    assert!(!r.success);
}

/// A builtin of the machine, declared with the attribute for it.
fn builtin(b: &mut Build, name: &str, key: &str, args: usize) -> Node {
    let name = b.ident(name, 40, 3);
    let key = b.ident(key, 39, 4);
    let attribute = Attribute {
        name: b.ident("vm", 39, 1),
        args,
        span: b.at(39, 0, 12),
    };
    Node::Statement(Statement::Declaration {
        decl: Declaration::Function(FunctionDecl {
            name,
            params: vec![],
            signature: vec![],
            body: FnBody::Vm(key),
            faults: vec![],
            attributes: vec![attribute],
            span: name.span,
            doc: None,
        }),
        public: true,
    })
}

#[test]
fn only_the_standard_library_declares_builtins() {
    let mut b = Build::new();
    let f = builtin(&mut b, "println", "println", 1);
    let r = run(b, vec![f], true);
    assert_eq!(
        messages(&r),
        ["'@vm' is only allowed in the standard library"]
    );

    let mut b = Build::new();
    let f = builtin(&mut b, "println", "println", 1);
    let g = builtin(&mut b, "nothing", "no_such_op", 1);
    let h = builtin(&mut b, "other", "println", 2);
    let prelude = b.prelude();
    let al = b.id("al");
    let io = b.id("io");
    let block = b.block(vec![f, g, h]);
    let r = check_as_module(&block, &vec![prelude], b.world(), io, al);
    assert_eq!(
        messages(&r),
        [
            "unknown @vm builtin 'no_such_op'",
            "'@vm' takes exactly one argument: the VM op key"
        ]
    );
}

#[test]
fn a_checked_module_is_collected_as_the_entry() {
    let mut b = Build::new();
    let one = b.num("1");
    let k = b.constant("k", one);
    let prelude = b.prelude();
    let (al, io, main) = (b.id("al"), b.id("io"), b.id("main"));
    let block = b.block(vec![k]);
    let r = check_as_module(&block, &vec![prelude], b.world(), io, al);
    assert!(r.success, "{:?}", r.diagnostics);
    assert_eq!(r.references.main.module, main);
    assert_eq!(r.references.main.definitions.len(), 1);
    assert_eq!(r.references.main.definitions[0].id.module, io);
    assert!(r.references.keys.contains_key(&io));
}

#[test]
fn the_prelude_is_checked_without_another_prelude() {
    let mut b = Build::new();
    let prelude = b.prelude();
    let body = match prelude.found {
        Found::Parsed { body, .. } => body,
        _ => unreachable!(),
    };
    let al = b.id("al");
    let block = b.block(body);
    let r = check_as_module(&block, &vec![], b.world(), al, al);
    assert!(r.success, "{:?}", r.diagnostics);
}

#[test]
fn constants_are_pooled_behind_one_another() {
    let (mut c, _) = behind_the_prelude(Build::new(), false);
    let first = c.const_int(7);
    let second = c.const_str(0);
    assert_eq!(second, first + 1);
    assert!(matches!(c.program.constants[first as usize], Const::Int(7)));
    let (mut c, _) = behind_the_prelude(Build::new(), true);
    assert_eq!((c.const_int(7), c.const_str(0)), (0, 0));
    assert!(c.program.constants.is_empty());
}

#[test]
fn a_queued_slot_is_taken_once_and_not_inside_a_function() {
    let mut b = Build::new();
    let x = b.id("x");
    let (mut c, _) = behind_the_prelude(b, true);
    c.push_block_scope();
    c.walking_module_statements = true;
    c.bind_local(x, 3);
    let frame = c.enter_fn_frame(None);
    assert_eq!(c.take_global_slot(), None);
    c.finish_fn_frame(frame, "f".to_string(), 0);
    assert_eq!(c.take_global_slot(), Some(GlobalSlot(3)));
    assert_eq!(c.take_global_slot(), None);
}

#[test]
fn an_instruction_past_the_end_is_not_fetched() {
    let one = code_of_a_sum();
    assert_eq!(fetch(&one, 0).map(|i| i.op), Some(Op::PushConst));
    assert!(fetch(&one, one.len()).is_none());
}

/// The code of a sum of constants.
fn code_of_a_sum() -> Vec<Instruction> {
    let mut b = Build::new();
    let one = b.num("1");
    let two = b.num("2");
    let sum = b.sum(one, two);
    let (mut c, _) = behind_the_prelude(b, false);
    let from = c.program.code.len();
    c.compile_expr(&sum);
    c.program.code.split_off(from)
}

#[test]
fn a_module_that_is_compiled_again_numbers_its_types_as_before() {
    let mut b = Build::new();
    let shape = b.variants(&[("A", &[])]);
    let ty = b.ty("T", &[], shape);
    let lib = source(
        &mut b,
        "lib",
        Found::Parsed {
            body: vec![ty],
            faults: vec![],
        },
    );
    let key = b.id("lib");
    let i = import(&mut b, "lib", &[]);
    let block = b.block(vec![i]);
    let mut c = IncrementalSession::new(b.world(), empty_seed());
    assert_eq!(c.module_id_base(key), None);
    let sources = vec![lib];
    c.check(&block, &sources, &vec![], vec![]);
    let base = c.module_id_base(key);
    assert_eq!(base, Some(256));
    c.check(&block, &sources, &vec![key], vec![]);
    assert_eq!(c.compile_count(), 2);
    assert_eq!(c.module_id_base(key), base);
}

#[test]
fn an_import_does_not_clobber_the_prelude() {
    let mut b = Build::new();
    let lib = library(&mut b);
    let i = import(&mut b, "lib", &["open"]);
    let x = b.ident("Some", 1, 0);
    let one = b.num("1");
    let shadow = Node::Statement(Statement::Binding {
        target: x,
        annotation: nothing(),
        init: one,
        faults: vec![],
        span: x.span,
        doc: None,
    });
    let name = b.id("Some");
    let open = b.id("open");
    let (mut c, _) = behind_the_prelude(b, true);
    c.push_env();
    let outermost = c.env[0].get(&name).copied();
    assert!(outermost.is_some());
    let sources = vec![lib];
    let body = vec![i, shadow];
    c.process_imports(&sources, &mut vec![], &body);
    c.analyse_module(&body, false);
    assert_eq!(c.env.len(), 2);
    assert_eq!(c.env[0].get(&name).copied(), outermost);
    assert!(!c.env[0].contains_key(&open));
    assert!(c.env[1].contains_key(&open));
}

/// A module of so many types.
fn types(b: &mut Build, key: &str, count: usize) -> Source {
    let mut body = vec![];
    for n in 0..count {
        body.push(b.ty(&format!("T{n}"), &[], TypeBody::External));
    }
    source(
        b,
        key,
        Found::Parsed {
            body,
            faults: vec![],
        },
    )
}

#[test]
fn a_change_to_one_module_does_not_shift_the_types_of_another() {
    let mut b = Build::new();
    let few = types(&mut b, "first", 1);
    let other = types(&mut b, "second", 1);
    let more = types(&mut b, "first", 200);
    let same = types(&mut b, "second", 1);
    let (first, second) = (b.id("first"), b.id("second"));
    let i = import(&mut b, "first", &[]);
    let j = import(&mut b, "second", &[]);
    let block = b.block(vec![i, j]);
    let mut c = IncrementalSession::new(b.world(), empty_seed());
    c.check(&block, &vec![few, other], &vec![], vec![]);
    assert_eq!(c.module_id_base(first), Some(256));
    assert_eq!(c.module_id_base(second), Some(512));
    let r = c.check(&block, &vec![more, same], &vec![first], vec![]);
    assert!(r.success, "{:?}", r.diagnostics);
    assert_eq!(c.compile_count(), 4);
    assert_eq!(c.module_id_base(first), Some(256));
    assert_eq!(c.module_id_base(second), Some(512));
}

#[test]
fn a_module_that_outgrows_its_block_has_all_compiled_anew() {
    let mut b = Build::new();
    let few = types(&mut b, "first", 1);
    let other = types(&mut b, "second", 1);
    let more = types(&mut b, "first", 300);
    let same = types(&mut b, "second", 1);
    let (first, second) = (b.id("first"), b.id("second"));
    let i = import(&mut b, "first", &[]);
    let j = import(&mut b, "second", &[]);
    let block = b.block(vec![i, j]);
    let mut c = IncrementalSession::new(b.world(), empty_seed());
    c.check(&block, &vec![few, other], &vec![], vec![]);
    let r = c.check(&block, &vec![more, same], &vec![first], vec![]);
    assert!(r.success, "{:?}", r.diagnostics);
    assert_eq!(c.compile_count(), 6);
    assert_eq!(c.module_id_base(first), Some(256));
    assert_eq!(c.module_id_base(second), Some(768));
}

#[test]
fn a_module_that_is_forgotten_takes_no_other_modules_types_along() {
    let mut b = Build::new();
    let sources = vec![types(&mut b, "first", 1), types(&mut b, "second", 1)];
    let (first, second) = (b.id("first"), b.id("second"));
    let i = import(&mut b, "first", &[]);
    let j = import(&mut b, "second", &[]);
    let forwards = b.block(vec![i, j]);
    let i = import(&mut b, "first", &[]);
    let j = import(&mut b, "second", &[]);
    let backwards = b.block(vec![j, i]);
    let mut c = IncrementalSession::new(b.world(), empty_seed());
    c.check(&forwards, &sources, &vec![], vec![]);
    c.check(&backwards, &sources, &vec![first], vec![]);
    c.check(&backwards, &sources, &vec![first], vec![]);
    assert_eq!(c.module_id_base(first), Some(256));
    assert_eq!(c.module_id_base(second), Some(512));
    assert_eq!(c.compile_count(), 5);
}

/// A fault at a place.
fn fault(b: &mut Build, text: &str, line: i32) -> TypeFault {
    TypeFault {
        text: b.id(text),
        span: b.at(line, 0, 1),
    }
}

#[test]
fn a_type_error_is_the_only_diagnostic() {
    let mut b = Build::new();
    let x = b.ident("x", 0, 7);
    let left = b.name("x", 1, 2);
    let right = Expr::Str {
        value: b.id("not an int"),
        span: b.at(1, 6, 12),
    };
    let mismatch = fault(&mut b, "Type mismatch: expected Int, got String", 1);
    let sum = match b.sum(left, right) {
        Expr::Binary(e) => Expr::Binary(BinaryExpr {
            right_faults: vec![mismatch],
            ..e
        }),
        _ => unreachable!(),
    };
    let sum = b.expr(sum);
    let body = b.block(vec![sum]);
    let bad = b.function("bad", vec![x], body, false);
    let y = b.ident("y", 3, 8);
    let left = b.name("y", 4, 2);
    let one = b.num("1");
    let sum = b.sum(left, one);
    let sum = b.expr(sum);
    let body = b.block(vec![sum]);
    let good = b.function("good", vec![y], body, false);
    let callee = b.name("good", 6, 0);
    let one = b.num("1");
    let call = b.call(callee, vec![one]);
    let call = b.expr(call);
    let r = run(b, vec![bad, good, call], false);
    assert!(!r.success);
    let errors: Vec<&str> = r
        .diagnostics
        .iter()
        .filter(|d| d.severity == Severity::Error)
        .map(|d| d.message.as_str())
        .collect();
    assert_eq!(errors, ["Type mismatch: expected Int, got String"]);
    assert_eq!(r.diagnostics[0].span.start_line, 1);
}

#[test]
fn faults_are_reported_where_the_types_are_asked_for() {
    let mut b = Build::new();
    let condition = b.name("nowhere", 1, 0);
    let (one, two) = (b.num("1"), b.num("2"));
    let either = Expr::If {
        condition: Box::new(condition),
        condition_faults: vec![fault(&mut b, "condition", 2)],
        body: Box::new(one),
        else_body: Box::new(two),
        branch_faults: vec![fault(&mut b, "first", 3), fault(&mut b, "second", 4)],
        span: b.at(1, 0, 9),
    };
    let index = b.num("0");
    let array = b.name("nothing", 5, 0);
    let at = Expr::Index {
        array: Box::new(array),
        array_faults: vec![fault(&mut b, "array", 5)],
        index: Box::new(index),
        index_faults: vec![fault(&mut b, "index", 6)],
        span: b.at(5, 0, 9),
    };
    let body = vec![b.expr(either), b.expr(at)];
    let r = run(b, body, true);
    assert_eq!(
        messages(&r),
        [
            "Unknown identifier 'nowhere'",
            "condition",
            "first",
            "second",
            "Unknown identifier 'nothing'",
            "array",
            "index"
        ]
    );
}

#[test]
fn a_pattern_that_does_not_fit_is_not_checked_for_coverage() {
    let mut b = Build::new();
    let x = b.ident("x", 0, 5);
    let fits = |b: &mut Build, faults| {
        let subject = b.name("x", 1, 0);
        let id = b.ident("_v", 82, 4);
        let bound = Pattern::Var {
            id,
            faults: vec![],
        };
        let some = Pattern::Or {
            patterns: vec![
                Pattern::Tuple {
                    elements: vec![bound],
                    faults,
                    span: b.at(82, 0, 1),
                },
                var(id),
            ],
            unlike: vec![],
            span: b.at(82, 0, 9),
        };
        let zero = b.num("0");
        match b.matching(subject, vec![(some, zero)]) {
            Expr::Match(m) => Expr::Match(MatchExpr {
                missing: Some(b.id("None")),
                ..m
            }),
            _ => unreachable!(),
        }
    };
    let mismatch = fault(&mut b, "not a tuple", 82);
    let good = fits(&mut b, vec![]);
    let bad = fits(&mut b, vec![mismatch]);
    let f = b.function("f", vec![x], good, false);
    let y = b.ident("x", 9, 5);
    let g = b.function("g", vec![y], bad, false);
    let r = run(b, vec![f, g], true);
    assert_eq!(
        messages(&r),
        ["Match is not exhaustive, missing: None", "not a tuple"]
    );
}

#[test]
fn an_alternative_has_to_bind_what_the_first_binds() {
    let mut b = Build::new();
    let (p, q) = (b.ident("_p", 1, 0), b.ident("_q", 1, 5));
    let unlike = fault(&mut b, "'_p' is not bound in all alternatives", 1);
    let pattern = Pattern::Or {
        patterns: vec![var(p), var(q)],
        unlike: vec![vec![unlike]],
        span: b.at(1, 0, 7),
    };
    let (mut c, _) = behind_the_prelude(b, true);
    let mut ids = vec![];
    assert!(!c.type_pattern(&pattern, &mut ids));
    assert_eq!(ids, [p]);
    assert_eq!(texts(&c), ["'_p' is not bound in all alternatives"]);
}

#[test]
fn nothing_is_collected_behind_a_prelude_that_failed() {
    let mut b = Build::new();
    let one = b.num("1");
    let x = b.bind("x", 1, 0, one);
    let block = b.block(vec![x]);
    let al = b.id("al");
    let r = compile(&block, &vec![], b.world(), PreludeFrom::Module(al));
    assert!(!r.success);
    assert_eq!(messages(&r), ["Unknown module 'al' (not found)"]);
    assert!(r.references.modules.is_empty());
    assert!(r.references.main.definitions.is_empty());
    assert!(r.references.main.occurrences.is_empty());
}

#[test]
fn a_check_says_what_a_compilation_says() {
    let program = || {
        let mut b = Build::new();
        let x = b.ident("x", 0, 5);
        let unknown = b.name("nowhere", 1, 0);
        let value = b.name("x", 3, 0);
        let one = b.num("1");
        let or = b.or(value, None, one);
        let sum = b.sum(unknown, or);
        let body = b.expr(sum);
        let body = b.block(vec![body]);
        let f = b.function("f", vec![x], body, false);
        let two = b.num("2");
        let unused = b.bind("y", 4, 0, two);
        (b, vec![f, unused])
    };
    let (b, body) = program();
    let compiled = run(b, body, false);
    let (b, body) = program();
    let checked = run(b, body, true);
    assert_eq!(messages(&checked), messages(&compiled));
    assert_eq!(checked.success, compiled.success);
    assert!(checked.program.code.is_empty() && !compiled.program.code.is_empty());
}

#[test]
fn closing_a_scope_undoes_whatever_was_bound_in_it() {
    let mut b = Build::new();
    let (x, y, z) = (b.id("x"), b.id("y"), b.id("z"));
    let (mut c, _) = behind_the_prelude(b, true);
    c.push_local_scope();
    c.bind_local(x, 1);
    let before = (scope(&c), c.locals[&x], c.undo_log.len());
    let count = c.local_count;
    c.push_local_scope();
    c.bind_local(x, 5);
    c.push_local_scope();
    c.get_or_create_local(y);
    c.bind_local(x, 6);
    c.pop_local_scope();
    c.bind_local(x, 7);
    c.get_or_create_local(z);
    c.pop_local_scope();
    assert_eq!((scope(&c), c.locals[&x], c.undo_log.len()), before);
    assert_eq!(c.local_count, count + 2);
}

#[test]
fn definitions_carry_their_documentation_and_the_names_they_take() {
    let mut b = Build::new();
    let docs: Vec<StrId> = ["a function", "a constant", "a type", "a variant", "a local"]
        .iter()
        .map(|d| b.id(d))
        .collect();
    let (x, y) = (b.ident("x", 50, 5), b.ident("y", 50, 8));
    let body = b.name("x", 51, 2);
    let mut function = b.function("f", vec![x, y], body, true);
    let one = b.num("1");
    let mut constant = b.constant("k", one);
    let mut variants = b.variants(&[("Pair", &["left", "right"])]);
    if let TypeBody::Variants { ctors, .. } = &mut variants {
        ctors[0].doc = Some(docs[3]);
    }
    let mut ty = b.ty("Both", &[], variants);
    for node in [&mut function, &mut constant, &mut ty] {
        if let Node::Statement(Statement::Declaration { decl, .. }) = node {
            match decl {
                Declaration::Function(f) => f.doc = Some(docs[0]),
                Declaration::Const(c) => c.doc = Some(docs[1]),
                Declaration::Type(t) => t.doc = Some(docs[2]),
            }
        }
    }
    let two = b.num("2");
    let mut local = b.bind("z", 80, 0, two);
    if let Node::Statement(Statement::Binding { doc, .. }) = &mut local {
        *doc = Some(docs[4]);
    }
    let names: Vec<StrId> = ["f", "k", "Both", "Pair", "z"].iter().map(|n| b.id(n)).collect();
    let (left, right) = (b.id("left"), b.id("right"));
    let (mut c, _) = behind_the_prelude(b, true);
    c.collect_local_defs = true;
    let iface = c.analyse_module(&vec![function, constant, ty, local], false);
    for (name, doc) in names.iter().zip(&docs) {
        let def = c.module_refs.definition(sole_def(&c, *name)).unwrap();
        assert_eq!(def.doc, Some(*doc));
    }
    let field = c.module_refs.definition(sole_def(&c, left)).unwrap();
    assert_eq!(field.doc, None);
    let (f, pair) = (sole_def(&c, names[0]), sole_def(&c, names[3]));
    assert_eq!(
        c.module_refs.params,
        [(pair, left), (pair, right), (f, x.name), (f, y.name)]
    );
    let taken = |name: StrId| {
        let at = iface.values[&name].params;
        c.labels[at.start as usize..at.start as usize + at.len as usize].to_vec()
    };
    assert_eq!(taken(names[0]), [x.name, y.name]);
    assert_eq!(taken(names[1]), [0; 0]);
    assert_eq!(taken(names[3]), [left, right]);
    assert_eq!(iface.values[&names[0]].doc, Some(docs[0]));
    assert_eq!(iface.values[&names[1]].doc, Some(docs[1]));
    assert_eq!(iface.values[&names[3]].doc, Some(docs[3]));
}

#[test]
fn patterns_bind_what_their_constructors_take() {
    let cases: [(&str, usize, &[&str], &str); 4] = [
        ("Some", 1, &["a"], ""),
        ("Some", 2, &["a"], "Constructor 'Some' has 1 field(s) but more were supplied"),
        ("None", 1, &[], "Constructor 'None' takes no arguments but 1 were given"),
        ("Nope", 2, &[], "Unknown constructor 'Nope' in pattern"),
    ];
    for (ctor, given, bound, message) in cases {
        let mut b = Build::new();
        let args = ["a", "b"][..given].iter().map(|n| var(b.ident(n, 1, 5))).collect();
        let pattern = b.ctor_pattern(ctor, args);
        let expected: Vec<StrId> = bound.iter().map(|n| b.id(n)).collect();
        let (mut c, _) = behind_the_prelude(b, true);
        let mut ids = vec![];
        assert_eq!(c.type_pattern(&pattern, &mut ids), message.is_empty());
        assert_eq!(ids.iter().map(|id| id.name).collect::<Vec<_>>(), expected);
        if !message.is_empty() {
            assert_eq!(texts(&c), [message]);
        }
    }

    let mut b = Build::new();
    let x = b.ident("x", 1, 0);
    let subject = b.name("x", 2, 0);
    let inner = var(b.ident("y", 3, 5));
    let pattern = b.ctor_pattern("Nope", vec![inner]);
    let body = b.name("y", 3, 9);
    let m = b.matching(subject, vec![(pattern, body)]);
    let f = b.function("f", vec![x], m, true);
    let r = run(b, vec![f], true);
    assert_eq!(
        messages(&r),
        ["Unknown constructor 'Nope' in pattern", "Unknown identifier 'y'"]
    );
}

#[test]
fn labelled_arguments_bind_in_the_order_of_the_fields() {
    let mut b = Build::new();
    let variants = b.variants(&[("Pair", &["left", "right"])]);
    let ty = b.ty("Both", &[], variants);
    let (right, left) = (b.ident("right", 1, 5), b.ident("left", 1, 15));
    let (p, q) = (b.ident("p", 1, 12), b.ident("q", 1, 21));
    let name = b.ident("Pair", 1, 0);
    let pattern = Pattern::Constructor {
        name,
        args: vec![
            PatternArg::Labeled { label: right, pattern: var(p) },
            PatternArg::Labeled { label: left, pattern: var(q) },
        ],
        rest: false,
        faults: vec![],
        span: name.span,
    };
    let (mut c, _) = behind_the_prelude(b, true);
    c.analyse_module(&vec![ty], false);
    let mut ids = vec![];
    assert!(c.type_pattern(&pattern, &mut ids));
    assert_eq!(ids, [q, p]);
}

#[test]
fn winding_back_takes_names_out_of_the_outermost_scope() {
    let mut b = Build::new();
    let (some, new) = (b.id("Some"), b.id("new"));
    let (mut c, _) = behind_the_prelude(b, true);
    let before = c.lookup(some).unwrap();
    let w = c.watermark();
    c.define(new, before);
    assert_eq!(c.lookup(new), Some(before));
    c.reset_to(&w);
    assert_eq!(c.lookup(new), None);
    assert_eq!(c.lookup(some), Some(before));
    c.reset_to(&w);
    assert_eq!(c.lookup(some), Some(before));
}

#[test]
fn a_second_check_of_loaded_modules_succeeds() {
    let mut b = Build::new();
    let lib = library(&mut b);
    let i = import(&mut b, "lib", &["open"]);
    let open = b.name("open", 1, 0);
    let call = b.call(open, vec![]);
    let x = b.bind("_x", 1, 0, call);
    let variants = b.variants(&[("Pair", &["left", "right"])]);
    let ty = b.ty("Both", &[], variants);
    let block = b.block(vec![i, ty, x]);
    let mut c = IncrementalSession::new(b.world(), empty_seed());
    let sources = vec![lib];
    for _ in 0..4 {
        let r = c.check(&block, &sources, &vec![], vec![]);
        assert!(r.success && r.diagnostics.is_empty(), "{:?}", r.diagnostics);
        assert_eq!(c.compile_count(), 1);
    }
}

#[test]
fn what_a_module_imports_is_in_scope_until_the_next_check() {
    let mut b = Build::new();
    let lib = library(&mut b);
    let i = import(&mut b, "lib", &["open"]);
    let middle = source(
        &mut b,
        "middle",
        Found::Parsed {
            body: vec![i],
            faults: vec![],
        },
    );
    let i = import(&mut b, "middle", &[]);
    let open = b.name("open", 1, 0);
    let open = b.call(open, vec![]);
    let x = b.bind("_x", 1, 0, open);
    let block = b.block(vec![i, x]);
    let mut c = IncrementalSession::new(b.world(), empty_seed());
    let sources = vec![lib, middle];
    assert!(c.check(&block, &sources, &vec![], vec![]).success);
    let second = c.check(&block, &sources, &vec![], vec![]);
    assert_eq!(messages(&second), ["Unknown identifier 'open'"]);
    assert_eq!(c.compile_count(), 2);
}

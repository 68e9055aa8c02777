//! How expressions are evaluated.
//!
//! What an operator or a condition makes of the values of its parts, whatever the code of the
//! parts does to get them.
use crate::ast::{BinaryExpr, Expr, TypeFault};
use crate::binop::{kind_of, specialized, BinaryOp, Prim};
use crate::gen::{binary, binary_body, expr, expr_body, Matching};
use crate::landing::{group_landing, lands, lands_but};
use crate::landing::exprs::lemma_expr;
use crate::machine::{
    fits_int, is_binary, lemma_reaches_on, lemma_reaches_self, reaches, Config, Given, Image, Value,
};
use crate::op::{instr, Instruction, Op};
use crate::running::{at_end, carries, lemma_further, lemma_line, lemma_op, same_but_open};
use crate::scopes::from_here;
use crate::state::State;
use vstd::prelude::*;

verus! {

/// Code in which no jump is open.
pub open spec fn whole(s: State) -> Matching {
    Matching { s, fails: Seq::empty() }
}

/// Whether the code of an expression pushes a value.
pub open spec fn evaluates(
    g: Given,
    img: Image,
    e: Expr,
    s: State,
    stack: Seq<Value>,
    before: Map<int, Value>,
    v: Value,
    after: Map<int, Value>,
) -> bool {
    reaches(g, img, at_end(s, stack, before), at_end(expr(e, s), stack.push(v), after))
}

/// What an operator makes of two values: of two integers, or, asked whether they are the
/// same, of any two. Division is left out.
pub open spec fn meaning(op: BinaryOp, a: Value, b: Value) -> Option<Value> {
    match op {
        BinaryOp::Eq => Some(Value::Bool(a == b)),
        BinaryOp::Ne => Some(Value::Bool(a != b)),
        _ => match (a, b) {
            (Value::Int(x), Value::Int(y)) => match op {
                BinaryOp::Add => if fits_int(x + y) {
                    Some(Value::Int(x + y))
                } else {
                    None
                },
                BinaryOp::Sub => if fits_int(x - y) {
                    Some(Value::Int(x - y))
                } else {
                    None
                },
                BinaryOp::Mul => if fits_int(x * y) {
                    Some(Value::Int(x * y))
                } else {
                    None
                },
                BinaryOp::Lt => Some(Value::Bool(x < y)),
                BinaryOp::Le => Some(Value::Bool(x <= y)),
                BinaryOp::Gt => Some(Value::Bool(x > y)),
                BinaryOp::Ge => Some(Value::Bool(x >= y)),
                _ => None,
            },
            _ => None,
        },
    }
}

proof fn lemma_misfit(s: State, faults: Seq<TypeFault>)
    ensures
        s.misfit(faults).out == s.out,
        lands(s, s.misfit(faults)),
{
    reveal(State::misfit);
    crate::landing::lemma_same_out(s, s.misfit(faults));
}

/// The opcode of an operator computes what the operator means.
proof fn lemma_meaning(g: Given, op: BinaryOp, prim: Option<Prim>, a: Value, b: Value)
    requires
        op != BinaryOp::And && op != BinaryOp::Or,
        prim matches Some(p) ==> p == Prim::Int && a is Int && b is Int,
        meaning(op, a, b) is Some,
    ensures
        kind_of(op) is Value,
        is_binary(specialized(kind_of(op)->Value_0, prim)),
        g.binary(specialized(kind_of(op)->Value_0, prim), a, b) == meaning(op, a, b),
{
}

/// Applying an operation to the two topmost values.
proof fn lemma_applied(
    g: Given,
    img: Image,
    m: Matching,
    o: Op,
    c: Config,
    stack: Seq<Value>,
    a: Value,
    b: Value,
    l: Map<int, Value>,
    r: Value,
)
    requires
        carries(img, m, m.at(m.s.emit(o))),
        is_binary(o),
        g.binary(o, a, b) == Some(r),
        reaches(g, img, c, at_end(m.s, stack.push(a).push(b), l)),
    ensures
        reaches(g, img, c, at_end(m.s.emit(o), stack.push(r), l)),
{
    let full = stack.push(a).push(b);
    assert(at_end(m.s, full, l).without(2) =~= stack);
    lemma_op(g, img, m, instr(o, 0, 0, 0), c, full, l, stack.push(r));
}

/// An operator is applied to the value of the left side and that of the right side, in that
/// order, and the left side is evaluated first.
pub proof fn law_operators_apply_to_both_sides(
    g: Given,
    img: Image,
    e: BinaryExpr,
    s: State,
    stack: Seq<Value>,
    l0: Map<int, Value>,
    a: Value,
    l1: Map<int, Value>,
    b: Value,
    l2: Map<int, Value>,
)
    requires
        e.op != BinaryOp::And && e.op != BinaryOp::Or,
        e.prim matches Some(p) ==> p == Prim::Int && a is Int && b is Int,
        carries(img, whole(s), whole(binary(e, s))),
        evaluates(g, img, *e.left, s, stack, l0, a, l1),
        evaluates(g, img, *e.right, expr(*e.left, s), stack.push(a), l1, b, l2),
        meaning(e.op, a, b) is Some,
    ensures
        reaches(
            g,
            img,
            at_end(s, stack, l0),
            at_end(binary(e, s), stack.push(meaning(e.op, a, b)->0), l2),
        ),
{
    lemma_meaning(g, e.op, e.prim, a, b);
    let o = specialized(kind_of(e.op)->Value_0, e.prim);
    let c = at_end(s, stack, l0);
    let s1 = expr(*e.left, s);
    let s2 = expr(*e.right, s1);
    let s3 = s2.misfit(e.left_faults@).misfit(e.right_faults@);
    let t = s3.emit(o);
    assert(binary(e, s) == t) by {
        reveal(binary_body);
        assert(binary(e, s) == binary_body(e, s));
    }
    let full = stack.push(a).push(b);
    lemma_reaches_on(g, img, c, at_end(s1, stack.push(a), l1), at_end(s2, full, l2));
    lemma_misfit(s2, e.left_faults@);
    lemma_misfit(s2.misfit(e.left_faults@), e.right_faults@);
    lemma_expr(*e.left, s);
    lemma_expr(*e.right, s1);
    assert(lands(s, s3) && lands(s3, t)) by {
        broadcast use group_landing;

        assert(from_here(s) && from_here(s3));
        assert(lands(s, s2));
        assert(lands(s, s2.misfit(e.left_faults@)));
    }
    lemma_line(img, whole(s), s3, t);
    assert(at_end(s3, full, l2) == at_end(s2, full, l2));
    lemma_applied(g, img, whole(s3), o, c, stack, a, b, l2, meaning(e.op, a, b)->0);
}

/// The instructions that were there are still there.
proof fn lemma_stays(s: State, t: State, i: int)
    requires
        lands(s, t),
        !s.out.check_only,
        t.out.code.len() <= i32::MAX,
        0 <= i < s.out.code.len(),
    ensures
        t.out.code[i] == s.out.code[i],
        s.out.code.len() <= t.out.code.len(),
        !t.out.check_only,
{
    reveal(lands_but);
    assert(t.out.code.take(s.out.code.len() as int)[i] == t.out.code[i]);
}

proof fn lemma_longer(s: State, t: State)
    requires
        lands(s, t),
    ensures
        s.out.code.len() <= t.out.code.len(),
        t.out.check_only == s.out.check_only,
{
    reveal(lands_but);
}

/// Where the left side of an `and` is false, or that of an `or` is true, it is the result and
/// the right side is left out. Else the left side's value is dropped and the right side is
/// evaluated, at whose end the operation ends: its value is the result. The state that is
/// returned is the one in which the right side is compiled.
pub proof fn law_and_or_leave_out_the_right_side(
    g: Given,
    img: Image,
    e: BinaryExpr,
    s: State,
    stack: Seq<Value>,
    l0: Map<int, Value>,
    a: bool,
    l1: Map<int, Value>,
) -> (r: State)
    requires
        e.op == BinaryOp::And || e.op == BinaryOp::Or,
        carries(img, whole(s), whole(binary(e, s))),
        evaluates(g, img, *e.left, s, stack, l0, Value::Bool(a), l1),
    ensures
        expr(*e.left, s).out.code.len() < r.out.code.len(),
        expr(*e.right, r).out.code.len() == binary(e, s).out.code.len(),
        a == (e.op == BinaryOp::Or) ==> reaches(
            g,
            img,
            at_end(s, stack, l0),
            at_end(binary(e, s), stack.push(Value::Bool(a)), l1),
        ),
        a == (e.op == BinaryOp::And) ==> reaches(
            g,
            img,
            at_end(s, stack, l0),
            at_end(r, stack, l1),
        ),
{
    let c = at_end(s, stack, l0);
    let s1 = expr(*e.left, s);
    let s2 = s1.misfit(e.left_faults@);
    lemma_misfit(s1, e.left_faults@);
    lemma_expr(*e.left, s);
    lemma_longer(s, s1);
    let t = s2.emit(Op::Dup);
    let o = if e.op == BinaryOp::And {
        Op::JumpIfFalse
    } else {
        Op::JumpIfTrue
    };
    let u = t.emit_arg(o, 0).emit(Op::Pop);
    let w0 = expr(*e.right, u);
    let w = w0.misfit(e.right_faults@);
    let n = w.patch(t.pos() as int);
    assert(n == binary(e, s)) by {
        reveal(binary_body);
        assert(binary(e, s) == binary_body(e, s));
    }
    lemma_expr(*e.right, u);
    lemma_misfit(w0, e.right_faults@);
    let i = s1.out.code.len() as int;
    let end = n.out.code.len() as int;
    assert(lands(u, w)) by {
        broadcast use group_landing;

        assert(from_here(u));
    }
    lemma_skipping(s2, o, w, n);
    assert(img.code[i] == n.out.code[i] && img.code[i + 1] == n.out.code[i + 1] && img.code[i + 2]
        == n.out.code[i + 2]) by {
        assert(same_but_open(img.code[i], n.out.code[i], false));
        assert(same_but_open(img.code[i + 1], n.out.code[i + 1], false));
        assert(same_but_open(img.code[i + 2], n.out.code[i + 2], false));
    }
    let v = Value::Bool(a);
    let d0 = at_end(s1, stack.push(v), l1);
    let d1 = Config { pc: i + 1, stack: stack.push(v).push(v), locals: l1 };
    lemma_further(g, img, c, d0, d1);
    assert(d1.without(1) =~= stack.push(v));
    if a == (e.op == BinaryOp::Or) {
        lemma_further(g, img, c, d1, at_end(n, stack.push(v), l1));
    } else {
        let d2 = Config { pc: i + 2, stack: stack.push(v), locals: l1 };
        lemma_further(g, img, c, d1, d2);
        assert(d2.without(1) =~= stack);
        lemma_further(g, img, c, d2, at_end(u, stack, l1));
    }
    u
}

/// The instructions between the sides of an operation that may leave out its right side.
proof fn lemma_skipping(s: State, o: Op, w: State, n: State)
    requires
        !s.out.check_only,
        lands(s.emit(Op::Dup).emit_arg(o, 0).emit(Op::Pop), w),
        n == w.patch(s.emit(Op::Dup).pos() as int),
        n.out.code.len() <= i32::MAX,
    ensures
        ({
            let i = s.out.code.len() as int;
            &&& n.out.code.len() == w.out.code.len()
            &&& i + 3 <= n.out.code.len()
            &&& s.emit(Op::Dup).emit_arg(o, 0).emit(Op::Pop).out.code.len() == i + 3
            &&& n.out.code[i] == instr(Op::Dup, 0, 0, 0)
            &&& n.out.code[i + 1] == instr(o, 0, 0, n.out.code.len() as i32)
            &&& n.out.code[i + 2] == instr(Op::Pop, 0, 0, 0)
        }),
{
    reveal(State::push);
    reveal(State::pos);
    reveal(State::patch);
    let i = s.out.code.len() as int;
    let t = s.emit(Op::Dup);
    let u = t.emit_arg(o, 0).emit(Op::Pop);
    assert(u.out.code[i] == instr(Op::Dup, 0, 0, 0));
    assert(u.out.code[i + 1] == instr(o, 0, 0, 0));
    assert(u.out.code[i + 2] == instr(Op::Pop, 0, 0, 0));
    lemma_longer(u, w);
    assert(n.out.code.len() == w.out.code.len());
    lemma_stays(u, w, i);
    lemma_stays(u, w, i + 1);
    lemma_stays(u, w, i + 2);
    assert(t.pos() as int == i + 1);
}

/// Where a condition is true the body is run and the other branch is left out; where it is
/// false, the other branch is run. Either begins with the stack as it was, and the code ends
/// where either has ended. The states that are returned are those in which the branches are
/// compiled.
pub proof fn law_conditions_choose_a_branch(
    g: Given,
    img: Image,
    e: Expr,
    s: State,
    stack: Seq<Value>,
    l0: Map<int, Value>,
    b: bool,
    l1: Map<int, Value>,
) -> (r: (State, State))
    requires
        e is If,
        carries(img, whole(s), whole(expr(e, s))),
        evaluates(g, img, *e->If_condition, s.set_tail(false), stack, l0, Value::Bool(b), l1),
    ensures
        b ==> reaches(g, img, at_end(s, stack, l0), at_end(r.0, stack, l1)),
        !b ==> reaches(g, img, at_end(s, stack, l0), at_end(r.1, stack, l1)),
        forall|st: Seq<Value>, l: Map<int, Value>|
            reaches(
                g,
                img,
                #[trigger] at_end(expr(*e->If_body, r.0), st, l),
                at_end(expr(e, s), st, l),
            ),
        expr(*e->If_else_body, r.1).out.code.len() == expr(e, s).out.code.len(),
        r.0.loc.tail == s.loc.tail && r.1.loc.tail == s.loc.tail,
{
    reveal(State::push);
    reveal(State::pos);
    reveal(State::patch);
    reveal(State::set_tail);
    let tail = s.loc.tail;
    let t = s.set_tail(false);
    let (condition, body, other) = (*e->If_condition, *e->If_body, *e->If_else_body);
    let c = at_end(s, stack, l0);
    assert(c == at_end(t, stack, l0));
    let s0 = expr(condition, t);
    lemma_expr(condition, t);
    let s1 = s0.misfit(e->If_condition_faults@);
    lemma_misfit(s0, e->If_condition_faults@);
    let ra = s1.emit_arg(Op::JumpIfFalse, 0).set_tail(tail);
    let ea = expr(body, ra);
    lemma_expr(body, ra);
    let s2 = ea.set_tail(false);
    let s3 = s2.emit_arg(Op::Jump, 0).patch(s1.pos() as int);
    let rb = s3.set_tail(tail);
    let eb = expr(other, rb);
    lemma_expr(other, rb);
    let s4 = eb.set_tail(false).patch(s2.pos() as int);
    let n = s4.misfit(e->If_branch_faults@);
    lemma_misfit(s4, e->If_branch_faults@);
    assert(n == expr(e, s)) by {
        reveal(expr_body);
        assert(expr(e, s) == expr_body(e, tail, t));
    }
    lemma_longer(t, s0);
    lemma_longer(ra, ea);
    lemma_longer(rb, eb);
    let i = s0.out.code.len() as int;
    let k = ea.out.code.len() as int;
    let end = n.out.code.len() as int;
    assert(ra.out.code[i] == instr(Op::JumpIfFalse, 0, 0, 0));
    lemma_stays(ra, ea, i);
    assert(s1.pos() as int == i && s2.pos() as int == k);
    assert(s3.out.code[i] == (Instruction {
        operand: (k + 1) as i32,
        ..instr(Op::JumpIfFalse, 0, 0, 0)
    }));
    assert(s3.out.code[k] == instr(Op::Jump, 0, 0, 0));
    lemma_stays(rb, eb, i);
    lemma_stays(rb, eb, k);
    assert(n.out.code[i] == s3.out.code[i]);
    assert(n.out.code[k] == (Instruction { operand: end as i32, ..instr(Op::Jump, 0, 0, 0) }));
    assert(same_but_open(img.code[i], n.out.code[i], false));
    assert(same_but_open(img.code[k], n.out.code[k], false));
    let d = at_end(s0, stack.push(Value::Bool(b)), l1);
    assert(d.without(1) =~= stack);
    if b {
        lemma_further(g, img, c, d, at_end(ra, stack, l1));
    } else {
        lemma_further(g, img, c, d, at_end(rb, stack, l1));
    }
    assert forall|st: Seq<Value>, l: Map<int, Value>|
        reaches(g, img, #[trigger] at_end(ea, st, l), at_end(n, st, l)) by {
        let x = at_end(ea, st, l);
        lemma_reaches_self(g, img, x);
        lemma_further(g, img, x, x, at_end(n, st, l));
    }
    (ra, rb)
}

} // verus!

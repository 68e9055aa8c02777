//! What holds of compiling as a whole.
use crate::ast::{CallExpr, Expr, Ident, Node, StrId, TypeFault};
use crate::balance::calls::lemma_positional;
use crate::balance::exprs::{lemma_declared, lemma_expr, lemma_node};
use crate::gen::{call, call_body, declared_function, expr, expr_body, node, positional};
use crate::landing;
use crate::landing::{lands_but, settled};
use crate::op::{instr, Instruction, Op};
use crate::pieces::group_pieces;
use crate::scopes::{
    begins_with, from_here, gives_up, group_steps, in_function, leaves, lemma_load, same_block,
    same_scope, steady,
};
use crate::state::{unwound, State, VarAccess};
use vstd::prelude::*;

verus! {

broadcast use {group_steps, group_pieces};

/// An expression leaves the scope as it was, whatever blocks and functions it
/// holds: every name is bound to the slot it was bound to and denotes what it
/// denoted.
pub proof fn law_expressions_leave_the_scope(e: Expr, s: State)
    ensures
        expr(e, s).loc.map == s.loc.map,
        expr(e, s).loc.undo == s.loc.undo,
        expr(e, s).loc.marks == s.loc.marks,
        expr(e, s).loc.outer == s.loc.outer,
        expr(e, s).loc.overrides == s.loc.overrides,
        expr(e, s).env == s.env,
        expr(e, s).unused.len() == s.unused.len(),
{
    lemma_expr(e, s);
    reveal(same_scope);
}

/// Checking an expression produces no code, no constants and no functions.
pub proof fn law_checking_produces_nothing(e: Expr, s: State)
    requires
        s.out.check_only,
    ensures
        expr(e, s).out == s.out,
{
    lemma_expr(e, s);
    reveal(steady);
}

/// Compiling an expression takes no diagnostic back, and changes nothing that is
/// known of types and other modules.
pub proof fn law_diagnostics_stand(e: Expr, s: State)
    ensures
        begins_with(expr(e, s).diags, s.diags),
        expr(e, s).known == s.known,
        expr(e, s).world == s.world,
{
    lemma_expr(e, s);
    reveal(steady);
}

/// A statement changes the innermost block at most: the scopes around it are as
/// they were, and closing the block unbinds what the statement bound.
pub proof fn law_statements_stay_in_their_block(n: Node, s: State)
    requires
        s.loc.marks.len() > 0,
    ensures
        node(n, s).loc.marks == s.loc.marks,
        node(n, s).loc.outer == s.loc.outer,
        node(n, s).env.len() == s.env.len(),
        s.env.len() > 0 ==> node(n, s).env.drop_last() == s.env.drop_last(),
        unwound(node(n, s).loc.map, node(n, s).loc.undo, s.loc.undo.len()) == s.loc.map,
{
    lemma_node(n, s);
    reveal(same_block);
}

/// A declared function leaves the scope around it as it was.
pub proof fn law_functions_leave_the_scope(
    name: StrId,
    params: Seq<Ident>,
    body: Expr,
    faults: Seq<TypeFault>,
    s: State,
)
    ensures
        declared_function(name, params, body, faults, s).loc.map == s.loc.map,
        declared_function(name, params, body, faults, s).loc.outer == s.loc.outer,
        declared_function(name, params, body, faults, s).loc.marks == s.loc.marks,
        declared_function(name, params, body, faults, s).env == s.env,
{
    lemma_declared(name, params, body, faults, s);
    reveal(same_scope);
}

/// Compiling an expression adds code behind what was emitted before, which stays as it
/// is, and every jump it adds lands in what it adds. This speaks of code whose addresses
/// fit an operand.
pub proof fn law_jumps_stay_in_their_expression(e: Expr, s: State, i: int)
    requires
        !s.out.check_only,
        expr(e, s).out.code.len() <= i32::MAX,
        s.out.code.len() <= i < expr(e, s).out.code.len(),
    ensures
        begins_with(expr(e, s).out.code, s.out.code),
        expr(e, s).out.code[i].op.jumps() ==> s.out.code.len() <= expr(e, s).out.code[i].operand
            <= expr(e, s).out.code.len(),
{
    landing::exprs::lemma_expr(e, s);
    reveal(lands_but);
    assert(settled(s.out.code.len(), expr(e, s).out.code, i));
}

/// Compiling an expression takes no constant and no function back.
pub proof fn law_constants_stand(e: Expr, s: State)
    ensures
        begins_with(expr(e, s).out.consts, s.out.consts),
        begins_with(expr(e, s).out.fns, s.out.fns),
{
    landing::exprs::lemma_expr(e, s);
    reveal(lands_but);
}

/// A frame is given up in tail position only: an expression compiled anywhere else adds no
/// tail call, but in the code of the functions that it holds, which are entered with it.
pub proof fn law_frames_are_given_up_last(e: Expr, s: State, i: int)
    requires
        !s.loc.tail,
        s.out.code.len() <= i < expr(e, s).out.code.len() <= i32::MAX,
    ensures
        ({
            let t = expr(e, s);
            t.out.code[i].op == Op::TailCall || t.out.code[i].op == Op::TailCallSelf ==> exists|
                k: int,
            |
                s.out.fns.len() <= k < t.out.fns.len() && (#[trigger] t.out.fns[k]).code_start <= i
                    < t.out.fns[k].code_start + t.out.fns[k].code_len
        }),
{
    lemma_expr(e, s);
    reveal(same_scope);
    let t = expr(e, s);
    if gives_up(t.out.code[i].op) {
        assert(in_function(t.out.fns, s.out.fns.len(), i));
    }
}

/// A statement gives up no frame that is not a function's of its own, unless it stands in
/// tail position.
pub proof fn law_statements_give_up_no_frame(n: Node, s: State, i: int)
    requires
        !s.loc.tail,
        s.out.code.len() <= i < node(n, s).out.code.len() <= i32::MAX,
    ensures
        ({
            let t = node(n, s);
            t.out.code[i].op == Op::TailCall || t.out.code[i].op == Op::TailCallSelf ==> exists|
                k: int,
            |
                s.out.fns.len() <= k < t.out.fns.len() && (#[trigger] t.out.fns[k]).code_start <= i
                    < t.out.fns[k].code_start + t.out.fns[k].code_len
        }),
{
    lemma_node(n, s);
    reveal(same_block);
    let t = node(n, s);
    if gives_up(t.out.code[i].op) {
        assert(in_function(t.out.fns, s.out.fns.len(), i));
    }
}

/// A call ends with the instruction that calls, with as many arguments as the call has: one
/// that gives up the frame in tail position, and one that comes back anywhere else.
pub proof fn law_calls_end_by_calling(c: CallExpr, s: State)
    requires
        !s.out.check_only,
        match s.set_tail(false).callee(*c.callee).1 {
            Some((_, b, _)) => !(b.kind is Constructor) && !(b.kind is Builtin),
            None => true,
        },
    ensures
        ({
            let t = expr(Expr::Call(c), s);
            let last = t.out.code.last();
            &&& t.out.code.len() > s.out.code.len()
            &&& last.operand == c.args@.len() as i32
            &&& s.loc.tail ==> last.op == Op::TailCall || last.op == Op::TailCallSelf
            &&& !s.loc.tail ==> last.op == Op::Call || last.op == Op::CallSelf
        }),
{
    let e = Expr::Call(c);
    let a = s.set_tail(false);
    let tail = s.loc.tail;
    assert(expr(e, s) == call_body(c, tail, a)) by {
        reveal(expr_body);
        assert(expr(e, s) == expr_body(e, tail, a));
        reveal(call_body);
        assert(call(c, tail, a) == call_body(c, tail, a));
    }
    assert(a.out == s.out) by {
        reveal(State::set_tail);
    }
    let (r, callee) = a.callee(*c.callee);
    let n = c.args@.len() as i32;
    let general = if tail {
        Op::TailCall
    } else {
        Op::Call
    };
    let to_self = if tail {
        Op::TailCallSelf
    } else {
        Op::CallSelf
    };
    if let Some((id, b, access)) = callee {
        let t = r.record(None, id, b.doc);
        let u = positional(c.shape, c.args@, c.span, t);
        assert(leaves(a, u)) by {
            assert(from_here(a));
            assert(leaves(a, r));
            assert(leaves(r, t));
            lemma_positional(c.shape, c.args@, c.span, t);
        }
        let (v, o) = match access {
            Some(VarAccess::Self_) => (u, to_self),
            Some(x) => (u.load(x), general),
            None => (u.no_binding(id.name, None, id.span), general),
        };
        assert(leaves(a, v)) by {
            assert(from_here(a));
            if let Some(x) = access {
                lemma_load(u, x);
            }
            assert(leaves(u, u.no_binding(id.name, None, id.span)));
        }
        lemma_last(a, v, instr(o, 0, 0, n));
        assert(expr(e, s) == v.push(instr(o, 0, 0, n))) by {
            reveal(call_body);
        }
    } else {
        let u = expr(*c.callee, r);
        let w = positional(c.shape, c.args@, c.span, u.spill());
        let v = w.emit_arg(Op::PushLocal, u.next_slot());
        assert(leaves(a, v)) by {
            assert(from_here(a));
            assert(leaves(a, r));
            lemma_expr(*c.callee, r);
            assert(leaves(a, u));
            assert(from_here(u));
            assert(leaves(u, u.spill()));
            lemma_positional(c.shape, c.args@, c.span, u.spill());
            assert(leaves(a, w));
        }
        lemma_last(a, v, instr(general, 0, 0, n));
        assert(expr(e, s) == v.push(instr(general, 0, 0, n))) by {
            reveal(call_body);
        }
    }
}

/// What is emitted last is the last instruction.
proof fn lemma_last(s: State, t: State, ins: Instruction)
    requires
        leaves(s, t),
        !s.out.check_only,
    ensures
        t.push(ins).out.code.len() > s.out.code.len(),
        t.push(ins).out.code.last() == ins,
{
    reveal(State::push);
    reveal(steady);
    reveal(same_scope);
}

} // verus!

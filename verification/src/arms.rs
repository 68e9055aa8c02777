//! How the arms of a match are tried.
use crate::ast::{Arm, Expr, MatchExpr, StrId};
use crate::evaluation::evaluates;
use crate::fitting::{bound, ctx_of, fits, in_order, names_in, stands_for, suits};
use crate::fitting::{frames, law_patterns_match_what_fits};
use crate::fitting::choices::lemma_patched;
use crate::fitting::runs::{lemma_ready, ready};
use crate::gen::{
    arms_from, check_pattern, expr, match_expr, match_expr_body, pattern, Arms, Checked, Matching,
};
use crate::landing;
use crate::landing::{group_landing, lands, lands_but, misses, places};
use crate::landing::exprs::lemma_expr;
use crate::landing::matches::ends_of;
use crate::landing::pieces::group_landing_pieces;
use crate::machine::{
    lemma_reaches_on, lemma_reaches_self, reaches, Config, Given, Image, Value,
};
use crate::op::{instr, Op};
use crate::running::{at_end, carries, lemma_carries_parts, lemma_local, same_but_open};
use crate::scopes::from_here;
use crate::state::State;
use vstd::prelude::*;

verus! {

/// The arms are tried one behind the other.
pub proof fn law_arms_stand_in_turn(arms: Seq<Arm>, i: nat, tail: bool, slot: i32, a: Arms)
    requires
        i < arms.len(),
    ensures
        arms_from(arms, i, tail, slot, a) == arms_from(
            arms,
            i + 1,
            tail,
            slot,
            arms_from(seq![arms[i as int]], 0, tail, slot, a),
        ),
{
    let one = seq![arms[i as int]];
    assert(one[0] == arms[i as int]);
    reveal_with_fuel(arms_from, 2);
}

/// The state in which an arm's pattern is compiled: its names are bound in a block of its own.
pub open spec fn arm_start(arm: Arm, s: State) -> State {
    let c = check_pattern(arm.pattern, Checked::new(s.push_block()));
    c.s.bind_idents(c.ids, c.ids.len())
}

/// What an arm's pattern begins with: the value on top of the stack.
pub open spec fn arm_entry(arm: Arm, slot: i32, s: State) -> Matching {
    Matching { s: arm_start(arm, s).emit_arg(Op::PushLocal, slot), fails: Seq::empty() }
}

/// The arms so far where an arm's pattern begins.
pub open spec fn arm_begins(arm: Arm, a: Arms) -> Matching {
    Matching { s: arm_start(arm, a.s), fails: a.ends }
}

/// The state behind an arm's guard.
spec fn guarded(arm: Arm, m: Matching) -> Matching {
    match arm.guard {
        Some(guard) => m.at(expr(guard, m.s).misfit(arm.guard_faults@)).fail_if_false(),
        None => m,
    }
}

proof fn lemma_same_out(s: State, faults: Seq<crate::ast::TypeFault>)
    ensures
        s.misfit(faults).out == s.out,
        s.pop_block().out == s.out,
        s.set_tail(true).out == s.out && s.set_tail(false).out == s.out,
{
    reveal(State::misfit);
    reveal(State::pop_locals);
    reveal(State::pop_env);
    reveal(State::pop_unused);
    reveal(State::set_tail);
}

/// What a program that carries an arm holds: the code of its pattern and guard, whose jumps to
/// the failure lead behind the arm, and a jump behind its body.
proof fn lemma_arm(img: Image, arm: Arm, tail: bool, slot: i32, a: Arms)
    requires
        carries(
            img,
            arm_begins(arm, a),
            ends_of(arms_from(seq![arm], 0, tail, slot, a)),
        ),
    ensures
        ({
            let r = arm_start(arm, a.s);
            let k = arm_entry(arm, slot, a.s);
            let m = pattern(arm.pattern, k);
            let q = guarded(arm, m);
            let n = arms_from(seq![arm], 0, tail, slot, a);
            let body = expr(arm.body, q.s.set_tail(tail));
            &&& misses(k, m) && misses(m, q)
            &&& carries(img, k, q)
            &&& carries(img, arm_begins(arm, a), arm_begins(arm, a).at(k.s))
            &&& n.ends == a.ends.push(body.out.code.len() as usize)
            &&& n.s.out.code.len() == body.out.code.len() + 1
            &&& n.s.out.code.len() <= i32::MAX
            &&& img.code[body.out.code.len() as int].op == Op::Jump
            &&& forall|j: int|
                0 <= j < q.fails.len() ==> (#[trigger] q.fails[j]) < q.s.out.code.len()
                    && img.target(q.fails[j] as int) == n.s.out.code.len()
        }),
{
    let r = arm_start(arm, a.s);
    let k = arm_entry(arm, slot, a.s);
    let m = pattern(arm.pattern, k);
    let q = guarded(arm, m);
    let n = arms_from(seq![arm], 0, tail, slot, a);
    let body = expr(arm.body, q.s.set_tail(tail));
    let b = body.set_tail(false).misfit(arm.faults@);
    let s2 = b.emit_arg(Op::Jump, 0);
    let d = s2.patch_all(q.fails, q.fails.len());
    assert(n.s == d.pop_block() && n.ends == a.ends.push(b.pos())) by {
        reveal_with_fuel(arms_from, 2);
        assert(seq![arm][0] == arm);
    }
    lemma_same_out(q.s, arm.faults@);
    lemma_same_out(body, arm.faults@);
    lemma_same_out(body.set_tail(false), arm.faults@);
    lemma_same_out(d, arm.faults@);
    assert(b.out == body.out && n.s.out == d.out && q.s.set_tail(tail).out == q.s.out);
    landing::patterns::lemma_pattern(arm.pattern, k);
    lemma_expr(arm.body, q.s.set_tail(tail));
    assert(misses(m, q)) by {
        broadcast use {group_landing, group_landing_pieces};

        assert(from_here(m.s));
        assert(misses(m, m));
        if let Some(guard) = arm.guard {
            lemma_expr(guard, m.s);
            assert(misses(m, m.at(expr(guard, m.s).misfit(arm.guard_faults@))));
        }
    }
    assert(misses(k, q)) by {
        broadcast use group_landing;

        assert(from_here(k.s));
    }
    reveal(misses);
    reveal(lands_but);
    reveal(State::push);
    reveal(State::pos);
    lemma_patched(s2, q.fails, q.fails.len());
    assert(q.fails.take(q.fails.len() as int) =~= q.fails);
    let z = body.out.code.len() as int;
    assert(b.pos() as int == z);
    assert(places(n.ends, a.ends.len()) =~= set![z]) by {
        assert(n.ends[a.ends.len() as int] as int == z);
    }
    assert(s2.out.code == body.out.code.push(instr(Op::Jump, 0, 0, 0)));
    assert forall|i: int| 0 <= i < q.s.out.code.len() implies s2.out.code[i]
        == #[trigger] q.s.out.code[i] by {
        assert(body.out.code.take(q.s.out.code.len() as int)[i] == body.out.code[i]);
    }
    assert forall|i: int| 0 <= i < q.s.out.consts.len() implies d.out.consts[i]
        == #[trigger] q.s.out.consts[i] by {
        assert(body.out.consts.take(q.s.out.consts.len() as int)[i] == body.out.consts[i]);
    }
    assert forall|i: int| r.out.code.len() <= i < z implies #[trigger] img.code[i]
        == d.out.code[i] by {
        assert(same_but_open(img.code[i], n.s.out.code[i], false));
    }
    assert forall|i: int|
        k.s.out.code.len() <= i < q.s.out.code.len() implies same_but_open(
        #[trigger] img.code[i],
        q.s.out.code[i],
        places(q.fails, k.fails.len()).contains(i),
    ) by {
        assert(same_but_open(d.out.code[i], s2.out.code[i], places(q.fails, 0).contains(i)));
        assert(s2.out.code[i] == q.s.out.code[i]);
    }
    assert forall|i: int| 0 <= i < q.s.out.consts.len() implies #[trigger] img.consts[i]
        == q.s.out.consts[i] by {
        assert(d.out.consts[i] == q.s.out.consts[i]);
    }
    assert(carries(img, k, q));
    assert forall|i: int| 0 <= i < k.s.out.consts.len() implies #[trigger] img.consts[i]
        == k.s.out.consts[i] by {
        assert(q.s.out.consts.take(k.s.out.consts.len() as int)[i] == q.s.out.consts[i]);
    }
    let y = r.out.code.len() as int;
    assert(!places(q.fails, 0).contains(y));
    assert(q.s.out.code.take(k.s.out.code.len() as int)[y] == q.s.out.code[y]);
    assert(same_but_open(d.out.code[y], s2.out.code[y], false));
    assert(s2.out.code[y] == q.s.out.code[y]);
    assert(img.code[y] == d.out.code[y]);
    assert(carries(img, arm_begins(arm, a), arm_begins(arm, a).at(k.s)));
    assert(!places(q.fails, 0).contains(z));
    assert(same_but_open(d.out.code[z], s2.out.code[z], false));
    assert(same_but_open(img.code[z], n.s.out.code[z], true));
    assert forall|j: int| 0 <= j < q.fails.len() implies (#[trigger] q.fails[j])
        < q.s.out.code.len() && img.target(q.fails[j] as int) == n.s.out.code.len() by {
        assert(places(q.fails, 0).contains(q.fails[j] as int));
        assert(img.code[q.fails[j] as int] == d.out.code[q.fails[j] as int]);
    }
}

/// An arm whose pattern does not fit the subject is passed by. Where it fits, the machine gets
/// behind the pattern with the names bound: to the guard, or, where there is none, to the body,
/// behind which a jump leads out.
pub proof fn law_arms_run_where_their_pattern_fits(
    g: Given,
    img: Image,
    arm: Arm,
    tail: bool,
    slot: i32,
    a: Arms,
    v: Value,
    stack: Seq<Value>,
    locals: Map<int, Value>,
) -> (l: Map<int, Value>)
    requires
        carries(
            img,
            arm_begins(arm, a),
            ends_of(arms_from(seq![arm], 0, tail, slot, a)),
        ),
        in_order(ctx_of(arm_start(arm, a.s)), arm.pattern),
        suits(ctx_of(arm_start(arm, a.s)), arm.pattern, v),
        ready(
            arm_begins(arm, a),
            pattern(arm.pattern, arm_entry(arm, slot, a.s)),
            names_in(ctx_of(arm_start(arm, a.s)), arm.pattern),
        ),
        locals.dom().contains(slot as int),
        locals[slot as int] == v,
    ensures
        !fits(g, ctx_of(arm_start(arm, a.s)), arm.pattern, v) ==> reaches(
            g,
            img,
            at_end(arm_start(arm, a.s), stack, locals),
            at_end(arms_from(seq![arm], 0, tail, slot, a).s, stack, l),
        ),
        fits(g, ctx_of(arm_start(arm, a.s)), arm.pattern, v) ==> {
            let behind = pattern(arm.pattern, arm_entry(arm, slot, a.s)).s;
            &&& reaches(
                g,
                img,
                at_end(arm_start(arm, a.s), stack, locals),
                at_end(behind, stack, l),
            )
            &&& forall|n: StrId| #[trigger]
                names_in(ctx_of(arm_start(arm, a.s)), arm.pattern).contains(n) ==> stands_for(
                    behind.loc,
                    l,
                    n,
                    bound(g, ctx_of(arm_start(arm, a.s)), arm.pattern, v)[n],
                )
            &&& arm.guard is None ==> {
                let end = expr(arm.body, behind.set_tail(tail)).out.code.len();
                &&& arms_from(seq![arm], 0, tail, slot, a).ends.last() == end
                &&& img.code[end as int].op == Op::Jump
            }
        },
{
    let r = arm_start(arm, a.s);
    let k = arm_entry(arm, slot, a.s);
    let m = pattern(arm.pattern, k);
    let q = guarded(arm, m);
    let n = arms_from(seq![arm], 0, tail, slot, a);
    let x = ctx_of(r);
    let names = names_in(x, arm.pattern);
    lemma_arm(img, arm, tail, slot, a);
    lemma_carries_parts(img, k, m, q);
    frames::lemma_push(r, instr(Op::PushLocal, 0, 0, slot));
    frames::lemma_pattern(arm.pattern, k);
    lemma_ready(arm_begins(arm, a), k, m, Set::empty(), names, names);
    let c = at_end(r, stack, locals);
    lemma_reaches_self(g, img, c);
    lemma_local(g, img, arm_begins(arm, a), slot, c, stack, locals);
    let d = at_end(k.s, stack.push(v), locals);
    let l = law_patterns_match_what_fits(g, img, arm.pattern, k, v, stack, locals);
    if fits(g, x, arm.pattern, v) {
        lemma_reaches_on(g, img, c, d, at_end(m.s, stack, l));
    } else {
        let j = choose|j: int|
            0 <= j < m.fails.len() && reaches(
                g,
                img,
                d,
                Config { pc: img.target((#[trigger] m.fails[j]) as int), stack, locals: l },
            );
        assert(q.fails[j] == m.fails[j]);
        lemma_reaches_on(g, img, c, d, at_end(n.s, stack, l));
    }
    l
}

/// A guard decides: where it is true the body is run, behind which a jump leads out, and where
/// it is false the arm is passed by. The state that is returned is the one in which the body
/// is compiled.
pub proof fn law_guards_decide(
    g: Given,
    img: Image,
    arm: Arm,
    guard: Expr,
    tail: bool,
    slot: i32,
    a: Arms,
    stack: Seq<Value>,
    l1: Map<int, Value>,
    b: bool,
    l2: Map<int, Value>,
) -> (r: State)
    requires
        arm.guard == Some(guard),
        carries(
            img,
            arm_begins(arm, a),
            ends_of(arms_from(seq![arm], 0, tail, slot, a)),
        ),
        evaluates(
            g,
            img,
            guard,
            pattern(arm.pattern, arm_entry(arm, slot, a.s)).s,
            stack,
            l1,
            Value::Bool(b),
            l2,
        ),
    ensures
        b ==> reaches(
            g,
            img,
            at_end(pattern(arm.pattern, arm_entry(arm, slot, a.s)).s, stack, l1),
            at_end(r, stack, l2),
        ),
        !b ==> reaches(
            g,
            img,
            at_end(pattern(arm.pattern, arm_entry(arm, slot, a.s)).s, stack, l1),
            at_end(arms_from(seq![arm], 0, tail, slot, a).s, stack, l2),
        ),
        r.loc.tail == tail,
        ({
            let end = expr(arm.body, r).out.code.len();
            &&& arms_from(seq![arm], 0, tail, slot, a).ends.last() == end
            &&& img.code[end as int].op == Op::Jump
        }),
{
    let k = arm_entry(arm, slot, a.s);
    let m = pattern(arm.pattern, k);
    let q = guarded(arm, m);
    let n = arms_from(seq![arm], 0, tail, slot, a);
    lemma_arm(img, arm, tail, slot, a);
    lemma_carries_parts(img, k, m, q);
    let e = expr(guard, m.s);
    let f = m.at(e.misfit(arm.guard_faults@));
    lemma_same_out(e, arm.guard_faults@);
    lemma_expr(guard, m.s);
    assert(misses(m, f) && misses(f, q)) by {
        broadcast use {group_landing, group_landing_pieces};

        assert(from_here(m.s) && from_here(f.s));
        assert(lands(m.s, f.s));
    }
    lemma_carries_parts(img, m, f, q);
    let c = at_end(m.s, stack, l1);
    assert(at_end(f.s, stack.push(Value::Bool(b)), l2) == at_end(
        e,
        stack.push(Value::Bool(b)),
        l2,
    ));
    crate::running::lemma_fail_if_false(g, img, f, c, stack, b, l2);
    if !b {
        let j = choose|j: int|
            f.fails.len() <= j < q.fails.len() && reaches(
                g,
                img,
                c,
                Config { pc: img.target((#[trigger] q.fails[j]) as int), stack, locals: l2 },
            );
        assert(img.target(q.fails[j] as int) == n.s.out.code.len());
    }
    reveal(State::set_tail);
    q.s.set_tail(tail)
}

proof fn lemma_unreachable(s: State, arms: Seq<Arm>, n: nat)
    ensures
        s.report_unreachable(arms, n).out == s.out,
    decreases n,
{
    reveal(State::report_unreachable);
    if n > 0 {
        lemma_unreachable(s, arms, (n - 1) as nat);
        reveal(State::error);
    }
}

/// A match puts its subject aside, tries its arms, and is nothing where none of them ran. The
/// jumps behind the bodies of the arms all lead to its end.
pub proof fn law_matches_end_behind_their_arms(m: MatchExpr, tail: bool, s: State)
    requires
        !s.out.check_only,
        match_expr(m, tail, s).out.code.len() <= i32::MAX,
    ensures
        ({
            let t = expr(*m.subject, s);
            let a = arms_from(
                m.arms@,
                0,
                tail,
                t.next_slot(),
                Arms { s: t.spill(), ends: Seq::empty(), ok: true },
            );
            let n = match_expr(m, tail, s);
            &&& n.out.code.len() == a.s.out.code.len() + 1
            &&& n.out.code.last() == instr(Op::PushNil, 0, 0, 0)
            &&& forall|i: int|
                0 <= i < a.s.out.code.len() ==> same_but_open(
                    #[trigger] n.out.code[i],
                    a.s.out.code[i],
                    places(a.ends, 0).contains(i),
                )
            &&& forall|j: int|
                0 <= j < a.ends.len() ==> n.out.code[(#[trigger] a.ends[j]) as int].operand
                    == n.out.code.len()
        }),
{
    let t = expr(*m.subject, s);
    let start = Arms { s: t.spill(), ends: Seq::<usize>::empty(), ok: true };
    let a = arms_from(m.arms@, 0, tail, t.next_slot(), start);
    let w = a.s.nil();
    let u = w.patch_all(a.ends, a.ends.len());
    let n = match_expr(m, tail, s);
    assert(n.out == u.out) by {
        reveal(match_expr_body);
        assert(n == match_expr_body(m, tail, s));
        reveal(State::error);
        let v = match m.missing {
            Some(missing) => u.error(
                crate::diag::Message::NotExhaustive { missing },
                crate::ast::span_of(*m.subject),
            ),
            None => u,
        };
        lemma_unreachable(v, m.arms@, m.arms@.len());
    }
    lemma_expr(*m.subject, s);
    landing::matches::lemma_arms(m.arms@, 0, tail, t.next_slot(), start);
    assert(!start.s.out.check_only) by {
        reveal(lands_but);
        reveal(State::push);
        reveal(State::take_slot);
    }
    reveal(misses);
    reveal(lands_but);
    reveal(State::push);
    assert(w.out.code == a.s.out.code.push(instr(Op::PushNil, 0, 0, 0)));
    lemma_patched(w, a.ends, a.ends.len());
    assert(a.ends.take(a.ends.len() as int) =~= a.ends);
    let z = a.s.out.code.len() as int;
    assert forall|j: int| 0 <= j < a.ends.len() implies u.out.code[(
    #[trigger] a.ends[j]) as int].operand == u.out.code.len() by {
        assert(places(a.ends, 0).contains(a.ends[j] as int));
    }
    assert forall|i: int| 0 <= i < z implies same_but_open(
        #[trigger] u.out.code[i],
        a.s.out.code[i],
        places(a.ends, 0).contains(i),
    ) by {
        assert(w.out.code[i] == a.s.out.code[i]);
    }
    assert(!places(a.ends, 0).contains(z));
    assert(same_but_open(u.out.code[z], w.out.code[z], false));
}

} // verus!

//! Running emitted code.
//!
//! What code does on the machine of [`crate::machine`] is said of every program that carries
//! it: the instructions that were emitted stand in their places, and only the jumps to the
//! failure, which are still open, lead wherever the program says.
use crate::gen::Matching;
use crate::landing;
use crate::landing::{lands, lands_but, misses, places};
use crate::machine::{
    lemma_reaches_on, lemma_reaches_step, reaches, step, Config, Given, Image, Value,
};
use crate::op::{instr, ConstView, Instruction, Op};
use crate::state::State;
use vstd::prelude::*;

verus! {

/// Whether a program carries what was emitted on the way from one state to another.
pub open spec fn carries(img: Image, m: Matching, n: Matching) -> bool {
    &&& img.fs.len() == 0
    &&& !m.s.out.check_only
    &&& n.s.out.code.len() <= img.code.len()
    &&& n.s.out.code.len() <= i32::MAX
    &&& n.s.out.consts.len() <= img.consts.len()
    &&& n.s.out.consts.len() <= i32::MAX
    &&& forall|i: int|
        0 <= i < n.s.out.consts.len() ==> #[trigger] img.consts[i] == n.s.out.consts[i]
    &&& forall|i: int|
        m.s.out.code.len() <= i < n.s.out.code.len() ==> same_but_open(
            #[trigger] img.code[i],
            n.s.out.code[i],
            places(n.fails, m.fails.len()).contains(i),
        )
}

/// Whether two instructions are the same, or differ only in where an open jump leads.
pub open spec fn same_but_open(a: Instruction, b: Instruction, open: bool) -> bool {
    a.op == b.op && a.a == b.a && a.b == b.b && (open || a.operand == b.operand)
}

/// The machine where the code of a state ends.
pub open spec fn at_end(s: State, stack: Seq<Value>, locals: Map<int, Value>) -> Config {
    Config { pc: s.out.code.len() as int, stack, locals }
}

/// Whether the machine takes one of the jumps to the failure that were emitted on the way.
pub open spec fn fails(
    g: Given,
    img: Image,
    m: Matching,
    n: Matching,
    c: Config,
    stack: Seq<Value>,
    locals: Map<int, Value>,
) -> bool {
    exists|j: int|
        m.fails.len() <= j < n.fails.len() && reaches(
            g,
            img,
            c,
            Config { pc: img.target((#[trigger] n.fails[j]) as int), stack, locals },
        )
}

/// Whether what was emitted on the way gets to its end where something holds, and to the
/// failure where it does not.
pub open spec fn decides(
    g: Given,
    img: Image,
    m: Matching,
    n: Matching,
    c: Config,
    stack: Seq<Value>,
    locals: Map<int, Value>,
    holds: bool,
) -> bool {
    if holds {
        reaches(g, img, c, at_end(n.s, stack, locals))
    } else {
        fails(g, img, m, n, c, stack, locals)
    }
}

/// A program that carries code carries its parts.
pub proof fn lemma_carries_parts(img: Image, m: Matching, k: Matching, n: Matching)
    requires
        carries(img, m, n),
        misses(m, k),
        misses(k, n),
    ensures
        carries(img, m, k),
        carries(img, k, n),
{
    reveal(misses);
    reveal(lands_but);
    assert forall|i: int| 0 <= i < k.s.out.consts.len() implies #[trigger] img.consts[i]
        == k.s.out.consts[i] by {
        assert(n.s.out.consts.take(k.s.out.consts.len() as int)[i] == n.s.out.consts[i]);
    }
    assert forall|i: int|
        m.s.out.code.len() <= i < k.s.out.code.len() implies same_but_open(
        #[trigger] img.code[i],
        k.s.out.code[i],
        places(k.fails, m.fails.len()).contains(i),
    ) by {
        assert(n.s.out.code.take(k.s.out.code.len() as int)[i] == n.s.out.code[i]);
        if places(n.fails, m.fails.len()).contains(i) {
            let j = choose|j: int|
                m.fails.len() <= j < n.fails.len() && #[trigger] n.fails[j] as int == i;
            if j >= k.fails.len() {
                assert(places(n.fails, k.fails.len()).contains(i));
            } else {
                assert(n.fails.take(k.fails.len() as int)[j] == n.fails[j]);
                assert(k.fails[j] == n.fails[j]);
            }
        }
    }
    assert forall|i: int|
        k.s.out.code.len() <= i < n.s.out.code.len() implies same_but_open(
        #[trigger] img.code[i],
        n.s.out.code[i],
        places(n.fails, k.fails.len()).contains(i),
    ) by {
        if places(n.fails, m.fails.len()).contains(i) {
            let j = choose|j: int|
                m.fails.len() <= j < n.fails.len() && #[trigger] n.fails[j] as int == i;
            if j < k.fails.len() {
                assert(n.fails.take(k.fails.len() as int)[j] == n.fails[j]);
                assert(k.fails[j] == n.fails[j]);
                assert(places(k.fails, m.fails.len()).contains(i));
            }
        }
    }
}

/// A jump to the failure that was emitted on the way to `k` is one on the way to `n`.
pub proof fn lemma_fails_on(
    g: Given,
    img: Image,
    m: Matching,
    k: Matching,
    n: Matching,
    c: Config,
    d: Config,
    stack: Seq<Value>,
    locals: Map<int, Value>,
)
    requires
        misses(m, k),
        misses(k, n),
        reaches(g, img, c, d),
        fails(g, img, m, k, d, stack, locals) || fails(g, img, k, n, d, stack, locals),
    ensures
        fails(g, img, m, n, c, stack, locals),
{
    reveal(misses);
    if fails(g, img, m, k, d, stack, locals) {
        let j = choose|j: int|
            m.fails.len() <= j < k.fails.len() && reaches(
                g,
                img,
                d,
                Config { pc: img.target((#[trigger] k.fails[j]) as int), stack, locals },
            );
        assert(n.fails.take(k.fails.len() as int)[j] == n.fails[j]);
        assert(n.fails[j] == k.fails[j]);
        lemma_reaches_on(
            g,
            img,
            c,
            d,
            Config { pc: img.target(n.fails[j] as int), stack, locals },
        );
    } else {
        let j = choose|j: int|
            k.fails.len() <= j < n.fails.len() && reaches(
                g,
                img,
                d,
                Config { pc: img.target((#[trigger] n.fails[j]) as int), stack, locals },
            );
        lemma_reaches_on(
            g,
            img,
            c,
            d,
            Config { pc: img.target(n.fails[j] as int), stack, locals },
        );
    }
}

/// One more step.
pub proof fn lemma_further(g: Given, img: Image, c: Config, d: Config, e: Config)
    requires
        reaches(g, img, c, d),
        step(g, img, d) == Some(e),
    ensures
        reaches(g, img, c, e),
{
    lemma_reaches_step(g, img, d);
    lemma_reaches_on(g, img, c, d, e);
}

// ---- single instructions ---------------------------------------------------------

/// Whether an instruction stands where the code of a state ends.
pub open spec fn stands(img: Image, s: State, ins: Instruction) -> bool {
    &&& img.fs.len() == 0
    &&& s.out.code.len() < img.code.len()
    &&& img.code[s.out.code.len() as int] == ins
}

pub proof fn lemma_stands(img: Image, m: Matching, ins: Instruction)
    requires
        carries(img, m, m.at(m.s.push(ins))),
    ensures
        stands(img, m.s, ins),
        m.s.push(ins).out.code.len() == m.s.out.code.len() + 1,
{
    reveal(State::push);
    let n = m.at(m.s.push(ins));
    assert(n.s.out.code[m.s.out.code.len() as int] == ins);
    assert(!places(n.fails, m.fails.len()).contains(m.s.out.code.len() as int));
    assert(same_but_open(
        img.code[m.s.out.code.len() as int],
        n.s.out.code[m.s.out.code.len() as int],
        false,
    ));
}

/// A program that carries a straight piece of code carries its parts.
pub proof fn lemma_line(img: Image, m: Matching, a: State, b: State)
    requires
        carries(img, m, m.at(b)),
        lands(m.s, a),
        lands(a, b),
    ensures
        carries(img, m, m.at(a)),
        carries(img, m.at(a), m.at(b)),
        misses(m, m.at(a)),
        misses(m.at(a), m.at(b)),
{
    lemma_straight(m, a);
    lemma_straight(m.at(a), b);
    lemma_carries_parts(img, m, m.at(a), m.at(b));
}

/// Code without jumps to the failure.
pub proof fn lemma_straight(m: Matching, t: State)
    requires
        lands(m.s, t),
    ensures
        misses(m, m.at(t)),
{
    reveal(misses);
    assert(m.fails.take(m.fails.len() as int) =~= m.fails);
    assert(places(m.fails, m.fails.len()) =~= Set::empty());
}

pub proof fn lemma_local(
    g: Given,
    img: Image,
    m: Matching,
    slot: i32,
    c: Config,
    stack: Seq<Value>,
    locals: Map<int, Value>,
)
    requires
        carries(img, m, m.at(m.s.emit_arg(Op::PushLocal, slot))),
        locals.dom().contains(slot as int),
        reaches(g, img, c, at_end(m.s, stack, locals)),
    ensures
        reaches(
            g,
            img,
            c,
            at_end(m.s.emit_arg(Op::PushLocal, slot), stack.push(locals[slot as int]), locals),
        ),
{
    lemma_stands(img, m, instr(Op::PushLocal, 0, 0, slot));
    lemma_further(
        g,
        img,
        c,
        at_end(m.s, stack, locals),
        at_end(m.s.emit_arg(Op::PushLocal, slot), stack.push(locals[slot as int]), locals),
    );
}

pub proof fn lemma_const(
    g: Given,
    img: Image,
    m: Matching,
    k: ConstView,
    c: Config,
    stack: Seq<Value>,
    locals: Map<int, Value>,
)
    requires
        carries(img, m, m.at(m.s.push_const(k))),
        reaches(g, img, c, at_end(m.s, stack, locals)),
    ensures
        reaches(g, img, c, at_end(m.s.push_const(k), stack.push(g.constant(k)), locals)),
{
    reveal(State::push);
    reveal(State::pool);
    reveal(State::pool_index);
    let t = m.s.push_const(k);
    let i = m.s.out.code.len() as int;
    let j = m.s.out.consts.len() as int;
    assert(t.out.code[i] == instr(Op::PushConst, 0, 0, j as i32));
    assert(!places(m.fails, m.fails.len()).contains(i));
    assert(same_but_open(img.code[i], t.out.code[i], false));
    assert(img.consts[j] == t.out.consts[j]);
    lemma_further(
        g,
        img,
        c,
        at_end(m.s, stack, locals),
        at_end(t, stack.push(g.constant(k)), locals),
    );
}

/// An instruction that does not touch the locals.
pub proof fn lemma_op(
    g: Given,
    img: Image,
    m: Matching,
    ins: Instruction,
    c: Config,
    stack: Seq<Value>,
    locals: Map<int, Value>,
    stack2: Seq<Value>,
)
    requires
        carries(img, m, m.at(m.s.push(ins))),
        stands(img, m.s, ins) ==> step(g, img, at_end(m.s, stack, locals)) == Some(
            at_end(m.s, stack, locals).next(stack2),
        ),
        reaches(g, img, c, at_end(m.s, stack, locals)),
    ensures
        reaches(g, img, c, at_end(m.s.push(ins), stack2, locals)),
{
    lemma_stands(img, m, ins);
    lemma_further(
        g,
        img,
        c,
        at_end(m.s, stack, locals),
        at_end(m.s.push(ins), stack2, locals),
    );
}

pub proof fn lemma_store(
    g: Given,
    img: Image,
    m: Matching,
    slot: i32,
    c: Config,
    stack: Seq<Value>,
    v: Value,
    locals: Map<int, Value>,
)
    requires
        carries(img, m, m.at(m.s.emit_arg(Op::StoreLocal, slot))),
        reaches(g, img, c, at_end(m.s, stack.push(v), locals)),
    ensures
        reaches(
            g,
            img,
            c,
            at_end(m.s.emit_arg(Op::StoreLocal, slot), stack, locals.insert(slot as int, v)),
        ),
{
    lemma_stands(img, m, instr(Op::StoreLocal, 0, 0, slot));
    let d = at_end(m.s, stack.push(v), locals);
    assert(d.without(1) =~= stack);
    lemma_further(
        g,
        img,
        c,
        d,
        at_end(m.s.emit_arg(Op::StoreLocal, slot), stack, locals.insert(slot as int, v)),
    );
}

/// The jump to the failure is taken where the top of the stack is false.
pub proof fn lemma_fail_if_false(
    g: Given,
    img: Image,
    m: Matching,
    c: Config,
    stack: Seq<Value>,
    b: bool,
    locals: Map<int, Value>,
)
    requires
        carries(img, m, m.fail_if_false()),
        reaches(g, img, c, at_end(m.s, stack.push(Value::Bool(b)), locals)),
    ensures
        decides(g, img, m, m.fail_if_false(), c, stack, locals, b),
{
    reveal(State::push);
    let n = m.fail_if_false();
    let d = at_end(m.s, stack.push(Value::Bool(b)), locals);
    assert(d.without(1) =~= stack);
    assert(n.s.out.code == m.s.out.code.push(instr(Op::JumpIfFalse, 0, 0, 0)));
    assert(n.s.out.code[m.s.out.code.len() as int] == instr(Op::JumpIfFalse, 0, 0, 0));
    reveal(State::pos);
    assert(m.s.pos() as int == m.s.out.code.len());
    assert(img.code[m.s.out.code.len() as int].op == Op::JumpIfFalse);
    if b {
        lemma_further(g, img, c, d, at_end(n.s, stack, locals));
    } else {
        let f = n.fails[m.fails.len() as int];
        assert(f as int == m.s.out.code.len());
        lemma_further(g, img, c, d, Config { pc: img.target(f as int), stack, locals });
    }
}

/// A comparison decides.
pub proof fn lemma_require(
    g: Given,
    img: Image,
    m: Matching,
    o: Op,
    c: Config,
    full: Seq<Value>,
    stack: Seq<Value>,
    b: bool,
    locals: Map<int, Value>,
)
    requires
        carries(img, m, m.require(o)),
        !o.jumps(),
        reaches(g, img, c, at_end(m.s, full, locals)),
        stands(img, m.s, instr(o, 0, 0, 0)) ==> step(g, img, at_end(m.s, full, locals)) == Some(
            at_end(m.s, full, locals).next(stack.push(Value::Bool(b))),
        ),
    ensures
        decides(g, img, m, m.require(o), c, stack, locals, b),
{
    let k = m.at(m.s.emit(o));
    landing::lemma_push(m.s, instr(o, 0, 0, 0));
    lemma_straight(m, k.s);
    landing::lemma_fail_if_false(k);
    lemma_carries_parts(img, m, k, k.fail_if_false());
    lemma_op(g, img, m, instr(o, 0, 0, 0), c, full, locals, stack.push(Value::Bool(b)));
    lemma_fail_if_false(g, img, k, c, stack, b, locals);
}

} // verus!

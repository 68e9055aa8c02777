//! Peephole superinstruction fusion over the fully emitted code stream.
//!
//! ```text
//! PushLocal s; PushConst k; SubInt                → SubIntLC{a:s, b:k}
//! PushLocal s; PushConst k; AddInt                → AddIntLC{a:s, b:k}
//! PushLocal s; PushConst k; LtInt; JumpIfFalse t  → JumpGeIntLC{a:s, b:k, operand:t}
//! PushLocal s; PushConst k; EqInt; JumpIfFalse t  → JumpNeIntLC{a:s, b:k, operand:t}
//! ```
//!
//! The first slot of each window becomes the fused op and the remaining slots
//! become `Nop`, so nothing moves. Jump operands are relative to the frame that
//! executes them: a target is `code_start + operand`, with the `code_start` of
//! the innermost function region around the jump. A window whose interior is a
//! jump target stays unfused, and so does one that straddles two frames.
use crate::op::{instr, op, op_ab, Function, Instruction, Op};
use vstd::prelude::*;

verus! {

/// Whether `f`'s region of the code stream holds index `i`.
pub open spec fn covers(f: Function, i: int) -> bool {
    f.code_len > 0 && f.code_start >= 0 && f.code_start <= i < f.code_start + f.code_len
}

/// Among the first `n` functions, the one whose region holds `i` most tightly:
/// the shortest, and the last of several equally short ones.
pub open spec fn owner(fs: Seq<Function>, n: nat, i: int) -> Option<int>
    decreases n,
{
    if n == 0 {
        None
    } else {
        let prev = owner(fs, (n - 1) as nat, i);
        if covers(fs[n - 1], i) && (prev is None || fs[n - 1].code_len <= fs[prev->0].code_len) {
            Some(n - 1)
        } else {
            prev
        }
    }
}

/// What a jump operand at index `i` is relative to.
pub open spec fn base_of(fs: Seq<Function>, i: int) -> int {
    match owner(fs, fs.len(), i) {
        None => 0,
        Some(k) => fs[k].code_start as int,
    }
}

/// How many consecutive indices a jump may land on: the rows of its table for
/// `SwitchTag`, a single one for every other jump.
pub open spec fn rows(ins: Instruction) -> int {
    if ins.op == Op::SwitchTag && ins.a > 1 {
        ins.a as int
    } else {
        1
    }
}

/// Whether the instruction at `j` may jump to `t`.
pub open spec fn jumps_to(code: Seq<Instruction>, fs: Seq<Function>, j: int, t: int) -> bool {
    code[j].op.jumps() && base_of(fs, j) + code[j].operand <= t < base_of(fs, j) + code[j].operand
        + rows(code[j])
}

/// Whether anything in `code` may jump to `t`.
pub open spec fn is_target(code: Seq<Instruction>, fs: Seq<Function>, t: int) -> bool {
    exists|j: int| 0 <= j < code.len() && #[trigger] jumps_to(code, fs, j, t)
}

/// The fused form of an Int comparison followed by `JumpIfFalse`.
pub open spec fn branch_form(o: Op) -> Option<Op> {
    if o == Op::LtInt {
        Some(Op::JumpGeIntLC)
    } else if o == Op::EqInt {
        Some(Op::JumpNeIntLC)
    } else {
        None
    }
}

/// The fused form of an Int addition or subtraction.
pub open spec fn value_form(o: Op) -> Option<Op> {
    if o == Op::AddInt {
        Some(Op::AddIntLC)
    } else if o == Op::SubInt {
        Some(Op::SubIntLC)
    } else {
        None
    }
}

/// Whether index `i` may stand inside a window that begins in frame `base`.
pub open spec fn may_join(code: Seq<Instruction>, fs: Seq<Function>, i: int, base: int) -> bool {
    i < code.len() && !is_target(code, fs, i) && base_of(fs, i) == base
}

/// The width of the fusable window that starts at `i`, and the instruction that
/// replaces it.
pub open spec fn fusable(code: Seq<Instruction>, fs: Seq<Function>, i: int) -> Option<
    (int, Instruction),
> {
    let base = base_of(fs, i);
    if !(i + 2 < code.len() && code[i].op == Op::PushLocal && code[i + 1].op == Op::PushConst
        && may_join(code, fs, i + 1, base) && may_join(code, fs, i + 2, base) && 0
        <= code[i].operand <= u8::MAX && 0 <= code[i + 1].operand <= u16::MAX) {
        None
    } else if may_join(code, fs, i + 3, base) && code[i + 3].op == Op::JumpIfFalse && branch_form(
        code[i + 2].op,
    ) is Some {
        Some(
            (
                4,
                instr(
                    branch_form(code[i + 2].op)->0,
                    code[i].operand as u8,
                    code[i + 1].operand as u16,
                    code[i + 3].operand,
                ),
            ),
        )
    } else if value_form(code[i + 2].op) is Some {
        Some(
            (
                3,
                instr(
                    value_form(code[i + 2].op)->0,
                    code[i].operand as u8,
                    code[i + 1].operand as u16,
                    0,
                ),
            ),
        )
    } else {
        None
    }
}

/// How far the pass advances from `i`.
pub open spec fn width(code: Seq<Instruction>, fs: Seq<Function>, i: int) -> int {
    match fusable(code, fs, i) {
        Some((w, _)) => w,
        None => 1,
    }
}

/// The fused code from index `i` on, when a window may start there.
pub open spec fn fused_from(code: Seq<Instruction>, fs: Seq<Function>, i: int) -> Seq<Instruction>
    decreases code.len() - i,
{
    if i < 0 || i >= code.len() {
        Seq::empty()
    } else {
        match fusable(code, fs, i) {
            Some((w, ins)) => seq![ins] + Seq::new(
                (w - 1) as nat,
                |k: int| instr(Op::Nop, 0, 0, 0),
            ) + fused_from(code, fs, i + w),
            None => seq![code[i]] + fused_from(code, fs, i + 1),
        }
    }
}

/// The whole stream after fusion.
pub open spec fn fused(code: Seq<Instruction>, fs: Seq<Function>) -> Seq<Instruction> {
    fused_from(code, fs, 0)
}

/// What is noted of index `i` once the first `n` functions have been seen: the
/// base and length of its owner's region, or zeroes.
spec fn noted(fs: Seq<Function>, n: nat, i: int, base: i32, tightest: i32) -> bool {
    match owner(fs, n, i) {
        None => base == 0 && tightest == 0,
        Some(w) => 0 <= w < n && base == fs[w].code_start && tightest == fs[w].code_len && tightest
            > 0,
    }
}

/// The frame base of every index of a stream of `len` instructions.
fn frame_bases(len: usize, functions: &[Function]) -> (base: Vec<i32>)
    ensures
        base@.len() == len,
        forall|i: int| 0 <= i < len ==> #[trigger] base@[i] == base_of(functions@, i),
{
    let mut base: Vec<i32> = Vec::new();
    let mut tightest: Vec<i32> = Vec::new();
    let mut k: usize = 0;
    while k < len
        invariant
            k <= len,
            base@.len() == k,
            tightest@.len() == k,
            forall|i: int| 0 <= i < k ==> base@[i] == 0 && tightest@[i] == 0,
        decreases len - k,
    {
        base.push(0);
        tightest.push(0);
        k = k + 1;
    }
    let mut n: usize = 0;
    while n < functions.len()
        invariant
            n <= functions.len(),
            base@.len() == len,
            tightest@.len() == len,
            forall|i: int|
                0 <= i < len ==> noted(functions@, n as nat, i, #[trigger] base@[i], tightest@[i]),
        decreases functions.len() - n,
    {
        let start: i32 = functions[n].code_start;
        let code_len: i32 = functions[n].code_len;
        if code_len > 0 && start >= 0 {
            let mut i: usize = if (start as usize) < len {
                start as usize
            } else {
                len
            };
            let end: u64 = start as u64 + code_len as u64;
            while i < len && (i as u64) < end
                invariant
                    start <= i || i == len,
                    i <= len,
                    n < functions.len(),
                    base@.len() == len,
                    tightest@.len() == len,
                    code_len > 0,
                    start >= 0,
                    start == functions@[n as int].code_start,
                    code_len == functions@[n as int].code_len,
                    end == start + code_len,
                    forall|j: int|
                        0 <= j < len && !(start <= j < i) ==> noted(
                            functions@,
                            n as nat,
                            j,
                            #[trigger] base@[j],
                            tightest@[j],
                        ),
                    forall|j: int|
                        start <= j < i ==> noted(
                            functions@,
                            (n + 1) as nat,
                            j,
                            #[trigger] base@[j],
                            tightest@[j],
                        ),
                    i < len ==> i <= end,
                decreases len - i,
            {
                assert(noted(functions@, n as nat, i as int, base@[i as int], tightest@[i as int]));
                assert(covers(functions@[n as int], i as int));
                if tightest[i] == 0 || code_len <= tightest[i] {
                    base.set(i, start);
                    tightest.set(i, code_len);
                }
                assert(noted(
                    functions@,
                    (n + 1) as nat,
                    i as int,
                    base@[i as int],
                    tightest@[i as int],
                ));
                i = i + 1;
            }
        }
        proof {
            assert forall|j: int| 0 <= j < len implies noted(
                functions@,
                (n + 1) as nat,
                j,
                #[trigger] base@[j],
                tightest@[j],
            ) by {
                reveal_with_fuel(owner, 2);
            }
        }
        n = n + 1;
    }
    base
}

/// Which indices of `code` anything jumps to.
fn jump_targets(code: &[Instruction], base: &Vec<i32>, Ghost(fs): Ghost<Seq<Function>>) -> (hit: Vec<
    bool,
>)
    requires
        base@.len() == code@.len(),
        forall|i: int| 0 <= i < code@.len() ==> #[trigger] base@[i] == base_of(fs, i),
    ensures
        hit@.len() == code@.len(),
        forall|t: int| 0 <= t < code@.len() ==> #[trigger] hit@[t] == is_target(code@, fs, t),
{
    let len: usize = code.len();
    let mut hit: Vec<bool> = Vec::new();
    let mut k: usize = 0;
    while k < len
        invariant
            k <= len,
            hit@.len() == k,
            forall|t: int| 0 <= t < k ==> !hit@[t],
        decreases len - k,
    {
        hit.push(false);
        k = k + 1;
    }
    let mut j: usize = 0;
    while j < len
        invariant
            j <= len,
            len == code@.len(),
            base@.len() == len,
            hit@.len() == len,
            forall|i: int| 0 <= i < len ==> #[trigger] base@[i] == base_of(fs, i),
            forall|t: int|
                0 <= t < len ==> #[trigger] hit@[t] == (exists|q: int|
                    0 <= q < j && #[trigger] jumps_to(code@, fs, q, t)),
        decreases len - j,
    {
        let ins: Instruction = code[j];
        let ghost before = hit@;
        if ins.op.has_jump_target() {
            let first: i64 = base[j] as i64 + ins.operand as i64;
            let span: i64 = if ins.op == Op::SwitchTag && ins.a > 1 {
                ins.a as i64
            } else {
                1
            };
            let mut t: i64 = first;
            while t < first + span
                invariant
                    first <= t <= first + span,
                    -0x1_0000_0000 <= first <= 0x1_0000_0000,
                    1 <= span <= 255,
                    hit@.len() == len,
                    before.len() == len,
                    forall|x: int|
                        0 <= x < len ==> #[trigger] hit@[x] == (before[x] || first <= x < t),
                decreases first + span - t,
            {
                if t >= 0 && (t as u64) < len as u64 {
                    hit.set(t as usize, true);
                }
                t = t + 1;
            }
        }
        proof {
            assert forall|t: int| 0 <= t < len implies #[trigger] hit@[t] == (exists|q: int|
                0 <= q < j + 1 && #[trigger] jumps_to(code@, fs, q, t)) by {
                assert(base@[j as int] == base_of(fs, j as int));
                assert(hit@[t] == (before[t] || jumps_to(code@, fs, j as int, t)));
                if before[t] {
                    let q = choose|q: int| 0 <= q < j && #[trigger] jumps_to(code@, fs, q, t);
                    assert(jumps_to(code@, fs, q, t) && 0 <= q < j + 1);
                }
            }
        }
        j = j + 1;
    }
    hit
}

/// Fuse every window of `code` that allows it, in place.
pub fn fuse(code: &mut [Instruction], functions: &[Function])
    ensures
        final(code)@ == fused(old(code)@, functions@),
{
    let len: usize = code.len();
    let ghost orig = code@;
    let ghost fs = functions@;
    let base: Vec<i32> = frame_bases(len, functions);
    let hit: Vec<bool> = jump_targets(code, &base, Ghost(fs));
    let nop: Instruction = op(Op::Nop);
    let mut i: usize = 0;
    while i < len
        invariant
            i <= len,
            len == orig.len(),
            code@.len() == len,
            base@.len() == len,
            hit@.len() == len,
            nop == instr(Op::Nop, 0, 0, 0),
            forall|k: int| 0 <= k < len ==> #[trigger] base@[k] == base_of(fs, k),
            forall|k: int| 0 <= k < len ==> #[trigger] hit@[k] == is_target(orig, fs, k),
            forall|k: int| i <= k < len ==> #[trigger] code@[k] == orig[k],
            fused(orig, fs) == code@.take(i as int) + fused_from(orig, fs, i as int),
        decreases len - i,
    {
        let ghost prev = code@;
        let mut step: usize = 1;
        if len - i > 2 {
            let i0: Instruction = code[i];
            let i1: Instruction = code[i + 1];
            let i2: Instruction = code[i + 2];
            let b: i32 = base[i];
            assert(code@[i + 1] == orig[i + 1]);
            assert(code@[i + 2] == orig[i + 2]);
            if i0.op == Op::PushLocal && i1.op == Op::PushConst && !hit[i + 1] && !hit[i + 2]
                && base[i + 1] == b && base[i + 2] == b && 0 <= i0.operand && i0.operand <= 255 && 0
                <= i1.operand && i1.operand <= 65535 {
                let slot: u8 = i0.operand as u8;
                let konst: u16 = i1.operand as u16;
                let mut branch: Option<Op> = None;
                let mut target: i32 = 0;
                if len - i > 3 && !hit[i + 3] && base[i + 3] == b {
                    let i3: Instruction = code[i + 3];
                    assert(code@[i + 3] == orig[i + 3]);
                    if i3.op == Op::JumpIfFalse {
                        target = i3.operand;
                        if i2.op == Op::LtInt {
                            branch = Some(Op::JumpGeIntLC);
                        } else if i2.op == Op::EqInt {
                            branch = Some(Op::JumpNeIntLC);
                        }
                    }
                }
                if let Some(f) = branch {
                    code[i] = op_ab(f, slot, konst, target);
                    code[i + 1] = nop;
                    code[i + 2] = nop;
                    code[i + 3] = nop;
                    step = 4;
                } else {
                    let value: Option<Op> = if i2.op == Op::AddInt {
                        Some(Op::AddIntLC)
                    } else if i2.op == Op::SubInt {
                        Some(Op::SubIntLC)
                    } else {
                        None
                    };
                    if let Some(f) = value {
                        code[i] = op_ab(f, slot, konst, 0);
                        code[i + 1] = nop;
                        code[i + 2] = nop;
                        step = 3;
                    }
                }
            }
        }
        proof {
            assert(step == width(orig, fs, i as int));
            let tail = fused_from(orig, fs, i + step);
            match fusable(orig, fs, i as int) {
                Some((w, ins)) => {
                    assert(code@.take(i + step) =~= prev.take(i as int) + (seq![ins] + Seq::new(
                        (w - 1) as nat,
                        |k: int| instr(Op::Nop, 0, 0, 0),
                    )));
                    assert(prev.take(i as int) + (seq![ins] + Seq::new(
                        (w - 1) as nat,
                        |k: int| instr(Op::Nop, 0, 0, 0),
                    )) + tail =~= prev.take(i as int) + (seq![ins] + Seq::new(
                        (w - 1) as nat,
                        |k: int| instr(Op::Nop, 0, 0, 0),
                    ) + tail));
                },
                None => {
                    assert(code@.take(i + 1) =~= prev.take(i as int) + seq![orig[i as int]]);
                    assert(prev.take(i as int) + seq![orig[i as int]] + tail =~= prev.take(i as int)
                        + (seq![orig[i as int]] + tail));
                },
            }
        }
        i = i + step;
    }
    proof {
        assert(code@.take(len as int) + fused_from(orig, fs, len as int) =~= code@);
    }
}

/// The start of the window, or of the lone instruction, that `k` belongs to when
/// the pass runs from `i`.
pub open spec fn window_of(code: Seq<Instruction>, fs: Seq<Function>, i: int, k: int) -> int
    decreases k - i,
{
    if k < i + width(code, fs, i) {
        i
    } else {
        window_of(code, fs, i + width(code, fs, i), k)
    }
}

pub proof fn lemma_window(code: Seq<Instruction>, fs: Seq<Function>, i: int, k: int)
    requires
        0 <= i <= k < code.len(),
    ensures
        i <= window_of(code, fs, i, k) <= k < window_of(code, fs, i, k) + width(
            code,
            fs,
            window_of(code, fs, i, k),
        ),
        window_of(code, fs, i, window_of(code, fs, i, k)) == window_of(code, fs, i, k),
        fused_from(code, fs, i).len() == code.len() - i,
        fused_from(code, fs, i)[k - i] == ({
            let s = window_of(code, fs, i, k);
            match fusable(code, fs, s) {
                Some((_, ins)) => if k == s {
                    ins
                } else {
                    instr(Op::Nop, 0, 0, 0)
                },
                None => code[k],
            }
        }),
    decreases k - i,
{
    let w = width(code, fs, i);
    if k < i + w {
        lemma_fused_len(code, fs, i);
    } else {
        lemma_window(code, fs, i + w, k);
        lemma_fused_len(code, fs, i);
    }
}

pub proof fn lemma_fused_len(code: Seq<Instruction>, fs: Seq<Function>, i: int)
    requires
        0 <= i <= code.len(),
    ensures
        fused_from(code, fs, i).len() == code.len() - i,
    decreases code.len() - i,
{
    if i < code.len() {
        lemma_fused_len(code, fs, i + width(code, fs, i));
    }
}

/// Fusion moves nothing: the stream keeps its length, and every index outside a
/// fused window keeps its instruction.
pub proof fn law_nothing_moves(code: Seq<Instruction>, fs: Seq<Function>, k: int)
    requires
        0 <= k < code.len(),
    ensures
        fused(code, fs).len() == code.len(),
        fusable(code, fs, window_of(code, fs, 0, k)) is None ==> fused(code, fs)[k] == code[k],
{
    lemma_window(code, fs, 0, k);
}

/// No jump lands on a slot that fusion blanked out: where a jump may land stands
/// either the old instruction or the head of a fused window that starts there.
pub proof fn law_jumps_land_on_live_slots(code: Seq<Instruction>, fs: Seq<Function>, t: int)
    requires
        0 <= t < code.len(),
        is_target(code, fs, t),
    ensures
        fused(code, fs)[t] == code[t] || (fusable(code, fs, t) matches Some((_, ins)) && fused(
            code,
            fs,
        )[t] == ins),
{
    lemma_window(code, fs, 0, t);
}

/// Fusion neither adds nor loses a jump target.
pub proof fn law_fusion_keeps_targets(code: Seq<Instruction>, fs: Seq<Function>, t: int)
    ensures
        is_target(fused(code, fs), fs, t) == is_target(code, fs, t),
{
    let out = fused(code, fs);
    lemma_fused_len(code, fs, 0);
    if is_target(code, fs, t) {
        let j = choose|j: int| 0 <= j < code.len() && #[trigger] jumps_to(code, fs, j, t);
        lemma_window(code, fs, 0, j);
        let s = window_of(code, fs, 0, j);
        lemma_window(code, fs, 0, s);
        if fusable(code, fs, s) is None {
            assert(jumps_to(out, fs, j, t));
        } else {
            assert(j == s + 3);
            assert(jumps_to(out, fs, s, t));
        }
    }
    if is_target(out, fs, t) {
        let j = choose|j: int| 0 <= j < out.len() && #[trigger] jumps_to(out, fs, j, t);
        lemma_window(code, fs, 0, j);
        let s = window_of(code, fs, 0, j);
        if fusable(code, fs, s) is None {
            assert(jumps_to(code, fs, j, t));
        } else {
            assert(j == s);
            assert(jumps_to(code, fs, s + 3, t));
        }
    }
}

/// A second run of the pass changes nothing.
pub proof fn law_fusion_is_idempotent(code: Seq<Instruction>, fs: Seq<Function>)
    ensures
        fused(fused(code, fs), fs) == fused(code, fs),
{
    let out = fused(code, fs);
    lemma_fused_len(code, fs, 0);
    assert forall|i: int| 0 <= i < out.len() implies fusable(out, fs, i) is None by {
        if fusable(out, fs, i) is Some {
            lemma_window(code, fs, 0, i);
            lemma_window(code, fs, 0, i + 1);
            lemma_window(code, fs, 0, i + 2);
            law_fusion_keeps_targets(code, fs, i + 1);
            law_fusion_keeps_targets(code, fs, i + 2);
            if i + 3 < out.len() {
                lemma_window(code, fs, 0, i + 3);
                law_fusion_keeps_targets(code, fs, i + 3);
            }
            assert(out[i] == code[i]);
            assert(out[i + 1] == code[i + 1]);
            assert(out[i + 2] == code[i + 2]);
            assert(fusable(code, fs, i) is Some);
        }
    }
    lemma_unfusable_is_fixed(out, fs, 0);
    assert(out.skip(0) =~= out);
}

proof fn lemma_unfusable_is_fixed(code: Seq<Instruction>, fs: Seq<Function>, i: int)
    requires
        0 <= i <= code.len(),
        forall|k: int| 0 <= k < code.len() ==> fusable(code, fs, k) is None,
    ensures
        fused_from(code, fs, i) == code.skip(i),
    decreases code.len() - i,
{
    if i < code.len() {
        lemma_unfusable_is_fixed(code, fs, i + 1);
        assert(code.skip(i) =~= seq![code[i]] + code.skip(i + 1));
    } else {
        assert(code.skip(i) =~= Seq::empty());
    }
}

/// The frame a jump belongs to is the innermost region around it: no region that
/// holds the index is shorter, and among equally short ones it is the last.
pub proof fn law_owner_is_innermost(fs: Seq<Function>, i: int, k: int)
    requires
        0 <= k < fs.len(),
        covers(fs[k], i),
    ensures
        owner(fs, fs.len(), i) matches Some(w) && 0 <= w < fs.len() && covers(fs[w], i)
            && fs[w].code_len <= fs[k].code_len && (fs[w].code_len == fs[k].code_len ==> k <= w),
{
    lemma_owner(fs, fs.len(), i, k);
}

proof fn lemma_owner(fs: Seq<Function>, n: nat, i: int, k: int)
    requires
        n <= fs.len(),
    ensures
        owner(fs, n, i) matches Some(w) ==> 0 <= w < n && covers(fs[w], i),
        0 <= k < n && covers(fs[k], i) ==> (owner(fs, n, i) matches Some(w) && fs[w].code_len
            <= fs[k].code_len && (fs[w].code_len == fs[k].code_len ==> k <= w)),
    decreases n,
{
    if n > 0 {
        lemma_owner(fs, (n - 1) as nat, i, k);
    }
}

} // verus!

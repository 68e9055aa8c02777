//! What fusion leaves of what a program computes: all of it.
use crate::machine::{
    const_int, lemma_run_on, local_int, reaches, run, step, Config, Given, Image,
};
use crate::op::{instr, Function, Instruction, Op};
use crate::peephole::{base_of, fusable, fused, is_target, jumps_to, lemma_window, width, window_of};
use vstd::prelude::*;

verus! {

/// Whether an instruction is not the first of those that one fused instruction stands for:
/// the pass leaves a filler there.
pub open spec fn inside(code: Seq<Instruction>, fs: Seq<Function>, pc: int) -> bool {
    0 <= pc < code.len() && window_of(code, fs, 0, pc) != pc
}

/// Whether what an instruction does that the machine does not know leads into no window: it
/// goes on behind itself or where it may.
pub open spec fn keeps_out(g: Given, code: Seq<Instruction>, fs: Seq<Function>) -> bool {
    forall|ins: Instruction, c: Config|
        #![trigger (g.other)(ins, c)]
        (g.other)(ins, c) matches Some(d) ==> !inside(code, fs, d.pc)
}

/// The same program, fused.
pub open spec fn fused_image(img: Image) -> Image {
    Image { code: fused(img.code, img.fs), ..img }
}

/// A jump that is known leads into no window.
proof fn lemma_target(code: Seq<Instruction>, fs: Seq<Function>, j: int, t: int)
    requires
        0 <= j < code.len(),
        jumps_to(code, fs, j, t),
    ensures
        !inside(code, fs, t),
{
    if 0 <= t < code.len() {
        assert(is_target(code, fs, t));
        lemma_window(code, fs, 0, t);
    }
}

/// What stands behind a window, or behind an instruction of its own, is in no window.
proof fn lemma_behind(code: Seq<Instruction>, fs: Seq<Function>, pc: int)
    requires
        0 <= pc < code.len(),
        !inside(code, fs, pc),
    ensures
        !inside(code, fs, pc + width(code, fs, pc)),
{
    let next = pc + width(code, fs, pc);
    if next < code.len() {
        lemma_window(code, fs, 0, pc);
        lemma_window(code, fs, 0, next);
        lemma_next(code, fs, 0, pc);
    }
}

proof fn lemma_next(code: Seq<Instruction>, fs: Seq<Function>, i: int, pc: int)
    requires
        0 <= i <= pc < code.len(),
        window_of(code, fs, i, pc) == pc,
        pc + width(code, fs, pc) < code.len(),
    ensures
        window_of(code, fs, i, pc + width(code, fs, pc)) == pc + width(code, fs, pc),
    decreases pc - i,
{
    reveal_with_fuel(window_of, 3);
    if i < pc {
        lemma_next(code, fs, i + width(code, fs, i), pc);
    }
}

/// An instruction that is not fused does what it did, and leads into no window.
proof fn lemma_alone(g: Given, img: Image, c: Config)
    requires
        keeps_out(g, img.code, img.fs),
        0 <= c.pc < img.code.len(),
        !inside(img.code, img.fs, c.pc),
        fusable(img.code, img.fs, c.pc) is None,
    ensures
        step(g, fused_image(img), c) == step(g, img, c),
        step(g, img, c) matches Some(d) ==> !inside(img.code, img.fs, d.pc),
{
    let (code, fs) = (img.code, img.fs);
    lemma_window(code, fs, 0, c.pc);
    lemma_behind(code, fs, c.pc);
    if let Some(d) = step(g, img, c) {
        if d.pc != c.pc + 1 && code[c.pc].op.jumps() {
            assert(jumps_to(code, fs, c.pc, d.pc));
            lemma_target(code, fs, c.pc, d.pc);
        }
    }
}

/// A filler does nothing.
proof fn lemma_fillers(g: Given, img: Image, n: nat, c: Config)
    requires
        0 <= c.pc,
        c.pc + n <= img.code.len(),
        forall|k: int| c.pc <= k < c.pc + n ==> (#[trigger] img.code[k]).op == Op::Nop,
    ensures
        run(g, img, n, c) == Some(c.go(c.pc + n, c.stack)),
    decreases n,
{
    if n > 0 {
        let d = c.next(c.stack);
        assert(img.code[c.pc].op == Op::Nop);
        assert(step(g, img, c) == Some(d));
        lemma_fillers(g, img, (n - 1) as nat, d);
    }
}

/// The instructions of a window, one after the other, do what the fused one does together
/// with the fillers behind it; and where they stop, so does it.
proof fn lemma_together(g: Given, img: Image, c: Config)
    requires
        0 <= c.pc < img.code.len(),
        !inside(img.code, img.fs, c.pc),
        fusable(img.code, img.fs, c.pc) is Some,
    ensures
        ({
            let w = width(img.code, img.fs, c.pc) as nat;
            let out = fused_image(img);
            match run(g, img, w, c) {
                Some(d) => (run(g, out, w, c) == Some(d) || run(g, out, 1, c) == Some(d))
                    && !inside(img.code, img.fs, d.pc),
                None => step(g, out, c) is None,
            }
        }),
        forall|n: nat|
            0 < n < width(img.code, img.fs, c.pc) ==> (#[trigger] run(g, img, n, c) matches Some(
                d,
            ) ==> d.pc == c.pc + n),
{
    let (code, fs) = (img.code, img.fs);
    let (w, ins) = fusable(code, fs, c.pc)->0;
    let out = fused_image(img);
    lemma_window(code, fs, 0, c.pc);
    lemma_behind(code, fs, c.pc);
    assert forall|k: int| c.pc < k < c.pc + w implies (#[trigger] out.code[k]).op == Op::Nop by {
        lemma_window(code, fs, 0, k);
        lemma_in_window(code, fs, 0, c.pc, k);
    }
    assert(out.code[c.pc] == ins);
    lemma_window(code, fs, 0, c.pc + 1);
    assert(out.code.len() == code.len());
    let (s, k) = (code[c.pc].operand as int, code[c.pc + 1].operand as int);
    reveal_with_fuel(run, 5);
    let (x, y) = (local_int(c, s), const_int(img, k));
    assert(ins.a as int == s && ins.b as int == k);
    assert(base_of(fs, c.pc + 3) == base_of(fs, c.pc) || w == 3);
    let c1 = c.next(c.stack.push(c.locals[s]));
    if c.locals.dom().contains(s) {
        assert(step(g, img, c) == Some(c1));
        if 0 <= k < img.consts.len() {
            let kv = g.constant(img.consts[k]);
            let c2 = c1.next(c1.stack.push(kv));
            assert(step(g, img, c1) == Some(c2));
            assert(c2.below(0) == kv && c2.below(1) == c.locals[s]);
            assert(c2.without(2) =~= c.stack);
            if let Some(d) = step(g, out, c) {
                if w == 3 {
                    lemma_fillers(g, out, 2, d);
                } else if d.pc == c.pc + 1 {
                    lemma_fillers(g, out, 3, d);
                }
                lemma_run_on(g, out, 1, (w - 1) as nat, c);
            }
            if w == 4 {
                if let Some(c3) = step(g, img, c2) {
                    assert(c3.without(1) =~= c.stack);
                    if c3.below(0) == crate::machine::Value::Bool(false) {
                        assert(jumps_to(code, fs, c.pc + 3, img.target(c.pc + 3)));
                        lemma_target(code, fs, c.pc + 3, img.target(c.pc + 3));
                    }
                }
            }
        }
    }
}

proof fn lemma_in_window(code: Seq<Instruction>, fs: Seq<Function>, i: int, pc: int, k: int)
    requires
        0 <= i <= pc <= k < code.len(),
        window_of(code, fs, i, pc) == pc,
        k < pc + width(code, fs, pc),
    ensures
        window_of(code, fs, i, k) == pc,
    decreases pc - i,
{
    if i < pc {
        lemma_in_window(code, fs, i + width(code, fs, i), pc, k);
    }
}

proof fn lemma_there(g: Given, img: Image, n: nat, c: Config, d: Config)
    requires
        keeps_out(g, img.code, img.fs),
        !inside(img.code, img.fs, c.pc),
        !inside(img.code, img.fs, d.pc),
        run(g, img, n, c) == Some(d),
    ensures
        reaches(g, fused_image(img), c, d),
    decreases n,
{
    let out = fused_image(img);
    if n == 0 {
        assert(run(g, out, 0, c) == Some(d));
    } else if fusable(img.code, img.fs, c.pc) is None {
        let e = step(g, img, c)->0;
        lemma_alone(g, img, c);
        lemma_there(g, img, (n - 1) as nat, e, d);
        let m = choose|m: nat| #[trigger] run(g, out, m, e) == Some(d);
        assert(run(g, out, m + 1, c) == Some(d));
    } else {
        let w = width(img.code, img.fs, c.pc) as nat;
        lemma_together(g, img, c);
        if n < w {
            assert(d.pc == c.pc + n);
            lemma_in_window(img.code, img.fs, 0, c.pc, d.pc);
        } else {
            lemma_run_on(g, img, w, (n - w) as nat, c);
            let e = run(g, img, w, c)->0;
            lemma_there(g, img, (n - w) as nat, e, d);
            let m = choose|m: nat| #[trigger] run(g, out, m, e) == Some(d);
            lemma_run_on(g, out, w, m, c);
            lemma_run_on(g, out, 1, m, c);
        }
    }
}

proof fn lemma_back(g: Given, img: Image, n: nat, c: Config, d: Config)
    requires
        keeps_out(g, img.code, img.fs),
        !inside(img.code, img.fs, c.pc),
        !inside(img.code, img.fs, d.pc),
        run(g, fused_image(img), n, c) == Some(d),
    ensures
        reaches(g, img, c, d),
    decreases n,
{
    let out = fused_image(img);
    if n == 0 {
        assert(run(g, img, 0, c) == Some(d));
    } else {
        crate::peephole::lemma_fused_len(img.code, img.fs, 0);
        assert(out.code.len() == img.code.len());
        if fusable(img.code, img.fs, c.pc) is None {
            lemma_alone(g, img, c);
            let e = step(g, img, c)->0;
            lemma_back(g, img, (n - 1) as nat, e, d);
            let m = choose|m: nat| #[trigger] run(g, img, m, e) == Some(d);
            assert(run(g, img, m + 1, c) == Some(d));
        } else {
            let w = width(img.code, img.fs, c.pc) as nat;
            lemma_together(g, img, c);
            let e = run(g, img, w, c)->0;
            let j: nat = if run(g, out, 1, c) == Some(e) {
                1
            } else {
                w
            };
            assert(run(g, out, j, c) == Some(e));
            if n < j {
                lemma_fused_prefix(g, img, n, c);
                lemma_in_window(img.code, img.fs, 0, c.pc, d.pc);
            } else {
                lemma_run_on(g, out, j, (n - j) as nat, c);
                lemma_back(g, img, (n - j) as nat, e, d);
                let m = choose|m: nat| #[trigger] run(g, img, m, e) == Some(d);
                lemma_run_on(g, img, w, m, c);
                assert(run(g, img, w + m, c) == Some(d));
            }
        }
    }
}

/// A fused instruction that does not jump is followed by its fillers.
proof fn lemma_fused_prefix(g: Given, img: Image, n: nat, c: Config)
    requires
        0 <= c.pc < img.code.len(),
        !inside(img.code, img.fs, c.pc),
        fusable(img.code, img.fs, c.pc) is Some,
        0 < n < width(img.code, img.fs, c.pc),
        ({
            let w = width(img.code, img.fs, c.pc) as nat;
            let out = fused_image(img);
            &&& run(g, out, w, c) matches Some(e) && run(g, img, w, c) == Some(e)
            &&& run(g, out, 1, c) != run(g, out, w, c)
            &&& run(g, out, n, c) is Some
        }),
    ensures
        run(g, fused_image(img), n, c)->0.pc == c.pc + n,
{
    let (code, fs) = (img.code, img.fs);
    let w = width(code, fs, c.pc);
    let out = fused_image(img);
    lemma_together(g, img, c);
    lemma_window(code, fs, 0, c.pc);
    assert forall|k: int| c.pc < k < c.pc + w implies (#[trigger] out.code[k]).op == Op::Nop by {
        lemma_window(code, fs, 0, k);
        lemma_in_window(code, fs, 0, c.pc, k);
    }
    let d = step(g, out, c)->0;
    reveal_with_fuel(run, 2);
    lemma_run_on(g, out, 1, (n - 1) as nat, c);
    if d.pc == c.pc + 1 {
        lemma_fillers(g, out, (n - 1) as nat, d);
    } else {
        lemma_taken(g, img, c);
    }
}

proof fn lemma_taken(g: Given, img: Image, c: Config)
    requires
        0 <= c.pc < img.code.len(),
        !inside(img.code, img.fs, c.pc),
        fusable(img.code, img.fs, c.pc) is Some,
        step(g, fused_image(img), c) matches Some(d) && d.pc != c.pc + 1,
    ensures
        run(g, img, width(img.code, img.fs, c.pc) as nat, c) == run(g, fused_image(img), 1, c),
{
    let (code, fs) = (img.code, img.fs);
    let (w, ins) = fusable(code, fs, c.pc)->0;
    let out = fused_image(img);
    lemma_window(code, fs, 0, c.pc);
    reveal_with_fuel(run, 5);
    let (s, k) = (code[c.pc].operand as int, code[c.pc + 1].operand as int);
    let c1 = c.next(c.stack.push(c.locals[s]));
    let c2 = c1.next(c1.stack.push(g.constant(img.consts[k])));
    assert(step(g, img, c) == Some(c1));
    assert(step(g, img, c1) == Some(c2));
    assert(c2.without(2) =~= c.stack);
    let c3 = step(g, img, c2)->0;
    assert(c3.without(1) =~= c.stack);
}

// ---- laws ----------------------------------------------------------------------

/// Fusion changes nothing of what a program computes: from a place that is in no window a
/// machine gets to another such place, with the same stack and the same locals, in the fused
/// code just if it does in the code as it was emitted.
pub proof fn law_fusion_computes_the_same(g: Given, img: Image, c: Config, d: Config)
    requires
        keeps_out(g, img.code, img.fs),
        !inside(img.code, img.fs, c.pc),
        !inside(img.code, img.fs, d.pc),
    ensures
        reaches(g, img, c, d) <==> reaches(
            g,
            Image { code: fused(img.code, img.fs), ..img },
            c,
            d,
        ),
{
    if reaches(g, img, c, d) {
        let n = choose|n: nat| #[trigger] run(g, img, n, c) == Some(d);
        lemma_there(g, img, n, c, d);
    }
    if reaches(g, fused_image(img), c, d) {
        let n = choose|n: nat| #[trigger] run(g, fused_image(img), n, c) == Some(d);
        lemma_back(g, img, n, c, d);
    }
}

/// A local and a constant that are added or subtracted, or compared to decide a jump, become
/// one instruction with fillers behind it, wherever they stand in one frame, nothing jumps
/// between them, and both fit the instruction.
pub proof fn law_windows_are_fused(code: Seq<Instruction>, fs: Seq<Function>, i: int)
    requires
        0 <= i,
        i + 2 < code.len(),
        code[i].op == Op::PushLocal && 0 <= code[i].operand <= u8::MAX,
        code[i + 1].op == Op::PushConst && 0 <= code[i + 1].operand <= u16::MAX,
        !is_target(code, fs, i + 1) && !is_target(code, fs, i + 2),
        base_of(fs, i + 1) == base_of(fs, i) && base_of(fs, i + 2) == base_of(fs, i),
    ensures
        code[i + 2].op == Op::AddInt || code[i + 2].op == Op::SubInt ==> {
            let out = fused(code, fs);
            &&& out[i] == instr(
                if code[i + 2].op == Op::AddInt {
                    Op::AddIntLC
                } else {
                    Op::SubIntLC
                },
                code[i].operand as u8,
                code[i + 1].operand as u16,
                0,
            )
            &&& out[i + 1].op == Op::Nop && out[i + 2].op == Op::Nop
        },
        (code[i + 2].op == Op::LtInt || code[i + 2].op == Op::EqInt) && i + 3 < code.len()
            && code[i + 3].op == Op::JumpIfFalse && !is_target(code, fs, i + 3) && base_of(
            fs,
            i + 3,
        ) == base_of(fs, i) ==> {
            let out = fused(code, fs);
            &&& out[i] == instr(
                if code[i + 2].op == Op::LtInt {
                    Op::JumpGeIntLC
                } else {
                    Op::JumpNeIntLC
                },
                code[i].operand as u8,
                code[i + 1].operand as u16,
                code[i + 3].operand,
            )
            &&& out[i + 1].op == Op::Nop && out[i + 2].op == Op::Nop && out[i + 3].op == Op::Nop
        },
{
    lemma_window(code, fs, 0, i);
    let s = window_of(code, fs, 0, i);
    assert(s == i);
    if fusable(code, fs, i) is Some {
        lemma_window(code, fs, 0, i + 1);
        lemma_window(code, fs, 0, i + 2);
        lemma_in_window(code, fs, 0, i, i + 1);
        lemma_in_window(code, fs, 0, i, i + 2);
        if width(code, fs, i) == 4 {
            lemma_window(code, fs, 0, i + 3);
            lemma_in_window(code, fs, 0, i, i + 3);
        }
    }
}

} // verus!

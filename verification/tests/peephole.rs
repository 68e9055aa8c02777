use al_bytecode::op::{op, op_ab, op_arg, Function, Instruction, Op};
use al_bytecode::peephole::fuse;

/// A body in 8..16, and a stale entry frame spanning the whole stream. That
/// frame's base must not overwrite the body's.
fn body_and_stale_entry(jump_operand: i32) -> (Vec<Instruction>, Vec<Function>) {
    let f = |name: &str, code_start, code_len| Function {
        name: name.into(),
        arity: 0,
        locals: 0,
        capture_count: 0,
        code_start,
        code_len,
    };
    let mut code = vec![op(Op::Nop); 8];
    code.extend([
        // body of `f` starts here (code_start = 8)
        op_arg(Op::PushLocal, 0),
        op_arg(Op::PushConst, 0),
        op(Op::LtInt),
        op_arg(Op::JumpIfFalse, 4), // → 8 + 4 = 12
        op(Op::Nop),
        op_arg(Op::Jump, jump_operand),
        op(Op::Nop),
        op(Op::Nop),
    ]);
    let functions = vec![
        f("f", 8, 8),
        // the precompiled stdlib's own entry frame, still in `functions`
        f("__main__", 0, 16),
        // this compile's entry frame
        f("__main__", 0, 16),
    ];
    (code, functions)
}

#[test]
fn stale_entry_frame_does_not_clobber_body_bases() {
    // `Jump` operand 2 → target `8 + 2 = 10`, the window's interior. Read
    // against a base of 0 it would point at `code[2]` and the interior
    // would look unreachable.
    let (mut code, functions) = body_and_stale_entry(2);
    fuse(&mut code, &functions);
    assert_eq!(
        code[8].op,
        Op::PushLocal,
        "window whose interior is a branch target must stay unfused"
    );
    assert_eq!(code[10].op, Op::LtInt);
}

#[test]
fn switch_tag_table_rows_are_branch_targets() {
    // `SwitchTag` with 3 rows at 2..5 dispatches to `2 + tag` — every row
    // is a live branch target. The fusable window at 3..6 overlaps rows 1
    // and 2; fusing it would leave a `Nop` where a dispatch lands.
    let mut code = vec![
        op_ab(Op::SwitchTag, 3, 0, 2),
        op(Op::Nop),
        op(Op::Nop),
        op_arg(Op::PushLocal, 0),
        op_arg(Op::PushConst, 0),
        op(Op::AddInt),
        op(Op::Nop),
    ];
    let functions = vec![Function {
        name: "__main__".into(),
        arity: 0,
        locals: 0,
        capture_count: 0,
        code_start: 0,
        code_len: code.len() as i32,
    }];
    fuse(&mut code, &functions);
    assert_eq!(
        code[3].op,
        Op::PushLocal,
        "window overlapping a jump-table row must stay unfused"
    );
    assert_eq!(code[4].op, Op::PushConst);
    assert_eq!(code[5].op, Op::AddInt);
}

#[test]
fn body_window_still_fuses_when_no_interior_target() {
    // `Jump` operand 6 → target `8 + 6 = 14`, outside the window.
    let (mut code, functions) = body_and_stale_entry(6);
    fuse(&mut code, &functions);
    assert_eq!(code[8].op, Op::JumpGeIntLC);
    assert_eq!(code[8].operand, 4, "fused operand stays frame-relative");
    assert_eq!(code[9].op, Op::Nop);
    assert_eq!(code[10].op, Op::Nop);
    assert_eq!(code[11].op, Op::Nop);
}

#[test]
fn fusing_twice_is_fusing_once() {
    let (mut code, functions) = body_and_stale_entry(6);
    fuse(&mut code, &functions);
    let once: Vec<Op> = code.iter().map(|i| i.op).collect();
    fuse(&mut code, &functions);
    let twice: Vec<Op> = code.iter().map(|i| i.op).collect();
    assert_eq!(once, twice);
}

use al_bytecode::binop::{specialize_binop, BinaryOp, BinopKind, Prim, ShortCircuitOp, ValueBinop};
use al_bytecode::op::Op;

/// The classification is total and the two short-circuiting operators are the
/// only ones that leave the `Value` side.
#[test]
fn every_binary_op_classifies_and_only_and_or_short_circuit() {
    let all = [
        BinaryOp::Add,
        BinaryOp::Sub,
        BinaryOp::Mul,
        BinaryOp::Div,
        BinaryOp::Mod,
        BinaryOp::Eq,
        BinaryOp::Ne,
        BinaryOp::Lt,
        BinaryOp::Le,
        BinaryOp::Gt,
        BinaryOp::Ge,
        BinaryOp::And,
        BinaryOp::Or,
    ];
    for op in all {
        match BinopKind::of(op) {
            BinopKind::ShortCircuit(_) => assert!(matches!(op, BinaryOp::And | BinaryOp::Or)),
            BinopKind::Value(a) => {
                assert!(!matches!(op, BinaryOp::And | BinaryOp::Or));
                // Total over every prim, including "unresolved".
                for prim in [None, Some(Prim::Int), Some(Prim::Float), Some(Prim::String)] {
                    let _: Op = specialize_binop(a, prim);
                }
            }
        }
    }
}

#[test]
fn operators_specialise_by_the_operand_type() {
    assert_eq!(specialize_binop(ValueBinop::Add, Some(Prim::Int)), Op::AddInt);
    assert_eq!(specialize_binop(ValueBinop::Add, None), Op::Add);
    assert_eq!(specialize_binop(ValueBinop::Ge, Some(Prim::Float)), Op::GteFloat);
    assert_eq!(specialize_binop(ValueBinop::Eq, Some(Prim::Int)), Op::EqInt);
    assert_eq!(specialize_binop(ValueBinop::Eq, None), Op::Eq);
}

#[test]
fn and_and_or_keep_their_names() {
    assert!(matches!(
        BinopKind::of(BinaryOp::And),
        BinopKind::ShortCircuit(ShortCircuitOp::And)
    ));
    assert!(matches!(
        BinopKind::of(BinaryOp::Or),
        BinopKind::ShortCircuit(ShortCircuitOp::Or)
    ));
}

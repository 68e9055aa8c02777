//! Source binary operator to opcode selection.
use crate::op::Op;
use vstd::prelude::*;

verus! {

/// A binary operator as the source writes it.
#[derive(Debug, Clone, Copy, PartialEq, Eq, Structural)]
pub enum BinaryOp {
    Add,
    Sub,
    Mul,
    Div,
    Mod,
    Eq,
    Ne,
    Lt,
    Le,
    Gt,
    Ge,
    And,
    Or,
}

/// A primitive type that inference can resolve an operand to.
#[derive(Debug, Clone, Copy, PartialEq, Eq, Structural)]
pub enum Prim {
    Int,
    Float,
    String,
}

/// A binary operator that denotes an opcode. `&&`/`||` are control flow and are
/// absent, which is why [`specialize_binop`] is total.
#[derive(Debug, Clone, Copy, PartialEq, Eq, Structural)]
pub enum ValueBinop {
    Add,
    Sub,
    Mul,
    Div,
    Mod,
    Eq,
    Ne,
    Lt,
    Le,
    Gt,
    Ge,
}

/// The two branching binary forms.
#[derive(Debug, Clone, Copy, PartialEq, Eq, Structural)]
pub enum ShortCircuitOp {
    And,
    Or,
}

/// Which of the two a source [`BinaryOp`] is.
#[derive(Debug, Clone, Copy, PartialEq, Eq, Structural)]
pub enum BinopKind {
    Value(ValueBinop),
    ShortCircuit(ShortCircuitOp),
}

/// The classification of a source operator: the branching pair apart, each
/// operator is the value operator of its own name.
pub open spec fn kind_of(op: BinaryOp) -> BinopKind {
    match op {
        BinaryOp::And => BinopKind::ShortCircuit(ShortCircuitOp::And),
        BinaryOp::Or => BinopKind::ShortCircuit(ShortCircuitOp::Or),
        BinaryOp::Add => BinopKind::Value(ValueBinop::Add),
        BinaryOp::Sub => BinopKind::Value(ValueBinop::Sub),
        BinaryOp::Mul => BinopKind::Value(ValueBinop::Mul),
        BinaryOp::Div => BinopKind::Value(ValueBinop::Div),
        BinaryOp::Mod => BinopKind::Value(ValueBinop::Mod),
        BinaryOp::Eq => BinopKind::Value(ValueBinop::Eq),
        BinaryOp::Ne => BinopKind::Value(ValueBinop::Ne),
        BinaryOp::Lt => BinopKind::Value(ValueBinop::Lt),
        BinaryOp::Le => BinopKind::Value(ValueBinop::Le),
        BinaryOp::Gt => BinopKind::Value(ValueBinop::Gt),
        BinaryOp::Ge => BinopKind::Value(ValueBinop::Ge),
    }
}

impl BinopKind {
    /// Classify a source operator.
    pub fn of(op: BinaryOp) -> (res: BinopKind)
        ensures
            res == kind_of(op),
    {
        match op {
            BinaryOp::And => BinopKind::ShortCircuit(ShortCircuitOp::And),
            BinaryOp::Or => BinopKind::ShortCircuit(ShortCircuitOp::Or),
            BinaryOp::Add => BinopKind::Value(ValueBinop::Add),
            BinaryOp::Sub => BinopKind::Value(ValueBinop::Sub),
            BinaryOp::Mul => BinopKind::Value(ValueBinop::Mul),
            BinaryOp::Div => BinopKind::Value(ValueBinop::Div),
            BinaryOp::Mod => BinopKind::Value(ValueBinop::Mod),
            BinaryOp::Eq => BinopKind::Value(ValueBinop::Eq),
            BinaryOp::Ne => BinopKind::Value(ValueBinop::Ne),
            BinaryOp::Lt => BinopKind::Value(ValueBinop::Lt),
            BinaryOp::Le => BinopKind::Value(ValueBinop::Le),
            BinaryOp::Gt => BinopKind::Value(ValueBinop::Gt),
            BinaryOp::Ge => BinopKind::Value(ValueBinop::Ge),
        }
    }
}

/// The opcode of an operator on operands of a resolved primitive type, or the
/// generic opcode where the operator has none for that type.
pub open spec fn specialized(op: ValueBinop, prim: Option<Prim>) -> Op {
    match op {
        ValueBinop::Add => match prim {
            Some(Prim::Int) => Op::AddInt,
            Some(Prim::Float) => Op::AddFloat,
            Some(Prim::String) => Op::AddStr,
            _ => Op::Add,
        },
        ValueBinop::Sub => match prim {
            Some(Prim::Int) => Op::SubInt,
            Some(Prim::Float) => Op::SubFloat,
            _ => Op::Sub,
        },
        ValueBinop::Mul => match prim {
            Some(Prim::Int) => Op::MulInt,
            Some(Prim::Float) => Op::MulFloat,
            _ => Op::Mul,
        },
        ValueBinop::Div => match prim {
            Some(Prim::Int) => Op::DivInt,
            Some(Prim::Float) => Op::DivFloat,
            _ => Op::Div,
        },
        ValueBinop::Mod => match prim {
            Some(Prim::Int) => Op::ModInt,
            _ => Op::Mod,
        },
        ValueBinop::Eq => match prim {
            Some(Prim::Int) => Op::EqInt,
            _ => Op::Eq,
        },
        ValueBinop::Ne => match prim {
            Some(Prim::Int) => Op::NeqInt,
            _ => Op::Neq,
        },
        ValueBinop::Lt => match prim {
            Some(Prim::Int) => Op::LtInt,
            Some(Prim::Float) => Op::LtFloat,
            _ => Op::Lt,
        },
        ValueBinop::Le => match prim {
            Some(Prim::Int) => Op::LteInt,
            Some(Prim::Float) => Op::LteFloat,
            _ => Op::Lte,
        },
        ValueBinop::Gt => match prim {
            Some(Prim::Int) => Op::GtInt,
            Some(Prim::Float) => Op::GtFloat,
            _ => Op::Gt,
        },
        ValueBinop::Ge => match prim {
            Some(Prim::Int) => Op::GteInt,
            Some(Prim::Float) => Op::GteFloat,
            _ => Op::Gte,
        },
    }
}

/// Pick the opcode for an operator, specialized to the operand's primitive type
/// when inference has resolved one. An unresolved operand keeps the generic op.
pub fn specialize_binop(op: ValueBinop, prim: Option<Prim>) -> (res: Op)
    ensures
        res == specialized(op, prim),
{
    match op {
        ValueBinop::Add => match prim {
            Some(Prim::Int) => Op::AddInt,
            Some(Prim::Float) => Op::AddFloat,
            Some(Prim::String) => Op::AddStr,
            _ => Op::Add,
        },
        ValueBinop::Sub => match prim {
            Some(Prim::Int) => Op::SubInt,
            Some(Prim::Float) => Op::SubFloat,
            _ => Op::Sub,
        },
        ValueBinop::Mul => match prim {
            Some(Prim::Int) => Op::MulInt,
            Some(Prim::Float) => Op::MulFloat,
            _ => Op::Mul,
        },
        ValueBinop::Div => match prim {
            Some(Prim::Int) => Op::DivInt,
            Some(Prim::Float) => Op::DivFloat,
            _ => Op::Div,
        },
        ValueBinop::Mod => match prim {
            Some(Prim::Int) => Op::ModInt,
            _ => Op::Mod,
        },
        ValueBinop::Eq => match prim {
            Some(Prim::Int) => Op::EqInt,
            _ => Op::Eq,
        },
        ValueBinop::Ne => match prim {
            Some(Prim::Int) => Op::NeqInt,
            _ => Op::Neq,
        },
        ValueBinop::Lt => match prim {
            Some(Prim::Int) => Op::LtInt,
            Some(Prim::Float) => Op::LtFloat,
            _ => Op::Lt,
        },
        ValueBinop::Le => match prim {
            Some(Prim::Int) => Op::LteInt,
            Some(Prim::Float) => Op::LteFloat,
            _ => Op::Lte,
        },
        ValueBinop::Gt => match prim {
            Some(Prim::Int) => Op::GtInt,
            Some(Prim::Float) => Op::GtFloat,
            _ => Op::Gt,
        },
        ValueBinop::Ge => match prim {
            Some(Prim::Int) => Op::GteInt,
            Some(Prim::Float) => Op::GteFloat,
            _ => Op::Gte,
        },
    }
}

/// Exactly `&&` and `||` short-circuit.
pub proof fn law_only_and_or_short_circuit(op: BinaryOp)
    ensures
        kind_of(op) is ShortCircuit <==> op == BinaryOp::And || op == BinaryOp::Or,
{
}

/// No operator, whatever its operand type, is compiled to a branch.
pub proof fn law_value_binops_never_branch(op: ValueBinop, prim: Option<Prim>)
    ensures
        !specialized(op, prim).jumps(),
{
}

} // verus!

//! The instruction set: opcodes, instructions, and the program they make up.
use crate::ast::StrId;
use crate::diag::ArenaSlice;
use vstd::prelude::*;

verus! {

/// `str`'s own `==`: two strings are equal when they hold the same characters.
pub assume_specification[ <str as PartialEq>::eq ](a: &str, b: &str) -> (res: bool)
    ensures
        res == (a@ == b@),
;

/// A virtual-machine opcode.
#[derive(Debug, Clone, Copy, PartialEq, Eq, Structural)]
pub enum Op {
    /// Push the constant at pool index `operand`.
    PushConst,
    /// Push the frame's local in slot `operand`.
    PushLocal,
    /// Push the entry frame's local in slot `operand`.
    PushGlobal,
    /// Pop into local slot `operand`.
    StoreLocal,
    PushNil,
    PushTrue,
    PushFalse,
    Pop,
    Dup,
    Add,
    Sub,
    Mul,
    Div,
    Mod,
    Neg,
    AddInt,
    SubInt,
    MulInt,
    DivInt,
    ModInt,
    NegInt,
    AddFloat,
    SubFloat,
    MulFloat,
    DivFloat,
    NegFloat,
    AddStr,
    Eq,
    Neq,
    Lt,
    Gt,
    Lte,
    Gte,
    LtInt,
    GtInt,
    LteInt,
    GteInt,
    EqInt,
    NeqInt,
    LtFloat,
    GtFloat,
    LteFloat,
    GteFloat,
    Not,
    /// Continue at `operand`.
    Jump,
    /// Pop; continue at `operand` when false.
    JumpIfFalse,
    /// Pop; continue at `operand` when true.
    JumpIfTrue,
    /// Continue at row `operand + tag` of a jump table with `a` rows.
    SwitchTag,
    Call,
    TailCall,
    CallSelf,
    TailCallSelf,
    Ret,
    /// `local[a] - const[b]`.
    SubIntLC,
    /// `local[a] + const[b]`.
    AddIntLC,
    /// Continue at `operand` unless `local[a] < const[b]`.
    JumpGeIntLC,
    /// Continue at `operand` unless `local[a] == const[b]`.
    JumpNeIntLC,
    /// Does nothing; the filler a fused window leaves behind.
    Nop,
    MakeArray,
    MakeTuple,
    TupleIndex,
    MakeRange,
    Index,
    ElemAt,
    /// Index, continuing at `operand` when the element is there.
    IndexOrElse,
    ArrayLen,
    ArraySlice,
    ArrayConcat,
    Prepend,
    Drop,
    Append,
    /// Replace an enum value by its payload field `operand`.
    GetField,
    /// Build an enum value with `operand` payload fields.
    MakeEnumPayload,
    /// Test the top value against the header below it.
    MatchEnum,
    /// Replace an enum value by its payload fields.
    UnwrapEnum,
    /// Build a closure over function `operand`.
    MakeClosure,
    /// Push captured value `operand` of the running closure.
    PushCapture,
    /// Push the running closure itself.
    PushSelf,
    ToString,
    StrConcatN,
    StrSplit,
    StrLen,
    StrContains,
    StrTrim,
    IntToString,
    BinFromString,
    BinToString,
    BinBitSize,
    BinByteSize,
    BinSlice,
    BinAppend,
    BinConcatN,
    BinFromInt,
    BinReadInt,
    BinTake,
    BinReadUtf8,
    BinMatchPrefix,
    BinView,
    BinIndexOf,
    BinByteAt,
    BinParseInt,
    BinEqIgnoreAsciiCase,
    BinToAsciiLower,
    BinFromIntAscii,
    HttpParseHead,
    HttpFraming,
    HttpChunkDecode,
    HttpHeaderGet,
    HttpHeaderHas,
    HttpSerializeHead,
    FloatFloor,
    FloatCeil,
    FloatRound,
    FloatTruncate,
    FloatFromInt,
    FloatToString,
    Print,
    StackDepth,
    Halt,
    FileRead,
    FileWrite,
    TcpListen,
    TcpAccept,
    TcpConnect,
    TcpRead,
    TcpReadUntil,
    TcpWrite,
    TcpWriteParts,
    TcpClose,
    TcpCloseServer,
    TcpLocalAddr,
    DnsResolve,
    IpParse,
    ProcessSpawn,
    SpawnLocal,
    SpawnOnEach,
    Sleep,
    Monotonic,
    Argv,
    EnvMap,
    MapGet,
    MapHas,
    MapKeys,
    MapValues,
    MapSize,
    MapNew,
    MapSet,
    MapDelete,
    MapToList,
}

impl Op {
    /// Whether this op's `operand` is an instruction index. For `SwitchTag` it is
    /// that of the first row of a jump table.
    pub open spec fn jumps(self) -> bool {
        ||| self == Op::Jump
        ||| self == Op::JumpIfFalse
        ||| self == Op::JumpIfTrue
        ||| self == Op::JumpGeIntLC
        ||| self == Op::JumpNeIntLC
        ||| self == Op::IndexOrElse
        ||| self == Op::SwitchTag
    }

    /// True when this op's `operand` is an instruction index that jump patching
    /// and peephole fusion must respect. The one authority on that question.
    pub fn has_jump_target(self) -> (res: bool)
        ensures
            res == self.jumps(),
    {
        matches!(
            self,
            Op::Jump
                | Op::JumpIfFalse
                | Op::JumpIfTrue
                | Op::JumpGeIntLC
                | Op::JumpNeIntLC
                | Op::IndexOrElse
                | Op::SwitchTag
        )
    }
}

/// The opcode behind each `@vm(name)` intrinsic key.
pub open spec fn builtin_op_of(name: Seq<char>) -> Option<Op> {
    if name == "println"@ {
        Some(Op::Print)
    } else if name == "string__inspect"@ {
        Some(Op::ToString)
    } else if name == "internal__stack_depth"@ {
        Some(Op::StackDepth)
    } else if name == "io__read_file"@ {
        Some(Op::FileRead)
    } else if name == "io__write_file"@ {
        Some(Op::FileWrite)
    } else if name == "net__listen"@ {
        Some(Op::TcpListen)
    } else if name == "net__accept"@ {
        Some(Op::TcpAccept)
    } else if name == "net__connect"@ {
        Some(Op::TcpConnect)
    } else if name == "net__close"@ {
        Some(Op::TcpCloseServer)
    } else if name == "net__local_addr"@ {
        Some(Op::TcpLocalAddr)
    } else if name == "net__resolve"@ {
        Some(Op::DnsResolve)
    } else if name == "address__parse"@ {
        Some(Op::IpParse)
    } else if name == "socket__read"@ {
        Some(Op::TcpRead)
    } else if name == "socket__read_until"@ {
        Some(Op::TcpReadUntil)
    } else if name == "socket__write"@ {
        Some(Op::TcpWrite)
    } else if name == "socket__write_parts"@ {
        Some(Op::TcpWriteParts)
    } else if name == "socket__close"@ {
        Some(Op::TcpClose)
    } else if name == "string__split"@ {
        Some(Op::StrSplit)
    } else if name == "string__length"@ {
        Some(Op::StrLen)
    } else if name == "string__contains"@ {
        Some(Op::StrContains)
    } else if name == "string__trim"@ {
        Some(Op::StrTrim)
    } else if name == "int__to_string"@ {
        Some(Op::IntToString)
    } else if name == "binary__from_string"@ {
        Some(Op::BinFromString)
    } else if name == "binary__to_string"@ {
        Some(Op::BinToString)
    } else if name == "binary__bit_size"@ {
        Some(Op::BinBitSize)
    } else if name == "binary__byte_size"@ {
        Some(Op::BinByteSize)
    } else if name == "binary__slice"@ {
        Some(Op::BinSlice)
    } else if name == "binary__append"@ {
        Some(Op::BinAppend)
    } else if name == "binary__index_of"@ {
        Some(Op::BinIndexOf)
    } else if name == "binary__byte_at"@ {
        Some(Op::BinByteAt)
    } else if name == "binary__parse_int"@ {
        Some(Op::BinParseInt)
    } else if name == "binary__eq_ignore_ascii_case"@ {
        Some(Op::BinEqIgnoreAsciiCase)
    } else if name == "binary__to_ascii_lower"@ {
        Some(Op::BinToAsciiLower)
    } else if name == "binary__from_int_ascii"@ {
        Some(Op::BinFromIntAscii)
    } else if name == "http__parse_head"@ {
        Some(Op::HttpParseHead)
    } else if name == "http__framing"@ {
        Some(Op::HttpFraming)
    } else if name == "http__chunk_decode"@ {
        Some(Op::HttpChunkDecode)
    } else if name == "http__header_get"@ {
        Some(Op::HttpHeaderGet)
    } else if name == "http__header_has"@ {
        Some(Op::HttpHeaderHas)
    } else if name == "http__serialize_head"@ {
        Some(Op::HttpSerializeHead)
    } else if name == "float__floor"@ {
        Some(Op::FloatFloor)
    } else if name == "float__ceil"@ {
        Some(Op::FloatCeil)
    } else if name == "float__round"@ {
        Some(Op::FloatRound)
    } else if name == "float__truncate"@ {
        Some(Op::FloatTruncate)
    } else if name == "float__from_int"@ {
        Some(Op::FloatFromInt)
    } else if name == "float__to_string"@ {
        Some(Op::FloatToString)
    } else if name == "scheduler__spawn"@ {
        Some(Op::ProcessSpawn)
    } else if name == "scheduler__spawn_local"@ {
        Some(Op::SpawnLocal)
    } else if name == "scheduler__spawn_on_each"@ {
        Some(Op::SpawnOnEach)
    } else if name == "scheduler__sleep"@ {
        Some(Op::Sleep)
    } else if name == "time__monotonic"@ {
        Some(Op::Monotonic)
    } else if name == "process__argv"@ {
        Some(Op::Argv)
    } else if name == "process__env"@ {
        Some(Op::EnvMap)
    } else if name == "map__get"@ {
        Some(Op::MapGet)
    } else if name == "map__has"@ {
        Some(Op::MapHas)
    } else if name == "map__keys"@ {
        Some(Op::MapKeys)
    } else if name == "map__values"@ {
        Some(Op::MapValues)
    } else if name == "map__size"@ {
        Some(Op::MapSize)
    } else if name == "map__new"@ {
        Some(Op::MapNew)
    } else if name == "map__set"@ {
        Some(Op::MapSet)
    } else if name == "map__delete"@ {
        Some(Op::MapDelete)
    } else if name == "map__to_list"@ {
        Some(Op::MapToList)
    } else {
        None
    }
}

/// Resolve an `@vm(name)` intrinsic key to its opcode. An unknown key has none.
pub fn builtin_op(name: &str) -> (res: Option<Op>)
    ensures
        res == builtin_op_of(name@),
{
    if *name == *"println" {
        Some(Op::Print)
    } else if *name == *"string__inspect" {
        Some(Op::ToString)
    } else if *name == *"internal__stack_depth" {
        Some(Op::StackDepth)
    } else if *name == *"io__read_file" {
        Some(Op::FileRead)
    } else if *name == *"io__write_file" {
        Some(Op::FileWrite)
    } else if *name == *"net__listen" {
        Some(Op::TcpListen)
    } else if *name == *"net__accept" {
        Some(Op::TcpAccept)
    } else if *name == *"net__connect" {
        Some(Op::TcpConnect)
    } else if *name == *"net__close" {
        Some(Op::TcpCloseServer)
    } else if *name == *"net__local_addr" {
        Some(Op::TcpLocalAddr)
    } else if *name == *"net__resolve" {
        Some(Op::DnsResolve)
    } else if *name == *"address__parse" {
        Some(Op::IpParse)
    } else if *name == *"socket__read" {
        Some(Op::TcpRead)
    } else if *name == *"socket__read_until" {
        Some(Op::TcpReadUntil)
    } else if *name == *"socket__write" {
        Some(Op::TcpWrite)
    } else if *name == *"socket__write_parts" {
        Some(Op::TcpWriteParts)
    } else if *name == *"socket__close" {
        Some(Op::TcpClose)
    } else if *name == *"string__split" {
        Some(Op::StrSplit)
    } else if *name == *"string__length" {
        Some(Op::StrLen)
    } else if *name == *"string__contains" {
        Some(Op::StrContains)
    } else if *name == *"string__trim" {
        Some(Op::StrTrim)
    } else if *name == *"int__to_string" {
        Some(Op::IntToString)
    } else if *name == *"binary__from_string" {
        Some(Op::BinFromString)
    } else if *name == *"binary__to_string" {
        Some(Op::BinToString)
    } else if *name == *"binary__bit_size" {
        Some(Op::BinBitSize)
    } else if *name == *"binary__byte_size" {
        Some(Op::BinByteSize)
    } else if *name == *"binary__slice" {
        Some(Op::BinSlice)
    } else if *name == *"binary__append" {
        Some(Op::BinAppend)
    } else if *name == *"binary__index_of" {
        Some(Op::BinIndexOf)
    } else if *name == *"binary__byte_at" {
        Some(Op::BinByteAt)
    } else if *name == *"binary__parse_int" {
        Some(Op::BinParseInt)
    } else if *name == *"binary__eq_ignore_ascii_case" {
        Some(Op::BinEqIgnoreAsciiCase)
    } else if *name == *"binary__to_ascii_lower" {
        Some(Op::BinToAsciiLower)
    } else if *name == *"binary__from_int_ascii" {
        Some(Op::BinFromIntAscii)
    } else if *name == *"http__parse_head" {
        Some(Op::HttpParseHead)
    } else if *name == *"http__framing" {
        Some(Op::HttpFraming)
    } else if *name == *"http__chunk_decode" {
        Some(Op::HttpChunkDecode)
    } else if *name == *"http__header_get" {
        Some(Op::HttpHeaderGet)
    } else if *name == *"http__header_has" {
        Some(Op::HttpHeaderHas)
    } else if *name == *"http__serialize_head" {
        Some(Op::HttpSerializeHead)
    } else if *name == *"float__floor" {
        Some(Op::FloatFloor)
    } else if *name == *"float__ceil" {
        Some(Op::FloatCeil)
    } else if *name == *"float__round" {
        Some(Op::FloatRound)
    } else if *name == *"float__truncate" {
        Some(Op::FloatTruncate)
    } else if *name == *"float__from_int" {
        Some(Op::FloatFromInt)
    } else if *name == *"float__to_string" {
        Some(Op::FloatToString)
    } else if *name == *"scheduler__spawn" {
        Some(Op::ProcessSpawn)
    } else if *name == *"scheduler__spawn_local" {
        Some(Op::SpawnLocal)
    } else if *name == *"scheduler__spawn_on_each" {
        Some(Op::SpawnOnEach)
    } else if *name == *"scheduler__sleep" {
        Some(Op::Sleep)
    } else if *name == *"time__monotonic" {
        Some(Op::Monotonic)
    } else if *name == *"process__argv" {
        Some(Op::Argv)
    } else if *name == *"process__env" {
        Some(Op::EnvMap)
    } else if *name == *"map__get" {
        Some(Op::MapGet)
    } else if *name == *"map__has" {
        Some(Op::MapHas)
    } else if *name == *"map__keys" {
        Some(Op::MapKeys)
    } else if *name == *"map__values" {
        Some(Op::MapValues)
    } else if *name == *"map__size" {
        Some(Op::MapSize)
    } else if *name == *"map__new" {
        Some(Op::MapNew)
    } else if *name == *"map__set" {
        Some(Op::MapSet)
    } else if *name == *"map__delete" {
        Some(Op::MapDelete)
    } else if *name == *"map__to_list" {
        Some(Op::MapToList)
    } else {
        None
    }
}

/// A single bytecode instruction. `a`/`b` are packed sub-operands;
/// single-operand ops leave them zero.
#[derive(Debug, Clone, Copy, PartialEq, Eq, Structural)]
pub struct Instruction {
    pub op: Op,
    pub a: u8,
    pub b: u16,
    pub operand: i32,
}

/// Fetch one instruction; `None` when `i` is out of bounds.
pub fn fetch(code: &[Instruction], i: usize) -> (res: Option<Instruction>)
    ensures
        res == (if i < code.len() { Some(code@[i as int]) } else { None }),
{
    if i >= code.len() {
        return None;
    }
    Some(code[i])
}

/// A compiled function: the region of the code stream it owns and the frame it
/// needs.
#[derive(Debug, Clone)]
pub struct Function {
    pub name: String,
    pub arity: i32,
    pub locals: i32,
    pub capture_count: i32,
    pub code_start: i32,
    pub code_len: i32,
}

/// An entry of the constant pool. A float is kept as the text of its literal,
/// and the hash of an enum value's names as the names it is taken of.
#[derive(Debug, Clone)]
pub enum Const {
    Int(i64),
    Float(StrId),
    ZeroFloat,
    Str(StrId),
    Labels(ArenaSlice),
    NameHash { ty_name: StrId, variant: StrId },
    Binary { bytes: Vec<u8>, bit_len: u64 },
}

/// The value of a constant.
pub enum ConstView {
    Int(i64),
    Float(StrId),
    ZeroFloat,
    Str(StrId),
    Labels(ArenaSlice),
    NameHash { ty_name: StrId, variant: StrId },
    Binary { bytes: Seq<u8>, bit_len: u64 },
}

impl View for Const {
    type V = ConstView;

    open spec fn view(&self) -> ConstView {
        match *self {
            Const::Int(i) => ConstView::Int(i),
            Const::Float(t) => ConstView::Float(t),
            Const::ZeroFloat => ConstView::ZeroFloat,
            Const::Str(t) => ConstView::Str(t),
            Const::Labels(l) => ConstView::Labels(l),
            Const::NameHash { ty_name, variant } => ConstView::NameHash { ty_name, variant },
            Const::Binary { bytes, bit_len } => ConstView::Binary { bytes: bytes@, bit_len },
        }
    }
}

/// A function, its name as text.
pub struct FunctionView {
    pub name: Seq<char>,
    pub arity: i32,
    pub locals: i32,
    pub capture_count: i32,
    pub code_start: i32,
    pub code_len: i32,
}

impl View for Function {
    type V = FunctionView;

    open spec fn view(&self) -> FunctionView {
        FunctionView {
            name: self.name@,
            arity: self.arity,
            locals: self.locals,
            capture_count: self.capture_count,
            code_start: self.code_start,
            code_len: self.code_len,
        }
    }
}

/// A whole program: constants, functions, the code stream, and the index of the
/// function that runs first.
#[derive(Debug, Clone)]
pub struct Program {
    pub constants: Vec<Const>,
    pub functions: Vec<Function>,
    pub code: Vec<Instruction>,
    pub entry: i32,
}

impl Default for Program {
    fn default() -> (res: Program)
        ensures
            res.constants@ == Seq::<Const>::empty(),
            res.functions@ == Seq::<Function>::empty(),
            res.code@ == Seq::<Instruction>::empty(),
            res.entry == 0,
    {
        Program { constants: Vec::new(), functions: Vec::new(), code: Vec::new(), entry: 0 }
    }
}

/// The instruction with the given fields.
pub open spec fn instr(op: Op, a: u8, b: u16, operand: i32) -> Instruction {
    Instruction { op, a, b, operand }
}

/// An instruction without operands.
pub fn op(o: Op) -> (res: Instruction)
    ensures
        res == instr(o, 0, 0, 0),
{
    Instruction { op: o, a: 0, b: 0, operand: 0 }
}

/// An instruction with one operand.
pub fn op_arg(o: Op, operand: i32) -> (res: Instruction)
    ensures
        res == instr(o, 0, 0, operand),
{
    Instruction { op: o, a: 0, b: 0, operand }
}

/// An instruction with packed sub-operands.
pub fn op_ab(o: Op, a: u8, b: u16, operand: i32) -> (res: Instruction)
    ensures
        res == instr(o, a, b, operand),
{
    Instruction { op: o, a, b, operand }
}

} // verus!

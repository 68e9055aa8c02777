//! What instructions do.
//!
//! A mathematical machine with a stack and locals gives the instructions that code
//! generation and fusion rest on their meaning. What it does not say of itself is a
//! parameter: how floats compare, and what every other instruction does. Integers have 64
//! bits; where a sum would not fit, the machine stops.
use crate::ast::StrId;
use crate::bits::byte_bit;
use crate::op::{ConstView, Function, Instruction, Op};
use crate::peephole::base_of;
use vstd::prelude::*;

verus! {

/// A value at run time.
pub enum Value {
    Nil,
    Bool(bool),
    Int(int),
    /// A float, by a number that equal floats share.
    Float(int),
    Text(StrId),
    Tuple(Seq<Value>),
    Array(Seq<Value>),
    Bits(Seq<bool>),
    /// A value of a constructor: the identity of its type, the constructor and the fields.
    Made { ty: int, variant: StrId, fields: Seq<Value> },
    /// A constant that no program sees.
    Inner(ConstView),
    /// Anything else.
    Other(int),
}

/// Where a machine is: at an instruction, with a stack and the locals of a frame.
pub struct Config {
    pub pc: int,
    pub stack: Seq<Value>,
    pub locals: Map<int, Value>,
}

/// What the machine takes as given: what a float literal stands for, which floats are less
/// than others, and what an instruction does that is not spoken of here.
pub struct Given {
    pub float: spec_fn(StrId) -> int,
    pub zero: int,
    pub less: spec_fn(int, int) -> bool,
    pub other: spec_fn(Instruction, Config) -> Option<Config>,
}

/// A program to run: its code, its constants, and the functions whose regions jumps are
/// relative to.
pub struct Image {
    pub code: Seq<Instruction>,
    pub consts: Seq<ConstView>,
    pub fs: Seq<Function>,
}

/// The first `n` bits of some bytes, the most significant bit of each first.
pub open spec fn bits_of(bytes: Seq<u8>, n: nat) -> Seq<bool> {
    Seq::new(n, |i: int| byte_bit(bytes[i / 8], i % 8))
}

/// The number that some bits stand for, the most significant first.
pub open spec fn number_of_bits(bits: Seq<bool>) -> int
    decreases bits.len(),
{
    if bits.len() == 0 {
        0
    } else {
        2 * number_of_bits(bits.drop_last()) + if bits.last() {
            1int
        } else {
            0
        }
    }
}

/// Whether a number fits an integer.
pub open spec fn fits_int(i: int) -> bool {
    i64::MIN <= i <= i64::MAX
}

impl Given {
    /// The value of a constant.
    pub open spec fn constant(self, c: ConstView) -> Value {
        match c {
            ConstView::Int(i) => Value::Int(i as int),
            ConstView::Float(text) => Value::Float((self.float)(text)),
            ConstView::ZeroFloat => Value::Float(self.zero),
            ConstView::Str(text) => Value::Text(text),
            ConstView::Binary { bytes, bit_len } => Value::Bits(bits_of(bytes, bit_len as nat)),
            _ => Value::Inner(c),
        }
    }

    /// Whether one number is less than another.
    pub open spec fn is_less(self, a: Value, b: Value) -> Option<bool> {
        match (a, b) {
            (Value::Int(x), Value::Int(y)) => Some(x < y),
            (Value::Float(x), Value::Float(y)) => Some((self.less)(x, y)),
            _ => None,
        }
    }

    /// The result of an operation on the two topmost values.
    pub open spec fn binary(self, o: Op, a: Value, b: Value) -> Option<Value> {
        match o {
            Op::Eq => Some(Value::Bool(a == b)),
            Op::Neq => Some(Value::Bool(a != b)),
            Op::Lt => match self.is_less(a, b) {
                Some(x) => Some(Value::Bool(x)),
                None => None,
            },
            Op::Gt => match self.is_less(b, a) {
                Some(x) => Some(Value::Bool(x)),
                None => None,
            },
            Op::Lte => match self.is_less(a, b) {
                Some(x) => Some(Value::Bool(x || a == b)),
                None => None,
            },
            Op::Gte => match self.is_less(b, a) {
                Some(x) => Some(Value::Bool(x || a == b)),
                None => None,
            },
            Op::LtInt => if a is Int && b is Int {
                Some(Value::Bool(a->Int_0 < b->Int_0))
            } else {
                None
            },
            Op::GtInt => if a is Int && b is Int {
                Some(Value::Bool(a->Int_0 > b->Int_0))
            } else {
                None
            },
            Op::LteInt => if a is Int && b is Int {
                Some(Value::Bool(a->Int_0 <= b->Int_0))
            } else {
                None
            },
            Op::GteInt => if a is Int && b is Int {
                Some(Value::Bool(a->Int_0 >= b->Int_0))
            } else {
                None
            },
            Op::EqInt => if a is Int && b is Int {
                Some(Value::Bool(a == b))
            } else {
                None
            },
            Op::NeqInt => if a is Int && b is Int {
                Some(Value::Bool(a != b))
            } else {
                None
            },
            Op::Add => int_result(a, b, a->Int_0 + b->Int_0),
            Op::AddInt => int_result(a, b, a->Int_0 + b->Int_0),
            Op::Sub => int_result(a, b, a->Int_0 - b->Int_0),
            Op::SubInt => int_result(a, b, a->Int_0 - b->Int_0),
            Op::Mul => int_result(a, b, a->Int_0 * b->Int_0),
            Op::MulInt => int_result(a, b, a->Int_0 * b->Int_0),
            Op::Drop => match (a, b) {
                (Value::Array(es), Value::Int(n)) => if 0 <= n <= es.len() {
                    Some(Value::Array(es.skip(n)))
                } else {
                    None
                },
                _ => None,
            },
            _ => None,
        }
    }
}

/// An integer that comes of two.
pub open spec fn int_result(a: Value, b: Value, i: int) -> Option<Value> {
    if a is Int && b is Int && fits_int(i) {
        Some(Value::Int(i))
    } else {
        None
    }
}

/// Whether an operation takes the two topmost values.
pub open spec fn is_binary(o: Op) -> bool {
    ||| o == Op::Eq || o == Op::Neq || o == Op::Lt || o == Op::Gt || o == Op::Lte || o == Op::Gte
    ||| o == Op::LtInt || o == Op::GtInt || o == Op::LteInt || o == Op::GteInt
    ||| o == Op::EqInt || o == Op::NeqInt
    ||| o == Op::Add || o == Op::AddInt || o == Op::Sub || o == Op::SubInt
    ||| o == Op::Mul || o == Op::MulInt || o == Op::Drop
}

impl Config {
    /// Go on to the next instruction with another stack.
    pub open spec fn next(self, stack: Seq<Value>) -> Config {
        Config { pc: self.pc + 1, stack, ..self }
    }

    /// Go elsewhere with another stack.
    pub open spec fn go(self, pc: int, stack: Seq<Value>) -> Config {
        Config { pc, stack, ..self }
    }

    /// The value `n` below the top.
    pub open spec fn below(self, n: int) -> Value {
        self.stack[self.stack.len() - 1 - n]
    }

    /// The stack without its `n` topmost values.
    pub open spec fn without(self, n: int) -> Seq<Value> {
        self.stack.take(self.stack.len() - n)
    }
}

impl Image {
    /// Where a jump at an instruction leads.
    pub open spec fn target(self, pc: int) -> int {
        base_of(self.fs, pc) + self.code[pc].operand
    }
}

/// Whether a value is an integer constant.
pub open spec fn const_int(img: Image, i: int) -> Option<int> {
    if 0 <= i < img.consts.len() {
        match img.consts[i] {
            ConstView::Int(n) => Some(n as int),
            _ => None,
        }
    } else {
        None
    }
}

/// Whether a local is an integer.
pub open spec fn local_int(c: Config, i: int) -> Option<int> {
    if c.locals.dom().contains(i) {
        match c.locals[i] {
            Value::Int(n) => Some(n),
            _ => None,
        }
    } else {
        None
    }
}

/// What one instruction does. A machine that cannot go on stops.
pub open spec fn step(g: Given, img: Image, c: Config) -> Option<Config> {
    if !(0 <= c.pc < img.code.len()) {
        None
    } else {
        let ins = img.code[c.pc];
        let n = ins.operand as int;
        let have = c.stack.len();
        if is_binary(ins.op) {
            if have >= 2 {
                match g.binary(ins.op, c.below(1), c.below(0)) {
                    Some(v) => Some(c.next(c.without(2).push(v))),
                    None => None,
                }
            } else {
                None
            }
        } else {
            match ins.op {
                Op::PushConst => if 0 <= n < img.consts.len() {
                    Some(c.next(c.stack.push(g.constant(img.consts[n]))))
                } else {
                    None
                },
                Op::PushLocal => if c.locals.dom().contains(n) {
                    Some(c.next(c.stack.push(c.locals[n])))
                } else {
                    None
                },
                Op::StoreLocal => if have >= 1 {
                    Some(
                        Config {
                            pc: c.pc + 1,
                            stack: c.without(1),
                            locals: c.locals.insert(n, c.below(0)),
                        },
                    )
                } else {
                    None
                },
                Op::PushNil => Some(c.next(c.stack.push(Value::Nil))),
                Op::PushTrue => Some(c.next(c.stack.push(Value::Bool(true)))),
                Op::PushFalse => Some(c.next(c.stack.push(Value::Bool(false)))),
                Op::Pop => if have >= 1 {
                    Some(c.next(c.without(1)))
                } else {
                    None
                },
                Op::Dup => if have >= 1 {
                    Some(c.next(c.stack.push(c.below(0))))
                } else {
                    None
                },
                Op::Not => if have >= 1 && c.below(0) is Bool {
                    Some(c.next(c.without(1).push(Value::Bool(!c.below(0)->Bool_0))))
                } else {
                    None
                },
                Op::Nop => Some(c.next(c.stack)),
                Op::Jump => Some(c.go(img.target(c.pc), c.stack)),
                Op::JumpIfFalse => if have >= 1 && c.below(0) is Bool {
                    Some(
                        if c.below(0)->Bool_0 {
                            c.next(c.without(1))
                        } else {
                            c.go(img.target(c.pc), c.without(1))
                        },
                    )
                } else {
                    None
                },
                Op::JumpIfTrue => if have >= 1 && c.below(0) is Bool {
                    Some(
                        if c.below(0)->Bool_0 {
                            c.go(img.target(c.pc), c.without(1))
                        } else {
                            c.next(c.without(1))
                        },
                    )
                } else {
                    None
                },
                Op::SwitchTag => if have >= 1 && c.below(0) is Int && 0 <= c.below(0)->Int_0
                    < ins.a {
                    Some(c.go(img.target(c.pc) + c.below(0)->Int_0, c.without(1)))
                } else {
                    None
                },
                Op::IndexOrElse => if have >= 2 && c.below(1) is Array && c.below(0) is Int {
                    let (es, i) = (c.below(1)->Array_0, c.below(0)->Int_0);
                    if 0 <= i < es.len() {
                        Some(c.go(img.target(c.pc), c.without(2).push(es[i])))
                    } else {
                        Some(c.next(c.without(2)))
                    }
                } else {
                    None
                },
                Op::AddIntLC => match (local_int(c, ins.a as int), const_int(img, ins.b as int)) {
                    (Some(x), Some(y)) => if fits_int(x + y) {
                        Some(c.next(c.stack.push(Value::Int(x + y))))
                    } else {
                        None
                    },
                    _ => None,
                },
                Op::SubIntLC => match (local_int(c, ins.a as int), const_int(img, ins.b as int)) {
                    (Some(x), Some(y)) => if fits_int(x - y) {
                        Some(c.next(c.stack.push(Value::Int(x - y))))
                    } else {
                        None
                    },
                    _ => None,
                },
                Op::JumpGeIntLC => match (
                    local_int(c, ins.a as int),
                    const_int(img, ins.b as int),
                ) {
                    (Some(x), Some(y)) => Some(
                        if x < y {
                            c.next(c.stack)
                        } else {
                            c.go(img.target(c.pc), c.stack)
                        },
                    ),
                    _ => None,
                },
                Op::JumpNeIntLC => match (
                    local_int(c, ins.a as int),
                    const_int(img, ins.b as int),
                ) {
                    (Some(x), Some(y)) => Some(
                        if x == y {
                            c.next(c.stack)
                        } else {
                            c.go(img.target(c.pc), c.stack)
                        },
                    ),
                    _ => None,
                },
                Op::MakeTuple => if 0 <= n <= have {
                    Some(c.next(c.without(n).push(Value::Tuple(c.stack.skip(have - n)))))
                } else {
                    None
                },
                Op::TupleIndex => if have >= 1 && c.below(0) is Tuple && 0 <= n
                    < c.below(0)->Tuple_0.len() {
                    Some(c.next(c.without(1).push(c.below(0)->Tuple_0[n])))
                } else {
                    None
                },
                Op::MakeArray => if 0 <= n <= have {
                    Some(c.next(c.without(n).push(Value::Array(c.stack.skip(have - n)))))
                } else {
                    None
                },
                Op::ElemAt => if have >= 1 && c.below(0) is Array && 0 <= n
                    < c.below(0)->Array_0.len() {
                    Some(c.next(c.without(1).push(c.below(0)->Array_0[n])))
                } else {
                    None
                },
                Op::ArrayLen => if have >= 1 && c.below(0) is Array {
                    Some(c.next(c.without(1).push(Value::Int(c.below(0)->Array_0.len() as int))))
                } else {
                    None
                },
                Op::GetField => if have >= 1 && c.below(0) is Made && 0 <= n
                    < c.below(0)->fields.len() {
                    Some(c.next(c.without(1).push(c.below(0)->fields[n])))
                } else {
                    None
                },
                Op::MatchEnum => if have >= 3 && c.below(2) is Made && c.below(1) is Int
                    && c.below(0) is Text {
                    Some(
                        c.next(
                            c.without(3).push(
                                Value::Bool(
                                    c.below(2)->ty == c.below(1)->Int_0 && c.below(2)->variant
                                        == c.below(0)->Text_0,
                                ),
                            ),
                        ),
                    )
                } else {
                    None
                },
                Op::UnwrapEnum => if have >= 1 && c.below(0) is Made {
                    Some(c.next(c.without(1) + c.below(0)->fields))
                } else {
                    None
                },
                Op::BinBitSize => if have >= 1 && c.below(0) is Bits {
                    Some(c.next(c.without(1).push(Value::Int(c.below(0)->Bits_0.len() as int))))
                } else {
                    None
                },
                Op::BinReadInt => match bits_asked(c) {
                    Some(bits) => Some(c.next(c.without(3).push(Value::Int(number_of_bits(bits))))),
                    None => None,
                },
                Op::BinView => match bits_asked(c) {
                    Some(bits) => Some(c.next(c.without(3).push(Value::Bits(bits)))),
                    None => None,
                },
                Op::BinMatchPrefix => if have >= 3 && c.below(2) is Bits && c.below(1) is Int
                    && c.below(0) is Bits {
                    let (all, at, some) = (
                        c.below(2)->Bits_0,
                        c.below(1)->Int_0,
                        c.below(0)->Bits_0,
                    );
                    if 0 <= at && at + some.len() <= all.len() {
                        Some(
                            c.next(
                                c.without(3).push(
                                    Value::Bool(all.subrange(at, at + some.len()) == some),
                                ),
                            ),
                        )
                    } else {
                        None
                    }
                } else {
                    None
                },
                _ => (g.other)(ins, c),
            }
        }
    }
}

/// The bits that the three topmost values ask for: a binary, where to begin, and how many.
pub open spec fn bits_asked(c: Config) -> Option<Seq<bool>> {
    if c.stack.len() >= 3 && c.below(2) is Bits && c.below(1) is Int && c.below(0) is Int {
        let (all, at, n) = (c.below(2)->Bits_0, c.below(1)->Int_0, c.below(0)->Int_0);
        if 0 <= at && 0 <= n && at + n <= all.len() {
            Some(all.subrange(at, at + n))
        } else {
            None
        }
    } else {
        None
    }
}

/// Where `n` instructions lead.
pub open spec fn run(g: Given, img: Image, n: nat, c: Config) -> Option<Config>
    decreases n,
{
    if n == 0 {
        Some(c)
    } else {
        match step(g, img, c) {
            Some(d) => run(g, img, (n - 1) as nat, d),
            None => None,
        }
    }
}

/// Whether a machine gets from one place to another.
pub open spec fn reaches(g: Given, img: Image, c: Config, d: Config) -> bool {
    exists|n: nat| #[trigger] run(g, img, n, c) == Some(d)
}

/// Going on is going all the way.
pub proof fn lemma_run_on(g: Given, img: Image, m: nat, n: nat, c: Config)
    ensures
        run(g, img, m + n, c) == (match run(g, img, m, c) {
            Some(d) => run(g, img, n, d),
            None => None,
        }),
    decreases m,
{
    if m > 0 {
        if let Some(d) = step(g, img, c) {
            lemma_run_on(g, img, (m - 1) as nat, n, d);
            assert((m - 1) as nat + n == (m + n - 1) as nat);
        }
    }
}

pub proof fn lemma_reaches_self(g: Given, img: Image, c: Config)
    ensures
        reaches(g, img, c, c),
{
    assert(run(g, img, 0, c) == Some(c));
}

pub proof fn lemma_reaches_step(g: Given, img: Image, c: Config)
    requires
        step(g, img, c) is Some,
    ensures
        reaches(g, img, c, step(g, img, c)->0),
{
    let d = step(g, img, c)->0;
    assert(run(g, img, 0, d) == Some(d));
    assert(run(g, img, 1, c) == Some(d));
}

pub proof fn lemma_reaches_on(g: Given, img: Image, c: Config, d: Config, e: Config)
    requires
        reaches(g, img, c, d),
        reaches(g, img, d, e),
    ensures
        reaches(g, img, c, e),
{
    let m = choose|m: nat| #[trigger] run(g, img, m, c) == Some(d);
    let n = choose|n: nat| #[trigger] run(g, img, n, d) == Some(e);
    lemma_run_on(g, img, m, n, c);
    assert(run(g, img, m + n, c) == Some(e));
}

} // verus!

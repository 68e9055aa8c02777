//! Compiling calls.
use crate::ast::{CallArg, CallExpr, CalleeShape, Span, TypeFault};
use crate::diag::Message;
use crate::faults::lemma_no_misfit;
use crate::gen::{
    arg_faults, args_from, call, call_body, call_keys, ctor_call, ctor_call_body, last_spread,
    payload_from, positional, positional_body, update_base, update_base_body, Base,
};
use crate::op::Op;
use crate::slots::{lemma_slotted_in_range, ArgKey, CtorShape, MissingReport};
use crate::state::{Compiler, State, ValueKind, VarAccess};
use crate::values::CtorInfo;
use vstd::prelude::*;
use vstd::string::*;

verus! {

/// The arguments of a constructor call as slotting sees them, spreads left out.
fn keys_of_call(args: &Vec<CallArg>) -> (keys: Vec<ArgKey>)
    ensures
        keys@ == call_keys(args@, args@.len()),
        forall|k: int| 0 <= k < keys@.len() ==> (#[trigger] keys@[k]).arg < args@.len(),
{
    let mut keys: Vec<ArgKey> = Vec::new();
    let mut n: usize = 0;
    while n < args.len()
        invariant
            n <= args.len(),
            keys@ == call_keys(args@, n as nat),
            forall|k: int| 0 <= k < keys@.len() ==> (#[trigger] keys@[k]).arg < args@.len(),
        decreases args.len() - n,
    {
        match &args[n] {
            CallArg::Positional { value: e, .. } => keys.push(ArgKey { label: None, span: e.span(), arg: n }),
            CallArg::Labeled { label, .. } => keys.push(
                ArgKey { label: Some(*label), span: label.span, arg: n },
            ),
            CallArg::Spread { .. } => {},
        }
        n = n + 1;
    }
    keys
}

/// What does not fit about an argument.
fn faults_of(a: &CallArg) -> (res: &Vec<TypeFault>)
    ensures
        res@ == arg_faults(*a),
{
    match a {
        CallArg::Positional { faults, .. } => faults,
        CallArg::Labeled { faults, .. } => faults,
        CallArg::Spread { faults, .. } => faults,
    }
}

impl Compiler {
    /// Compile a call.
    pub fn compile_call(&mut self, c: &CallExpr, tail: bool)
        ensures
            final(self)@ == call(*c, tail, old(self)@),
        decreases *c, 0nat,
    {
        proof {
            reveal(call_body);
            assert(call(*c, tail, self@) == call_body(*c, tail, self@));
        }
        let general: Op = if tail {
            Op::TailCall
        } else {
            Op::Call
        };
        let count: i32 = c.args.len() as i32;
        match self.resolve_simple_callee(&c.callee) {
            Some((id, b, access)) => {
                self.record(None, id, b.doc);
                match b.kind {
                    ValueKind::Constructor { ty_name, type_id, arity, labels, .. } => {
                        let v: CtorInfo = CtorInfo {
                            type_id,
                            ty_name,
                            shape: CtorShape { name: id.name, arity: arity as usize, labels },
                        };
                        self.compile_ctor_call(v, &c.args, c.span);
                    },
                    ValueKind::Builtin { key } => {
                        self.compile_positional_args(c.shape, &c.args, c.span);
                        self.emit_builtin_op(key, c.span);
                    },
                    _ => {
                        self.compile_positional_args(c.shape, &c.args, c.span);
                        match access {
                            Some(VarAccess::Self_) => {
                                let o: Op = if tail {
                                    Op::TailCallSelf
                                } else {
                                    Op::CallSelf
                                };
                                self.emit_arg(o, count);
                            },
                            Some(a) => {
                                self.emit_load(a);
                                self.emit_arg(general, count);
                            },
                            None => {
                                self.no_runtime_binding(id.name, None, id.span);
                                self.emit_arg(general, count);
                            },
                        }
                    },
                }
            },
            None => {
                self.compile_expr(&c.callee);
                let temp: i32 = self.spill_temp();
                self.compile_positional_args(c.shape, &c.args, c.span);
                self.emit_arg(Op::PushLocal, temp);
                self.emit_arg(general, count);
            },
        }
    }

    /// Compile positional arguments.
    pub fn compile_positional_args(&mut self, shape: CalleeShape, args: &Vec<CallArg>, span: Span)
        ensures
            final(self)@ == positional(shape, args@, span, old(self)@),
        decreases args@, 1nat,
    {
        proof {
            reveal(positional_body);
            assert(positional(shape, args@, span, self@) == positional_body(shape, args@, span, self@));
        }
        match shape {
            CalleeShape::Fits => self.compile_args(args, true),
            CalleeShape::Arity { expected } => {
                self.error(Message::ArgumentCount { expected, given: args.len() }, span);
                self.compile_args(args, true);
            },
            CalleeShape::NotFn { ty } => {
                self.error(Message::NotCallable { ty }, span);
                self.compile_args(args, false);
            },
        }
    }

    /// Compile arguments. When strict, labels and spreads are reported.
    pub(crate) fn compile_args(&mut self, args: &Vec<CallArg>, strict: bool)
        ensures
            final(self)@ == args_from(args@, 0, strict, old(self)@),
        decreases args@, 0nat,
    {
        let mut i: usize = 0;
        let ghost goal = args_from(args@, 0, strict, self@);
        while i < args.len()
            invariant
                i <= args.len(),
                goal == args_from(args@, i as nat, strict, self@),
            decreases args.len() - i,
        {
            match &args[i] {
                CallArg::Positional { value, .. } => self.compile_expr(value),
                CallArg::Labeled { label, value, .. } => {
                    if strict {
                        self.error(Message::LabelledArgument, label.span);
                    }
                    self.compile_expr(value);
                },
                CallArg::Spread { value, .. } => {
                    if strict {
                        self.error(Message::SpreadArgument, value.span());
                    }
                    self.compile_expr(value);
                },
            }
            if strict {
                self.misfit(faults_of(&args[i]));
            } else {
                proof {
                    lemma_no_misfit(self@);
                }
            }
            i = i + 1;
        }
    }

    /// Report every spread but the first one, and find the last one.
    pub(crate) fn report_spreads(&mut self, args: &Vec<CallArg>) -> (res: Option<usize>)
        ensures
            final(self)@ == old(self)@.report_spreads(args@, args@.len()),
            match res {
                Some(k) => last_spread(args@, args@.len()) == Some(k as int) && k < args@.len(),
                None => last_spread(args@, args@.len()) is None,
            },
    {
        proof {
            reveal(State::report_spreads);
        }
        let ghost s = self@;
        let mut found: Option<usize> = None;
        let mut n: usize = 0;
        while n < args.len()
            invariant
                n <= args.len(),
                self@ == s.report_spreads(args@, n as nat),
                match found {
                    Some(k) => last_spread(args@, n as nat) == Some(k as int) && k < n,
                    None => last_spread(args@, n as nat) is None,
                },
            decreases args.len() - n,
        {
            proof {
                reveal(State::report_spreads);
            }
            if let CallArg::Spread { value: e, .. } = &args[n] {
                if found.is_some() {
                    self.error(Message::ManySpreads, e.span());
                }
                found = Some(n);
            }
            n = n + 1;
        }
        found
    }

    /// Compile the value that a constructor call updates. Returns its slot.
    fn compile_update_base(&mut self, args: &Vec<CallArg>, spread: Option<usize>) -> (slot: Option<
        i32,
    >)
        requires
            spread matches Some(k) ==> k < args@.len(),
        ensures
            ({
                let place = match spread {
                    Some(k) => Some(k as int),
                    None => None,
                };
                update_base(args@, place, old(self)@) == (Base { s: final(self)@, slot })
            }),
        decreases args@, 0nat,
    {
        proof {
            let place = match spread {
                Some(k) => Some(k as int),
                None => None,
            };
            reveal(update_base_body);
            assert(update_base(args@, place, self@) == update_base_body(args@, place, self@));
        }
        if let Some(k) = spread {
            if let CallArg::Spread { value, faults } = &args[k] {
                self.compile_expr(value);
                self.misfit(faults);
                let temp: i32 = self.spill_temp();
                return Some(temp);
            }
        }
        None
    }

    /// Compile a constructor call.
    pub fn compile_ctor_call(&mut self, v: CtorInfo, args: &Vec<CallArg>, span: Span)
        requires
            v.shape.arity <= u16::MAX,
        ensures
            final(self)@ == ctor_call(v@, args@, span, old(self)@),
        decreases args@, 1nat,
    {
        proof {
            reveal(ctor_call_body);
            assert(ctor_call(v@, args@, span, self@) == ctor_call_body(v@, args@, span, self@));
        }
        let spread: Option<usize> = self.report_spreads(args);
        let keys: Vec<ArgKey> = keys_of_call(args);
        let missing: Option<MissingReport> = if spread.is_some() {
            None
        } else {
            Some(MissingReport { span, in_pattern: false })
        };
        proof {
            lemma_slotted_in_range(self@, v.shape, true, keys@, missing, args@.len() as int);
        }
        let (by_pos, _ok): (Vec<Option<usize>>, bool) = self.slot_ctor_args(
            v.shape,
            &keys,
            missing,
            true,
        );
        let base: Option<i32> = self.compile_update_base(args, spread);
        if v.shape.arity == 0 && self.try_emit_bool_value(v.type_id, v.shape.name) {
            return;
        }
        let known: usize = self.labels_at(v.shape.labels).len();
        let hash: i32 = self.emit_construct_header_for_build(
            v.type_id,
            v.ty_name,
            v.shape.name,
            v.shape.labels,
        );
        let mut i: usize = 0;
        let ghost goal = payload_from(args@, by_pos@, 0, known as nat, base, self@);
        while i < by_pos.len() && i < known
            invariant
                i <= by_pos.len(),
                i <= known,
                forall|k: int|
                    0 <= k < by_pos@.len() ==> (#[trigger] by_pos@[k] matches Some(a) ==> a
                        < args@.len()),
                goal == payload_from(args@, by_pos@, i as nat, known as nat, base, self@),
            decreases by_pos.len() - i,
        {
            match by_pos[i] {
                Some(k) => {
                    match &args[k] {
                        CallArg::Positional { value, .. } => self.compile_expr(value),
                        CallArg::Labeled { value, .. } => self.compile_expr(value),
                        CallArg::Spread { value, .. } => self.compile_expr(value),
                    }
                    self.misfit(faults_of(&args[k]));
                },
                None => match base {
                    Some(slot) => {
                        self.emit_arg(Op::PushLocal, slot);
                        self.emit_arg(Op::GetField, i as i32);
                    },
                    None => self.emit_nil(),
                },
            }
            i = i + 1;
        }
        self.emit_b(Op::MakeEnumPayload, v.shape.arity as u16, hash);
    }
}

} // verus!

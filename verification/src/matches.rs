//! Compiling matches.
use crate::ast::{Arm, Ident, MatchExpr};
use crate::diag::Message;
use crate::gen::{arms_from, match_expr, match_expr_body, pattern, Arms};
use crate::op::Op;
use crate::state::{Compiler, State};
use vstd::prelude::*;
use vstd::string::*;

verus! {

impl Compiler {
    /// Compile a match.
    pub fn compile_match(&mut self, m: &MatchExpr, tail: bool)
        ensures
            final(self)@ == match_expr(*m, tail, old(self)@),
        decreases *m, 0nat,
    {
        proof {
            reveal(match_expr_body);
            assert(match_expr(*m, tail, self@) == match_expr_body(*m, tail, self@));
        }
        self.compile_expr(&m.subject);
        let slot: i32 = self.spill_temp();
        let mut ends: Vec<usize> = Vec::new();
        let mut ok: bool = true;
        let mut i: usize = 0;
        let ghost goal = arms_from(
            m.arms@,
            0,
            tail,
            slot,
            Arms { s: self@, ends: Seq::empty(), ok: true },
        );
        while i < m.arms.len()
            invariant
                i <= m.arms.len(),
                goal == arms_from(
                    m.arms@,
                    i as nat,
                    tail,
                    slot,
                    Arms { s: self@, ends: ends@, ok },
                ),
            decreases m.arms.len() - i,
        {
            let arm: &Arm = &m.arms[i];
            self.push_block_scope();
            let mut ids: Vec<Ident> = Vec::new();
            let arm_ok: bool = self.type_pattern(&arm.pattern, &mut ids);
            ok = ok && arm_ok;
            self.bind_pattern_initials(&ids);
            let mut fails: Vec<usize> = Vec::new();
            self.emit_arg(Op::PushLocal, slot);
            self.emit_pattern(&arm.pattern, &mut fails);
            if let Some(guard) = &arm.guard {
                self.compile_expr(guard);
                self.misfit(&arm.guard_faults);
                self.fail_if_false(&mut fails);
            }
            self.set_tail(tail);
            self.compile_expr(&arm.body);
            self.set_tail(false);
            self.misfit(&arm.faults);
            let at: usize = self.emit_jump(Op::Jump);
            ends.push(at);
            self.patch_all(&fails);
            self.pop_block_scope();
            i = i + 1;
        }
        self.emit_nil();
        self.patch_all(&ends);
        if ok {
            if let Some(missing) = m.missing {
                self.error(Message::NotExhaustive { missing }, m.subject.span());
            }
            self.report_unreachable(&m.arms);
        }
    }

    /// Report the arms that never run.
    pub(crate) fn report_unreachable(&mut self, arms: &Vec<Arm>)
        ensures
            final(self)@ == old(self)@.report_unreachable(arms@, arms@.len()),
    {
        proof {
            reveal(State::report_unreachable);
        }
        let ghost s = self@;
        let mut n: usize = 0;
        while n < arms.len()
            invariant
                n <= arms.len(),
                self@ == s.report_unreachable(arms@, n as nat),
            decreases arms.len() - n,
        {
            proof {
                reveal(State::report_unreachable);
            }
            if arms[n].unreachable {
                self.error(Message::UnreachableArm, arms[n].pattern.span());
            }
            n = n + 1;
        }
    }
}

} // verus!

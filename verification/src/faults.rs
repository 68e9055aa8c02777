//! Types that do not fit, as inference found them, reported where they are asked for.
use crate::ast::TypeFault;
use crate::diag::{Diagnostic, Message};
use crate::state::{error_at, Compiler, State};
use vstd::prelude::*;

verus! {

/// What is said of several faults.
pub open spec fn fault_reports(faults: Seq<TypeFault>) -> Seq<Diagnostic> {
    Seq::new(
        faults.len(),
        |i: int| error_at(Message::TypeError { fault: faults[i].text }, faults[i].span),
    )
}

impl State {
    /// Report types that do not fit.
    #[verifier::opaque]
    pub open spec fn misfit(self, faults: Seq<TypeFault>) -> State {
        State { diags: self.diags + fault_reports(faults), ..self }
    }
}

/// Where all types fit there is nothing to report.
pub proof fn lemma_no_misfit(s: State)
    ensures
        s.misfit(Seq::empty()) == s,
{
    reveal(State::misfit);
    assert(s.diags + fault_reports(Seq::empty()) =~= s.diags);
}

impl Compiler {
    /// Report types that do not fit.
    pub fn misfit(&mut self, faults: &Vec<TypeFault>)
        ensures
            final(self)@ == old(self)@.misfit(faults@),
    {
        proof {
            reveal(State::misfit);
            reveal(Compiler::model);
        }
        let ghost s = self@;
        assert(self@.diags =~= s.diags + fault_reports(faults@).take(0));
        let mut n: usize = 0;
        while n < faults.len()
            invariant
                n <= faults.len(),
                self@ == (State { diags: s.diags + fault_reports(faults@).take(n as int), ..s }),
            decreases faults.len() - n,
        {
            proof {
                reveal(State::error);
            }
            self.error(Message::TypeError { fault: faults[n].text }, faults[n].span);
            n = n + 1;
            assert(self@.diags =~= s.diags + fault_reports(faults@).take(n as int));
        }
        assert(fault_reports(faults@).take(n as int) =~= fault_reports(faults@));
    }
}

} // verus!

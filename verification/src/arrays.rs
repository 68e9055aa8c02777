//! Compiling array literals.
use crate::ast::{ArrayElement, Expr, Span, TypeFault};
use crate::diag::Message;
use crate::gen::{
    array, array_body, group, groups_from, has_spread, item_run, items_from, run_group,
    spread_group, Group,
};
use crate::op::Op;
use crate::state::Compiler;
use vstd::prelude::*;
use vstd::string::*;

verus! {

fn any_spread(es: &Vec<ArrayElement>) -> (res: bool)
    ensures
        res == has_spread(es@, 0),
{
    let mut i: usize = 0;
    while i < es.len()
        invariant
            i <= es.len(),
            has_spread(es@, 0) == has_spread(es@, i as nat),
        decreases es.len() - i,
    {
        if let ArrayElement::Spread { .. } = &es[i] {
            return true;
        }
        i = i + 1;
    }
    false
}

fn end_of_run(es: &Vec<ArrayElement>, i: usize) -> (res: usize)
    requires
        i <= es@.len(),
    ensures
        res == item_run(es@, i as nat),
        i <= res <= es@.len(),
        i < es@.len() && !(es@[i as int] is Spread) ==> res > i,
{
    let mut j: usize = i;
    while j < es.len()
        invariant
            i <= j <= es.len(),
            item_run(es@, i as nat) == item_run(es@, j as nat),
            i < es@.len() && !(es@[i as int] is Spread) && j == i ==> j < es.len(),
        decreases es.len() - j,
    {
        if let ArrayElement::Spread { .. } = &es[j] {
            return j;
        }
        j = j + 1;
    }
    j
}

impl Compiler {
    /// Compile the array elements from `i` up to `j`.
    pub fn compile_array_run(&mut self, es: &Vec<ArrayElement>, i: usize, j: usize)
        requires
            i <= j <= es@.len(),
        ensures
            final(self)@ == items_from(es@, i as nat, j as nat, old(self)@),
        decreases es@, 0nat,
    {
        let mut k: usize = i;
        let ghost goal = items_from(es@, i as nat, j as nat, self@);
        while k < j
            invariant
                i <= k <= j,
                j <= es.len(),
                goal == items_from(es@, k as nat, j as nat, self@),
            decreases j - k,
        {
            if let ArrayElement::Item { value, faults } = &es[k] {
                self.compile_expr(value);
                self.misfit(faults);
            }
            k = k + 1;
        }
    }

    /// Compile an array literal.
    pub fn compile_array(&mut self, es: &Vec<ArrayElement>)
        ensures
            final(self)@ == array(es@, old(self)@),
        decreases es@, 2nat,
    {
        proof {
            reveal(array_body);
            assert(array(es@, self@) == array_body(es@, self@));
        }
        if !any_spread(es) {
            self.compile_array_run(es, 0, es.len());
            self.emit_arg(Op::MakeArray, es.len() as i32);
            return;
        }
        let mut have: bool = false;
        let mut i: usize = 0;
        let ghost goal = groups_from(es@, 0, false, self@);
        while i < es.len()
            invariant
                i <= es.len(),
                goal == groups_from(es@, i as nat, have, self@),
            decreases es.len() - i,
        {
            let ghost g = group(es@, i as nat, have, self@);
            let (next, after): (usize, bool) = match &es[i] {
                ArrayElement::Spread { expression, faults, span } => {
                    assert(g == spread_group(
                        *expression,
                        faults@,
                        *span,
                        i as nat,
                        have,
                        self@,
                    ));
                    let after: bool = self.compile_spread(expression, faults, *span, have);
                    (i + 1, after)
                },
                ArrayElement::Item { .. } => {
                    let j: usize = end_of_run(es, i);
                    let next: usize = self.compile_run(es, i, j, have);
                    (next, true)
                },
            };
            assert(g == (Group { next: next as nat, have: after, s: self@ }));
            i = next;
            have = after;
        }
        if !have {
            self.emit_arg(Op::MakeArray, 0);
        }
    }

    /// Compile a spread. Returns whether there is an array on the stack.
    fn compile_spread(
        &mut self,
        expression: &Option<Expr>,
        faults: &Vec<TypeFault>,
        span: Span,
        have: bool,
    ) -> (after: bool)
        ensures
            forall|i: nat|
                #[trigger] spread_group(*expression, faults@, span, i, have, old(self)@) == (Group {
                    next: i + 1,
                    have: after,
                    s: final(self)@,
                }),
        decreases *expression, 0nat,
    {
        match expression {
            None => {
                self.error(Message::SpreadWithoutValue, span);
                have
            },
            Some(inner) => {
                self.compile_expr(inner);
                self.misfit(faults);
                if have {
                    self.emit(Op::ArrayConcat);
                }
                true
            },
        }
    }

    /// Compile the run of elements from `i` to `j`. Returns where to go on.
    fn compile_run(&mut self, es: &Vec<ArrayElement>, i: usize, j: usize, have: bool) -> (next: usize)
        requires
            i <= j <= es@.len(),
        ensures
            run_group(es@, i as nat, j as nat, have, old(self)@) == (Group {
                next: next as nat,
                have: true,
                s: final(self)@,
            }),
            j <= next <= es@.len(),
        decreases es@, 1nat,
    {
        self.compile_array_run(es, i, j);
        let count: i32 = (j - i) as i32;
        if have {
            self.emit_arg(Op::Append, count);
            return j;
        }
        if j < es.len() {
            if let ArrayElement::Spread { expression: Some(inner), faults, .. } = &es[j] {
                self.compile_expr(inner);
                self.misfit(faults);
                self.emit_arg(Op::Prepend, count);
                return j + 1;
            }
        }
        self.emit_arg(Op::MakeArray, count);
        j
    }
}

} // verus!

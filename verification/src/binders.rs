//! The names that patterns bind.
use crate::ast::{ArrayPattern, Ident, Pattern, PatternArg, StrId};
use crate::gen::{
    add_binder, add_opt_binder, arg_binders, array_binders, binders, has_name, list_binders,
    pattern, segment_binders,
};
use crate::names::Interner;
use vstd::prelude::*;

verus! {

fn contains_name(ids: &Vec<Ident>, name: StrId) -> (res: bool)
    ensures
        res == has_name(ids@, ids@.len(), name),
{
    let mut n: usize = ids.len();
    while n > 0
        invariant
            n <= ids.len(),
            has_name(ids@, ids@.len(), name) == has_name(ids@, n as nat, name),
        decreases n,
    {
        if ids[n - 1].name == name {
            return true;
        }
        n = n - 1;
    }
    false
}

/// Add a name to a list, unless it is blank or there.
pub(crate) fn push_binder(names: &Interner, ids: &mut Vec<Ident>, id: Ident)
    ensures
        final(ids)@ == add_binder(names@, old(ids)@, id),
{
    if !names.is(id.name, "_") && !contains_name(ids, id.name) {
        ids.push(id);
    }
}

/// Add a name to a list, if there is one.
pub(crate) fn push_opt_binder(names: &Interner, ids: &mut Vec<Ident>, id: Option<Ident>)
    ensures
        final(ids)@ == add_opt_binder(names@, old(ids)@, id),
{
    if let Some(id) = id {
        push_binder(names, ids, id);
    }
}

/// Add the names a pattern holds to a list, in source order.
pub fn pattern_bound_names(names: &Interner, p: &Pattern, ids: &mut Vec<Ident>)
    ensures
        final(ids)@ == binders(names@, *p, old(ids)@),
    decreases *p,
{
    match p {
        Pattern::Binary { segments, rest, .. } => {
            let mut n: usize = 0;
            while n < segments.len()
                invariant
                    n <= segments.len(),
                    decreases_to!(*p => segments@),
                    ids@ == segment_binders(names@, segments@, n as nat, old(ids)@),
                decreases segments.len() - n,
            {
                pattern_bound_names(names, &segments[n].value, ids);
                n = n + 1;
            }
            if let Some(r) = rest {
                push_opt_binder(names, ids, r.binding);
            }
        },
        Pattern::Wildcard { .. } => {},
        Pattern::Var { id, .. } => push_binder(names, ids, *id),
        Pattern::Number { .. } => {},
        Pattern::Str { .. } => {},
        Pattern::Range { start, end, .. } => {
            pattern_bound_names(names, start, ids);
            pattern_bound_names(names, end, ids);
        },
        Pattern::Tuple { elements, .. } => {
            let mut n: usize = 0;
            while n < elements.len()
                invariant
                    n <= elements.len(),
                    decreases_to!(*p => elements@),
                    ids@ == list_binders(names@, elements@, n as nat, old(ids)@),
                decreases elements.len() - n,
            {
                pattern_bound_names(names, &elements[n], ids);
                n = n + 1;
            }
        },
        Pattern::Array { elements, .. } => {
            let mut n: usize = 0;
            while n < elements.len()
                invariant
                    n <= elements.len(),
                    decreases_to!(*p => elements@),
                    ids@ == array_binders(names@, elements@, n as nat, old(ids)@),
                decreases elements.len() - n,
            {
                match &elements[n] {
                    ArrayPattern::Item(q) => pattern_bound_names(names, q, ids),
                    ArrayPattern::Spread { binding, .. } => push_opt_binder(names, ids, *binding),
                }
                n = n + 1;
            }
        },
        Pattern::Constructor { args, .. } => {
            let mut n: usize = 0;
            while n < args.len()
                invariant
                    n <= args.len(),
                    decreases_to!(*p => args@),
                    ids@ == arg_binders(names@, args@, n as nat, old(ids)@),
                decreases args.len() - n,
            {
                match &args[n] {
                    PatternArg::Positional(q) => pattern_bound_names(names, q, ids),
                    PatternArg::Labeled { pattern: q, .. } => pattern_bound_names(names, q, ids),
                }
                n = n + 1;
            }
        },
        Pattern::Or { patterns, .. } => {
            if patterns.len() > 0 {
                pattern_bound_names(names, &patterns[0], ids);
            }
        },
    }
}

} // verus!

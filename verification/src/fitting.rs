//! What patterns fit, and what they bind.
//!
//! A pattern fits a value or does not, whatever code is emitted for it. Code that is run
//! on the machine of [`crate::machine`] gets to its end just where the pattern fits, with
//! every name bound to the part of the value that stands in its place.
use crate::ast::{ArrayPattern, Pattern, PatternArg, StrId};
use crate::diag::slice_of;
use crate::fitting::frames::keeps_slots;
use crate::fitting::runs::{binds, is_slot, kept, lemma_compared, lemma_pattern, ready};
use crate::gen::{pattern, pattern_body, Matching};
use crate::literal::number_of;
use crate::machine::{reaches, Given, Image, Value};
use crate::names::text_of;
use crate::op::{ConstView, Op};
use crate::prelude_bindings::{PreludeBindings, TypeId};
use crate::running::{at_end, carries, decides, fails};
use crate::state::{lookup_in, Binding, Locals, State, ValueKind};
use vstd::prelude::*;

pub mod choices;
pub mod fields;
pub mod frames;
pub mod runs;
pub mod slotting;

verus! {

/// What the meaning of a pattern rests on: the texts of names, what they denote, the labels
/// of fields, and which type is that of truth values.
pub struct Ctx {
    pub names: Seq<Seq<char>>,
    pub env: Seq<Map<StrId, Binding>>,
    pub labels: Seq<StrId>,
    pub prelude: Option<PreludeBindings>,
}

/// What a state says of the meaning of patterns.
pub open spec fn ctx_of(s: State) -> Ctx {
    Ctx { names: s.world.names@, env: s.env, labels: s.labels, prelude: s.known.prelude }
}

/// A constructor: its type, how many fields it has, and their labels.
pub struct Ctor {
    pub ty: TypeId,
    pub arity: int,
    pub labels: Seq<StrId>,
}

impl Ctx {
    /// The constructor that a name denotes.
    pub open spec fn ctor(self, name: StrId) -> Option<Ctor> {
        match lookup_in(self.env, self.env.len(), name) {
            Some(b) => match b.kind {
                ValueKind::Constructor { type_id, arity, labels, .. } => Some(
                    Ctor {
                        ty: type_id,
                        arity: arity as int,
                        labels: slice_of(self.labels, labels),
                    },
                ),
                _ => None,
            },
            None => None,
        }
    }

    /// Whether a type is that of truth values.
    pub open spec fn is_truth(self, id: TypeId) -> bool {
        self.prelude matches Some(p) && id != TypeId(0) && p.bool.id == id
    }

    /// The text of a name.
    pub open spec fn text(self, name: StrId) -> Seq<char> {
        text_of(self.names, name)
    }
}

/// How many of the first `k` arguments have no label.
pub open spec fn positional_before(args: Seq<PatternArg>, k: nat) -> nat
    decreases k,
{
    if k == 0 {
        0
    } else {
        positional_before(args, (k - 1) as nat) + if args[k - 1] is Positional {
            1nat
        } else {
            0
        }
    }
}

/// Whether an argument is for a field: one without a label for the field that comes next, one
/// with a label for the first field of that label.
pub open spec fn is_for(c: Ctor, args: Seq<PatternArg>, k: int, i: int) -> bool {
    &&& 0 <= k < args.len() && 0 <= i < c.arity
    &&& match args[k] {
        PatternArg::Positional(_) => i == positional_before(args, k as nat),
        PatternArg::Labeled { label, .. } => i < c.labels.len() && c.labels[i] == label.name
            && forall|j: int| 0 <= j < i ==> #[trigger] c.labels[j] != label.name,
    }
}

/// The pattern of an argument.
pub open spec fn arg_pattern(a: PatternArg) -> Pattern {
    match a {
        PatternArg::Positional(p) => p,
        PatternArg::Labeled { pattern, .. } => pattern,
    }
}

/// Whether an argument is for a field at all.
pub open spec fn has_field(c: Ctor, args: Seq<PatternArg>, k: int) -> bool {
    exists|i: int| is_for(c, args, k, i)
}

/// Whether every argument is for a field, and no two for the same one.
pub open spec fn well_placed(c: Ctor, args: Seq<PatternArg>) -> bool {
    &&& forall|k: int| 0 <= k < args.len() ==> #[trigger] has_field(c, args, k)
    &&& forall|k: int, l: int, i: int| #[trigger]
        is_for(c, args, k, i) && #[trigger] is_for(c, args, l, i) ==> k == l
}

/// The number that a literal stands for.
pub open spec fn literal(g: Given, x: Ctx, p: Pattern) -> Option<Value> {
    match p {
        Pattern::Number { literal, .. } => match number_of(x.names, literal.text) {
            Ok(c) => Some(g.constant(c)),
            Err(_) => None,
        },
        _ => None,
    }
}

// ---- what fits -------------------------------------------------------------------

/// Whether a pattern fits a value.
pub open spec fn fits(g: Given, x: Ctx, p: Pattern, v: Value) -> bool
    decreases p, 0nat,
{
    match p {
        Pattern::Binary { .. } => false,
        Pattern::Wildcard { .. } => true,
        Pattern::Var { .. } => true,
        Pattern::Number { .. } => literal(g, x, p) == Some(v),
        Pattern::Str { value, .. } => v == Value::Text(value),
        Pattern::Range { start, end, .. } => match (v, literal(g, x, *start), literal(g, x, *end)) {
            (Value::Int(i), Some(Value::Int(lo)), Some(Value::Int(hi))) => lo <= i < hi,
            _ => false,
        },
        Pattern::Tuple { elements, .. } => v matches Value::Tuple(vs) && vs.len()
            == elements@.len() && fit_from(g, x, elements@, 0, vs),
        Pattern::Array { elements, .. } => v matches Value::Array(vs) && (if has_rest(elements@) {
            vs.len() >= elements@.len() - 1
        } else {
            vs.len() == elements@.len()
        }) && items_fit_from(g, x, elements@, 0, vs),
        Pattern::Constructor { name, args, .. } => x.ctor(name.name) matches Some(c) && (
        if x.is_truth(c.ty) {
            v == Value::Bool(x.text(name.name) == "True"@)
        } else {
            v matches Value::Made { ty, variant, fields } && ty == c.ty.0 && variant == name.name
                && fields_fit_from(g, x, c, args@, 0, fields)
        }),
        Pattern::Or { patterns, .. } => any_fits_from(g, x, patterns@, 0, v),
    }
}

/// Whether patterns from `i` on fit values in the same places.
pub open spec fn fit_from(g: Given, x: Ctx, ps: Seq<Pattern>, i: nat, vs: Seq<Value>) -> bool
    decreases ps, ps.len() - i,
{
    i < ps.len() ==> fits(g, x, ps[i as int], vs[i as int]) && fit_from(g, x, ps, i + 1, vs)
}

/// Whether a pattern from `i` on fits.
pub open spec fn any_fits_from(g: Given, x: Ctx, ps: Seq<Pattern>, i: nat, v: Value) -> bool
    decreases ps, ps.len() - i,
{
    i < ps.len() && (fits(g, x, ps[i as int], v) || any_fits_from(g, x, ps, i + 1, v))
}

/// Whether an array pattern ends with what takes the rest.
pub open spec fn has_rest(es: Seq<ArrayPattern>) -> bool {
    es.len() > 0 && es.last() is Spread
}

/// Whether the elements of an array pattern from `i` on fit those in the same places.
pub open spec fn items_fit_from(
    g: Given,
    x: Ctx,
    es: Seq<ArrayPattern>,
    i: nat,
    vs: Seq<Value>,
) -> bool
    decreases es, es.len() - i,
{
    i < es.len() ==> (es[i as int] matches ArrayPattern::Item(p) ==> fits(
        g,
        x,
        p,
        vs[i as int],
    )) && items_fit_from(g, x, es, i + 1, vs)
}

/// Whether the fields from `i` on fit the patterns of the arguments that are for them.
pub open spec fn fields_fit_from(
    g: Given,
    x: Ctx,
    c: Ctor,
    args: Seq<PatternArg>,
    i: nat,
    fields: Seq<Value>,
) -> bool
    decreases args, c.arity - i,
{
    i < c.arity ==> (forall|k: int| #[trigger]
        is_for(c, args, k, i as int) ==> (match args[k] {
            PatternArg::Positional(p) => fits(g, x, p, fields[i as int]),
            PatternArg::Labeled { pattern, .. } => fits(g, x, pattern, fields[i as int]),
        })) && fields_fit_from(g, x, c, args, i + 1, fields)
}

// ---- what is bound ---------------------------------------------------------------

/// The names in a pattern.
pub open spec fn names_in(x: Ctx, p: Pattern) -> Set<StrId>
    decreases p, 0nat,
{
    match p {
        Pattern::Var { id, .. } => if x.text(id.name) == "_"@ {
            Set::empty()
        } else {
            set![id.name]
        },
        Pattern::Tuple { elements, .. } => names_from(x, elements@, 0),
        Pattern::Array { elements, .. } => item_names_from(x, elements@, 0),
        Pattern::Constructor { args, .. } => arg_names_from(x, args@, 0),
        Pattern::Or { patterns, .. } => if patterns@.len() > 0 {
            names_in(x, patterns@[0])
        } else {
            Set::empty()
        },
        _ => Set::empty(),
    }
}

pub open spec fn names_from(x: Ctx, ps: Seq<Pattern>, i: nat) -> Set<StrId>
    decreases ps, ps.len() - i,
{
    if i >= ps.len() {
        Set::empty()
    } else {
        names_in(x, ps[i as int]).union(names_from(x, ps, i + 1))
    }
}

pub open spec fn item_names_from(x: Ctx, es: Seq<ArrayPattern>, i: nat) -> Set<StrId>
    decreases es, es.len() - i,
{
    if i >= es.len() {
        Set::empty()
    } else {
        (match es[i as int] {
            ArrayPattern::Item(p) => names_in(x, p),
            ArrayPattern::Spread { binding, .. } => match binding {
                Some(id) => set![id.name],
                None => Set::empty(),
            },
        }).union(item_names_from(x, es, i + 1))
    }
}

pub open spec fn arg_names_from(x: Ctx, args: Seq<PatternArg>, k: nat) -> Set<StrId>
    decreases args, args.len() - k,
{
    if k >= args.len() {
        Set::empty()
    } else {
        (match args[k as int] {
            PatternArg::Positional(p) => names_in(x, p),
            PatternArg::Labeled { pattern, .. } => names_in(x, pattern),
        }).union(arg_names_from(x, args, k + 1))
    }
}

/// What the names in a pattern stand for where it fits.
pub open spec fn bound(g: Given, x: Ctx, p: Pattern, v: Value) -> Map<StrId, Value>
    decreases p, 0nat,
{
    match p {
        Pattern::Var { id, .. } => if x.text(id.name) == "_"@ {
            Map::empty()
        } else {
            map![id.name => v]
        },
        Pattern::Tuple { elements, .. } => match v {
            Value::Tuple(vs) => bound_from(g, x, elements@, 0, vs),
            _ => Map::empty(),
        },
        Pattern::Array { elements, .. } => match v {
            Value::Array(vs) => items_bound_from(g, x, elements@, 0, vs),
            _ => Map::empty(),
        },
        Pattern::Constructor { name, args, .. } => match (x.ctor(name.name), v) {
            (Some(c), Value::Made { fields, .. }) => fields_bound_from(
                g,
                x,
                c,
                args@,
                0,
                fields,
            ),
            _ => Map::empty(),
        },
        Pattern::Or { patterns, .. } => first_bound_from(g, x, patterns@, 0, v),
        _ => Map::empty(),
    }
}

pub open spec fn bound_from(
    g: Given,
    x: Ctx,
    ps: Seq<Pattern>,
    i: nat,
    vs: Seq<Value>,
) -> Map<StrId, Value>
    decreases ps, ps.len() - i,
{
    if i >= ps.len() {
        Map::empty()
    } else {
        bound(g, x, ps[i as int], vs[i as int]).union_prefer_right(bound_from(g, x, ps, i + 1, vs))
    }
}

/// What the first pattern from `i` on that fits binds.
pub open spec fn first_bound_from(
    g: Given,
    x: Ctx,
    ps: Seq<Pattern>,
    i: nat,
    v: Value,
) -> Map<StrId, Value>
    decreases ps, ps.len() - i,
{
    if i >= ps.len() {
        Map::empty()
    } else if fits(g, x, ps[i as int], v) {
        bound(g, x, ps[i as int], v)
    } else {
        first_bound_from(g, x, ps, i + 1, v)
    }
}

pub open spec fn items_bound_from(
    g: Given,
    x: Ctx,
    es: Seq<ArrayPattern>,
    i: nat,
    vs: Seq<Value>,
) -> Map<StrId, Value>
    decreases es, es.len() - i,
{
    if i >= es.len() {
        Map::empty()
    } else {
        (match es[i as int] {
            ArrayPattern::Item(p) => bound(g, x, p, vs[i as int]),
            ArrayPattern::Spread { binding, .. } => match binding {
                Some(id) => map![id.name => Value::Array(vs.skip(i as int))],
                None => Map::empty(),
            },
        }).union_prefer_right(items_bound_from(g, x, es, i + 1, vs))
    }
}

/// What the patterns of the arguments bind that are for the fields from `i` on.
pub open spec fn fields_bound_from(
    g: Given,
    x: Ctx,
    c: Ctor,
    args: Seq<PatternArg>,
    i: nat,
    fields: Seq<Value>,
) -> Map<StrId, Value>
    decreases args, c.arity - i,
{
    if i >= c.arity {
        Map::empty()
    } else {
        let k = choose|k: int| is_for(c, args, k, i as int);
        (if is_for(c, args, k, i as int) {
            match args[k] {
                PatternArg::Positional(p) => bound(g, x, p, fields[i as int]),
                PatternArg::Labeled { pattern, .. } => bound(g, x, pattern, fields[i as int]),
            }
        } else {
            Map::empty()
        }).union_prefer_right(fields_bound_from(g, x, c, args, i + 1, fields))
    }
}

// ---- which patterns and values ---------------------------------------------------

/// Whether a pattern is an integer literal.
pub open spec fn is_integer(x: Ctx, p: Pattern) -> bool {
    match p {
        Pattern::Number { literal, .. } => match number_of(x.names, literal.text) {
            Ok(c) => c is Int,
            Err(_) => false,
        },
        _ => false,
    }
}

/// Whether a pattern is in order: its literals are numbers, its constructors are known and
/// get their arguments, no name occurs twice but in alternatives, which bind the same names,
/// and what takes the rest of an array is its last element. Binary patterns are left out.
pub open spec fn in_order(x: Ctx, p: Pattern) -> bool
    decreases p, 0nat,
{
    match p {
        Pattern::Binary { .. } => false,
        Pattern::Number { literal, .. } => number_of(x.names, literal.text) is Ok,
        Pattern::Range { start, end, .. } => is_integer(x, *start) && is_integer(x, *end),
        Pattern::Tuple { elements, .. } => elements@.len() <= i32::MAX && in_order_from(
            x,
            elements@,
            0,
        ),
        Pattern::Array { elements, .. } => elements@.len() <= i32::MAX && items_in_order_from(
            x,
            elements@,
            0,
        ),
        Pattern::Constructor { name, args, .. } => x.ctor(name.name) matches Some(c) && (
        if x.is_truth(c.ty) {
            args@.len() == 0
        } else {
            well_placed(c, args@) && args@.len() <= usize::MAX && args_in_order_from(x, args@, 0)
        }),
        Pattern::Or { patterns, .. } => patterns@.len() > 0 && alternatives_in_order_from(
            x,
            patterns@,
            0,
        ),
        _ => true,
    }
}

pub open spec fn in_order_from(x: Ctx, ps: Seq<Pattern>, i: nat) -> bool
    decreases ps, ps.len() - i,
{
    i < ps.len() ==> in_order(x, ps[i as int]) && names_in(x, ps[i as int]).disjoint(
        names_from(x, ps, i + 1),
    ) && in_order_from(x, ps, i + 1)
}

pub open spec fn items_in_order_from(x: Ctx, es: Seq<ArrayPattern>, i: nat) -> bool
    decreases es, es.len() - i,
{
    i < es.len() ==> (match es[i as int] {
        ArrayPattern::Item(p) => in_order(x, p) && names_in(x, p).disjoint(
            item_names_from(x, es, i + 1),
        ),
        ArrayPattern::Spread { binding, .. } => i == es.len() - 1 && (binding matches Some(id)
            ==> x.text(id.name) != "_"@),
    }) && items_in_order_from(x, es, i + 1)
}

pub open spec fn args_in_order_from(x: Ctx, args: Seq<PatternArg>, k: nat) -> bool
    decreases args, args.len() - k,
{
    k < args.len() ==> (match args[k as int] {
        PatternArg::Positional(p) => in_order(x, p) && names_in(x, p).disjoint(
            arg_names_from(x, args, k + 1),
        ),
        PatternArg::Labeled { pattern: p, .. } => in_order(x, p) && names_in(x, p).disjoint(
            arg_names_from(x, args, k + 1),
        ),
    }) && args_in_order_from(x, args, k + 1)
}

pub open spec fn alternatives_in_order_from(x: Ctx, ps: Seq<Pattern>, i: nat) -> bool
    decreases ps, ps.len() - i,
{
    i < ps.len() ==> in_order(x, ps[i as int]) && names_in(x, ps[i as int]) == names_in(x, ps[0])
        && alternatives_in_order_from(x, ps, i + 1)
}

/// Whether a value has the shape that a pattern asks about, as its type says.
pub open spec fn suits(x: Ctx, p: Pattern, v: Value) -> bool
    decreases p, 0nat,
{
    match p {
        Pattern::Range { .. } => v is Int,
        Pattern::Tuple { elements, .. } => v matches Value::Tuple(vs) && vs.len()
            == elements@.len() && suit_from(x, elements@, 0, vs),
        Pattern::Array { elements, .. } => v matches Value::Array(vs) && items_suit_from(
            x,
            elements@,
            0,
            vs,
        ),
        Pattern::Constructor { name, args, .. } => x.ctor(name.name) matches Some(c) && (
        if x.is_truth(c.ty) {
            v is Bool
        } else {
            v matches Value::Made { ty, variant, fields } && (ty == c.ty.0 && variant == name.name
                ==> fields.len() == c.arity && fields_suit_from(x, c, args@, 0, fields))
        }),
        Pattern::Or { patterns, .. } => all_suit_from(x, patterns@, 0, v),
        _ => true,
    }
}

pub open spec fn suit_from(x: Ctx, ps: Seq<Pattern>, i: nat, vs: Seq<Value>) -> bool
    decreases ps, ps.len() - i,
{
    i < ps.len() ==> suits(x, ps[i as int], vs[i as int]) && suit_from(x, ps, i + 1, vs)
}

pub open spec fn all_suit_from(x: Ctx, ps: Seq<Pattern>, i: nat, v: Value) -> bool
    decreases ps, ps.len() - i,
{
    i < ps.len() ==> suits(x, ps[i as int], v) && all_suit_from(x, ps, i + 1, v)
}

pub open spec fn items_suit_from(x: Ctx, es: Seq<ArrayPattern>, i: nat, vs: Seq<Value>) -> bool
    decreases es, es.len() - i,
{
    i < es.len() ==> (es[i as int] matches ArrayPattern::Item(p) ==> (i < vs.len() ==> suits(
        x,
        p,
        vs[i as int],
    ))) && items_suit_from(x, es, i + 1, vs)
}

pub open spec fn fields_suit_from(
    x: Ctx,
    c: Ctor,
    args: Seq<PatternArg>,
    i: nat,
    fields: Seq<Value>,
) -> bool
    decreases args, c.arity - i,
{
    i < c.arity ==> (forall|k: int| #[trigger]
        is_for(c, args, k, i as int) ==> (match args[k] {
            PatternArg::Positional(p) => suits(x, p, fields[i as int]),
            PatternArg::Labeled { pattern, .. } => suits(x, pattern, fields[i as int]),
        })) && fields_suit_from(x, c, args, i + 1, fields)
}

// ---- laws ------------------------------------------------------------------------

/// The code of a pattern gets to its end where the pattern fits the value on top of the stack,
/// and takes a jump to the failure where it does not. The value is gone either way, what lies
/// beneath it stays. Where the pattern fits, its names stand for the parts of the value in
/// their places; slots of other names, and those set aside before, hold what they held.
pub proof fn law_patterns_match_what_fits(
    g: Given,
    img: Image,
    p: Pattern,
    m: Matching,
    v: Value,
    stack: Seq<Value>,
    locals: Map<int, Value>,
) -> (l: Map<int, Value>)
    requires
        in_order(ctx_of(m.s), p),
        suits(ctx_of(m.s), p, v),
        carries(img, m, pattern(p, m)),
        ready(m, pattern(p, m), names_in(ctx_of(m.s), p)),
    ensures
        fits(g, ctx_of(m.s), p, v) ==> reaches(
            g,
            img,
            at_end(m.s, stack.push(v), locals),
            at_end(pattern(p, m).s, stack, l),
        ),
        !fits(g, ctx_of(m.s), p, v) ==> fails(
            g,
            img,
            m,
            pattern(p, m),
            at_end(m.s, stack.push(v), locals),
            stack,
            l,
        ),
        fits(g, ctx_of(m.s), p, v) ==> forall|n: StrId| #[trigger]
            names_in(ctx_of(m.s), p).contains(n) ==> stands_for(
                pattern(p, m).s.loc,
                l,
                n,
                bound(g, ctx_of(m.s), p, v)[n],
            ),
        forall|i: int|
            0 <= i < m.s.loc.count && !is_slot(
                pattern(p, m).s.loc,
                names_in(ctx_of(m.s), p),
                i,
            ) ==> (#[trigger] l.dom().contains(i) <==> locals.dom().contains(i)) && l[i]
                == locals[i],
{
    let l = lemma_pattern(g, img, p, m, v, stack, locals);
    lemma_names_have_slots(p, m);
    reveal(kept);
    reveal(binds);
    l
}

/// Whether the slot of a name holds a value.
pub open spec fn stands_for(
    loc: Locals,
    locals: Map<int, Value>,
    name: StrId,
    v: Value,
) -> bool {
    &&& loc.map.dom().contains(name)
    &&& locals.dom().contains(loc.map[name].slot as int)
    &&& locals[loc.map[name].slot as int] == v
}

proof fn lemma_names_have_slots(p: Pattern, m: Matching)
    requires
        in_order(ctx_of(m.s), p),
        !m.s.out.check_only,
        ready(m, pattern(p, m), names_in(ctx_of(m.s), p)),
    ensures
        forall|n: StrId| #[trigger]
            names_in(ctx_of(m.s), p).contains(n) ==> pattern(p, m).s.loc.map.dom().contains(n),
{
    frames::lemma_pattern(p, m);
    reveal(keeps_slots);
}

/// A literal's code gets to its end where the value on top of the stack is the literal, and
/// takes the jump to the failure where it is any other value, whatever the frame holds.
pub proof fn law_literals_match_themselves(
    g: Given,
    img: Image,
    p: Pattern,
    m: Matching,
    v: Value,
    stack: Seq<Value>,
    locals: Map<int, Value>,
)
    requires
        p is Number || p is Str,
        in_order(ctx_of(m.s), p),
        carries(img, m, pattern(p, m)),
    ensures
        decides(
            g,
            img,
            m,
            pattern(p, m),
            at_end(m.s, stack.push(v), locals),
            stack,
            locals,
            match p {
                Pattern::Str { value, .. } => v == Value::Text(value),
                _ => literal(g, ctx_of(m.s), p) == Some(v),
            },
        ),
{
    let s = m.s;
    reveal(pattern_body);
    match p {
        Pattern::Number { literal: num, .. } => {
            let k = number_of(ctx_of(s).names, num.text)->Ok_0;
            frames::lemma_number(s, num);
            assert(pattern(p, m) == m.at(s.push_const(k)).require(Op::Eq));
            lemma_compared(g, img, m, k, v, stack, locals);
        },
        Pattern::Str { value, .. } => {
            let k = ConstView::Str(value);
            assert(pattern(p, m) == m.at(s.push_const(k)).require(Op::Eq));
            lemma_compared(g, img, m, k, v, stack, locals);
        },
        _ => {},
    }
}

} // verus!

//! What analysing a module leaves as it was: the frame around it, the modules, and all that
//! is known but for what the module declares.
use crate::ast::{Annotation, Expr, Ident, Span, StrId, TypeFault};
use crate::balance::exprs::lemma_expr;
use crate::diag::Message;
use crate::gen::expr;
use crate::prelude_bindings::TypeId;
use crate::refs::{DefId, DefinitionLocation};
use crate::scopes::{
    begins_with, extends, from_here, lemma_leaves_extends, lemma_leaves_self, lemma_unwound,
    same_block, steady,
};
use crate::state::{unwound, FieldDef, State, TypeInfo, VariantInfo};
use vstd::prelude::*;

pub mod passes;

verus! {

/// Whether the frame that a module is compiled in is as it was, with what was bound since
/// to be unbound again, and with the same modules, the same prelude and the same names.
#[verifier::opaque]
pub open spec fn holds(s: State, t: State) -> bool {
    &&& t.loc.overrides == s.loc.overrides
    &&& t.loc.walking == s.loc.walking
    &&& t.loc.marks == s.loc.marks
    &&& t.loc.outer == s.loc.outer
    &&& t.loc.tail ==> s.loc.tail
    &&& t.loc.binding == s.loc.binding
    &&& s.loc.outer.len() == 0 ==> t.loc.captures == s.loc.captures && t.loc.capture_names
        == s.loc.capture_names
    &&& begins_with(t.loc.undo, s.loc.undo)
    &&& s.loc.marks.len() > 0 ==> unwound(t.loc.map, t.loc.undo, s.loc.undo.len()) == s.loc.map
    &&& s.loc.next_self is None ==> t.loc.next_self is None
    &&& t.unused.len() == s.unused.len()
    &&& t.refs.collect == s.refs.collect
    &&& t.refs.owner == s.refs.owner
    &&& t.refs.module == s.refs.module
    &&& t.refs.current == s.refs.current
    &&& t.known.prelude == s.known.prelude
    &&& t.known.reserved == s.known.reserved
    &&& t.known.stored == s.known.stored
    &&& t.known.bases == s.known.bases
    &&& t.known.high == s.known.high
    &&& t.known.origin == s.known.origin
}

/// Whether the same types have been declared.
pub open spec fn same_infos(s: State, t: State) -> bool {
    &&& t.known.infos == s.known.infos
    &&& t.known.ids == s.known.ids
    &&& t.known.next == s.known.next
}

/// Whether the frame is as it was and no type has been declared.
pub open spec fn keeps(s: State, t: State) -> bool {
    holds(s, t) && same_infos(s, t)
}

/// How many types have been declared since.
pub open spec fn since(s: State, t: State) -> int {
    t.known.ids.len() - s.known.ids.len()
}

/// Whether identities have not run out since.
pub open spec fn enough(s: State, t: State) -> bool {
    s.known.next + since(s, t) <= u32::MAX
}

/// Whether the types declared since have the identities that come next, in order, and what
/// was known of those before is known of them.
pub open spec fn in_order(s: State, t: State) -> bool {
    &&& t.known.next == s.known.next + since(s, t)
    &&& forall|k: int|
        s.known.ids.len() <= k < t.known.ids.len() ==> #[trigger] t.known.ids[k] as int
            == s.known.next + (k - s.known.ids.len())
    &&& forall|id: u32|
        id < s.known.next ==> #[trigger] t.known.infos.dom().contains(id)
            == s.known.infos.dom().contains(id)
    &&& forall|id: u32|
        #![trigger t.known.infos[id]]
        id < s.known.next && s.known.infos.dom().contains(id) ==> t.known.infos[id]
            == s.known.infos[id]
    &&& forall|id: u32|
        s.known.next <= id && #[trigger] t.known.infos.dom().contains(id)
            && !s.known.infos.dom().contains(id) ==> id < t.known.next
}

/// Whether the frame is as it was, and only new types have been declared.
#[verifier::opaque]
pub open spec fn declares(s: State, t: State) -> bool {
    &&& holds(s, t)
    &&& begins_with(t.known.ids, s.known.ids)
    &&& enough(s, t) ==> in_order(s, t)
}

pub broadcast proof fn lemma_extends_keeps(s: State, t: State)
    requires
        #[trigger] extends(s, t),
    ensures
        keeps(s, t),
{
    reveal(steady);
    reveal(same_block);
    reveal(holds);
}

pub broadcast proof fn lemma_keeps_self(s: State)
    ensures
        #[trigger] keeps(s, s),
{
    lemma_leaves_self(s);
    lemma_leaves_extends(s, s);
    lemma_extends_keeps(s, s);
}

pub proof fn lemma_holds_on(a: State, b: State, c: State)
    requires
        holds(a, b),
        holds(b, c),
    ensures
        holds(a, c),
{
    reveal(holds);
    assert(c.loc.undo.take(a.loc.undo.len() as int) =~= c.loc.undo.take(
        b.loc.undo.len() as int,
    ).take(a.loc.undo.len() as int));
    lemma_unwound(c.loc.map, c.loc.undo, a.loc.undo.len(), b.loc.undo.len());
}

pub broadcast proof fn lemma_keeps_on(a: State, b: State, c: State)
    requires
        #[trigger] from_here(a),
        #[trigger] keeps(a, b),
        #[trigger] keeps(b, c),
    ensures
        keeps(a, c),
{
    lemma_holds_on(a, b, c);
}

/// What keeps the types keeps those declared.
pub proof fn lemma_declares_on(a: State, b: State, c: State)
    requires
        declares(a, b),
        keeps(b, c),
    ensures
        declares(a, c),
{
    reveal(declares);
    lemma_holds_on(a, b, c);
}

pub proof fn lemma_declares_self(s: State)
    ensures
        declares(s, s),
{
    reveal(declares);
    lemma_keeps_self(s);
    assert(s.known.ids.take(s.known.ids.len() as int) =~= s.known.ids);
}

/// One more type.
pub proof fn lemma_type_head(s: State, t: State, name: StrId, info: TypeInfo)
    requires
        declares(s, t),
    ensures
        declares(s, t.type_head(name, info)),
        enough(s, t.type_head(name, info)) ==> enough(s, t) && t.type_head(name, info).known.next
            == t.known.next + 1,
{
    reveal(declares);
    reveal(State::type_head);
    let u = t.type_head(name, info);
    assert(holds(t, u)) by {
        reveal(holds);
        assert(t.loc.undo.take(t.loc.undo.len() as int) =~= t.loc.undo);
    }
    lemma_holds_on(s, t, u);
    assert(u.known.ids.take(s.known.ids.len() as int) =~= t.known.ids.take(
        s.known.ids.len() as int,
    ));
}

/// What one of the new types consists of.
pub proof fn lemma_type_body(s: State, t: State, id: TypeId, info: TypeInfo)
    requires
        declares(s, t),
        enough(s, t) ==> s.known.next <= id.0 < t.known.next,
    ensures
        declares(s, t.type_body(id, info)),
{
    reveal(declares);
    reveal(State::type_body);
    let u = t.type_body(id, info);
    assert(holds(t, u)) by {
        reveal(holds);
        assert(t.loc.undo.take(t.loc.undo.len() as int) =~= t.loc.undo);
    }
    lemma_holds_on(s, t, u);
}

pub broadcast proof fn lemma_expr_keeps(e: Expr, s: State)
    ensures
        keeps(s, #[trigger] expr(e, s)),
{
    lemma_expr(e, s);
    lemma_leaves_extends(s, expr(e, s));
    lemma_extends_keeps(s, expr(e, s));
}

pub broadcast proof fn lemma_hydrate(s: State, a: Annotation)
    ensures
        keeps(s, #[trigger] s.hydrate(a)),
{
    crate::pieces::lemma_hydrate(s, a);
    lemma_leaves_extends(s, s.hydrate(a));
    lemma_extends_keeps(s, s.hydrate(a));
}

pub broadcast proof fn lemma_misfit(s: State, faults: Seq<TypeFault>)
    ensures
        keeps(s, #[trigger] s.misfit(faults)),
{
    crate::pieces::lemma_misfit(s, faults);
    lemma_leaves_extends(s, s.misfit(faults));
    lemma_extends_keeps(s, s.misfit(faults));
}

pub broadcast proof fn lemma_hydrate_all(s: State, list: Seq<Annotation>, n: nat)
    ensures
        keeps(s, #[trigger] s.hydrate_all(list, n)),
    decreases n,
{
    reveal(State::hydrate_all);
    lemma_keeps_self(s);
    if n > 0 {
        let t = s.hydrate_all(list, (n - 1) as nat);
        lemma_hydrate_all(s, list, (n - 1) as nat);
        lemma_hydrate(t, list[n - 1]);
        lemma_keeps_on(s, t, t.hydrate(list[n - 1]));
    }
}

pub broadcast proof fn lemma_note(s: State, message: Message, span: Span)
    ensures
        keeps(s, #[trigger] s.note(message, span)),
{
    reveal(State::note);
    reveal(holds);
    assert(s.loc.undo.take(s.loc.undo.len() as int) =~= s.loc.undo);
}

pub broadcast proof fn lemma_def(
    s: State,
    dl: DefinitionLocation,
    name: StrId,
    doc: Option<StrId>,
    public: bool,
)
    ensures
        keeps(s, #[trigger] s.def(dl, name, doc, public)),
{
    reveal(State::def);
    reveal(holds);
    assert(s.loc.undo.take(s.loc.undo.len() as int) =~= s.loc.undo);
}

pub broadcast proof fn lemma_add_field(s: State, f: FieldDef)
    ensures
        keeps(s, #[trigger] s.add_field(f)),
{
    reveal(State::add_field);
    reveal(holds);
    assert(s.loc.undo.take(s.loc.undo.len() as int) =~= s.loc.undo);
}

pub broadcast proof fn lemma_ctor_belongs(s: State, ctor: DefId, ty: DefId)
    ensures
        keeps(s, #[trigger] s.ctor_belongs(ctor, ty)),
{
    reveal(State::ctor_belongs);
    reveal(holds);
    assert(s.loc.undo.take(s.loc.undo.len() as int) =~= s.loc.undo);
}

pub broadcast proof fn lemma_name_params(s: State, id: DefId, names: Seq<Ident>)
    ensures
        keeps(s, #[trigger] s.name_params(id, names)),
{
    reveal(State::name_params);
    reveal(holds);
    assert(s.loc.undo.take(s.loc.undo.len() as int) =~= s.loc.undo);
}

/// What is compiled for an owner leaves what it would without.
pub proof fn lemma_owned(s: State, owner: Option<DefId>, t: State)
    requires
        keeps(s.set_owner(owner), t),
    ensures
        keeps(s, t.set_owner(s.refs.owner)),
{
    reveal(State::set_owner);
    reveal(holds);
}

pub broadcast proof fn lemma_pool_labels(s: State, labels: Seq<StrId>)
    ensures
        keeps(s, #[trigger] s.pool_labels(labels)),
{
    reveal(State::pool_labels);
    reveal(holds);
    assert(s.loc.undo.take(s.loc.undo.len() as int) =~= s.loc.undo);
}

pub broadcast proof fn lemma_pool_variants(s: State, variants: Seq<VariantInfo>)
    ensures
        keeps(s, #[trigger] s.pool_variants(variants)),
{
    reveal(State::pool_variants);
    reveal(holds);
    assert(s.loc.undo.take(s.loc.undo.len() as int) =~= s.loc.undo);
}

pub broadcast proof fn lemma_bind_raw(s: State, name: StrId, slot: i32)
    ensures
        keeps(s, #[trigger] s.bind_raw(name, slot)),
{
    reveal(State::bind_raw);
    reveal(holds);
    let t = s.bind_raw(name, slot);
    assert(t.loc.undo.take(s.loc.undo.len() as int) =~= s.loc.undo);
    if s.loc.marks.len() > 0 {
        assert(t.loc.undo.drop_last() =~= s.loc.undo);
        let back = match t.loc.undo.last().1 {
            Some(prev) => t.loc.map.insert(name, prev),
            None => t.loc.map.remove(name),
        };
        assert(back =~= s.loc.map);
        assert(unwound(s.loc.map, s.loc.undo, s.loc.undo.len()) == s.loc.map);
    }
}

pub broadcast group group_frames {
    lemma_extends_keeps,
    lemma_keeps_self,
    lemma_keeps_on,
    lemma_expr_keeps,
    lemma_hydrate,
    lemma_misfit,
    lemma_hydrate_all,
    lemma_note,
    lemma_def,
    lemma_add_field,
    lemma_ctor_belongs,
    lemma_name_params,
    lemma_pool_labels,
    lemma_pool_variants,
    lemma_bind_raw,
}

} // verus!

//! What later stages ask of the compiler about types and their constructors.
use crate::abi::variants_of;
use crate::ast::{StrId, TypeShape};
use crate::diag::{slice_of, ArenaSlice, Message};
use crate::gen::{field_place, label_place};
use crate::op::ConstView;
use crate::prelude_bindings::{ctor_name_of, same_type, PreludeBindings, PreludeCtor, TypeId};
use crate::slots::entries_of;
use crate::state::{Compiler, State, VariantInfo};
use crate::values::shared_field;
use vstd::prelude::*;

verus! {

broadcast use vstd::std_specs::hash::group_hash_axioms;

/// A constructor of the prelude by identity and by name.
#[derive(Debug, Clone, Copy)]
pub struct VariantRef {
    pub type_id: TypeId,
    pub variant_idx: u16,
    pub ty_name: &'static str,
    pub variant_name: &'static str,
}

/// How a value that may have failed comes apart.
#[derive(Debug, Clone, Copy)]
pub struct OrShape {
    pub fail: VariantRef,
    pub ok: VariantRef,
    /// Whether the failure carries a value.
    pub err_has_payload: bool,
}

/// How many ways a jump on the constructor of a value has. There is none on a boolean,
/// which carries no tag, nor on a type without constructors or with more than a byte
/// counts.
pub open spec fn switch_count(s: State, prelude: PreludeBindings, id: TypeId) -> Option<u8> {
    match variants_of(s, id) {
        None => None,
        Some(sl) => if same_type(prelude.bool.id, id) || sl.len > 255 {
            None
        } else {
            Some(sl.len as u8)
        },
    }
}

/// The boolean that a constructor is, where its type is the boolean one.
pub open spec fn as_bool(prelude: PreludeBindings, id: TypeId, variant_idx: u16) -> Option<bool> {
    if same_type(prelude.bool.id, id) {
        Some(same_type(prelude.true_.type_id, id) && variant_idx == prelude.true_.variant_idx)
    } else {
        None
    }
}

/// The constructor of a type at a place.
pub open spec fn variant_at(s: State, id: TypeId, variant_idx: u16) -> Option<VariantInfo> {
    match variants_of(s, id) {
        None => None,
        Some(sl) => {
            let variants = slice_of(s.known.variants, sl);
            if variant_idx < variants.len() {
                Some(variants[variant_idx as int])
            } else {
                None
            }
        },
    }
}

/// The labels of the constructor at a place of a type.
pub open spec fn labels_of(s: State, id: TypeId, variant_idx: u16) -> Option<Seq<StrId>> {
    match variant_at(s, id, variant_idx) {
        None => None,
        Some(v) => Some(slice_of(s.labels, v.labels)),
    }
}

/// The place of a field in a value of some shape, if it has the same in every
/// constructor.
pub open spec fn field_of(s: State, receiver: TypeShape, field: StrId) -> Option<usize> {
    match receiver {
        TypeShape::Con { id, name } => match variants_of(s, id) {
            None => None,
            Some(sl) => {
                let variants = slice_of(s.known.variants, sl);
                match field_place(s.labels, variants, variants.len(), name, field) {
                    Ok(place) => place,
                    Err(_) => None,
                }
            },
        },
        _ => None,
    }
}

/// How a value of some shape comes apart, if it may have failed.
pub open spec fn failing(prelude: PreludeBindings, receiver: TypeShape) -> Option<OrShape> {
    match receiver {
        TypeShape::Con { id, .. } => if same_type(prelude.option.id, id) {
            Some(
                OrShape {
                    fail: VariantRef {
                        type_id: prelude.none.type_id,
                        variant_idx: prelude.none.variant_idx,
                        ty_name: prelude.option.name,
                        variant_name: ctor_name_of(PreludeCtor::NoneCtor),
                    },
                    ok: VariantRef {
                        type_id: prelude.some.type_id,
                        variant_idx: prelude.some.variant_idx,
                        ty_name: prelude.option.name,
                        variant_name: ctor_name_of(PreludeCtor::SomeCtor),
                    },
                    err_has_payload: false,
                },
            )
        } else if same_type(prelude.result.id, id) {
            Some(
                OrShape {
                    fail: VariantRef {
                        type_id: prelude.err.type_id,
                        variant_idx: prelude.err.variant_idx,
                        ty_name: prelude.result.name,
                        variant_name: ctor_name_of(PreludeCtor::ErrCtor),
                    },
                    ok: VariantRef {
                        type_id: prelude.ok.type_id,
                        variant_idx: prelude.ok.variant_idx,
                        ty_name: prelude.result.name,
                        variant_name: ctor_name_of(PreludeCtor::OkCtor),
                    },
                    err_has_payload: true,
                },
            )
        } else {
            None
        },
        _ => None,
    }
}

impl PreludeBindings {
    /// The boolean that a constructor is, where its type is the boolean one.
    pub fn bool_variant(&self, id: TypeId, variant_idx: u16) -> (res: Option<bool>)
        ensures
            res == as_bool(*self, id, variant_idx),
    {
        if !self.bool.is(id) {
            return None;
        }
        Some(self.true_.is(id, variant_idx))
    }

    /// How a value of some shape comes apart, if it may have failed.
    pub fn or_shape(&self, receiver: TypeShape) -> (res: Option<OrShape>)
        ensures
            res == failing(*self, receiver),
    {
        let id: TypeId = match receiver {
            TypeShape::Con { id, .. } => id,
            _ => {
                return None;
            },
        };
        let (ty, ok, ok_name, fail, fail_name, err_has_payload) = if self.option.is(id) {
            (
                self.option,
                self.some,
                PreludeCtor::SomeCtor.name(),
                self.none,
                PreludeCtor::NoneCtor.name(),
                false,
            )
        } else if self.result.is(id) {
            (
                self.result,
                self.ok,
                PreludeCtor::OkCtor.name(),
                self.err,
                PreludeCtor::ErrCtor.name(),
                true,
            )
        } else {
            return None;
        };
        Some(
            OrShape {
                fail: VariantRef {
                    type_id: fail.type_id,
                    variant_idx: fail.variant_idx,
                    ty_name: ty.name,
                    variant_name: fail_name,
                },
                ok: VariantRef {
                    type_id: ok.type_id,
                    variant_idx: ok.variant_idx,
                    ty_name: ty.name,
                    variant_name: ok_name,
                },
                err_has_payload,
            },
        )
    }
}

impl Compiler {
    /// Where the constructors of a type stand.
    fn variants_at(&self, id: TypeId) -> (res: Option<ArenaSlice>)
        ensures
            res == variants_of(self@, id),
    {
        proof {
            reveal(Compiler::model);
        }
        match self.infos.get(&id.0) {
            None => None,
            Some(info) => info.variants,
        }
    }

    /// The constructor of a type at a place.
    fn variant(&self, id: TypeId, variant_idx: u16) -> (res: Option<VariantInfo>)
        ensures
            res == variant_at(self@, id, variant_idx),
    {
        match self.variants_at(id) {
            None => None,
            Some(sl) => {
                proof {
                    reveal(Compiler::model);
                }
                let variants: Vec<VariantInfo> = entries_of(&self.variants, sl);
                let i: usize = variant_idx as usize;
                if i < variants.len() {
                    Some(variants[i])
                } else {
                    None
                }
            },
        }
    }

    /// How many ways a jump on the constructor of a value has, if there can be such a
    /// jump.
    pub fn switch_variant_count(&self, prelude: &PreludeBindings, id: TypeId) -> (res: Option<u8>)
        ensures
            res == switch_count(self@, *prelude, id),
    {
        match self.variants_at(id) {
            None => None,
            Some(sl) => if prelude.bool.is(id) || sl.len > 255 {
                None
            } else {
                Some(sl.len as u8)
            },
        }
    }

    /// The labels of the constructor at a place of a type. They are read off the type,
    /// so that a constructor whose name is not in scope has them too.
    pub fn ctor_labels(&self, id: TypeId, variant_idx: u16) -> (res: Option<Vec<StrId>>)
        ensures
            match res {
                Some(labels) => labels_of(self@, id, variant_idx) == Some(labels@),
                None => labels_of(self@, id, variant_idx) is None,
            },
    {
        match self.variant(id, variant_idx) {
            None => None,
            Some(v) => Some(self.labels_at(v.labels)),
        }
    }

    /// The place of a field in a value of some shape, if it has the same in every
    /// constructor.
    pub fn ctor_field(&self, receiver: TypeShape, field: StrId) -> (res: Option<usize>)
        ensures
            res == field_of(self@, receiver, field),
    {
        match receiver {
            TypeShape::Con { id, name } => match self.variants_at(id) {
                None => None,
                Some(sl) => {
                    proof {
                        reveal(Compiler::model);
                    }
                    match shared_field(
                        &self.labels,
                        &entries_of(&self.variants, sl),
                        name,
                        field,
                    ) {
                        Ok(place) => place,
                        Err(_) => None,
                    }
                },
            },
            _ => None,
        }
    }

    /// Pool the labels of the constructor at a place of a type that has it.
    pub fn intern_labels(&mut self, id: TypeId, variant_idx: u16) -> (idx: i32)
        requires
            variant_at(old(self)@, id, variant_idx) is Some,
        ensures
            final(self)@ == old(self)@.pool(
                ConstView::Labels(variant_at(old(self)@, id, variant_idx)->0.labels),
            ),
            idx == old(self)@.pool_index(),
    {
        match self.variant(id, variant_idx) {
            Some(v) => self.const_str_array(v.labels),
            None => {
                assert(false);
                0
            },
        }
    }
}

// ---- laws --------------------------------------------------------------------

/// No value comes apart in two ways: the prelude's optional and fallible types being
/// two types, a failure carries a value exactly for the fallible one.
pub proof fn law_failures(prelude: PreludeBindings, id: TypeId, name: StrId)
    requires
        prelude.option.id != prelude.result.id,
    ensures
        failing(prelude, TypeShape::Con { id, name }) is Some <==> same_type(
            prelude.option.id,
            id,
        ) || same_type(prelude.result.id, id),
        failing(prelude, TypeShape::Con { id, name }) matches Some(shape) ==> (
        shape.err_has_payload <==> same_type(prelude.result.id, id)),
{
}

/// A field that has a place is at that place in every constructor of the type.
pub proof fn law_fields_are_shared(
    labels: Seq<StrId>,
    variants: Seq<VariantInfo>,
    n: nat,
    ty: StrId,
    field: StrId,
    place: usize,
    k: int,
)
    requires
        n <= variants.len(),
        field_place(labels, variants, n, ty, field) == Ok::<Option<usize>, Message>(
            Some(place),
        ),
        0 <= k < n,
    ensures
        label_place(slice_of(labels, variants[k].labels), 0, field) == Some(place),
    decreases n,
{
    if k < n - 1 {
        let before = field_place(labels, variants, (n - 1) as nat, ty, field);
        if before->Ok_0 is None {
            lemma_place_from(labels, variants, (n - 1) as nat, ty, field);
        }
        law_fields_are_shared(labels, variants, (n - 1) as nat, ty, field, place, k);
    }
}

proof fn lemma_place_from(
    labels: Seq<StrId>,
    variants: Seq<VariantInfo>,
    n: nat,
    ty: StrId,
    field: StrId,
)
    requires
        0 < n <= variants.len(),
        field_place(labels, variants, n, ty, field) is Ok,
    ensures
        field_place(labels, variants, n, ty, field)->Ok_0 is Some,
{
}

} // verus!

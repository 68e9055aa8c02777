use al_bytecode::prelude_bindings::{
    PreludeBindings, PreludeCaptureError, PreludeCtor, PreludeScope, PreludeType, ScopeType,
    ScopeValue, TypeId,
};

const TYPES: [(PreludeType, usize); 9] = [
    (PreludeType::Int, 0),
    (PreludeType::Float, 0),
    (PreludeType::String, 0),
    (PreludeType::Bool, 0),
    (PreludeType::Array, 1),
    (PreludeType::Binary, 0),
    (PreludeType::Nil, 0),
    (PreludeType::Option, 1),
    (PreludeType::Result, 2),
];

#[test]
fn capture_on_empty_env_reports_missing_type() {
    let env = PreludeScope::new();
    let err = PreludeBindings::capture(&env).unwrap_err();
    assert_eq!(err, PreludeCaptureError::MissingType(PreludeType::Int));
    assert_eq!(err.message(), "prelude: type 'Int' is required");
}

/// Every prelude type with the correct arity, but no constructors.
#[test]
fn ctor_shape_mismatch_message() {
    let mut env = PreludeScope::new();
    for (n, arity) in TYPES {
        env.add_type(n.name(), ScopeType { id: TypeId(0), arity });
    }
    let err = PreludeBindings::capture(&env).unwrap_err();
    assert_eq!(err, PreludeCaptureError::MissingCtor(PreludeCtor::TrueCtor));
    assert_eq!(err.message(), "prelude: constructor 'True' is required");
}

/// A prelude type declared with the wrong number of parameters.
#[test]
fn type_arity_mismatch_message() {
    let mut env = PreludeScope::new();
    for (n, _) in TYPES {
        env.add_type(n.name(), ScopeType { id: TypeId(0), arity: 0 });
    }
    let err = PreludeBindings::capture(&env).unwrap_err();
    assert_eq!(
        err,
        PreludeCaptureError::TypeArity {
            name: PreludeType::Array,
            expected: 1,
            found: 0
        }
    );
    assert_eq!(
        err.message(),
        "prelude: type 'Array' must have arity 1, found 0"
    );
}

#[test]
fn a_whole_prelude_is_captured() {
    let mut env = PreludeScope::new();
    for (i, (n, arity)) in TYPES.into_iter().enumerate() {
        env.add_type(n.name(), ScopeType { id: TypeId(i as u32 + 1), arity });
    }
    let ctors = [
        (PreludeCtor::TrueCtor, 4, 0, 0),
        (PreludeCtor::FalseCtor, 4, 1, 0),
        (PreludeCtor::NilCtor, 7, 0, 0),
        (PreludeCtor::SomeCtor, 8, 0, 1),
        (PreludeCtor::NoneCtor, 8, 1, 0),
        (PreludeCtor::OkCtor, 9, 0, 1),
        (PreludeCtor::ErrCtor, 9, 1, 1),
    ];
    for (c, ty, variant_idx, arity) in ctors {
        env.add_value(
            c.name(),
            ScopeValue::Constructor { type_id: TypeId(ty), variant_idx, arity },
        );
    }
    let b = PreludeBindings::capture(&env).unwrap();
    assert!(b.bool.is(TypeId(4)));
    assert!(!b.bool.is(TypeId(5)));
    assert!(b.err.is(TypeId(9), 1));
    assert_eq!(b.prim_ids().array, TypeId(5));
    let fields: Vec<(&str, u32)> = b.type_fields().iter().map(|(f, t)| (*f, t.id.0)).collect();
    assert_eq!(fields.len(), 9);
    assert_eq!((fields[0], fields[8]), (("int", 1), ("result", 9)));
    let ctors: Vec<(&str, u16)> = b.ctor_fields().iter().map(|(f, c)| (*f, c.arity)).collect();
    assert_eq!((ctors[0], ctors[6]), (("true_", 0), ("err", 1)));
}

#[test]
fn a_constructor_of_another_type_is_reported() {
    let mut env = PreludeScope::new();
    for (i, (n, arity)) in TYPES.into_iter().enumerate() {
        env.add_type(n.name(), ScopeType { id: TypeId(i as u32 + 1), arity });
    }
    env.add_value(
        "True",
        ScopeValue::Constructor { type_id: TypeId(1), variant_idx: 0, arity: 0 },
    );
    let err = PreludeBindings::capture(&env).unwrap_err();
    assert!(matches!(
        err,
        PreludeCaptureError::CtorShape { name: PreludeCtor::TrueCtor, .. }
    ));
}

#[test]
fn nothing_is_bound_before_the_prelude_is_captured() {
    let b = PreludeBindings::default();
    assert_eq!((b.int.id.0, b.int.name), (0, "Int"));
    for c in [b.true_, b.false_, b.nil_ctor, b.some, b.none, b.ok, b.err] {
        assert_eq!((c.type_id.0, c.variant_idx, c.arity), (0, 0, 0));
    }
}

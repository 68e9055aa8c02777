use al_bytecode::ast::{BinKind, BinSegment, BinUnit, Expr, NumberLiteral, Span};
use al_bytecode::literal::{
    const_fold_binary_literal, number_literal_value, push_literal_bits, NumLitError,
};
use al_bytecode::names::Interner;
use al_bytecode::numbers::{
    contains_point, decimal_text, int_text, is_float_text, parse_i64, parse_u64,
};
use al_bytecode::op::Const;
use al_bytecode::refs::{
    def_loc, def_loc_span, defid_of, DefId, Definition, EntityKind, ModuleReferences,
};

fn span(line: i32, from: i32, to: i32) -> Span {
    Span {
        start_line: line,
        start_column: from,
        end_line: line,
        end_column: to,
    }
}

fn number(names: &mut Interner, text: &str) -> Expr {
    Expr::Number(NumberLiteral {
        text: names.intern(text),
        span: span(0, 0, 1),
    })
}

fn segment(value: Expr, size: Option<Expr>, kind: BinKind) -> BinSegment {
    BinSegment {
        value,
        value_faults: vec![],
        size,
        size_faults: vec![],
        kind,
        unit: BinUnit::Bits,
    }
}

#[test]
fn equal_texts_share_an_id() {
    let mut names = Interner::new();
    let a = names.intern("a");
    let b = names.intern("b");
    assert_ne!(a, b);
    assert_eq!(names.intern("a"), a);
    assert_eq!(names.find("b"), Some(b));
    assert_eq!(names.find("c"), None);
    assert_eq!(names.text(a), "a");
    assert!(names.is(b, "b"));
    let ignored = names.intern("_x");
    assert!(names.is_ignored(ignored));
    assert!(!names.is_ignored(a));
}

#[test]
fn a_decimal_is_read_back() {
    for n in [0, 7, 10, 12345, u64::MAX] {
        assert_eq!(parse_u64(&decimal_text(n)), Some(n));
    }
    for n in [i64::MIN, -1, 0, 42, i64::MAX] {
        assert_eq!(parse_i64(&int_text(n)), Some(n));
    }
    assert_eq!(decimal_text(1024), "1024");
    assert_eq!(int_text(i64::MIN), "-9223372036854775808");
    assert_eq!(parse_i64("9223372036854775808"), None);
    assert_eq!(parse_u64("12a"), None);
    assert_eq!(parse_u64(""), None);
}

#[test]
fn a_point_makes_a_float() {
    assert!(contains_point("1.5"));
    assert!(!contains_point("15"));
    assert!(is_float_text("1.5"));
    assert!(!is_float_text("1.x"));
}

#[test]
fn a_number_literal_has_a_value_or_a_fault() {
    let mut names = Interner::new();
    let int = names.intern("9223372036854775807");
    let over = names.intern("9223372036854775808");
    let float = names.intern("2.5");
    let bad = names.intern("2.5.1");
    assert!(matches!(
        number_literal_value(&names, int),
        Ok(Const::Int(i64::MAX))
    ));
    assert!(matches!(
        number_literal_value(&names, over),
        Err(NumLitError::IntOutOfRange)
    ));
    assert!(matches!(number_literal_value(&names, float), Ok(Const::Float(id)) if id == float));
    assert!(matches!(
        number_literal_value(&names, bad),
        Err(NumLitError::InvalidFloat)
    ));
}

#[test]
fn literal_bits_go_in_from_the_high_end() {
    let mut bytes = vec![];
    let mut len = 0;
    push_literal_bits(&mut bytes, &mut len, 5, 3);
    push_literal_bits(&mut bytes, &mut len, -1, 5);
    assert_eq!((bytes.as_slice(), len), (&[0b1011_1111][..], 8));
    push_literal_bits(&mut bytes, &mut len, 1, 2);
    assert_eq!((bytes.as_slice(), len), (&[0b1011_1111, 0b0100_0000][..], 10));
}

#[test]
fn a_binary_literal_is_folded_segment_by_segment() {
    let mut names = Interner::new();
    let text = Expr::Str {
        value: names.intern("hi"),
        span: span(0, 0, 4),
    };
    let twelve = number(&mut names, "12");
    let four = number(&mut names, "4");
    let segs = vec![
        segment(text, None, BinKind::Utf8),
        segment(twelve, Some(four), BinKind::Int),
    ];
    assert_eq!(
        const_fold_binary_literal(&names, &segs),
        Some((vec![b'h', b'i', 0b1100_0000], 20))
    );
}

#[test]
fn a_segment_that_is_computed_is_not_folded() {
    let mut names = Interner::new();
    let id = names.intern("x");
    let x = Expr::Name {
        id: al_bytecode::ast::Ident {
            name: id,
            span: span(0, 0, 1),
        },
        near: None,
    };
    let segs = vec![segment(x, None, BinKind::Int)];
    assert_eq!(const_fold_binary_literal(&names, &segs), None);
}

#[test]
fn a_location_keeps_a_span_of_one_line() {
    let at = span(3, 4, 9);
    let dl = def_loc(at, 1, EntityKind::Function);
    assert_eq!(def_loc_span(&dl), at);
    assert_eq!(
        defid_of(dl),
        DefId {
            module: 1,
            span: at,
            entity: EntityKind::Function
        }
    );
}

#[test]
fn the_last_definition_of_an_identity_wins() {
    let mut refs = ModuleReferences::new(0);
    let id = DefId {
        module: 0,
        span: span(1, 0, 1),
        entity: EntityKind::Value,
    };
    let first = Definition {
        id,
        name: 1,
        doc: None,
        public: false,
        alias_of: None,
    };
    let second = Definition {
        public: true,
        ..first
    };
    refs.add_definition(first);
    refs.add_definition(second);
    assert_eq!(refs.definition(id), Some(second));
    assert_eq!(refs.defs_named(1), vec![id]);
}

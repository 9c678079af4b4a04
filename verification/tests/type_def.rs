use vrl_compiler::span::Span;
use vrl_compiler::value::Value;
use vrl_compiler::kind::{Kind, CollectionKind, FieldsKind};
use vrl_compiler::expression::Expr;
use vrl_compiler::expression::array::Array;
use vrl_compiler::expression::literal::Literal;
use vrl_compiler::expression::noop::Noop;
use vrl_compiler::expression::unary::{Unary, Variant, Not};
use vrl_compiler::state::{LocalEnv, ExternalEnv};
use vrl_compiler::context::Context;

fn array_of(elems: Vec<Expr>) -> Expr {
    Expr::Array(Array::from(elems))
}

fn array_kind_elems(kind: &Kind) -> &Vec<Kind> {
    match &kind.array {
        CollectionKind::Known(elems) => elems,
        other => panic!("expected a known array kind, got {:?}", other),
    }
}

#[test]
fn empty_array() {
    let expr = array_of(vec![]);
    let local = LocalEnv::new();
    let external = ExternalEnv::new();
    let td = expr.type_def((&local, &external));
    assert!(!td.is_fallible());
    assert_eq!(array_kind_elems(td.kind()).len(), 0);
}

#[test]
fn scalar_array() {
    // [1, "foo", true]: exactly three positional entries, each the
    // element's own kind; infallible.
    let expr = array_of(vec![
        Expr::Literal(Literal::integer(1)),
        Expr::Literal(Literal::string("foo")),
        Expr::Literal(Literal::boolean(true)),
    ]);
    let local = LocalEnv::new();
    let external = ExternalEnv::new();
    let td = expr.type_def((&local, &external));
    assert!(!td.is_fallible());
    let elems = array_kind_elems(td.kind());
    assert_eq!(elems.len(), 3);
    assert!(elems[0].is_integer());
    assert!(elems[1].is_bytes());
    assert!(elems[2].is_boolean());
}

#[test]
fn mixed_array() {
    // [1, [true, "foo"], {"bar": null}]: nested structural propagation.
    let expr = array_of(vec![
        Expr::Literal(Literal::integer(1)),
        array_of(vec![
            Expr::Literal(Literal::boolean(true)),
            Expr::Literal(Literal::string("foo")),
        ]),
        Expr::Literal(Literal::new(Value::Object(vec![(
            "bar".to_string(),
            Value::Null,
        )]))),
    ]);
    let local = LocalEnv::new();
    let external = ExternalEnv::new();
    let td = expr.type_def((&local, &external));
    assert!(!td.is_fallible());
    let elems = array_kind_elems(td.kind());
    assert_eq!(elems.len(), 3);
    assert!(elems[0].is_integer());

    let inner = array_kind_elems(&elems[1]);
    assert_eq!(inner.len(), 2);
    assert!(inner[0].is_boolean());
    assert!(inner[1].is_bytes());

    match &elems[2].object {
        FieldsKind::Known(fields) => {
            assert_eq!(fields.len(), 1);
            assert_eq!(fields[0].0, "bar");
            assert!(fields[0].1.is_null());
        },
        other => panic!("expected a known object kind, got {:?}", other),
    }
}

#[test]
fn noop_resolves_to_null_and_is_infallible() {
    let noop = Noop;
    let mut ctx = Context::new(Value::Null);
    assert_eq!(noop.resolve(&mut ctx), Ok(Value::Null));
    let mut other_ctx = Context::new(Value::Integer(42));
    assert_eq!(noop.resolve(&mut other_ctx), Ok(Value::Null));
    let local = LocalEnv::new();
    let external = ExternalEnv::new();
    let td = noop.type_def((&local, &external));
    assert!(!td.is_fallible());
    assert!(td.kind().is_null());
}

#[test]
fn unary_not_negates_booleans() {
    let unary = Unary::new(Variant::Not(Not::new(
        Span::new(0, 1),
        Expr::Literal(Literal::boolean(false)),
    )));
    let mut ctx = Context::new(Value::Null);
    assert_eq!(unary.resolve(&mut ctx), Ok(Value::Boolean(true)));
    let local = LocalEnv::new();
    let external = ExternalEnv::new();
    let td = unary.type_def((&local, &external));
    assert!(td.kind().is_boolean());
    assert!(!td.is_fallible());

    // A non-boolean operand types as fallible and fails at runtime.
    let bad = Unary::new(Variant::Not(Not::new(
        Span::new(0, 1),
        Expr::Literal(Literal::integer(3)),
    )));
    assert!(bad.type_def((&local, &external)).is_fallible());
    assert!(bad.resolve(&mut ctx).is_err());
}

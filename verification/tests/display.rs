use vrl_compiler::span::Span;
use vrl_compiler::value::Value;
use vrl_compiler::kind::Kind;
use vrl_compiler::expression::{Expr, FunctionArgument};
use vrl_compiler::expression::array::Array;
use vrl_compiler::expression::literal::Literal;
use vrl_compiler::expression::levenstein;
use vrl_compiler::expression::noop::Noop;
use vrl_compiler::expression::function_call::{FunctionCall, Error};
use vrl_compiler::function::{FunctionDecl, Parameter};
use vrl_compiler::parser::{Node, Ident};
use vrl_compiler::state::{LocalEnv, ExternalEnv};
use vrl_compiler::diagnostic::Note;

#[test]
fn expressions_render_as_written() {
    let expr = Expr::Array(Array::from(vec![
        Expr::Literal(Literal::integer(-42)),
        Expr::Literal(Literal::string("foo")),
        Expr::Literal(Literal::new(Value::Object(vec![(
            "bar".to_string(),
            Value::Null,
        )]))),
    ]));
    assert_eq!(expr.display_string(), "[-42, \"foo\", {\"bar\": null}]");
}

#[test]
fn kinds_render_by_name() {
    assert_eq!(Kind::integer().display_string(), "integer");
    assert_eq!(Kind::bytes().display_string(), "string");
    assert_eq!(Kind::any().display_string(), "any");
    let both = Kind { bytes: true, ..Kind::integer() };
    assert_eq!(both.display_string(), "integer or string");
}

#[test]
fn edit_distance_counts_single_character_edits() {
    let a: Vec<char> = "kitten".chars().collect();
    let b: Vec<char> = "sitting".chars().collect();
    assert_eq!(levenstein::distance(&a, &b), 3);
    let c: Vec<char> = "test".chars().collect();
    assert_eq!(levenstein::distance(&c, &c), 0);
    let empty: Vec<char> = Vec::new();
    assert_eq!(levenstein::distance(&empty, &c), 4);
}

#[test]
fn error_codes_match_their_diagnostics() {
    let err = Error::WrongNumberOfArgs { arguments_span: Span::new(0, 1), max: 1 };
    assert_eq!(err.code(), 106);
    assert_eq!(err.message(), "wrong number of function arguments");
    let labels = err.labels();
    assert_eq!(labels.len(), 2);
    assert_eq!(labels[1].message, "this function takes a maximum of 1 argument");
    let notes = err.notes();
    assert!(matches!(&notes[0], Note::SeeDocs(topic, _) if topic == "function arguments"));

    let fallible = Error::FallibleArgument { expr_span: Span::new(0, 1) };
    assert_eq!(fallible.code(), 630);
    assert!(matches!(fallible.notes()[0], Note::SeeErrorDocs));

    let missing = Error::MissingArgument {
        call_span: Span::new(0, 1),
        keyword: "value".to_string(),
        position: 2,
    };
    assert_eq!(missing.code(), 107);
    assert_eq!(
        missing.labels()[0].message,
        "required argument missing: \"value\" (position 2)"
    );
}

#[test]
fn nearest_identifier_is_suggested_by_edit_distance() {
    let decl = |name: &str| {
        FunctionDecl::new(
            name.to_string(),
            vec![Parameter::new("value".to_string(), Kind::integer(), false)],
            Expr::Noop(Noop),
        )
    };
    // Both candidates exist; only a real distance computation picks the
    // closer one, since a tie would resolve to the earlier candidate.
    let funcs = vec![decl("aaaa"), decl("tesz")];
    let mut local = LocalEnv::new();
    let mut external = ExternalEnv::new();
    let err = FunctionCall::new(
        Span::new(0, 4),
        Node::new(Span::new(0, 4), Ident::new("test".to_string())),
        false,
        vec![],
        &funcs,
        &mut local,
        &mut external,
    )
    .unwrap_err();
    let labels = err.labels();
    assert_eq!(labels[1].message, "did you mean \"tesz\"?");
}

#[test]
fn calls_render_with_their_arguments() {
    let funcs = vec![FunctionDecl::new(
        "emit".to_string(),
        vec![
            Parameter::new("first".to_string(), Kind::integer(), false),
            Parameter::new("second".to_string(), Kind::integer(), false),
        ],
        Expr::Noop(Noop),
    )];
    let mut local = LocalEnv::new();
    let mut external = ExternalEnv::new();
    let call = FunctionCall::new(
        Span::new(0, 20),
        Node::new(Span::new(0, 4), Ident::new("emit".to_string())),
        false,
        vec![
            Node::new(
                Span::new(5, 6),
                FunctionArgument::new(
                    None,
                    Node::new(Span::new(5, 6), Expr::Literal(Literal::integer(1))),
                ),
            ),
            Node::new(
                Span::new(8, 17),
                FunctionArgument::new(
                    Some(Node::new(Span::new(8, 14), Ident::new("second".to_string()))),
                    Node::new(Span::new(16, 17), Expr::Literal(Literal::integer(2))),
                ),
            ),
        ],
        &funcs,
        &mut local,
        &mut external,
    )
    .unwrap();
    assert_eq!(call.display_string(), "emit(1, second: 2)");
}

#[test]
fn suggestion_ties_keep_the_earlier_candidate() {
    let decl = |name: &str| {
        FunctionDecl::new(
            name.to_string(),
            vec![Parameter::new("value".to_string(), Kind::integer(), false)],
            Expr::Noop(Noop),
        )
    };
    // Both candidates sit at distance 1 from the written identifier; the
    // first registered one wins.
    let funcs = vec![decl("x"), decl("y")];
    let mut local = LocalEnv::new();
    let mut external = ExternalEnv::new();
    let err = FunctionCall::new(
        Span::new(0, 1),
        Node::new(Span::new(0, 1), Ident::new("z".to_string())),
        false,
        vec![],
        &funcs,
        &mut local,
        &mut external,
    )
    .unwrap_err();
    assert_eq!(err.labels()[1].message, "did you mean \"x\"?");
}

use vrl_compiler::span::Span;
use vrl_compiler::parser::{Node, Ident};
use vrl_compiler::kind::Kind;
use vrl_compiler::function::{Parameter, FunctionDecl, ResolvedArgument};
use vrl_compiler::expression::{Expr, FunctionArgument};
use vrl_compiler::expression::literal::Literal;
use vrl_compiler::expression::noop::Noop;
use vrl_compiler::expression::function_call::{FunctionCall, Error};
use vrl_compiler::expression::unary::{Unary, Variant, Not};
use vrl_compiler::state::{LocalEnv, ExternalEnv};
use vrl_compiler::diagnostic::{Diagnostic, Label};

fn create_node<T>(inner: T) -> Node<T> {
    Node::new(Span::new(0, 0), inner)
}

fn create_argument(ident: Option<&str>, value: i64) -> FunctionArgument {
    FunctionArgument::new(
        ident.map(|ident| create_node(Ident::new(ident.to_string()))),
        create_node(Expr::Literal(Literal::integer(value))),
    )
}

fn test_fn() -> FunctionDecl {
    FunctionDecl::new(
        "test".to_string(),
        vec![
            Parameter::new("one".to_string(), Kind::integer(), false),
            Parameter::new("two".to_string(), Kind::integer(), false),
            Parameter::new("three".to_string(), Kind::integer(), false),
        ],
        Expr::Noop(Noop),
    )
}

fn create_resolved_argument(parameter: Parameter, value: i64) -> ResolvedArgument {
    ResolvedArgument { argument: parameter, expression: Expr::Literal(Literal::integer(value)) }
}

fn try_function_call(arguments: Vec<Node<FunctionArgument>>) -> Result<FunctionCall, Error> {
    let mut local = LocalEnv::new();
    let mut external = ExternalEnv::new();
    FunctionCall::new(
        Span::new(0, 0),
        Node::new(Span::new(0, 0), Ident::new("test".to_string())),
        false,
        arguments,
        &vec![test_fn()],
        &mut local,
        &mut external,
    )
}

fn create_function_call(arguments: Vec<Node<FunctionArgument>>) -> FunctionCall {
    try_function_call(arguments).unwrap()
}

#[test]
fn resolve_arguments_simple() {
    let call = create_function_call(vec![
        create_node(create_argument(None, 1)),
        create_node(create_argument(None, 2)),
        create_node(create_argument(None, 3)),
    ]);

    let function = test_fn();
    let parameters = function.parameters();
    let arguments = call.resolve_arguments(&function);
    let expected: Vec<(String, Option<ResolvedArgument>)> = vec![
        ("one".to_string(), Some(create_resolved_argument(parameters[0].clone(), 1))),
        ("two".to_string(), Some(create_resolved_argument(parameters[1].clone(), 2))),
        ("three".to_string(), Some(create_resolved_argument(parameters[2].clone(), 3))),
    ];

    assert_eq!(Ok(expected), arguments);
}

#[test]
fn resolve_arguments_named() {
    let call = create_function_call(vec![
        create_node(create_argument(Some("one"), 1)),
        create_node(create_argument(Some("two"), 2)),
        create_node(create_argument(Some("three"), 3)),
    ]);

    let function = test_fn();
    let parameters = function.parameters();
    let arguments = call.resolve_arguments(&function);
    let expected: Vec<(String, Option<ResolvedArgument>)> = vec![
        ("one".to_string(), Some(create_resolved_argument(parameters[0].clone(), 1))),
        ("two".to_string(), Some(create_resolved_argument(parameters[1].clone(), 2))),
        ("three".to_string(), Some(create_resolved_argument(parameters[2].clone(), 3))),
    ];

    assert_eq!(Ok(expected), arguments);
}

#[test]
fn resolve_arguments_named_unordered() {
    let call = create_function_call(vec![
        create_node(create_argument(Some("three"), 3)),
        create_node(create_argument(Some("two"), 2)),
        create_node(create_argument(Some("one"), 1)),
    ]);

    let function = test_fn();
    let parameters = function.parameters();
    let arguments = call.resolve_arguments(&function);
    let expected: Vec<(String, Option<ResolvedArgument>)> = vec![
        ("one".to_string(), Some(create_resolved_argument(parameters[0].clone(), 1))),
        ("two".to_string(), Some(create_resolved_argument(parameters[1].clone(), 2))),
        ("three".to_string(), Some(create_resolved_argument(parameters[2].clone(), 3))),
    ];

    assert_eq!(Ok(expected), arguments);
}

#[test]
fn resolve_arguments_unnamed_unordered_one() {
    let call = create_function_call(vec![
        create_node(create_argument(Some("three"), 3)),
        create_node(create_argument(None, 2)),
        create_node(create_argument(Some("one"), 1)),
    ]);

    let function = test_fn();
    let parameters = function.parameters();
    let arguments = call.resolve_arguments(&function);
    let expected: Vec<(String, Option<ResolvedArgument>)> = vec![
        ("one".to_string(), Some(create_resolved_argument(parameters[0].clone(), 1))),
        ("two".to_string(), Some(create_resolved_argument(parameters[1].clone(), 2))),
        ("three".to_string(), Some(create_resolved_argument(parameters[2].clone(), 3))),
    ];

    assert_eq!(Ok(expected), arguments);
}

#[test]
fn resolve_arguments_unnamed_unordered_two() {
    let call = create_function_call(vec![
        create_node(create_argument(Some("three"), 3)),
        create_node(create_argument(None, 1)),
        create_node(create_argument(None, 2)),
    ]);

    let function = test_fn();
    let parameters = function.parameters();
    let arguments = call.resolve_arguments(&function);
    let expected: Vec<(String, Option<ResolvedArgument>)> = vec![
        ("one".to_string(), Some(create_resolved_argument(parameters[0].clone(), 1))),
        ("two".to_string(), Some(create_resolved_argument(parameters[1].clone(), 2))),
        ("three".to_string(), Some(create_resolved_argument(parameters[2].clone(), 3))),
    ];

    assert_eq!(Ok(expected), arguments);
}

#[test]
fn keyword_binding_is_order_independent() {
    let forward = create_function_call(vec![
        create_node(create_argument(Some("one"), 1)),
        create_node(create_argument(Some("two"), 2)),
        create_node(create_argument(Some("three"), 3)),
    ]);
    let backward = create_function_call(vec![
        create_node(create_argument(Some("three"), 3)),
        create_node(create_argument(Some("two"), 2)),
        create_node(create_argument(Some("one"), 1)),
    ]);
    let function = test_fn();
    assert_eq!(
        forward.resolve_arguments(&function),
        backward.resolve_arguments(&function)
    );
}

#[test]
fn mixed_binding_fills_next_unclaimed_slot() {
    // The unkeyed argument skips the keyword-claimed first slot and lands in
    // the second, whatever surrounds it.
    let call = create_function_call(vec![
        create_node(create_argument(Some("one"), 1)),
        create_node(create_argument(None, 2)),
    ]);
    let function = test_fn();
    let resolved = call.resolve_arguments(&function).unwrap();
    assert_eq!(resolved[0].0, "one");
    assert!(matches!(
        &resolved[1].1,
        Some(ra) if ra.expression == Expr::Literal(Literal::integer(2))
    ));
    assert!(resolved[2].1.is_none());
}

#[test]
fn too_many_arguments_never_partially_compile() {
    let result = try_function_call(vec![
        create_node(create_argument(None, 1)),
        create_node(create_argument(None, 2)),
        create_node(create_argument(None, 3)),
        create_node(create_argument(None, 4)),
    ]);
    assert!(matches!(result, Err(Error::WrongNumberOfArgs { max: 3, .. })));
}

#[test]
fn unknown_keyword_is_rejected() {
    let result = try_function_call(vec![create_node(create_argument(Some("four"), 4))]);
    assert!(matches!(result, Err(Error::UnknownKeyword { .. })));
}

#[test]
fn undefined_function_is_rejected_with_candidates() {
    let mut local = LocalEnv::new();
    let mut external = ExternalEnv::new();
    let result = FunctionCall::new(
        Span::new(0, 0),
        Node::new(Span::new(0, 4), Ident::new("tset".to_string())),
        false,
        vec![],
        &vec![test_fn()],
        &mut local,
        &mut external,
    );
    match result {
        Err(err @ Error::Undefined { .. }) => {
            assert_eq!(err.code(), 105);
            let labels = err.labels();
            assert_eq!(labels.len(), 2);
            assert_eq!(labels[0].message, "undefined function");
            assert!(labels[0].primary);
            assert_eq!(labels[1].message, "did you mean \"test\"?");
        },
        other => panic!("expected an undefined-function error, got {:?}", other),
    }
}

#[test]
fn missing_required_argument_is_rejected() {
    let function = FunctionDecl::new(
        "needs".to_string(),
        vec![Parameter::new("value".to_string(), Kind::integer(), true)],
        Expr::Noop(Noop),
    );
    let mut local = LocalEnv::new();
    let mut external = ExternalEnv::new();
    let result = FunctionCall::new(
        Span::new(0, 0),
        Node::new(Span::new(0, 0), Ident::new("needs".to_string())),
        false,
        vec![],
        &vec![function],
        &mut local,
        &mut external,
    );
    assert!(matches!(
        result,
        Err(Error::MissingArgument { position: 0, .. })
    ));
}

#[test]
fn invalid_argument_kind_is_rejected() {
    let result = try_function_call(vec![create_node(FunctionArgument::new(
        None,
        create_node(Expr::Literal(Literal::boolean(true))),
    ))]);
    match result {
        Err(err @ Error::InvalidArgumentKind { .. }) => {
            assert_eq!(err.code(), 110);
            let notes = err.notes();
            // A type guard, a fallible coercion with a default, and the
            // error-docs pointer.
            assert_eq!(notes.len(), 3);
        },
        other => panic!("expected an invalid-argument-kind error, got {:?}", other),
    }
}

#[test]
fn abort_on_infallible_call_is_rejected() {
    let mut local = LocalEnv::new();
    let mut external = ExternalEnv::new();
    let result = FunctionCall::new(
        Span::new(0, 0),
        Node::new(Span::new(0, 4), Ident::new("test".to_string())),
        true,
        vec![create_node(create_argument(None, 1))],
        &vec![test_fn()],
        &mut local,
        &mut external,
    );
    assert!(matches!(result, Err(Error::AbortInfallible { .. })));

    // The same call without the abort request compiles and is infallible.
    let call = create_function_call(vec![create_node(create_argument(None, 1))]);
    let local = LocalEnv::new();
    let external = ExternalEnv::new();
    assert!(!call.type_def((&local, &external)).is_fallible());
}

#[test]
fn partial_argument_match_makes_the_call_fallible() {
    // A hand-assembled call marked as having a partially matching argument
    // reports fallible even though its inner expression cannot fail.
    let call = FunctionCall {
        abort_on_error: false,
        expr: Box::new(Expr::Noop(Noop)),
        maybe_fallible_arguments: true,
        span: Span::new(0, 0),
        ident: "test".to_string(),
        function_id: 0,
        arguments: vec![],
    };
    let local = LocalEnv::new();
    let external = ExternalEnv::new();
    assert!(call.type_def((&local, &external)).is_fallible());

    // The flag models an argument kind that intersects its parameter's kind
    // without being contained in it.
    let broad = Kind {
        integer: true,
        bytes: true,
        ..Kind::integer()
    };
    let narrow = Kind::integer();
    assert!(narrow.intersects(&broad));
    assert!(!narrow.is_superset(&broad));
}

#[test]
fn noop_call_placeholder_is_infallible() {
    let call = FunctionCall::noop();
    let local = LocalEnv::new();
    let external = ExternalEnv::new();
    assert!(!call.type_def((&local, &external)).is_fallible());
    assert_eq!(call.arguments_fmt().len(), 0);
    assert_eq!(call.arguments_dbg().len(), 0);
}

#[test]
fn arguments_fmt_renders_the_written_call() {
    let call = create_function_call(vec![
        create_node(create_argument(Some("one"), 1)),
        create_node(create_argument(None, 2)),
    ]);
    assert_eq!(call.arguments_fmt(), vec!["one: 1".to_string(), "2".to_string()]);
    assert_eq!(
        call.arguments_dbg(),
        vec![
            "FunctionArgument(one: 1)".to_string(),
            "FunctionArgument(2)".to_string()
        ]
    );
}

#[test]
fn fallible_argument_is_rejected() {
    let fallible_expr = Expr::Unary(Unary::new(Variant::Not(Not::new(
        Span::new(5, 7),
        Expr::Literal(Literal::integer(3)),
    ))));
    let function = FunctionDecl::new(
        "flip".to_string(),
        vec![Parameter::new("value".to_string(), Kind::boolean(), true)],
        Expr::Noop(Noop),
    );
    let mut local = LocalEnv::new();
    let mut external = ExternalEnv::new();
    let result = FunctionCall::new(
        Span::new(0, 8),
        Node::new(Span::new(0, 4), Ident::new("flip".to_string())),
        false,
        vec![create_node(FunctionArgument::new(
            None,
            Node::new(Span::new(5, 7), fallible_expr),
        ))],
        &vec![function],
        &mut local,
        &mut external,
    );
    assert!(matches!(result, Err(Error::FallibleArgument { .. })));
}

#[test]
fn wrapped_compilation_errors_are_reanchored() {
    let inner = Diagnostic {
        code: 12,
        message: "inner fault".to_string(),
        labels: vec![Label::primary("inner label".to_string(), Span::new(40, 41))],
        notes: vec![],
    };
    let err = Error::Compilation { call_span: Span::new(0, 9), error: inner };
    assert_eq!(err.code(), 610);
    assert_eq!(err.message(), "function compilation error: error[E12] inner fault");
    let labels = err.labels();
    assert_eq!(labels.len(), 1);
    assert_eq!(labels[0].message, "inner label");
    // Re-anchored to the call's span, not the inner span.
    assert_eq!(labels[0].span, Span::new(0, 9));
}

#[test]
fn update_state_errors_carry_their_cause() {
    let err = Error::UpdateState {
        call_span: Span::new(0, 3),
        error: "scope overflow".to_string(),
    };
    assert_eq!(err.code(), 640);
    assert_eq!(err.message(), "error updating state scope overflow");
    assert_eq!(
        err.labels()[0].message,
        "an error occurred updating the compiler state: scope overflow"
    );
    assert_eq!(err.notes().len(), 0);
}

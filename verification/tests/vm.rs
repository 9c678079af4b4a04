use vrl_compiler::span::Span;
use vrl_compiler::parser::{Node, Ident};
use vrl_compiler::value::Value;
use vrl_compiler::kind::Kind;
use vrl_compiler::function::{Parameter, FunctionDecl};
use vrl_compiler::expression::{Expr, FunctionArgument, ExpressionError};
use vrl_compiler::expression::array::Array;
use vrl_compiler::expression::literal::Literal;
use vrl_compiler::expression::noop::Noop;
use vrl_compiler::expression::unary::{Unary, Variant, Not};
use vrl_compiler::expression::function_call::FunctionCall;
use vrl_compiler::state::{LocalEnv, ExternalEnv};
use vrl_compiler::context::Context;
use vrl_compiler::vm::{Vm, Instruction, OpCode};

fn registry() -> Vec<FunctionDecl> {
    vec![FunctionDecl::new(
        "test".to_string(),
        vec![
            Parameter::new("one".to_string(), Kind::integer(), false),
            Parameter::new("two".to_string(), Kind::integer(), false),
            Parameter::new("three".to_string(), Kind::integer(), false),
        ],
        Expr::Noop(Noop),
    )]
}

/// Compiles `expr` against the registry and runs both backends: their
/// results must agree (or both must fail recoverably).
fn round_trip(expr: &Expr) {
    let mut local = LocalEnv::new();
    let mut external = ExternalEnv::new();
    let mut vm = Vm::new(registry());
    expr.compile_to_vm(&mut vm, &mut local, &mut external).unwrap();

    let mut ctx = Context::new(Value::Null);
    let walked = expr.resolve(&mut ctx);
    let machine = vm.interpret(&mut ctx);
    match (walked, machine) {
        (Ok(a), Ok(b)) => assert_eq!(a, b),
        (Err(ExpressionError::Error { .. }), Err(ExpressionError::Error { .. })) => {},
        (a, b) => panic!("the two backends disagree: {:?} vs {:?}", a, b),
    }
}

#[test]
fn round_trip_literal() {
    round_trip(&Expr::Literal(Literal::integer(7)));
    round_trip(&Expr::Literal(Literal::string("hello")));
    round_trip(&Expr::Noop(Noop));
}

#[test]
fn round_trip_array_keeps_source_order() {
    let expr = Expr::Array(Array::from(vec![
        Expr::Literal(Literal::integer(1)),
        Expr::Literal(Literal::string("foo")),
        Expr::Literal(Literal::boolean(true)),
    ]));
    let mut local = LocalEnv::new();
    let mut external = ExternalEnv::new();
    let mut vm = Vm::new(registry());
    expr.compile_to_vm(&mut vm, &mut local, &mut external).unwrap();
    let mut ctx = Context::new(Value::Null);
    let machine = vm.interpret(&mut ctx).unwrap();
    assert_eq!(
        machine,
        Value::Array(vec![
            Value::Integer(1),
            Value::Bytes("foo".to_string()),
            Value::Boolean(true),
        ])
    );
    round_trip(&expr);
}

#[test]
fn round_trip_negation() {
    let good = Expr::Unary(Unary::new(Variant::Not(Not::new(
        Span::new(0, 1),
        Expr::Literal(Literal::boolean(false)),
    ))));
    round_trip(&good);

    let bad = Expr::Unary(Unary::new(Variant::Not(Not::new(
        Span::new(0, 1),
        Expr::Literal(Literal::integer(3)),
    ))));
    round_trip(&bad);

    // The machine anchors the negation failure at the node's span, so the
    // two backends report the very same error.
    let mut local = LocalEnv::new();
    let mut external = ExternalEnv::new();
    let mut vm = Vm::new(registry());
    bad.compile_to_vm(&mut vm, &mut local, &mut external).unwrap();
    let mut ctx = Context::new(Value::Null);
    assert_eq!(vm.interpret(&mut ctx), bad.resolve(&mut ctx));
}

#[test]
fn constant_loads_emit_opcode_and_pool_index() {
    let mut local = LocalEnv::new();
    let mut external = ExternalEnv::new();
    let mut vm = Vm::new(registry());
    Expr::Literal(Literal::integer(7))
        .compile_to_vm(&mut vm, &mut local, &mut external)
        .unwrap();
    assert_eq!(
        vm.instructions,
        vec![Instruction::Op(OpCode::Constant), Instruction::Primitive(0)]
    );
    assert_eq!(vm.constants, vec![Value::Integer(7)]);
}

#[test]
fn round_trip_function_call() {
    let mut local = LocalEnv::new();
    let mut external = ExternalEnv::new();
    let funcs = registry();
    let call = FunctionCall::new(
        Span::new(0, 9),
        Node::new(Span::new(0, 4), Ident::new("test".to_string())),
        false,
        vec![Node::new(
            Span::new(5, 6),
            FunctionArgument::new(None, Node::new(Span::new(5, 6), Expr::Literal(Literal::integer(1)))),
        )],
        &funcs,
        &mut local,
        &mut external,
    )
    .unwrap();
    let expr = Expr::FunctionCall(call);
    // One statically precomputed parameter, two empty markers, one call.
    round_trip(&expr);

    // A dynamic argument takes the compile-in-place path.
    let call2 = FunctionCall::new(
        Span::new(0, 9),
        Node::new(Span::new(0, 4), Ident::new("test".to_string())),
        false,
        vec![Node::new(
            Span::new(5, 6),
            FunctionArgument::new(
                None,
                Node::new(
                    Span::new(5, 6),
                    Expr::Unary(Unary::new(Variant::Not(Not::new(
                        Span::new(5, 6),
                        Expr::Literal(Literal::boolean(true)),
                    )))),
                ),
            ),
        )],
        &vec![FunctionDecl::new(
            "test".to_string(),
            vec![Parameter::new("one".to_string(), Kind::boolean(), false)],
            Expr::Noop(Noop),
        )],
        &mut local,
        &mut external,
    )
    .unwrap();
    let mut vm = Vm::new(vec![FunctionDecl::new(
        "test".to_string(),
        vec![Parameter::new("one".to_string(), Kind::boolean(), false)],
        Expr::Noop(Noop),
    )]);
    Expr::FunctionCall(call2)
        .compile_to_vm(&mut vm, &mut local, &mut external)
        .unwrap();
    let mut ctx = Context::new(Value::Null);
    assert_eq!(vm.interpret(&mut ctx), Ok(Value::Null));
}

#[test]
fn interpreting_an_empty_program_yields_null() {
    let vm = Vm::new(registry());
    let mut ctx = Context::new(Value::Null);
    assert_eq!(vm.interpret(&mut ctx), Ok(Value::Null));
}

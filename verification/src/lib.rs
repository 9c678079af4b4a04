//! Compiler core of a small typed expression language: a kind/type lattice,
//! expression nodes with static typing and two execution backends (a
//! tree-walking evaluator and a stack-based bytecode virtual machine), and a
//! function-call binder that validates calls against an open registry.

pub mod span;
pub mod parser;
pub mod text;
pub mod value;
pub mod kind;
pub mod type_def;
pub mod state;
pub mod context;
pub mod diagnostic;
pub mod function;
pub mod vm;
pub mod expression;

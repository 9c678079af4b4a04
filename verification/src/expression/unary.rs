use vstd::prelude::*;
use vstd::string::StringExecFns;
use crate::span::Span;
use crate::value::Value;
use crate::kind::Kind;
use crate::type_def::TypeDef;
use crate::state::{LocalEnv, ExternalEnv};
use crate::context::Context;
use crate::diagnostic::{Label, LabelV, labels_view, notes_view};
use crate::expression::{Expr, Resolved, resolved_models, eval_not, eval_unary, type_def_of_not,
    type_def_of_unary, not_operand_message, ExpressionError, expr_view};

verus! {

/// Logical negation of an inner expression.
#[derive(Debug, PartialEq)]
pub struct Not {
    pub inner: Box<Expr>,
    pub span: Span,
}

/// The unary operators. Only logical negation exists today; further
/// operators are added as new variants without touching call sites.
#[derive(Debug, PartialEq)]
pub enum Variant {
    Not(Not),
}

/// Thin dispatch wrapper over a single unary operator variant; every
/// operation delegates to the variant.
#[derive(Debug, PartialEq)]
pub struct Unary {
    pub variant: Variant,
}

impl Not {
    pub fn new(span: Span, inner: Expr) -> (n: Not)
        ensures
            n.span == span,
            *n.inner == inner,
    {
        Not { inner: Box::new(inner), span }
    }

    /// Negates a boolean operand; a non-boolean operand raises a recoverable
    /// runtime error anchored at this node's span.
    pub fn resolve(&self, ctx: &mut Context) -> (r: Resolved)
        ensures
            resolved_models(r, eval_not(self@)),
            *final(ctx) == *old(ctx),
        decreases self,
    {
        proof {
            assert(decreases_to!(*self => *self.inner));
        }
        match self.inner.resolve(ctx) {
            Ok(Value::Boolean(b)) => Ok(Value::Boolean(!b)),
            Ok(_) => {
                let message = String::from_str(
                    "the operand of logical negation must resolve to a boolean",
                );
                let label = Label::primary(message.clone(), self.span);
                let mut labels: Vec<Label> = Vec::new();
                labels.push(label);
                let notes: Vec<crate::diagnostic::Note> = Vec::new();
                proof {
                    assert(labels_view(labels) =~= seq![
                        LabelV { message: not_operand_message(), primary: true, span: self.span },
                    ]);
                    assert(notes_view(notes) =~= Seq::empty());
                }
                Err(ExpressionError::Error { message, labels, notes })
            },
            Err(e) => Err(e),
        }
    }

    /// Produces a boolean; fallible when the operand is, or when the operand
    /// is not statically known to be a boolean.
    pub fn type_def(&self, state: (&LocalEnv, &ExternalEnv)) -> (r: TypeDef)
        ensures
            r@ == type_def_of_not(self@),
        decreases self,
    {
        proof {
            assert(decreases_to!(*self => *self.inner));
        }
        let td = self.inner.type_def(state);
        let boolean = Kind::boolean();
        let fallible = td.is_fallible() || !boolean.is_superset(td.kind());
        TypeDef { fallible, abortable: td.abortable, kind: boolean }
    }
}

impl From<Not> for Variant {
    fn from(not_node: Not) -> (v: Variant) {
        Variant::Not(not_node)
    }
}

impl vstd::std_specs::convert::FromSpecImpl<Not> for Variant {
    open spec fn obeys_from_spec() -> bool {
        true
    }

    open spec fn from_spec(not_node: Not) -> Variant {
        Variant::Not(not_node)
    }
}

impl Unary {
    pub fn new(variant: Variant) -> (u: Unary)
        ensures
            u.variant == variant,
    {
        Unary { variant }
    }

    /// Delegates to the wrapped operator.
    pub fn resolve(&self, ctx: &mut Context) -> (r: Resolved)
        ensures
            resolved_models(r, eval_unary(self@)),
            *final(ctx) == *old(ctx),
        decreases self,
    {
        match &self.variant {
            Variant::Not(n) => {
                proof {
                    assert(decreases_to!(*self => self.variant));
                }
                n.resolve(ctx)
            },
        }
    }

    /// Delegates to the wrapped operator.
    pub fn type_def(&self, state: (&LocalEnv, &ExternalEnv)) -> (r: TypeDef)
        ensures
            r@ == type_def_of_unary(self@),
        decreases self,
    {
        match &self.variant {
            Variant::Not(n) => {
                proof {
                    assert(decreases_to!(*self => self.variant));
                }
                n.type_def(state)
            },
        }
    }
}

} // verus!
// Bytecode emission.
use crate::vm::{Vm, OpCode, Instruction, VmState, RunResult, vm_run, code_computes, compilable,
    well_bound, lemma_run_append, is_prefix_of, lemma_prefix_refl, lemma_prefix_trans};
use crate::value::ValueV;
use crate::function::decls_view;
use crate::expression::{ExprV, UnaryV, NotV, eval, ErrV};

verus! {

impl Not {
    /// Compiles the operand, then emits the negation opcode.
    pub fn compile_to_vm(
        &self,
        vm: &mut Vm,
        local: &mut LocalEnv,
        external: &mut ExternalEnv,
    ) -> (r: Result<(), String>)
        ensures
            final(vm).functions == old(vm).functions,
            *final(local) == *old(local),
            *final(external) == *old(external),
            is_prefix_of(old(vm).constants@, final(vm).constants@),
            is_prefix_of(old(vm).statics@, final(vm).statics@),
            is_prefix_of(old(vm).instructions@, final(vm).instructions@),
            compilable(ExprV::Unary(UnaryV::Not(self@)), decls_view(old(vm).functions))
                ==> r is Ok,
            r is Ok ==> (exists|inner_code: Seq<Instruction>|
                #![trigger inner_code.len()]
                final(vm).instructions@.skip(old(vm).instructions@.len() as int) == inner_code
                    + seq![
                    Instruction::Op(OpCode::Not),
                    Instruction::Primitive(self.span.start),
                    Instruction::Primitive(self.span.end),
                ] && (well_bound(expr_view(*self.inner), decls_view(final(vm).functions))
                    ==> code_computes(
                    inner_code,
                    final(vm).constants@,
                    final(vm).statics@,
                    decls_view(final(vm).functions),
                    expr_view(*self.inner),
                ))),
            r is Ok ==> (well_bound(ExprV::Unary(UnaryV::Not(self@)), decls_view(
                final(vm).functions,
            )) ==> code_computes(
                final(vm).instructions@.skip(old(vm).instructions@.len() as int),
                final(vm).constants@,
                final(vm).statics@,
                decls_view(final(vm).functions),
                ExprV::Unary(UnaryV::Not(self@)),
            )),
        decreases self,
    {
        let ghost n0 = vm.instructions@.len() as int;
        proof {
            assert(decreases_to!(*self => *self.inner));
        }
        match self.inner.compile_to_vm(vm, local, external) {
            Ok(()) => {},
            Err(m) => {
                return Err(m);
            },
        }
        let ghost inner_code = vm.instructions@.skip(n0);
        let ghost instrs_inner = vm.instructions@;
        vm.write_opcode(OpCode::Not);
        vm.write_primitive(self.span.start);
        vm.write_primitive(self.span.end);
        proof {
            assert(is_prefix_of(old(vm).instructions@, vm.instructions@)) by {
                assert(is_prefix_of(instrs_inner, vm.instructions@)) by {
                    assert(instrs_inner =~= vm.instructions@.subrange(
                        0,
                        instrs_inner.len() as int,
                    ));
                }
                lemma_prefix_trans(old(vm).instructions@, instrs_inner, vm.instructions@);
            }
            let code = vm.instructions@.skip(n0);
            let consts = vm.constants@;
            let statics = vm.statics@;
            let funcs = decls_view(vm.functions);
            let ev = ExprV::Unary(UnaryV::Not(self@));
            assert(code =~= inner_code + seq![
                Instruction::Op(OpCode::Not),
                Instruction::Primitive(self.span.start),
                Instruction::Primitive(self.span.end),
            ]);
            assert(inner_code.len() >= 0);
            assert(code_computes(
                inner_code,
                consts,
                statics,
                funcs,
                expr_view(*self.inner),
            ) || !well_bound(expr_view(*self.inner), funcs));
            if well_bound(ev, funcs) {
                assert(well_bound(expr_view(*self.inner), funcs));
                assert(code_computes(inner_code, consts, statics, funcs, expr_view(*self.inner)));
                assert forall|st: VmState|
                    match eval(ev) {
                        Ok(v) => #[trigger] vm_run(code, consts, statics, funcs, st)
                            == RunResult::Done(
                            VmState { stack: st.stack.push(v), params: st.params },
                        ),
                        Err(_) => vm_run(code, consts, statics, funcs, st)
                            matches RunResult::Failed(ErrV::Error { .. }),
                    } by {
                    let tail = seq![
                        Instruction::Op(OpCode::Not),
                        Instruction::Primitive(self.span.start),
                        Instruction::Primitive(self.span.end),
                    ];
                    lemma_run_append(inner_code, tail, consts, statics, funcs, st);
                    assert(*self@.inner == expr_view(*self.inner));
                    assert(eval(ev) == eval_not(self@));
                    match eval(expr_view(*self.inner)) {
                        Ok(v) => {
                            let st2 = VmState { stack: st.stack.push(v), params: st.params };
                            assert(vm_run(inner_code, consts, statics, funcs, st)
                                == RunResult::Done(st2));
                            assert(st2.stack.last() == v);
                            match v {
                                ValueV::Boolean(b) => {
                                    assert(eval(ev) == Ok::<ValueV, ErrV>(ValueV::Boolean(!b)));
                                    let st3 = VmState {
                                        stack: st2.stack.drop_last().push(ValueV::Boolean(!b)),
                                        ..st2
                                    };
                                    assert(tail.skip(3) =~= Seq::<Instruction>::empty());
                                    assert(vm_run(tail.skip(3), consts, statics, funcs, st3)
                                        == RunResult::Done(st3));
                                    assert(vm_run(tail, consts, statics, funcs, st2)
                                        == RunResult::Done(st3));
                                    assert(st2.stack.drop_last() =~= st.stack);
                                    assert(st3 =~= (VmState {
                                        stack: st.stack.push(ValueV::Boolean(!b)),
                                        params: st.params,
                                    }));
                                },
                                _ => {
                                    assert(eval(ev) is Err);
                                    assert(vm_run(tail, consts, statics, funcs, st2)
                                        matches RunResult::Failed(ErrV::Error { .. }));
                                    assert(vm_run(code, consts, statics, funcs, st)
                                        matches RunResult::Failed(ErrV::Error { .. }));
                                },
                            }
                        },
                        Err(_) => {
                            assert(eval(ev) is Err);
                            assert(vm_run(inner_code, consts, statics, funcs, st)
                                matches RunResult::Failed(ErrV::Error { .. }));
                            assert(vm_run(code, consts, statics, funcs, st)
                                matches RunResult::Failed(ErrV::Error { .. }));
                        },
                    }
                }
                assert(code_computes(code, consts, statics, funcs, ev));
            }
        }
        Ok(())
    }
}

impl Unary {
    /// Delegates to the wrapped operator.
    pub fn compile_to_vm(
        &self,
        vm: &mut Vm,
        local: &mut LocalEnv,
        external: &mut ExternalEnv,
    ) -> (r: Result<(), String>)
        ensures
            final(vm).functions == old(vm).functions,
            *final(local) == *old(local),
            *final(external) == *old(external),
            is_prefix_of(old(vm).constants@, final(vm).constants@),
            is_prefix_of(old(vm).statics@, final(vm).statics@),
            is_prefix_of(old(vm).instructions@, final(vm).instructions@),
            compilable(ExprV::Unary(self@), decls_view(old(vm).functions)) ==> r is Ok,
            r is Ok ==> (well_bound(ExprV::Unary(self@), decls_view(final(vm).functions))
                ==> code_computes(
                final(vm).instructions@.skip(old(vm).instructions@.len() as int),
                final(vm).constants@,
                final(vm).statics@,
                decls_view(final(vm).functions),
                ExprV::Unary(self@),
            )),
        decreases self,
    {
        match &self.variant {
            Variant::Not(n) => {
                proof {
                    assert(decreases_to!(*self => self.variant));
                }
                n.compile_to_vm(vm, local, external)
            },
        }
    }
}

} // verus!

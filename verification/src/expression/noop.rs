use vstd::prelude::*;
use crate::value::{Value, ValueV};
use crate::type_def::{TypeDef, TypeDefV};
use crate::kind::{KindV, empty_kind};
use crate::state::{LocalEnv, ExternalEnv};
use crate::context::Context;
use crate::expression::{Resolved, ExprV};

verus! {

/// A structurally valid placeholder that carries no computation: it stands
/// wherever an expression position must exist but nothing is to be done, so
/// downstream passes never special-case an absent node.
#[derive(Debug, Clone, Copy, PartialEq, Eq, Structural)]
pub struct Noop;

impl Noop {
    /// Always resolves to null, in every environment.
    pub fn resolve(&self, ctx: &mut Context) -> (r: Resolved)
        ensures
            r matches Ok(v) && v@ == ValueV::Null,
            *final(ctx) == *old(ctx),
    {
        Ok(Value::Null)
    }

    /// Statically null and infallible, in every environment.
    pub fn type_def(&self, _state: (&LocalEnv, &ExternalEnv)) -> (r: TypeDef)
        ensures
            r@ == (TypeDefV {
                fallible: false,
                abortable: false,
                kind: (KindV { null: true, ..empty_kind() }),
            }),
    {
        TypeDef::null()
    }
}

} // verus!

// Bytecode emission.
use crate::vm::{Vm, OpCode, Instruction, VmState, RunResult, vm_run, code_computes, is_prefix_of,
    lemma_prefix_refl};
use crate::value::value_view;
use crate::function::decls_view;

verus! {

impl Noop {
    /// Emits a single constant-load of null.
    pub fn compile_to_vm(
        &self,
        vm: &mut Vm,
        local: &mut LocalEnv,
        external: &mut ExternalEnv,
    ) -> (r: Result<(), String>)
        ensures
            final(vm).functions == old(vm).functions,
            *final(local) == *old(local),
            *final(external) == *old(external),
            is_prefix_of(old(vm).constants@, final(vm).constants@),
            is_prefix_of(old(vm).statics@, final(vm).statics@),
            is_prefix_of(old(vm).instructions@, final(vm).instructions@),
            r is Ok,
            final(vm).instructions@.skip(old(vm).instructions@.len() as int) == seq![
                Instruction::Op(OpCode::Constant),
                Instruction::Primitive(old(vm).constants@.len() as usize),
            ],
            final(vm).constants@.len() == old(vm).constants@.len() + 1,
            value_view(final(vm).constants@[old(vm).constants@.len() as int]) == ValueV::Null,
            code_computes(
                final(vm).instructions@.skip(old(vm).instructions@.len() as int),
                final(vm).constants@,
                final(vm).statics@,
                decls_view(final(vm).functions),
                ExprV::Noop,
            ),
    {
        let ghost n0 = vm.instructions@.len() as int;
        let c = vm.add_constant(Value::Null);
        vm.write_opcode(OpCode::Constant);
        vm.write_primitive(c);
        proof {
            let code = vm.instructions@.skip(n0);
            let consts = vm.constants@;
            let statics = vm.statics@;
            let funcs = decls_view(vm.functions);
            assert(code =~= seq![
                Instruction::Op(OpCode::Constant),
                Instruction::Primitive(c),
            ]);
            assert(value_view(consts[c as int]) == ValueV::Null);
            assert forall|st: VmState| #[trigger] vm_run(code, consts, statics, funcs, st)
                == RunResult::Done(
                VmState { stack: st.stack.push(ValueV::Null), params: st.params },
            ) by {
                assert(code.skip(2) =~= Seq::<Instruction>::empty());
                let st2 = VmState { stack: st.stack.push(ValueV::Null), ..st };
                assert(vm_run(code.skip(2), consts, statics, funcs, st2) == RunResult::Done(st2));
                assert(st2 =~= (VmState { stack: st.stack.push(ValueV::Null), params: st.params }));
            }
            assert(is_prefix_of(old(vm).constants@, vm.constants@)) by {
                assert(old(vm).constants@ =~= vm.constants@.subrange(
                    0,
                    old(vm).constants@.len() as int,
                ));
            }
            lemma_prefix_refl(old(vm).statics@);
            assert(is_prefix_of(old(vm).instructions@, vm.instructions@)) by {
                assert(old(vm).instructions@ =~= vm.instructions@.subrange(
                    0,
                    old(vm).instructions@.len() as int,
                ));
            }
        }
        Ok(())
    }
}

} // verus!

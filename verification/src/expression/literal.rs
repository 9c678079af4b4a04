use vstd::prelude::*;
use vstd::string::StringExecFns;
use crate::value::Value;
use crate::kind::kind_of;
use crate::type_def::TypeDef;
use crate::state::{LocalEnv, ExternalEnv};
use crate::context::Context;
use crate::expression::Resolved;
use crate::kind::kind_of_value;
use crate::type_def::TypeDefV;

verus! {

/// A constant written in the source program.
#[derive(Debug, PartialEq)]
pub struct Literal {
    pub value: Value,
}

impl Literal {
    pub fn new(value: Value) -> (l: Literal)
        ensures
            l.value == value,
    {
        Literal { value }
    }

    pub fn null() -> (l: Literal)
        ensures
            l.value == Value::Null,
    {
        Literal { value: Value::Null }
    }

    pub fn boolean(b: bool) -> (l: Literal)
        ensures
            l.value == Value::Boolean(b),
    {
        Literal { value: Value::Boolean(b) }
    }

    pub fn integer(i: i64) -> (l: Literal)
        ensures
            l.value == Value::Integer(i),
    {
        Literal { value: Value::Integer(i) }
    }

    pub fn string(s: &str) -> (l: Literal)
        ensures
            l.value matches Value::Bytes(b) && b@ == s@,
    {
        Literal { value: Value::Bytes(String::from_str(s)) }
    }

    /// A literal always resolves to its value, in every environment.
    pub fn resolve(&self, ctx: &mut Context) -> (r: Resolved)
        ensures
            r matches Ok(v) && v@ == self.value@,
            *final(ctx) == *old(ctx),
    {
        Ok(self.value.clone())
    }

    /// A literal's type is the exact kind of its value; it is infallible.
    pub fn type_def(&self, _state: (&LocalEnv, &ExternalEnv)) -> (r: TypeDef)
        ensures
            r@ == (TypeDefV {
                fallible: false,
                abortable: false,
                kind: kind_of_value(self.value@),
            }),
    {
        TypeDef::new(kind_of(&self.value))
    }

    /// A literal's value is statically known.
    pub fn as_value(&self) -> (r: Option<Value>)
        ensures
            r matches Some(v) && v@ == self.value@,
    {
        Some(self.value.clone())
    }
}

} // verus!

// Bytecode emission.
use crate::vm::{Vm, OpCode, Instruction, VmState, RunResult, vm_run, code_computes, is_prefix_of,
    lemma_prefix_refl};
use crate::value::{ValueV, value_view};
use crate::function::decls_view;
use crate::expression::ExprV;

verus! {

impl Literal {
    /// Emits a single constant-load of the literal's value.
    pub fn compile_to_vm(
        &self,
        vm: &mut Vm,
        local: &mut LocalEnv,
        external: &mut ExternalEnv,
    ) -> (r: Result<(), String>)
        ensures
            final(vm).functions == old(vm).functions,
            *final(local) == *old(local),
            *final(external) == *old(external),
            is_prefix_of(old(vm).constants@, final(vm).constants@),
            is_prefix_of(old(vm).statics@, final(vm).statics@),
            is_prefix_of(old(vm).instructions@, final(vm).instructions@),
            r is Ok,
            final(vm).instructions@.skip(old(vm).instructions@.len() as int) == seq![
                Instruction::Op(OpCode::Constant),
                Instruction::Primitive(old(vm).constants@.len() as usize),
            ],
            final(vm).constants@.len() == old(vm).constants@.len() + 1,
            value_view(final(vm).constants@[old(vm).constants@.len() as int]) == self@,
            code_computes(
                final(vm).instructions@.skip(old(vm).instructions@.len() as int),
                final(vm).constants@,
                final(vm).statics@,
                decls_view(final(vm).functions),
                ExprV::Literal(self@),
            ),
    {
        let ghost n0 = vm.instructions@.len() as int;
        let c = vm.add_constant(self.value.clone());
        vm.write_opcode(OpCode::Constant);
        vm.write_primitive(c);
        proof {
            let code = vm.instructions@.skip(n0);
            let consts = vm.constants@;
            let statics = vm.statics@;
            let funcs = decls_view(vm.functions);
            assert(code =~= seq![
                Instruction::Op(OpCode::Constant),
                Instruction::Primitive(c),
            ]);
            assert(value_view(consts[c as int]) == self@);
            assert forall|st: VmState| #[trigger] vm_run(code, consts, statics, funcs, st)
                == RunResult::Done(VmState { stack: st.stack.push(self@), params: st.params }) by {
                assert(code.skip(2) =~= Seq::<Instruction>::empty());
                let st2 = VmState { stack: st.stack.push(self@), ..st };
                assert(vm_run(code.skip(2), consts, statics, funcs, st2) == RunResult::Done(st2));
                assert(st2 =~= (VmState { stack: st.stack.push(self@), params: st.params }));
            }
            assert(is_prefix_of(old(vm).constants@, vm.constants@)) by {
                assert(old(vm).constants@ =~= vm.constants@.subrange(
                    0,
                    old(vm).constants@.len() as int,
                ));
            }
            lemma_prefix_refl(old(vm).statics@);
            assert(is_prefix_of(old(vm).instructions@, vm.instructions@)) by {
                assert(old(vm).instructions@ =~= vm.instructions@.subrange(
                    0,
                    old(vm).instructions@.len() as int,
                ));
            }
        }
        Ok(())
    }
}

} // verus!

use vstd::prelude::*;
use crate::value::{Value, ValueV, values_view};
use crate::kind::{Kind, kind_view};
use crate::type_def::TypeDef;
use crate::state::{LocalEnv, ExternalEnv};
use crate::context::Context;
use crate::expression::{Expr, ExprV, Resolved, resolved_models, eval_array, eval_elems, eval,
    exprs_view, type_def_of_array, type_def_of, elems_kinds, elems_fallible, as_value_of,
    elems_as_values, ErrV, lemma_eval_elems_err_persists, lemma_elems_as_values_none_persists};

verus! {

broadcast use vstd::std_specs::vec::axiom_vec_index_decreases, vstd::seq::group_seq_axioms;

/// An ordered sequence of child expressions, written `[a, b, c]`.
#[derive(Debug, PartialEq)]
pub struct Array {
    pub inner: Vec<Expr>,
}

impl From<Vec<Expr>> for Array {
    fn from(inner: Vec<Expr>) -> (a: Array) {
        Array { inner }
    }
}

impl vstd::std_specs::convert::FromSpecImpl<Vec<Expr>> for Array {
    open spec fn obeys_from_spec() -> bool {
        true
    }

    open spec fn from_spec(inner: Vec<Expr>) -> Array {
        Array { inner }
    }
}

impl Array {
    pub(crate) fn new(inner: Vec<Expr>) -> (a: Array)
        ensures
            a.inner == inner,
    {
        Array { inner }
    }

    /// The child expressions, in source order.
    pub fn elements(&self) -> (r: &Vec<Expr>)
        ensures
            r == &self.inner,
    {
        &self.inner
    }

    /// Evaluates the children left to right; the first failure
    /// short-circuits, so no partial array is produced.
    pub fn resolve(&self, ctx: &mut Context) -> (r: Resolved)
        ensures
            resolved_models(r, eval_array(self@)),
            *final(ctx) == *old(ctx),
        decreases self,
    {
        proof {
            assert(decreases_to!(*self => self.inner));
        }
        let mut out: Vec<Value> = Vec::new();
        proof {
            assert(values_view(out) =~= Seq::empty());
        }
        let mut i: usize = 0;
        while i < self.inner.len()
            invariant
                i <= self.inner.len(),
                out@.len() == i,
                decreases_to!(*self => self.inner),
                eval_elems(self@, i as int) == Ok::<Seq<ValueV>, ErrV>(values_view(out)),
                *ctx == *old(ctx),
            decreases self.inner.len() - i,
        {
            let ghost prev = values_view(out);
            proof {
                assert(self@[i as int] == self.inner@[i as int]@);
            }
            match self.inner[i].resolve(ctx) {
                Ok(v) => {
                    proof {
                        assert(eval(self@[i as int]) == Ok::<ValueV, ErrV>(v@));
                    }
                    out.push(v);
                    proof {
                        assert(values_view(out) =~= prev.push(out@[i as int]@));
                    }
                },
                Err(e) => {
                    proof {
                        assert(eval_elems(self@, i + 1) == Err::<Seq<ValueV>, ErrV>(e@));
                        lemma_eval_elems_err_persists(self@, i + 1, self@.len() as int);
                    }
                    return Err(e);
                },
            }
            i += 1;
        }
        let result = Value::Array(out);
        Ok(result)
    }

    /// An array literal is fallible exactly when one of its children is; its
    /// kind maps each index to the matching child's kind, in source order.
    pub fn type_def(&self, state: (&LocalEnv, &ExternalEnv)) -> (r: TypeDef)
        ensures
            r@ == type_def_of_array(self@),
        decreases self,
    {
        proof {
            assert(decreases_to!(*self => self.inner));
        }
        let mut kinds: Vec<Kind> = Vec::new();
        let mut fallible: bool = false;
        let mut i: usize = 0;
        while i < self.inner.len()
            invariant
                i <= self.inner.len(),
                kinds@.len() == i,
                decreases_to!(*self => self.inner),
                forall|j: int|
                    0 <= j < i ==> kind_view(kinds@[j]) == type_def_of(self@[j]).kind,
                fallible == elems_fallible(self@, i as int),
            decreases self.inner.len() - i,
        {
            proof {
                assert(self@[i as int] == self.inner@[i as int]@);
            }
            let td = self.inner[i].type_def(state);
            if td.is_fallible() {
                fallible = true;
            }
            let TypeDef { fallible: _, abortable: _, kind } = td;
            kinds.push(kind);
            i += 1;
        }
        let r = TypeDef::array(kinds).with_fallibility(fallible);
        proof {
            assert(r@.kind.array->Known_0 =~= elems_kinds(self@));
            assert(r@ =~= type_def_of_array(self@));
        }
        r
    }

    /// The array's statically known value, if every child's value is
    /// statically known.
    pub fn as_value(&self) -> (r: Option<Value>)
        ensures
            match r {
                Some(v) => as_value_of(ExprV::Array(self@)) == Some(v@),
                None => as_value_of(ExprV::Array(self@)) is None,
            },
        decreases self,
    {
        proof {
            assert(decreases_to!(*self => self.inner));
        }
        let mut out: Vec<Value> = Vec::new();
        proof {
            assert(values_view(out) =~= Seq::empty());
        }
        let mut i: usize = 0;
        while i < self.inner.len()
            invariant
                i <= self.inner.len(),
                out@.len() == i,
                decreases_to!(*self => self.inner),
                elems_as_values(self@, i as int) == Some(values_view(out)),
            decreases self.inner.len() - i,
        {
            let ghost prev = values_view(out);
            proof {
                assert(self@[i as int] == self.inner@[i as int]@);
            }
            match self.inner[i].as_value() {
                Some(v) => {
                    out.push(v);
                    proof {
                        assert(values_view(out) =~= prev.push(out@[i as int]@));
                    }
                },
                None => {
                    proof {
                        assert(elems_as_values(self@, i + 1) is None);
                        lemma_elems_as_values_none_persists(self@, i + 1, self@.len() as int);
                    }
                    return None;
                },
            }
            i += 1;
        }
        Some(Value::Array(out))
    }
}

} // verus!
// Bytecode emission.
use crate::vm::{Vm, OpCode, Instruction, VmState, RunResult, vm_run, code_computes, compilable,
    well_bound, all_compilable, all_well_bound, lemma_all_compilable_pointwise,
    lemma_all_well_bound_pointwise, lemma_run_append, lemma_run_extend, pushes_suffix,
    is_prefix_of, lemma_prefix_refl, lemma_prefix_trans, concat_all, lemma_concat_all_push,
    lemma_code_computes_extend};
use crate::function::{decls_view, DeclV};
use crate::expression::{lemma_eval_elems_ok, lemma_eval_elems_has_err};

verus! {

impl Array {
    /// Compiles the children in reverse declaration order — so the
    /// machine's pops reconstruct forward order — then emits one
    /// build-collection opcode followed by the element count.
    pub fn compile_to_vm(
        &self,
        vm: &mut Vm,
        local: &mut LocalEnv,
        external: &mut ExternalEnv,
    ) -> (r: Result<(), String>)
        ensures
            final(vm).functions == old(vm).functions,
            *final(local) == *old(local),
            *final(external) == *old(external),
            is_prefix_of(old(vm).constants@, final(vm).constants@),
            is_prefix_of(old(vm).statics@, final(vm).statics@),
            is_prefix_of(old(vm).instructions@, final(vm).instructions@),
            compilable(ExprV::Array(self@), decls_view(old(vm).functions)) ==> r is Ok,
            r is Ok ==> (exists|segs: Seq<Seq<Instruction>>|
                {
                    &&& segs.len() == self@.len()
                    &&& final(vm).instructions@.skip(old(vm).instructions@.len() as int)
                        == concat_all(segs, segs.len() as int) + seq![
                        Instruction::Op(OpCode::CreateArray),
                        Instruction::Primitive(self@.len() as usize),
                    ]
                    &&& (forall|t: int|
                        0 <= t < segs.len() ==> (well_bound(
                            self@[self@.len() - 1 - t],
                            decls_view(final(vm).functions),
                        ) ==> code_computes(
                            #[trigger] segs[t],
                            final(vm).constants@,
                            final(vm).statics@,
                            decls_view(final(vm).functions),
                            self@[self@.len() - 1 - t],
                        )))
                }),
            r is Ok ==> (well_bound(ExprV::Array(self@), decls_view(final(vm).functions))
                ==> code_computes(
                final(vm).instructions@.skip(old(vm).instructions@.len() as int),
                final(vm).constants@,
                final(vm).statics@,
                decls_view(final(vm).functions),
                ExprV::Array(self@),
            )),
        decreases self,
    {
        let ghost n0 = vm.instructions@.len() as int;
        let ghost av = self@;
        let ghost dv = decls_view(vm.functions);
        let n = self.inner.len();
        proof {
            assert(decreases_to!(*self => self.inner));
            assert(vm.instructions@.skip(n0) =~= Seq::<Instruction>::empty());
            assert forall|st: VmState|
                {
                    &&& ((forall|j: int|
                        n <= j < av.len() ==> (#[trigger] eval(av[j])) is Ok)
                        ==> #[trigger] vm_run(
                        vm.instructions@.skip(n0),
                        vm.constants@,
                        vm.statics@,
                        dv,
                        st,
                    ) == RunResult::Done(
                        VmState {
                            stack: st.stack + Seq::new(
                                (av.len() - n) as nat,
                                |t: int| eval(av[av.len() - 1 - t])->Ok_0,
                            ),
                            params: st.params,
                        },
                    ))
                    &&& (!(forall|j: int|
                        n <= j < av.len() ==> (#[trigger] eval(av[j])) is Ok) ==> vm_run(
                        vm.instructions@.skip(n0),
                        vm.constants@,
                        vm.statics@,
                        dv,
                        st,
                    ) matches RunResult::Failed(ErrV::Error { .. }))
                } by {
                assert(st.stack + Seq::new(
                    (av.len() - n) as nat,
                    |t: int| eval(av[av.len() - 1 - t])->Ok_0,
                ) =~= st.stack);
                assert(vm_run(vm.instructions@.skip(n0), vm.constants@, vm.statics@, dv, st)
                    == RunResult::Done(st));
                assert(RunResult::Done(st) == RunResult::Done(
                    VmState { stack: st.stack, params: st.params },
                ));
                assert(st =~= (VmState { stack: st.stack, params: st.params }));
            }
            assert(pushes_suffix(
                vm.instructions@.skip(n0),
                vm.constants@,
                vm.statics@,
                dv,
                av,
                n as int,
            ));
            lemma_prefix_refl(vm.constants@);
            lemma_prefix_refl(vm.statics@);
            lemma_prefix_refl(vm.instructions@);
            assert(vm.instructions@.skip(n0) =~= concat_all(
                Seq::<Seq<Instruction>>::empty(),
                0,
            ));
        }
        let ghost mut segs: Seq<Seq<Instruction>> = Seq::empty();
        let mut i: usize = n;
        while i > 0
            invariant
                i <= n,
                segs.len() == n - i,
                vm.instructions@.skip(n0) == concat_all(segs, segs.len() as int),
                forall|t: int|
                    0 <= t < segs.len() ==> (well_bound(av[av.len() - 1 - t], dv)
                        ==> code_computes(
                        #[trigger] segs[t],
                        vm.constants@,
                        vm.statics@,
                        dv,
                        av[av.len() - 1 - t],
                    )),
                n == self.inner@.len(),
                av == self@,
                av.len() == n,
                decreases_to!(*self => self.inner),
                vm.functions == old(vm).functions,
                dv == decls_view(vm.functions),
                *local == *old(local),
                *external == *old(external),
                is_prefix_of(old(vm).constants@, vm.constants@),
                is_prefix_of(old(vm).statics@, vm.statics@),
                is_prefix_of(old(vm).instructions@, vm.instructions@),
                n0 == old(vm).instructions@.len(),
                n0 <= vm.instructions@.len(),
                well_bound(ExprV::Array(av), dv) ==> pushes_suffix(
                    vm.instructions@.skip(n0),
                    vm.constants@,
                    vm.statics@,
                    dv,
                    av,
                    i as int,
                ),
            decreases i,
        {
            i = i - 1;
            let ghost instrs_mid = vm.instructions@;
            let ghost consts_mid = vm.constants@;
            let ghost statics_mid = vm.statics@;
            proof {
                assert(decreases_to!(self.inner => self.inner@[i as int]));
                assert(av[i as int] == self.inner@[i as int]@);
            }
            match self.inner[i].compile_to_vm(vm, local, external) {
                Ok(()) => {},
                Err(m) => {
                    proof {
                        assert(!compilable(av[i as int], dv));
                        lemma_all_compilable_pointwise(av, dv, av.len() as int);
                        lemma_prefix_trans(old(vm).constants@, consts_mid, vm.constants@);
                        lemma_prefix_trans(old(vm).statics@, statics_mid, vm.statics@);
                        lemma_prefix_trans(old(vm).instructions@, instrs_mid, vm.instructions@);
                    }
                    return Err(m);
                },
            }
            proof {
                let prev_code = instrs_mid.skip(n0);
                let child_code = vm.instructions@.skip(instrs_mid.len() as int);
                let code = vm.instructions@.skip(n0);
                let consts = vm.constants@;
                let statics = vm.statics@;
                assert(code =~= prev_code + child_code);
                assert(is_prefix_of(consts_mid, consts)) by {
                    assert(consts_mid =~= consts.subrange(0, consts_mid.len() as int));
                }
                assert(is_prefix_of(statics_mid, statics)) by {
                    assert(statics_mid =~= statics.subrange(0, statics_mid.len() as int));
                }
                lemma_prefix_trans(old(vm).constants@, consts_mid, vm.constants@);
                lemma_prefix_trans(old(vm).statics@, statics_mid, vm.statics@);
                lemma_prefix_trans(old(vm).instructions@, instrs_mid, vm.instructions@);
                let segs_pre = segs;
                segs = segs.push(child_code);
                lemma_concat_all_push(segs_pre, child_code);
                assert(code =~= concat_all(segs, segs.len() as int));
                assert forall|t: int|
                    0 <= t < segs.len() implies (well_bound(av[av.len() - 1 - t], dv)
                    ==> code_computes(
                    #[trigger] segs[t],
                    vm.constants@,
                    vm.statics@,
                    dv,
                    av[av.len() - 1 - t],
                )) by {
                    if t < segs_pre.len() {
                        assert(segs[t] == segs_pre[t]);
                        if well_bound(av[av.len() - 1 - t], dv) {
                            assert(code_computes(
                                segs_pre[t],
                                consts_mid,
                                statics_mid,
                                dv,
                                av[av.len() - 1 - t],
                            ));
                            lemma_code_computes_extend(
                                segs_pre[t],
                                consts_mid,
                                vm.constants@,
                                statics_mid,
                                vm.statics@,
                                dv,
                                av[av.len() - 1 - t],
                            );
                        }
                    } else {
                        assert(segs[t] == child_code);
                        assert(av.len() - 1 - t == i as int);
                    }
                }
                if well_bound(ExprV::Array(av), dv) {
                    lemma_all_well_bound_pointwise(av, dv, av.len() as int);
                    assert(well_bound(av[i as int], dv));
                    assert(code_computes(child_code, consts, statics, dv, av[i as int]));
                    assert(pushes_suffix(prev_code, consts_mid, statics_mid, dv, av, i + 1));
                    assert forall|st: VmState|
                        {
                            &&& ((forall|j: int|
                                i <= j < av.len() ==> (#[trigger] eval(av[j])) is Ok)
                                ==> #[trigger] vm_run(code, consts, statics, dv, st)
                                == RunResult::Done(
                                VmState {
                                    stack: st.stack + Seq::new(
                                        (av.len() - i) as nat,
                                        |t: int| eval(av[av.len() - 1 - t])->Ok_0,
                                    ),
                                    params: st.params,
                                },
                            ))
                            &&& (!(forall|j: int|
                                i <= j < av.len() ==> (#[trigger] eval(av[j])) is Ok)
                                ==> vm_run(code, consts, statics, dv, st)
                                matches RunResult::Failed(ErrV::Error { .. }))
                        } by {
                        let suffix_ok = forall|j: int|
                            i + 1 <= j < av.len() ==> (#[trigger] eval(av[j])) is Ok;
                        let pushed_prev = Seq::new(
                            (av.len() - (i + 1)) as nat,
                            |t: int| eval(av[av.len() - 1 - t])->Ok_0,
                        );
                        if suffix_ok {
                            let st2 = VmState { stack: st.stack + pushed_prev, params: st.params };
                            assert(vm_run(prev_code, consts_mid, statics_mid, dv, st)
                                == RunResult::Done(st2));
                            lemma_run_extend(
                                prev_code,
                                consts_mid,
                                consts,
                                statics_mid,
                                statics,
                                dv,
                                st,
                            );
                            lemma_run_append(prev_code, child_code, consts, statics, dv, st);
                            match eval(av[i as int]) {
                                Ok(v) => {
                                    assert(vm_run(child_code, consts, statics, dv, st2)
                                        == RunResult::Done(
                                        VmState {
                                            stack: st2.stack.push(v),
                                            params: st2.params,
                                        },
                                    ));
                                    assert(st2.stack.push(v) =~= st.stack + Seq::new(
                                        (av.len() - i) as nat,
                                        |t: int| eval(av[av.len() - 1 - t])->Ok_0,
                                    ));
                                    assert(forall|j: int|
                                        i <= j < av.len() ==> (#[trigger] eval(av[j])) is Ok);
                                },
                                Err(_) => {
                                    assert(vm_run(child_code, consts, statics, dv, st2)
                                        matches RunResult::Failed(ErrV::Error { .. }));
                                    assert(!(forall|j: int|
                                        i <= j < av.len() ==> (#[trigger] eval(av[j])) is Ok));
                                },
                            }
                        } else {
                            lemma_run_extend(
                                prev_code,
                                consts_mid,
                                consts,
                                statics_mid,
                                statics,
                                dv,
                                st,
                            );
                            lemma_run_append(prev_code, child_code, consts, statics, dv, st);
                            assert(vm_run(prev_code, consts_mid, statics_mid, dv, st)
                                matches RunResult::Failed(ErrV::Error { .. }));
                            let w = choose|j: int|
                                i + 1 <= j < av.len() && !((#[trigger] eval(av[j])) is Ok);
                            assert(i <= w < av.len() && !(eval(av[w]) is Ok));
                            assert(!(forall|j: int|
                                i <= j < av.len() ==> (#[trigger] eval(av[j])) is Ok));
                        }
                    }
                    assert(pushes_suffix(code, consts, statics, dv, av, i as int));
                }
            }
        }
        let ghost instrs_children = vm.instructions@;
        vm.write_opcode(OpCode::CreateArray);
        vm.write_primitive(n);
        proof {
            let children_code = instrs_children.skip(n0);
            assert(vm.instructions@.skip(n0) =~= concat_all(segs, segs.len() as int) + seq![
                Instruction::Op(OpCode::CreateArray),
                Instruction::Primitive(av.len() as usize),
            ]);
            let tail = seq![Instruction::Op(OpCode::CreateArray), Instruction::Primitive(n)];
            let code = vm.instructions@.skip(n0);
            let consts = vm.constants@;
            let statics = vm.statics@;
            assert(code =~= children_code + tail);
            if well_bound(ExprV::Array(av), dv) {
                assert(pushes_suffix(children_code, consts, statics, dv, av, 0));
                assert forall|st: VmState|
                    match eval(ExprV::Array(av)) {
                        Ok(v) => #[trigger] vm_run(code, consts, statics, dv, st)
                            == RunResult::Done(
                            VmState { stack: st.stack.push(v), params: st.params },
                        ),
                        Err(_) => vm_run(code, consts, statics, dv, st)
                            matches RunResult::Failed(ErrV::Error { .. }),
                    } by {
                    lemma_run_append(children_code, tail, consts, statics, dv, st);
                    let all_ok = forall|j: int|
                        0 <= j < av.len() ==> (#[trigger] eval(av[j])) is Ok;
                    if all_ok {
                        let pushed = Seq::new(
                            av.len(),
                            |t: int| eval(av[av.len() - 1 - t])->Ok_0,
                        );
                        let st2 = VmState { stack: st.stack + pushed, params: st.params };
                        assert(vm_run(children_code, consts, statics, dv, st)
                            == RunResult::Done(st2));
                        assert(st2.stack.len() >= n);
                        let popped = st2.stack.skip(st2.stack.len() - n as int);
                        assert(popped =~= pushed);
                        lemma_eval_elems_ok(av, av.len() as int);
                        let vs = eval_elems(av, av.len() as int)->Ok_0;
                        assert(pushed.reverse() =~= vs);
                        let st3 = VmState {
                            stack: st2.stack.take(st2.stack.len() - n as int).push(
                                ValueV::Array(popped.reverse()),
                            ),
                            ..st2
                        };
                        assert(tail.skip(2) =~= Seq::<Instruction>::empty());
                        assert(vm_run(tail.skip(2), consts, statics, dv, st3)
                            == RunResult::Done(st3));
                        assert(vm_run(tail, consts, statics, dv, st2) == RunResult::Done(st3));
                        assert(st2.stack.take(st2.stack.len() - n as int) =~= st.stack);
                        assert(eval(ExprV::Array(av)) == Ok::<ValueV, ErrV>(ValueV::Array(vs)));
                        assert(st3 =~= (VmState {
                            stack: st.stack.push(ValueV::Array(vs)),
                            params: st.params,
                        }));
                    } else {
                        assert(vm_run(children_code, consts, statics, dv, st)
                            matches RunResult::Failed(ErrV::Error { .. }));
                        let w = choose|j: int|
                            0 <= j < av.len() && !((#[trigger] eval(av[j])) is Ok);
                        lemma_eval_elems_has_err(av, w, av.len() as int);
                        assert(eval(ExprV::Array(av)) is Err);
                    }
                }
                assert(code_computes(code, consts, statics, dv, ExprV::Array(av)));
            }
            assert(is_prefix_of(old(vm).constants@, vm.constants@));
            assert(is_prefix_of(old(vm).statics@, vm.statics@));
            assert(is_prefix_of(old(vm).instructions@, vm.instructions@)) by {
                assert(is_prefix_of(instrs_children, vm.instructions@)) by {
                    assert(instrs_children =~= vm.instructions@.subrange(
                        0,
                        instrs_children.len() as int,
                    ));
                }
                lemma_prefix_trans(old(vm).instructions@, instrs_children, vm.instructions@);
            }
        }
        Ok(())
    }
}

} // verus!

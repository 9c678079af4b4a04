use vstd::prelude::*;
use vstd::string::StringExecFns;
use crate::span::Span;
use crate::value::{Value, ValueV, values_view, value_view};
use crate::context::Context;
use crate::function::{FunctionDecl, DeclV, decls_view};
use crate::expression::{ExprV, ErrV, ExpressionError, Resolved, eval, call_error_message,
    not_operand_message, lemma_eval_no_abort};
use crate::diagnostic::{Label, LabelV, Note, labels_view, notes_view};

verus! {

broadcast use vstd::std_specs::vec::axiom_vec_index_decreases, vstd::seq::group_seq_axioms;

/// The operation codes of the stack machine. Every compiled node leaves
/// exactly one value on the operand stack; every opcode pops a fixed number
/// of operands and pushes at most one result.
#[derive(Clone, Copy, Debug, PartialEq, Eq, Structural)]
pub enum OpCode {
    /// Pushes the constant whose pool index follows.
    Constant,
    /// Pops a boolean and pushes its negation; the two operands that follow
    /// carry the node's span so a non-boolean operand is reported against
    /// the source.
    Not,
    /// Pops the element count that follows and produces an array indexed in
    /// original source order.
    CreateArray,
    /// Pushes the static whose pool index follows onto the parameter stack.
    MoveStaticParameter,
    /// Moves the top of the operand stack onto the parameter stack.
    MoveParameter,
    /// Pushes an absent parameter, keeping positional slot alignment.
    EmptyParameter,
    /// Invokes the function whose registry index follows, consuming its
    /// declared number of parameters; the two further operands carry the
    /// call's span for error attribution.
    Call,
}

/// One cell of the instruction stream: an opcode or an inline operand.
#[derive(Clone, Copy, Debug, PartialEq, Eq, Structural)]
pub enum Instruction {
    Op(OpCode),
    Primitive(usize),
}

/// A bytecode program under construction and ready to run: the instruction
/// stream, the constant and static pools it indexes, and the function
/// registry shared with compile time — the same ordered list, unmodified.
pub struct Vm {
    pub instructions: Vec<Instruction>,
    pub constants: Vec<Value>,
    pub statics: Vec<Value>,
    pub functions: Vec<FunctionDecl>,
}

/// The views of an optional-value vector (the parameter stack).
pub open spec fn opt_values_view(v: Vec<Option<Value>>) -> Seq<Option<ValueV>> {
    Seq::new(
        v@.len(),
        |i: int|
            if 0 <= i < v@.len() {
                match v@[i] {
                    Option::Some(x) => Option::Some(value_view(x)),
                    Option::None => Option::None,
                }
            } else {
                arbitrary()
            },
    )
}

/// The machine state between instructions: the operand stack and the
/// parameter stack.
#[verifier::ext_equal]
pub struct VmState {
    pub stack: Seq<ValueV>,
    pub params: Seq<Option<ValueV>>,
}

/// How a run ends: normally, with a runtime failure, or stuck on a
/// malformed instruction stream. Code this compiler emits never gets stuck.
#[verifier::ext_equal]
pub enum RunResult {
    Done(VmState),
    Failed(ErrV),
    Stuck,
}

/// The error the machine raises when logical negation meets a non-boolean
/// operand, anchored at the span the opcode's operands carry — the same
/// error tree-walking evaluation raises.
pub open spec fn vm_not_error(span: Span) -> ErrV {
    ErrV::Error {
        message: not_operand_message(),
        labels: seq![LabelV { message: not_operand_message(), primary: true, span }],
        notes: Seq::empty(),
    }
}

/// Small-step semantics of the instruction stream, consumed from the front.
/// The stream is straight-line — there are no jumps — so the run is a fold.
pub open spec fn vm_run(
    instrs: Seq<Instruction>,
    consts: Seq<Value>,
    statics: Seq<Value>,
    funcs: Seq<DeclV>,
    st: VmState,
) -> RunResult
    decreases instrs.len(),
{
    if instrs.len() == 0 {
        RunResult::Done(st)
    } else {
        match instrs[0] {
            Instruction::Primitive(_) => RunResult::Stuck,
            Instruction::Op(op) => match op {
                OpCode::Constant => {
                    if instrs.len() >= 2 && (instrs[1] matches Instruction::Primitive(i) && i
                        < consts.len()) {
                        let i = instrs[1]->Primitive_0;
                        vm_run(
                            instrs.skip(2),
                            consts,
                            statics,
                            funcs,
                            VmState { stack: st.stack.push(value_view(consts[i as int])), ..st },
                        )
                    } else {
                        RunResult::Stuck
                    }
                },
                OpCode::Not => {
                    if instrs.len() >= 3 && (instrs[1] matches Instruction::Primitive(_)) && (
                    instrs[2] matches Instruction::Primitive(_)) && st.stack.len() >= 1 {
                        let start = instrs[1]->Primitive_0;
                        let end = instrs[2]->Primitive_0;
                        match st.stack.last() {
                            ValueV::Boolean(b) => vm_run(
                                instrs.skip(3),
                                consts,
                                statics,
                                funcs,
                                VmState {
                                    stack: st.stack.drop_last().push(ValueV::Boolean(!b)),
                                    ..st
                                },
                            ),
                            _ => RunResult::Failed(vm_not_error(Span { start, end })),
                        }
                    } else {
                        RunResult::Stuck
                    }
                },
                OpCode::CreateArray => {
                    if instrs.len() >= 2 && (instrs[1] matches Instruction::Primitive(n) && n
                        <= st.stack.len()) {
                        let n = instrs[1]->Primitive_0;
                        vm_run(
                            instrs.skip(2),
                            consts,
                            statics,
                            funcs,
                            VmState {
                                stack: st.stack.take(st.stack.len() - n).push(
                                    ValueV::Array(
                                        st.stack.skip(st.stack.len() - n).reverse(),
                                    ),
                                ),
                                ..st
                            },
                        )
                    } else {
                        RunResult::Stuck
                    }
                },
                OpCode::MoveStaticParameter => {
                    if instrs.len() >= 2 && (instrs[1] matches Instruction::Primitive(i) && i
                        < statics.len()) {
                        let i = instrs[1]->Primitive_0;
                        vm_run(
                            instrs.skip(2),
                            consts,
                            statics,
                            funcs,
                            VmState {
                                params: st.params.push(Some(value_view(statics[i as int]))),
                                ..st
                            },
                        )
                    } else {
                        RunResult::Stuck
                    }
                },
                OpCode::MoveParameter => {
                    if st.stack.len() >= 1 {
                        vm_run(
                            instrs.skip(1),
                            consts,
                            statics,
                            funcs,
                            VmState {
                                stack: st.stack.drop_last(),
                                params: st.params.push(Some(st.stack.last())),
                            },
                        )
                    } else {
                        RunResult::Stuck
                    }
                },
                OpCode::EmptyParameter => {
                    vm_run(
                        instrs.skip(1),
                        consts,
                        statics,
                        funcs,
                        VmState { params: st.params.push(None), ..st },
                    )
                },
                OpCode::Call => {
                    if instrs.len() >= 4 && (instrs[1] matches Instruction::Primitive(fid)
                        && (instrs[2] matches Instruction::Primitive(_)) && (
                    instrs[3] matches Instruction::Primitive(_)) && fid < funcs.len()
                        && funcs[fid as int].parameters.len() <= st.params.len()) {
                        let fid = instrs[1]->Primitive_0;
                        let start = instrs[2]->Primitive_0;
                        let end = instrs[3]->Primitive_0;
                        let f = funcs[fid as int];
                        let remaining = st.params.take(
                            st.params.len() - f.parameters.len(),
                        );
                        match eval(f.inner) {
                            Ok(v) => vm_run(
                                instrs.skip(4),
                                consts,
                                statics,
                                funcs,
                                VmState { stack: st.stack.push(v), params: remaining },
                            ),
                            Err(ErrV::Error { message, labels, notes }) => RunResult::Failed(
                                ErrV::Error {
                                    message: call_error_message(
                                        f.ident,
                                        Span { start, end },
                                        message,
                                    ),
                                    labels: labels.push(
                                        LabelV {
                                            message,
                                            primary: true,
                                            span: Span { start, end },
                                        },
                                    ),
                                    notes,
                                },
                            ),
                            Err(ErrV::Abort { span }) => RunResult::Failed(ErrV::Abort { span }),
                        }
                    } else {
                        RunResult::Stuck
                    }
                },
            },
        }
    }
}

/// Whether `a` is an initial segment of `b`; the pools and the
/// instruction stream only ever grow during compilation.
pub open spec fn is_prefix_of<T>(a: Seq<T>, b: Seq<T>) -> bool {
    a.len() <= b.len() && a == b.subrange(0, a.len() as int)
}

/// Initial segments compose.
pub proof fn lemma_prefix_trans<T>(a: Seq<T>, b: Seq<T>, c: Seq<T>)
    requires
        is_prefix_of(a, b),
        is_prefix_of(b, c),
    ensures
        is_prefix_of(a, c),
{
    assert(a =~= c.subrange(0, a.len() as int));
}

/// Every sequence begins itself.
pub proof fn lemma_prefix_refl<T>(a: Seq<T>)
    ensures
        is_prefix_of(a, a),
{
    assert(a =~= a.subrange(0, a.len() as int));
}

/// Sequential composition: once the first stream runs to completion or
/// fails, appending more instructions continues from there or keeps the
/// failure. (A stuck stream makes no such promise: its trailing operands
/// could be completed by what follows.)
pub proof fn lemma_run_append(
    c1: Seq<Instruction>,
    c2: Seq<Instruction>,
    consts: Seq<Value>,
    statics: Seq<Value>,
    funcs: Seq<DeclV>,
    st: VmState,
)
    ensures
        match vm_run(c1, consts, statics, funcs, st) {
            RunResult::Done(st2) => vm_run(c1 + c2, consts, statics, funcs, st) == vm_run(
                c2,
                consts,
                statics,
                funcs,
                st2,
            ),
            RunResult::Failed(e) => vm_run(c1 + c2, consts, statics, funcs, st)
                == RunResult::Failed(e),
            RunResult::Stuck => true,
        },
    decreases c1.len(), 1int,
{
    if c1.len() == 0 {
        assert(c1 + c2 =~= c2);
    } else {
        let whole = c1 + c2;
        assert(whole[0] == c1[0]);
        if c1.len() >= 2 {
            assert(whole[1] == c1[1]);
        }
        if c1.len() >= 3 {
            assert(whole[2] == c1[2]);
        }
        if c1.len() >= 4 {
            assert(whole[3] == c1[3]);
        }
        match c1[0] {
            Instruction::Primitive(_) => {},
            Instruction::Op(op) => {
                match op {
                    OpCode::Constant | OpCode::CreateArray | OpCode::MoveStaticParameter => {
                        if c1.len() >= 2 {
                            assert(c1.skip(2) + c2 =~= whole.skip(2));
                            lemma_step_2(c1, c2, consts, statics, funcs, st);
                        } else {
                            if whole.len() >= 2 {
                                assert(vm_run(c1, consts, statics, funcs, st)
                                    == RunResult::Stuck);
                            }
                        }
                    },
                    OpCode::MoveParameter | OpCode::EmptyParameter => {
                        assert(c1.skip(1) + c2 =~= whole.skip(1));
                        lemma_step_1(c1, c2, consts, statics, funcs, st);
                    },
                    OpCode::Not => {
                        if c1.len() >= 3 {
                            assert(c1.skip(3) + c2 =~= whole.skip(3));
                            lemma_step_not(c1, c2, consts, statics, funcs, st);
                        } else {
                            assert(vm_run(c1, consts, statics, funcs, st) == RunResult::Stuck);
                        }
                    },
                    OpCode::Call => {
                        if c1.len() >= 4 {
                            assert(c1.skip(4) + c2 =~= whole.skip(4));
                            lemma_step_4(c1, c2, consts, statics, funcs, st);
                        } else {
                            assert(vm_run(c1, consts, statics, funcs, st) == RunResult::Stuck);
                        }
                    },
                }
            },
        }
    }
}

proof fn lemma_step_1(
    c1: Seq<Instruction>,
    c2: Seq<Instruction>,
    consts: Seq<Value>,
    statics: Seq<Value>,
    funcs: Seq<DeclV>,
    st: VmState,
)
    requires
        c1.len() >= 1,
        c1[0] matches Instruction::Op(op) && (op == OpCode::MoveParameter || op
            == OpCode::EmptyParameter),
    ensures
        match vm_run(c1, consts, statics, funcs, st) {
            RunResult::Done(st2) => vm_run(c1 + c2, consts, statics, funcs, st) == vm_run(
                c2,
                consts,
                statics,
                funcs,
                st2,
            ),
            RunResult::Failed(e) => vm_run(c1 + c2, consts, statics, funcs, st)
                == RunResult::Failed(e),
            RunResult::Stuck => true,
        },
    decreases c1.len(), 0int,
{
    let whole = c1 + c2;
    assert(whole[0] == c1[0]);
    assert(c1.skip(1) + c2 =~= whole.skip(1));
    match c1[0]->Op_0 {
        OpCode::MoveParameter => {
            if st.stack.len() >= 1 {
                lemma_run_append(
                    c1.skip(1),
                    c2,
                    consts,
                    statics,
                    funcs,
                    VmState {
                        stack: st.stack.drop_last(),
                        params: st.params.push(Some(st.stack.last())),
                    },
                );
            }
        },
        OpCode::EmptyParameter => {
            lemma_run_append(
                c1.skip(1),
                c2,
                consts,
                statics,
                funcs,
                VmState { params: st.params.push(None), ..st },
            );
        },
        _ => {},
    }
}

proof fn lemma_step_not(
    c1: Seq<Instruction>,
    c2: Seq<Instruction>,
    consts: Seq<Value>,
    statics: Seq<Value>,
    funcs: Seq<DeclV>,
    st: VmState,
)
    requires
        c1.len() >= 3,
        c1[0] == Instruction::Op(OpCode::Not),
    ensures
        match vm_run(c1, consts, statics, funcs, st) {
            RunResult::Done(st2) => vm_run(c1 + c2, consts, statics, funcs, st) == vm_run(
                c2,
                consts,
                statics,
                funcs,
                st2,
            ),
            RunResult::Failed(e) => vm_run(c1 + c2, consts, statics, funcs, st)
                == RunResult::Failed(e),
            RunResult::Stuck => true,
        },
    decreases c1.len(), 0int,
{
    let whole = c1 + c2;
    assert(whole[0] == c1[0]);
    assert(whole[1] == c1[1]);
    assert(whole[2] == c1[2]);
    assert(c1.skip(3) + c2 =~= whole.skip(3));
    if c1[1] matches Instruction::Primitive(_) && (c1[2] matches Instruction::Primitive(_))
        && st.stack.len() >= 1 {
        match st.stack.last() {
            ValueV::Boolean(b) => {
                lemma_run_append(
                    c1.skip(3),
                    c2,
                    consts,
                    statics,
                    funcs,
                    VmState { stack: st.stack.drop_last().push(ValueV::Boolean(!b)), ..st },
                );
            },
            _ => {},
        }
    }
}

proof fn lemma_step_2(
    c1: Seq<Instruction>,
    c2: Seq<Instruction>,
    consts: Seq<Value>,
    statics: Seq<Value>,
    funcs: Seq<DeclV>,
    st: VmState,
)
    requires
        c1.len() >= 2,
        c1[0] matches Instruction::Op(op) && (op == OpCode::Constant || op == OpCode::CreateArray
            || op == OpCode::MoveStaticParameter),
    ensures
        match vm_run(c1, consts, statics, funcs, st) {
            RunResult::Done(st2) => vm_run(c1 + c2, consts, statics, funcs, st) == vm_run(
                c2,
                consts,
                statics,
                funcs,
                st2,
            ),
            RunResult::Failed(e) => vm_run(c1 + c2, consts, statics, funcs, st)
                == RunResult::Failed(e),
            RunResult::Stuck => true,
        },
    decreases c1.len(), 0int,
{
    let whole = c1 + c2;
    assert(whole[0] == c1[0]);
    assert(whole[1] == c1[1]);
    assert(c1.skip(2) + c2 =~= whole.skip(2));
    match c1[1] {
        Instruction::Primitive(arg) => {
            match c1[0]->Op_0 {
                OpCode::Constant => {
                    if arg < consts.len() {
                        lemma_run_append(
                            c1.skip(2),
                            c2,
                            consts,
                            statics,
                            funcs,
                            VmState {
                                stack: st.stack.push(value_view(consts[arg as int])),
                                ..st
                            },
                        );
                    }
                },
                OpCode::CreateArray => {
                    if arg <= st.stack.len() {
                        lemma_run_append(
                            c1.skip(2),
                            c2,
                            consts,
                            statics,
                            funcs,
                            VmState {
                                stack: st.stack.take(st.stack.len() - arg).push(
                                    ValueV::Array(
                                        st.stack.skip(st.stack.len() - arg).reverse(),
                                    ),
                                ),
                                ..st
                            },
                        );
                    }
                },
                OpCode::MoveStaticParameter => {
                    if arg < statics.len() {
                        lemma_run_append(
                            c1.skip(2),
                            c2,
                            consts,
                            statics,
                            funcs,
                            VmState {
                                params: st.params.push(Some(value_view(statics[arg as int]))),
                                ..st
                            },
                        );
                    }
                },
                _ => {},
            }
        },
        Instruction::Op(_) => {},
    }
}

proof fn lemma_step_4(
    c1: Seq<Instruction>,
    c2: Seq<Instruction>,
    consts: Seq<Value>,
    statics: Seq<Value>,
    funcs: Seq<DeclV>,
    st: VmState,
)
    requires
        c1.len() >= 4,
        c1[0] == Instruction::Op(OpCode::Call),
    ensures
        match vm_run(c1, consts, statics, funcs, st) {
            RunResult::Done(st2) => vm_run(c1 + c2, consts, statics, funcs, st) == vm_run(
                c2,
                consts,
                statics,
                funcs,
                st2,
            ),
            RunResult::Failed(e) => vm_run(c1 + c2, consts, statics, funcs, st)
                == RunResult::Failed(e),
            RunResult::Stuck => true,
        },
    decreases c1.len(), 0int,
{
    let whole = c1 + c2;
    assert(whole[0] == c1[0]);
    assert(whole[1] == c1[1]);
    assert(whole[2] == c1[2]);
    assert(whole[3] == c1[3]);
    assert(c1.skip(4) + c2 =~= whole.skip(4));
    if c1[1] matches Instruction::Primitive(fid) && (c1[2] matches Instruction::Primitive(_)) && (
    c1[3] matches Instruction::Primitive(_)) && fid < funcs.len()
        && funcs[fid as int].parameters.len() <= st.params.len() {
        let fid = c1[1]->Primitive_0;
        let f = funcs[fid as int];
        let remaining = st.params.take(st.params.len() - f.parameters.len());
        match eval(f.inner) {
            Ok(v) => {
                lemma_run_append(
                    c1.skip(4),
                    c2,
                    consts,
                    statics,
                    funcs,
                    VmState { stack: st.stack.push(v), params: remaining },
                );
            },
            Err(_) => {},
        }
    }
}

/// A non-stuck run reads only indices that exist, so growing the pools
/// changes nothing.
pub proof fn lemma_run_extend(
    code: Seq<Instruction>,
    consts: Seq<Value>,
    consts2: Seq<Value>,
    statics: Seq<Value>,
    statics2: Seq<Value>,
    funcs: Seq<DeclV>,
    st: VmState,
)
    requires
        consts.len() <= consts2.len(),
        consts2.subrange(0, consts.len() as int) == consts,
        statics.len() <= statics2.len(),
        statics2.subrange(0, statics.len() as int) == statics,
        !(vm_run(code, consts, statics, funcs, st) is Stuck),
    ensures
        vm_run(code, consts2, statics2, funcs, st) == vm_run(code, consts, statics, funcs, st),
    decreases code.len(),
{
    if code.len() == 0 {
    } else {
        match code[0] {
            Instruction::Primitive(_) => {},
            Instruction::Op(op) => {
                match op {
                    OpCode::Constant => {
                        let i = code[1]->Primitive_0;
                        assert(consts2[i as int] == consts[i as int]);
                        lemma_run_extend(
                            code.skip(2),
                            consts,
                            consts2,
                            statics,
                            statics2,
                            funcs,
                            VmState { stack: st.stack.push(value_view(consts[i as int])), ..st },
                        );
                    },
                    OpCode::Not => {
                        if code.len() >= 3 && (code[1] matches Instruction::Primitive(_)) && (
                        code[2] matches Instruction::Primitive(_)) && st.stack.len() >= 1 {
                            match st.stack.last() {
                                ValueV::Boolean(b) => {
                                    lemma_run_extend(
                                        code.skip(3),
                                        consts,
                                        consts2,
                                        statics,
                                        statics2,
                                        funcs,
                                        VmState {
                                            stack: st.stack.drop_last().push(ValueV::Boolean(!b)),
                                            ..st
                                        },
                                    );
                                },
                                _ => {},
                            }
                        }
                    },
                    OpCode::CreateArray => {
                        let n = code[1]->Primitive_0;
                        if code.len() >= 2 && (code[1] matches Instruction::Primitive(_)) && n
                            <= st.stack.len() {
                            lemma_run_extend(
                                code.skip(2),
                                consts,
                                consts2,
                                statics,
                                statics2,
                                funcs,
                                VmState {
                                    stack: st.stack.take(st.stack.len() - n).push(
                                        ValueV::Array(
                                            st.stack.skip(st.stack.len() - n).reverse(),
                                        ),
                                    ),
                                    ..st
                                },
                            );
                        }
                    },
                    OpCode::MoveStaticParameter => {
                        let i = code[1]->Primitive_0;
                        assert(statics2[i as int] == statics[i as int]);
                        lemma_run_extend(
                            code.skip(2),
                            consts,
                            consts2,
                            statics,
                            statics2,
                            funcs,
                            VmState {
                                params: st.params.push(Some(value_view(statics[i as int]))),
                                ..st
                            },
                        );
                    },
                    OpCode::MoveParameter => {
                        if st.stack.len() >= 1 {
                            lemma_run_extend(
                                code.skip(1),
                                consts,
                                consts2,
                                statics,
                                statics2,
                                funcs,
                                VmState {
                                    stack: st.stack.drop_last(),
                                    params: st.params.push(Some(st.stack.last())),
                                },
                            );
                        }
                    },
                    OpCode::EmptyParameter => {
                        lemma_run_extend(
                            code.skip(1),
                            consts,
                            consts2,
                            statics,
                            statics2,
                            funcs,
                            VmState { params: st.params.push(None), ..st },
                        );
                    },
                    OpCode::Call => {
                        if code.len() >= 4 && (code[1] matches Instruction::Primitive(fid)
                            && (code[2] matches Instruction::Primitive(_)) && (
                        code[3] matches Instruction::Primitive(_)) && fid < funcs.len()
                            && funcs[fid as int].parameters.len() <= st.params.len()) {
                            let fid = code[1]->Primitive_0;
                            let f = funcs[fid as int];
                            let remaining = st.params.take(
                                st.params.len() - f.parameters.len(),
                            );
                            match eval(f.inner) {
                                Ok(v) => {
                                    lemma_run_extend(
                                        code.skip(4),
                                        consts,
                                        consts2,
                                        statics,
                                        statics2,
                                        funcs,
                                        VmState { stack: st.stack.push(v), params: remaining },
                                    );
                                },
                                Err(_) => {},
                            }
                        }
                    },
                }
            },
        }
    }
}

/// The first `n` segments, concatenated in order: the shape of code built
/// by emitting one segment per child or per parameter slot.
pub open spec fn concat_all(segs: Seq<Seq<Instruction>>, n: int) -> Seq<Instruction>
    decreases n,
{
    if n <= 0 || n > segs.len() {
        Seq::empty()
    } else {
        concat_all(segs, n - 1) + segs[n - 1]
    }
}

proof fn lemma_concat_all_prefix(segs: Seq<Seq<Instruction>>, c: Seq<Instruction>, n: int)
    requires
        0 <= n <= segs.len(),
    ensures
        concat_all(segs.push(c), n) == concat_all(segs, n),
    decreases n,
{
    if n > 0 {
        lemma_concat_all_prefix(segs, c, n - 1);
        assert(segs.push(c)[n - 1] == segs[n - 1]);
    }
}

/// Appending one more segment appends its instructions.
pub proof fn lemma_concat_all_push(segs: Seq<Seq<Instruction>>, c: Seq<Instruction>)
    ensures
        concat_all(segs.push(c), segs.len() as int + 1) == concat_all(segs, segs.len() as int)
            + c,
{
    lemma_concat_all_prefix(segs, c, segs.len() as int);
    assert(segs.push(c)[segs.len() as int] == c);
}

/// What it means for an instruction sequence to compute an expression: from
/// every machine state, it pushes exactly the expression's value when
/// evaluation succeeds, and fails with a recoverable error when evaluation
/// fails — never getting stuck and never touching the parameter stack.
pub open spec fn code_computes(
    code: Seq<Instruction>,
    consts: Seq<Value>,
    statics: Seq<Value>,
    funcs: Seq<DeclV>,
    e: ExprV,
) -> bool {
    forall|st: VmState|
        match eval(e) {
            Ok(v) => #[trigger] vm_run(code, consts, statics, funcs, st) == RunResult::Done(
                VmState { stack: st.stack.push(v), params: st.params },
            ),
            Err(_) => vm_run(code, consts, statics, funcs, st) matches RunResult::Failed(
                ErrV::Error { .. },
            ),
        }
}

/// The shape of the code emitted for one parameter slot: a statically
/// known argument loads from the statics pool, a dynamic one is compiled in
/// place and moved over, an absent one becomes an explicit empty marker.
pub open spec fn param_segment_shape(
    seg: Seq<Instruction>,
    slot: Option<usize>,
    args: Seq<NodeV<ArgV>>,
    consts: Seq<Value>,
    statics: Seq<Value>,
    funcs: Seq<DeclV>,
) -> bool {
    match slot {
        Option::Some(ai) => (ai as int) < args.len() && (match as_value_of(
            args[ai as int].node.expr.node,
        ) {
            Option::Some(v) => exists|idx: usize|
                seg == seq![
                    Instruction::Op(OpCode::MoveStaticParameter),
                    Instruction::Primitive(idx),
                ] && (idx as int) < statics.len() && value_view(
                    #[trigger] statics[idx as int],
                ) == v,
            Option::None => exists|argcode: Seq<Instruction>|
                seg == #[trigger] (argcode + seq![Instruction::Op(OpCode::MoveParameter)]) && (
                well_bound(args[ai as int].node.expr.node, funcs) ==> code_computes(
                    argcode,
                    consts,
                    statics,
                    funcs,
                    args[ai as int].node.expr.node,
                )),
        }),
        Option::None => seg == seq![Instruction::Op(OpCode::EmptyParameter)],
    }
}

/// Growing the pools preserves a parameter segment's shape: the loaded
/// static keeps its value, and compiled-in-place code keeps what it
/// computes.
pub proof fn lemma_param_segment_shape_extend(
    seg: Seq<Instruction>,
    slot: Option<usize>,
    args: Seq<NodeV<ArgV>>,
    consts: Seq<Value>,
    consts2: Seq<Value>,
    statics: Seq<Value>,
    statics2: Seq<Value>,
    funcs: Seq<DeclV>,
)
    requires
        is_prefix_of(consts, consts2),
        is_prefix_of(statics, statics2),
        param_segment_shape(seg, slot, args, consts, statics, funcs),
    ensures
        param_segment_shape(seg, slot, args, consts2, statics2, funcs),
{
    match slot {
        Option::Some(ai) => {
            if (ai as int) < args.len() {
                match as_value_of(args[ai as int].node.expr.node) {
                    Option::Some(v) => {
                        let idx = choose|idx: usize|
                            seg == seq![
                                Instruction::Op(OpCode::MoveStaticParameter),
                                Instruction::Primitive(idx),
                            ] && (idx as int) < statics.len() && value_view(
                                #[trigger] statics[idx as int],
                            ) == v;
                        assert(statics2[idx as int] == statics[idx as int]);
                        assert(value_view(#[trigger] statics2[idx as int]) == v);
                    },
                    Option::None => {
                        let argcode = choose|argcode: Seq<Instruction>|
                            seg == #[trigger] (argcode + seq![
                                Instruction::Op(OpCode::MoveParameter),
                            ]) && (well_bound(args[ai as int].node.expr.node, funcs)
                                ==> code_computes(
                                argcode,
                                consts,
                                statics,
                                funcs,
                                args[ai as int].node.expr.node,
                            ));
                        if well_bound(args[ai as int].node.expr.node, funcs) {
                            lemma_code_computes_extend(
                                argcode,
                                consts,
                                consts2,
                                statics,
                                statics2,
                                funcs,
                                args[ai as int].node.expr.node,
                            );
                        }
                        assert(seg == (argcode + seq![Instruction::Op(OpCode::MoveParameter)]) && (
                        well_bound(args[ai as int].node.expr.node, funcs) ==> code_computes(
                            argcode,
                            consts2,
                            statics2,
                            funcs,
                            args[ai as int].node.expr.node,
                        )));
                    },
                }
            }
        },
        Option::None => {},
    }
}

/// Growing the pools preserves what a sequence computes: such a sequence is
/// never stuck, so it reads only indices that already exist.
pub proof fn lemma_code_computes_extend(
    code: Seq<Instruction>,
    consts: Seq<Value>,
    consts2: Seq<Value>,
    statics: Seq<Value>,
    statics2: Seq<Value>,
    funcs: Seq<DeclV>,
    e: ExprV,
)
    requires
        is_prefix_of(consts, consts2),
        is_prefix_of(statics, statics2),
        code_computes(code, consts, statics, funcs, e),
    ensures
        code_computes(code, consts2, statics2, funcs, e),
{
    assert forall|st: VmState|
        match eval(e) {
            Ok(v) => #[trigger] vm_run(code, consts2, statics2, funcs, st) == RunResult::Done(
                VmState { stack: st.stack.push(v), params: st.params },
            ),
            Err(_) => vm_run(code, consts2, statics2, funcs, st) matches RunResult::Failed(
                ErrV::Error { .. },
            ),
        } by {
        match eval(e) {
            Ok(v) => {
                assert(vm_run(code, consts, statics, funcs, st) == RunResult::Done(
                    VmState { stack: st.stack.push(v), params: st.params },
                ));
                lemma_run_extend(code, consts, consts2, statics, statics2, funcs, st);
            },
            Err(_) => {
                assert(vm_run(code, consts, statics, funcs, st) matches RunResult::Failed(
                    ErrV::Error { .. },
                ));
                lemma_run_extend(code, consts, consts2, statics, statics2, funcs, st);
            },
        }
    }
}

impl Vm {
    /// An empty program over the given registry.
    pub fn new(functions: Vec<FunctionDecl>) -> (r: Vm)
        ensures
            r.instructions@ == Seq::<Instruction>::empty(),
            r.constants@ == Seq::<Value>::empty(),
            r.statics@ == Seq::<Value>::empty(),
            r.functions == functions,
    {
        let r = Vm { instructions: Vec::new(), constants: Vec::new(), statics: Vec::new(), functions };
        proof {
            assert(r.instructions@ =~= Seq::<Instruction>::empty());
            assert(r.constants@ =~= Seq::<Value>::empty());
            assert(r.statics@ =~= Seq::<Value>::empty());
        }
        r
    }

    pub fn write_opcode(&mut self, op: OpCode)
        ensures
            final(self).instructions@ == old(self).instructions@.push(Instruction::Op(op)),
            final(self).constants == old(self).constants,
            final(self).statics == old(self).statics,
            final(self).functions == old(self).functions,
    {
        self.instructions.push(Instruction::Op(op));
    }

    pub fn write_primitive(&mut self, n: usize)
        ensures
            final(self).instructions@ == old(self).instructions@.push(Instruction::Primitive(n)),
            final(self).constants == old(self).constants,
            final(self).statics == old(self).statics,
            final(self).functions == old(self).functions,
    {
        self.instructions.push(Instruction::Primitive(n));
    }

    /// Adds a value to the constant pool and returns its index.
    pub fn add_constant(&mut self, v: Value) -> (r: usize)
        ensures
            final(self).constants@ == old(self).constants@.push(v),
            r == old(self).constants@.len(),
            final(self).instructions == old(self).instructions,
            final(self).statics == old(self).statics,
            final(self).functions == old(self).functions,
    {
        let r = self.constants.len();
        self.constants.push(v);
        r
    }

    /// Adds a precomputed value to the statics pool and returns its index.
    pub fn add_static(&mut self, v: Value) -> (r: usize)
        ensures
            final(self).statics@ == old(self).statics@.push(v),
            r == old(self).statics@.len(),
            final(self).instructions == old(self).instructions,
            final(self).constants == old(self).constants,
            final(self).functions == old(self).functions,
    {
        let r = self.statics.len();
        self.statics.push(v);
        r
    }

    /// The registry entry at `id`, if any.
    pub fn function(&self, id: usize) -> (r: Option<&FunctionDecl>)
        ensures
            match r {
                Some(f) => id < self.functions@.len() && *f == self.functions@[id as int],
                None => id >= self.functions@.len(),
            },
    {
        if id < self.functions.len() {
            Some(&self.functions[id])
        } else {
            None
        }
    }
}

} // verus!
// What the emitted code's guarantee is conditioned on, and when emission
// succeeds at all.
use crate::parser::NodeV;
use crate::expression::{ArgV, UnaryV, as_value_of};


verus! {

/// Whether every supplied argument of a call is fit for the machine: it
/// evaluates without error (the binder rejects statically fallible
/// arguments, so this can only fail for progressively-typed ones) and is
/// itself well bound.
pub open spec fn args_all_bound(args: Seq<NodeV<ArgV>>, funcs: Seq<DeclV>, n: int) -> bool
    decreases args, 0int, n,
{
    if n <= 0 || n > args.len() {
        true
    } else {
        args_all_bound(args, funcs, n - 1) && eval(args[n - 1].node.expr.node) is Ok && well_bound(
            args[n - 1].node.expr.node,
            funcs,
        )
    }
}

pub open spec fn all_well_bound(elems: Seq<ExprV>, funcs: Seq<DeclV>, n: int) -> bool
    decreases elems, 0int, n,
{
    if n <= 0 || n > elems.len() {
        true
    } else {
        all_well_bound(elems, funcs, n - 1) && well_bound(elems[n - 1], funcs)
    }
}

/// Whether an expression's call nodes are bound against this registry —
/// in-range index, the same inner expression the registry declares — with
/// arguments fit for the machine. The binder establishes everything here
/// for each call it builds, except that a progressively-typed argument may
/// still fail at runtime.
pub open spec fn well_bound(e: ExprV, funcs: Seq<DeclV>) -> bool
    decreases e, 1int, 0int,
{
    match e {
        ExprV::Literal(_) => true,
        ExprV::Noop => true,
        ExprV::Array(elems) => all_well_bound(elems, funcs, elems.len() as int),
        ExprV::Unary(u) => match u {
            UnaryV::Not(n) => well_bound(*n.inner, funcs),
        },
        ExprV::FunctionCall(c) => c.function_id < funcs.len() && *c.expr == funcs[c.function_id as int].inner
            && args_all_bound(c.arguments, funcs, c.arguments.len() as int),
    }
}

/// Whether every supplied argument of a call can be emitted: statically
/// precomputed, or itself emittable.
pub open spec fn args_all_compilable(args: Seq<NodeV<ArgV>>, funcs: Seq<DeclV>, n: int) -> bool
    decreases args, 0int, n,
{
    if n <= 0 || n > args.len() {
        true
    } else {
        args_all_compilable(args, funcs, n - 1) && (as_value_of(args[n - 1].node.expr.node) is Some
            || compilable(args[n - 1].node.expr.node, funcs))
    }
}

pub open spec fn all_compilable(elems: Seq<ExprV>, funcs: Seq<DeclV>, n: int) -> bool
    decreases elems, 0int, n,
{
    if n <= 0 || n > elems.len() {
        true
    } else {
        all_compilable(elems, funcs, n - 1) && compilable(elems[n - 1], funcs)
    }
}

/// A sufficient condition for emission to succeed: every call node names an
/// in-range registry entry, its arguments re-resolve against that entry's
/// schema, and every supplied argument is statically precomputed or itself
/// emittable.
pub open spec fn compilable(e: ExprV, funcs: Seq<DeclV>) -> bool
    decreases e, 1int, 0int,
{
    match e {
        ExprV::Literal(_) => true,
        ExprV::Noop => true,
        ExprV::Array(elems) => all_compilable(elems, funcs, elems.len() as int),
        ExprV::Unary(u) => match u {
            UnaryV::Not(n) => compilable(*n.inner, funcs),
        },
        ExprV::FunctionCall(c) => c.function_id < funcs.len() && crate::function::can_resolve(
            funcs[c.function_id as int].parameters,
            c.arguments,
        ) && args_all_compilable(c.arguments, funcs, c.arguments.len() as int),
    }
}

/// The element fold is elementwise compilability.
pub proof fn lemma_all_compilable_pointwise(elems: Seq<ExprV>, funcs: Seq<DeclV>, n: int)
    requires
        0 <= n <= elems.len(),
    ensures
        all_compilable(elems, funcs, n) == (forall|j: int|
            0 <= j < n ==> compilable(#[trigger] elems[j], funcs)),
    decreases n,
{
    if n > 0 {
        lemma_all_compilable_pointwise(elems, funcs, n - 1);
        if all_compilable(elems, funcs, n) {
        } else {
            if all_compilable(elems, funcs, n - 1) {
                assert(!compilable(elems[n - 1], funcs));
            } else {
                let w = choose|j: int| 0 <= j < n - 1 && !compilable(#[trigger] elems[j], funcs);
                assert(0 <= w < n && !compilable(elems[w], funcs));
            }
        }
    }
}

/// The element fold is elementwise well-boundness.
pub proof fn lemma_all_well_bound_pointwise(elems: Seq<ExprV>, funcs: Seq<DeclV>, n: int)
    requires
        0 <= n <= elems.len(),
    ensures
        all_well_bound(elems, funcs, n) == (forall|j: int|
            0 <= j < n ==> well_bound(#[trigger] elems[j], funcs)),
    decreases n,
{
    if n > 0 {
        lemma_all_well_bound_pointwise(elems, funcs, n - 1);
        if all_well_bound(elems, funcs, n) {
        } else {
            if all_well_bound(elems, funcs, n - 1) {
                assert(!well_bound(elems[n - 1], funcs));
            } else {
                let w = choose|j: int| 0 <= j < n - 1 && !well_bound(#[trigger] elems[j], funcs);
                assert(0 <= w < n && !well_bound(elems[w], funcs));
            }
        }
    }
}

/// The argument fold is elementwise fitness.
pub proof fn lemma_args_all_bound_pointwise(args: Seq<NodeV<ArgV>>, funcs: Seq<DeclV>, n: int)
    requires
        0 <= n <= args.len(),
    ensures
        args_all_bound(args, funcs, n) == (forall|j: int|
            0 <= j < n ==> (eval((#[trigger] args[j]).node.expr.node) is Ok && well_bound(
                args[j].node.expr.node,
                funcs,
            ))),
    decreases n,
{
    if n > 0 {
        lemma_args_all_bound_pointwise(args, funcs, n - 1);
        if args_all_bound(args, funcs, n) {
        } else {
            if args_all_bound(args, funcs, n - 1) {
            } else {
                let w = choose|j: int|
                    0 <= j < n - 1 && !(eval((#[trigger] args[j]).node.expr.node) is Ok
                        && well_bound(args[j].node.expr.node, funcs));
                assert(0 <= w < n && !(eval(args[w].node.expr.node) is Ok && well_bound(
                    args[w].node.expr.node,
                    funcs,
                )));
            }
        }
    }
}

/// The argument fold is elementwise emittability.
pub proof fn lemma_args_all_compilable_pointwise(
    args: Seq<NodeV<ArgV>>,
    funcs: Seq<DeclV>,
    n: int,
)
    requires
        0 <= n <= args.len(),
    ensures
        args_all_compilable(args, funcs, n) == (forall|j: int|
            0 <= j < n ==> (as_value_of((#[trigger] args[j]).node.expr.node) is Some || compilable(
                args[j].node.expr.node,
                funcs,
            ))),
    decreases n,
{
    if n > 0 {
        lemma_args_all_compilable_pointwise(args, funcs, n - 1);
        if args_all_compilable(args, funcs, n) {
        } else {
            if args_all_compilable(args, funcs, n - 1) {
            } else {
                let w = choose|j: int|
                    0 <= j < n - 1 && !(as_value_of((#[trigger] args[j]).node.expr.node) is Some
                        || compilable(args[j].node.expr.node, funcs));
                assert(0 <= w < n && !(as_value_of(args[w].node.expr.node) is Some || compilable(
                    args[w].node.expr.node,
                    funcs,
                )));
            }
        }
    }
}

/// Compiling and then running agrees with tree-walking evaluation: the
/// machine produces the very value, or fails with a recoverable error
/// exactly when evaluation does.
pub proof fn lemma_round_trip(
    code: Seq<Instruction>,
    consts: Seq<Value>,
    statics: Seq<Value>,
    funcs: Seq<DeclV>,
    e: ExprV,
)
    requires
        code_computes(code, consts, statics, funcs, e),
    ensures
        match eval(e) {
            Ok(v) => vm_run(
                code,
                consts,
                statics,
                funcs,
                VmState { stack: Seq::empty(), params: Seq::empty() },
            ) == RunResult::Done(VmState { stack: seq![v], params: Seq::empty() }),
            Err(_) => vm_run(
                code,
                consts,
                statics,
                funcs,
                VmState { stack: Seq::empty(), params: Seq::empty() },
            ) matches RunResult::Failed(ErrV::Error { .. }),
        },
{
    let st = VmState { stack: Seq::empty(), params: Seq::empty() };
    match eval(e) {
        Ok(v) => {
            assert(vm_run(code, consts, statics, funcs, st) == RunResult::Done(
                VmState { stack: st.stack.push(v), params: st.params },
            ));
            assert(st.stack.push(v) =~= seq![v]);
        },
        Err(_) => {
            assert(vm_run(code, consts, statics, funcs, st) matches RunResult::Failed(
                ErrV::Error { .. },
            ));
        },
    }
}

} // verus!
verus! {

/// What the code compiled so far for an array literal's children `i..` does:
/// from any state it pushes their values — last child deepest, as the
/// reverse-order emission leaves them — when they all evaluate, and fails
/// with a recoverable error otherwise.
pub open spec fn pushes_suffix(
    code: Seq<Instruction>,
    consts: Seq<Value>,
    statics: Seq<Value>,
    funcs: Seq<DeclV>,
    elems: Seq<ExprV>,
    i: int,
) -> bool {
    forall|st: VmState|
        {
            &&& ((forall|j: int| i <= j < elems.len() ==> (#[trigger] eval(elems[j])) is Ok)
                ==> #[trigger] vm_run(code, consts, statics, funcs, st) == RunResult::Done(
                VmState {
                    stack: st.stack + Seq::new(
                        (elems.len() - i) as nat,
                        |t: int| eval(elems[elems.len() - 1 - t])->Ok_0,
                    ),
                    params: st.params,
                },
            ))
            &&& (!(forall|j: int| i <= j < elems.len() ==> (#[trigger] eval(elems[j])) is Ok)
                ==> vm_run(code, consts, statics, funcs, st) matches RunResult::Failed(
                ErrV::Error { .. },
            ))
        }
}

} // verus!
verus! {

/// The message of the error the interpreter reports when the instruction
/// stream is malformed: an operand out of place, a pool index out of range,
/// or too few operands on a stack. Code this compiler emits never causes it.
pub open spec fn malformed_program_message() -> Seq<char> {
    "malformed bytecode program"@
}

fn malformed_program_error() -> (r: ExpressionError)
    ensures
        r@ == (ErrV::Error {
            message: malformed_program_message(),
            labels: Seq::empty(),
            notes: Seq::empty(),
        }),
{
    let labels: Vec<Label> = Vec::new();
    let notes: Vec<Note> = Vec::new();
    proof {
        assert(labels_view(labels) =~= Seq::empty());
        assert(notes_view(notes) =~= Seq::empty());
    }
    ExpressionError::Error {
        message: String::from_str("malformed bytecode program"),
        labels,
        notes,
    }
}

/// Re-anchors a recoverable error from inside a call: wraps its message
/// with the function name and call position and adds a primary label at the
/// call's span.
fn wrap_call_error(
    ident: &String,
    span: Span,
    message: String,
    labels: Vec<Label>,
    notes: Vec<Note>,
) -> (r: ExpressionError)
    ensures
        r@ == (ErrV::Error {
            message: call_error_message(ident@, span, message@),
            labels: labels_view(labels).push(
                LabelV { message: message@, primary: true, span },
            ),
            notes: notes_view(notes),
        }),
{
    let mut labels = labels;
    let ghost labels0 = labels_view(labels);
    labels.push(Label::primary(message.clone(), span));
    proof {
        assert(labels_view(labels) =~= labels0.push(
            LabelV { message: message@, primary: true, span },
        ));
    }
    let mut wrapped = String::from_str("function call error for \"");
    wrapped.append(ident.as_str());
    wrapped.append("\" at (");
    crate::text::push_dec_usize(&mut wrapped, span.start);
    wrapped.append(":");
    crate::text::push_dec_usize(&mut wrapped, span.end);
    wrapped.append("): ");
    wrapped.append(message.as_str());
    proof {
        assert(wrapped@ =~= call_error_message(ident@, span, message@));
    }
    ExpressionError::Error { message: wrapped, labels, notes }
}

impl Vm {
    /// Executes the opcode stream: the interpreter loop, a straightforward
    /// consumer of the per-opcode contracts. Returns the single value the
    /// program leaves behind (null for an empty program), the runtime error
    /// it failed with, or a diagnostic for a malformed stream.
    pub fn interpret(&self, ctx: &mut Context) -> (r: Resolved)
        ensures
            *final(ctx) == *old(ctx),
            ({
                let outcome = vm_run(
                    self.instructions@,
                    self.constants@,
                    self.statics@,
                    decls_view(self.functions),
                    VmState { stack: Seq::empty(), params: Seq::empty() },
                );
                match outcome {
                    RunResult::Done(st) => r matches Ok(v) && v@ == (if st.stack.len() > 0 {
                        st.stack.last()
                    } else {
                        ValueV::Null
                    }),
                    RunResult::Failed(e) => r matches Err(er) && er@ == e,
                    RunResult::Stuck => r matches Err(er) && er@ == (ErrV::Error {
                        message: malformed_program_message(),
                        labels: Seq::empty(),
                        notes: Seq::empty(),
                    }),
                }
            }),
    {
        let ghost consts = self.constants@;
        let ghost statics = self.statics@;
        let ghost dv = decls_view(self.functions);
        let ghost full = self.instructions@;
        let ghost init = VmState { stack: Seq::<ValueV>::empty(), params: Seq::<Option<ValueV>>::empty() };
        let ghost outcome = vm_run(full, consts, statics, dv, init);
        let mut stack: Vec<Value> = Vec::new();
        let mut params: Vec<Option<Value>> = Vec::new();
        let mut pc: usize = 0;
        proof {
            assert(values_view(stack) =~= Seq::<ValueV>::empty());
            assert(opt_values_view(params) =~= Seq::<Option<ValueV>>::empty());
            assert(full.skip(0) =~= full);
            assert(init =~= (VmState { stack: values_view(stack), params: opt_values_view(params) }));
        }
        while pc < self.instructions.len()
            invariant
                pc <= self.instructions@.len(),
                consts == self.constants@,
                statics == self.statics@,
                dv == decls_view(self.functions),
                full == self.instructions@,
                init == (VmState {
                    stack: Seq::<ValueV>::empty(),
                    params: Seq::<Option<ValueV>>::empty(),
                }),
                outcome == vm_run(full, consts, statics, dv, init),
                *ctx == *old(ctx),
                outcome == vm_run(
                    full.skip(pc as int),
                    consts,
                    statics,
                    dv,
                    VmState { stack: values_view(stack), params: opt_values_view(params) },
                ),
            decreases self.instructions@.len() - pc,
        {
            let ghost cur = full.skip(pc as int);
            let ghost stv = values_view(stack);
            let ghost pav = opt_values_view(params);
            proof {
                assert(cur[0] == full[pc as int]);
                if cur.len() >= 2 {
                    assert(cur[1] == full[pc + 1]);
                }
                if cur.len() >= 4 {
                    assert(cur[2] == full[pc + 2]);
                    assert(cur[3] == full[pc + 3]);
                }
            }
            let op = match self.instructions[pc] {
                Instruction::Op(op) => op,
                Instruction::Primitive(_) => {
                    proof {
                        assert(outcome == RunResult::Stuck);
                    }
                    return Err(malformed_program_error());
                },
            };
            match op {
                OpCode::Constant => {
                    if pc + 1 >= self.instructions.len() {
                        proof {
                        assert(outcome == RunResult::Stuck);
                    }
                    return Err(malformed_program_error());
                    }
                    let i = match self.instructions[pc + 1] {
                        Instruction::Primitive(i) => i,
                        Instruction::Op(_) => {
                            proof {
                        assert(outcome == RunResult::Stuck);
                    }
                    return Err(malformed_program_error());
                        },
                    };
                    if i >= self.constants.len() {
                        proof {
                        assert(outcome == RunResult::Stuck);
                    }
                    return Err(malformed_program_error());
                    }
                    let v = self.constants[i].clone();
                    stack.push(v);
                    pc = pc + 2;
                    proof {
                        assert(cur.skip(2) =~= full.skip(pc as int));
                        assert(values_view(stack) =~= stv.push(value_view(consts[i as int])));
                        assert(VmState {
                            stack: values_view(stack),
                            params: opt_values_view(params),
                        } =~= (VmState { stack: stv.push(value_view(consts[i as int])), ..(VmState { stack: stv, params: pav }) }));
                    }
                },
                OpCode::Not => {
                    if self.instructions.len() - pc < 3 {
                        proof {
                            assert(outcome == RunResult::Stuck);
                        }
                        return Err(malformed_program_error());
                    }
                    let start = match self.instructions[pc + 1] {
                        Instruction::Primitive(i) => i,
                        Instruction::Op(_) => {
                            proof {
                                assert(outcome == RunResult::Stuck);
                            }
                            return Err(malformed_program_error());
                        },
                    };
                    let end = match self.instructions[pc + 2] {
                        Instruction::Primitive(i) => i,
                        Instruction::Op(_) => {
                            proof {
                                assert(outcome == RunResult::Stuck);
                            }
                            return Err(malformed_program_error());
                        },
                    };
                    let top = match stack.pop() {
                        Some(v) => v,
                        None => {
                            proof {
                                assert(outcome == RunResult::Stuck);
                            }
                            return Err(malformed_program_error());
                        },
                    };
                    match top {
                        Value::Boolean(b) => {
                            stack.push(Value::Boolean(!b));
                            pc = pc + 3;
                            proof {
                                assert(cur.skip(3) =~= full.skip(pc as int));
                                assert(values_view(stack) =~= stv.drop_last().push(
                                    ValueV::Boolean(!b),
                                ));
                                assert(VmState {
                                    stack: values_view(stack),
                                    params: opt_values_view(params),
                                } =~= (VmState {
                                    stack: stv.drop_last().push(ValueV::Boolean(!b)),
                                    ..(VmState { stack: stv, params: pav })
                                }));
                            }
                        },
                        _ => {
                            proof {
                                assert(stv.last() == top@);
                                assert(!(stv.last() is Boolean));
                            }
                            let message = String::from_str(
                                "the operand of logical negation must resolve to a boolean",
                            );
                            let label = Label::primary(message.clone(), Span::new(start, end));
                            let mut labels: Vec<Label> = Vec::new();
                            labels.push(label);
                            let notes: Vec<Note> = Vec::new();
                            proof {
                                assert(labels_view(labels) =~= seq![
                                    LabelV {
                                        message: not_operand_message(),
                                        primary: true,
                                        span: Span { start, end },
                                    },
                                ]);
                                assert(notes_view(notes) =~= Seq::empty());
                            }
                            return Err(ExpressionError::Error { message, labels, notes });
                        },
                    }
                },
                OpCode::CreateArray => {
                    if pc + 1 >= self.instructions.len() {
                        proof {
                        assert(outcome == RunResult::Stuck);
                    }
                    return Err(malformed_program_error());
                    }
                    let n = match self.instructions[pc + 1] {
                        Instruction::Primitive(n) => n,
                        Instruction::Op(_) => {
                            proof {
                        assert(outcome == RunResult::Stuck);
                    }
                    return Err(malformed_program_error());
                        },
                    };
                    if n > stack.len() {
                        proof {
                        assert(outcome == RunResult::Stuck);
                    }
                    return Err(malformed_program_error());
                    }
                    let ghost len0 = stv.len() as int;
                    let ghost tailrev = stv.skip(len0 - n).reverse();
                    let mut arr: Vec<Value> = Vec::new();
                    let mut j: usize = 0;
                    proof {
                        assert(values_view(arr) =~= tailrev.take(0));
                    }
                    while j < n
                        invariant
                            j <= n,
                            n <= stv.len(),
                            stack@.len() == stv.len() - j,
                            len0 == stv.len() as int,
                            tailrev == stv.skip(len0 - n).reverse(),
                            values_view(stack) =~= stv.take(len0 - j),
                            arr@.len() == j,
                            values_view(arr) =~= tailrev.take(j as int),
                        decreases n - j,
                    {
                        let ghost stv_now = values_view(stack);
                        let v = match stack.pop() {
                            Some(v) => v,
                            None => {
                                proof {
                                    assert(false);
                                }
                                proof {
                        assert(outcome == RunResult::Stuck);
                    }
                    return Err(malformed_program_error());
                            },
                        };
                        proof {
                            assert(stv_now.last() == stv[len0 - 1 - j]);
                            assert(v@ == tailrev[j as int]);
                        }
                        arr.push(v);
                        j += 1;
                        proof {
                            assert(values_view(stack) =~= stv.take(len0 - j));
                            assert(values_view(arr) =~= tailrev.take(j as int));
                        }
                    }
                    proof {
                        assert(values_view(arr) =~= tailrev);
                    }
                    stack.push(Value::Array(arr));
                    pc = pc + 2;
                    proof {
                        assert(cur.skip(2) =~= full.skip(pc as int));
                        assert(values_view(stack) =~= stv.take(len0 - n).push(
                            ValueV::Array(tailrev),
                        ));
                        assert(VmState {
                            stack: values_view(stack),
                            params: opt_values_view(params),
                        } =~= (VmState {
                            stack: stv.take(len0 - n).push(
                                ValueV::Array(stv.skip(len0 - n).reverse()),
                            ),
                            ..(VmState { stack: stv, params: pav })
                        }));
                    }
                },
                OpCode::MoveStaticParameter => {
                    if pc + 1 >= self.instructions.len() {
                        proof {
                        assert(outcome == RunResult::Stuck);
                    }
                    return Err(malformed_program_error());
                    }
                    let i = match self.instructions[pc + 1] {
                        Instruction::Primitive(i) => i,
                        Instruction::Op(_) => {
                            proof {
                        assert(outcome == RunResult::Stuck);
                    }
                    return Err(malformed_program_error());
                        },
                    };
                    if i >= self.statics.len() {
                        proof {
                        assert(outcome == RunResult::Stuck);
                    }
                    return Err(malformed_program_error());
                    }
                    let v = self.statics[i].clone();
                    params.push(Some(v));
                    pc = pc + 2;
                    proof {
                        assert(cur.skip(2) =~= full.skip(pc as int));
                        assert(opt_values_view(params) =~= pav.push(
                            Some(value_view(statics[i as int])),
                        ));
                        assert(VmState {
                            stack: values_view(stack),
                            params: opt_values_view(params),
                        } =~= (VmState {
                            params: pav.push(Some(value_view(statics[i as int]))),
                            ..(VmState { stack: stv, params: pav })
                        }));
                    }
                },
                OpCode::MoveParameter => {
                    let top = match stack.pop() {
                        Some(v) => v,
                        None => {
                            proof {
                        assert(outcome == RunResult::Stuck);
                    }
                    return Err(malformed_program_error());
                        },
                    };
                    params.push(Some(top));
                    pc = pc + 1;
                    proof {
                        assert(cur.skip(1) =~= full.skip(pc as int));
                        assert(values_view(stack) =~= stv.drop_last());
                        assert(opt_values_view(params) =~= pav.push(Some(stv.last())));
                        assert(VmState {
                            stack: values_view(stack),
                            params: opt_values_view(params),
                        } =~= (VmState {
                            stack: stv.drop_last(),
                            params: pav.push(Some(stv.last())),
                        }));
                    }
                },
                OpCode::EmptyParameter => {
                    params.push(None);
                    pc = pc + 1;
                    proof {
                        assert(cur.skip(1) =~= full.skip(pc as int));
                        assert(opt_values_view(params) =~= pav.push(None));
                        assert(VmState {
                            stack: values_view(stack),
                            params: opt_values_view(params),
                        } =~= (VmState {
                            params: pav.push(None),
                            ..(VmState { stack: stv, params: pav })
                        }));
                    }
                },
                OpCode::Call => {
                    if self.instructions.len() - pc < 4 {
                        proof {
                        assert(outcome == RunResult::Stuck);
                    }
                    return Err(malformed_program_error());
                    }
                    let fid = match self.instructions[pc + 1] {
                        Instruction::Primitive(i) => i,
                        Instruction::Op(_) => {
                            proof {
                        assert(outcome == RunResult::Stuck);
                    }
                    return Err(malformed_program_error());
                        },
                    };
                    let start = match self.instructions[pc + 2] {
                        Instruction::Primitive(i) => i,
                        Instruction::Op(_) => {
                            proof {
                        assert(outcome == RunResult::Stuck);
                    }
                    return Err(malformed_program_error());
                        },
                    };
                    let end = match self.instructions[pc + 3] {
                        Instruction::Primitive(i) => i,
                        Instruction::Op(_) => {
                            proof {
                        assert(outcome == RunResult::Stuck);
                    }
                    return Err(malformed_program_error());
                        },
                    };
                    if fid >= self.functions.len() {
                        proof {
                        assert(outcome == RunResult::Stuck);
                    }
                    return Err(malformed_program_error());
                    }
                    let argc = self.functions[fid].parameters.len();
                    if argc > params.len() {
                        proof {
                        assert(outcome == RunResult::Stuck);
                    }
                    return Err(malformed_program_error());
                    }
                    proof {
                        assert(dv[fid as int] == self.functions@[fid as int]@);
                        assert(dv[fid as int].parameters.len() == argc);
                    }
                    params.truncate(params.len() - argc);
                    proof {
                        assert(opt_values_view(params) =~= pav.take(pav.len() - argc));
                    }
                    let res = self.functions[fid].inner.resolve(ctx);
                    proof {
                        assert(self.functions@[fid as int].inner@ == dv[fid as int].inner);
                    }
                    match res {
                        Ok(v) => {
                            stack.push(v);
                            pc = pc + 4;
                            proof {
                                assert(cur.skip(4) =~= full.skip(pc as int));
                                assert(eval(dv[fid as int].inner) == Ok::<ValueV, ErrV>(
                                    values_view(stack).last(),
                                ));
                                assert(values_view(stack) =~= stv.push(
                                    eval(dv[fid as int].inner)->Ok_0,
                                ));
                                assert(VmState {
                                    stack: values_view(stack),
                                    params: opt_values_view(params),
                                } =~= (VmState {
                                    stack: stv.push(eval(dv[fid as int].inner)->Ok_0),
                                    params: pav.take(pav.len() - argc),
                                }));
                            }
                        },
                        Err(ExpressionError::Abort { .. }) => {
                            proof {
                                lemma_eval_no_abort(dv[fid as int].inner);
                            }
                            vstd::pervasive::unreached()
                        },
                        Err(ExpressionError::Error { message, labels, notes }) => {
                            return Err(
                                wrap_call_error(
                                    &self.functions[fid].ident,
                                    Span::new(start, end),
                                    message,
                                    labels,
                                    notes,
                                ),
                            );
                        },
                    }
                },
            }
        }
        proof {
            assert(full.skip(pc as int) =~= Seq::<Instruction>::empty());
            assert(outcome == RunResult::Done(
                VmState { stack: values_view(stack), params: opt_values_view(params) },
            ));
        }
        match stack.pop() {
            Some(v) => Ok(v),
            None => Ok(Value::Null),
        }
    }
}

} // verus!

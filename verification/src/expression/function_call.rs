use vstd::prelude::*;
use vstd::string::StringExecFns;
use crate::span::Span;
use crate::parser::Node;
use crate::type_def::TypeDef;
use crate::state::{LocalEnv, ExternalEnv};
use crate::context::Context;
use crate::diagnostic::{Label, LabelV, labels_view};
use crate::text::push_dec_usize;
use crate::expression::{Expr, FunctionArgument, Resolved, resolved_models, eval, eval_call,
    call_error_message, type_def_of_call, lemma_eval_no_abort, ExpressionError, ErrV, arg_display,
    arg_debug, write_arg_display, write_arg_debug};
use crate::expression::noop::Noop;

verus! {

broadcast use vstd::std_specs::vec::axiom_vec_index_decreases, vstd::seq::group_seq_axioms;

/// A bound call: the index of its function in the registry, the inner
/// expression that the function's compile step produced for this call, the
/// call's fallibility flags, the original argument syntax (kept for display
/// and for re-resolution by the bytecode backend), and the call's span.
#[derive(Debug)]
pub struct FunctionCall {
    pub abort_on_error: bool,
    pub expr: Box<Expr>,
    pub maybe_fallible_arguments: bool,
    pub span: Span,
    pub ident: String,
    pub function_id: usize,
    pub arguments: Vec<Node<FunctionArgument>>,
}

impl PartialEq for FunctionCall {
    /// Calls compare by function identifier alone.
    fn eq(&self, other: &Self) -> (r: bool) {
        self.ident.eq(&other.ident)
    }
}

impl vstd::std_specs::cmp::PartialEqSpecImpl for FunctionCall {
    open spec fn obeys_eq_spec() -> bool {
        true
    }

    open spec fn eq_spec(&self, other: &Self) -> bool {
        self.ident@ == other.ident@
    }
}

impl FunctionCall {
    /// The identifier of the called function.
    pub fn ident(&self) -> (r: &str)
        ensures
            r@ == self.ident@,
    {
        self.ident.as_str()
    }

    /// The registry index the call was bound to.
    pub fn function_id(&self) -> (r: usize)
        ensures
            r == self.function_id,
    {
        self.function_id
    }

    /// The call's source span.
    pub fn span(&self) -> (r: Span)
        ensures
            r == self.span,
    {
        self.span
    }

    /// A call bound to nothing: it executes the no-operation placeholder.
    /// Used wherever a call position must exist but carries no computation.
    pub fn noop() -> (r: FunctionCall)
        ensures
            r@.abort_on_error == false,
            *r@.expr == crate::expression::ExprV::Noop,
            r@.maybe_fallible_arguments == false,
            r@.span == (Span { start: 0, end: 0 }),
            r@.ident == "noop"@,
            r@.function_id == 0,
            r@.arguments == Seq::<crate::parser::NodeV<crate::expression::ArgV>>::empty(),
    {
        let arguments: Vec<Node<FunctionArgument>> = Vec::new();
        let r = FunctionCall {
            abort_on_error: false,
            expr: Box::new(Expr::Noop(Noop)),
            maybe_fallible_arguments: false,
            span: Span::default(),
            ident: String::from_str("noop"),
            function_id: 0,
            arguments,
        };
        proof {
            assert(r@.arguments =~= Seq::<crate::parser::NodeV<crate::expression::ArgV>>::empty());
        }
        r
    }

    /// Source-style rendering of each supplied argument, in written order.
    pub fn arguments_fmt(&self) -> (r: Vec<String>)
        ensures
            r@.len() == self.arguments@.len(),
            forall|i: int|
                0 <= i < r@.len() ==> r@[i]@ == arg_display(self.arguments@[i].node@),
    {
        let mut out: Vec<String> = Vec::new();
        let mut i: usize = 0;
        while i < self.arguments.len()
            invariant
                i <= self.arguments.len(),
                out@.len() == i,
                forall|j: int|
                    0 <= j < i ==> out@[j]@ == arg_display(self.arguments@[j].node@),
            decreases self.arguments.len() - i,
        {
            let mut s = String::new();
            write_arg_display(&self.arguments[i].node, &mut s);
            proof {
                assert(s@ =~= arg_display(self.arguments@[i as int].node@));
            }
            out.push(s);
            i += 1;
        }
        out
    }

    /// Debugging rendering of each supplied argument, in written order.
    pub fn arguments_dbg(&self) -> (r: Vec<String>)
        ensures
            r@.len() == self.arguments@.len(),
            forall|i: int| 0 <= i < r@.len() ==> r@[i]@ == arg_debug(self.arguments@[i].node@),
    {
        let mut out: Vec<String> = Vec::new();
        let mut i: usize = 0;
        while i < self.arguments.len()
            invariant
                i <= self.arguments.len(),
                out@.len() == i,
                forall|j: int| 0 <= j < i ==> out@[j]@ == arg_debug(self.arguments@[j].node@),
            decreases self.arguments.len() - i,
        {
            let mut s = String::new();
            write_arg_debug(&self.arguments[i].node, &mut s);
            proof {
                assert(s@ =~= arg_debug(self.arguments@[i as int].node@));
            }
            out.push(s);
            i += 1;
        }
        out
    }

    /// Runs the call's inner expression. A recoverable error is re-anchored:
    /// its message is wrapped with the function name and call position and a
    /// primary label at the call's span is added. The abort signal cannot
    /// originate from a call's own inner expression; that path is a proven
    /// logic impossibility, not a silent conversion.
    pub fn resolve(&self, ctx: &mut Context) -> (r: Resolved)
        ensures
            resolved_models(r, eval_call(self@)),
            *final(ctx) == *old(ctx),
        decreases self,
    {
        proof {
            assert(decreases_to!(*self => *self.expr));
        }
        match self.expr.resolve(ctx) {
            Ok(v) => Ok(v),
            Err(ExpressionError::Abort { .. }) => {
                proof {
                    lemma_eval_no_abort((*self.expr)@);
                }
                vstd::pervasive::unreached()
            },
            Err(ExpressionError::Error { message, mut labels, notes }) => {
                let ghost labels0 = labels_view(labels);
                labels.push(Label::primary(message.clone(), self.span));
                proof {
                    assert(labels_view(labels) =~= labels0.push(
                        LabelV { message: message@, primary: true, span: self.span },
                    ));
                }
                let mut wrapped = String::from_str("function call error for \"");
                wrapped.append(self.ident.as_str());
                wrapped.append("\" at (");
                push_dec_usize(&mut wrapped, self.span.start);
                wrapped.append(":");
                push_dec_usize(&mut wrapped, self.span.end);
                wrapped.append("): ");
                wrapped.append(message.as_str());
                proof {
                    assert(wrapped@ =~= call_error_message(self.ident@, self.span, message@));
                }
                Err(ExpressionError::Error { message: wrapped, labels, notes })
            },
        }
    }

    /// The call's type: its inner expression's, made fallible when an
    /// argument only partially matched its parameter, with requested abort
    /// semantics replacing ordinary fallibility.
    pub fn type_def(&self, state: (&LocalEnv, &ExternalEnv)) -> (r: TypeDef)
        ensures
            r@ == type_def_of_call(self@),
        decreases self,
    {
        proof {
            assert(decreases_to!(*self => *self.expr));
        }
        let mut td = self.expr.type_def(state);
        if self.maybe_fallible_arguments {
            td = td.with_fallibility(true);
        }
        if self.abort_on_error {
            td = td.with_fallibility(false).abortable();
        }
        td
    }
}

} // verus!
// The compile-time failures of binding a call, and the binder itself.
use crate::parser::{Ident, NodeV};
use crate::kind::Kind;
use crate::diagnostic::Diagnostic;
use crate::state::SideChannel;
use crate::kind::kind_view;
use crate::function::{Parameter, FunctionDecl, FunctionCompileContext, ArgumentList, decls_view,
    params_view, find_func, find_param, cursor_after, slot_of, check_arg, ArgCheck, first_bad_arg,
    any_partial, claimed_upto, first_missing, new_outcome, NewOutcome, find_function_index,
    find_param_index, keywords_of, lemma_first_bad_skip, lemma_first_missing_skip, DeclV};
use crate::expression::{ArgV, format_arguments, type_def_of, args_view, arg_view, expr_view,
    call_view, args_display_join};

verus! {

/// Why binding a call failed. Every variant carries exactly the data a
/// source-anchored diagnostic needs; all are terminal, no partial program
/// is ever produced.
#[derive(Debug, PartialEq)]
pub enum Error {
    /// The identifier names no registered function; `idents` lists every
    /// candidate so a near-miss can be suggested.
    Undefined { ident_span: Span, ident: Ident, idents: Vec<String> },
    /// More arguments than declared parameters.
    WrongNumberOfArgs { arguments_span: Span, max: usize },
    /// A keyword argument names no parameter; `keywords` lists the valid
    /// set.
    UnknownKeyword { keyword_span: Span, ident_span: Span, keywords: Vec<String> },
    /// A required parameter was never bound.
    MissingArgument { call_span: Span, keyword: String, position: usize },
    /// The function's own compile hook failed; its diagnostic is preserved
    /// and re-anchored to the call's span.
    Compilation { call_span: Span, error: Diagnostic },
    /// Abort semantics were requested on a statically infallible call.
    AbortInfallible { ident_span: Span, abort_span: Span },
    /// An argument's kind does not intersect its parameter's.
    InvalidArgumentKind {
        function_ident: String,
        abort_on_error: bool,
        arguments_fmt: Vec<String>,
        parameter: Parameter,
        got: Kind,
        argument: FunctionArgument,
        argument_span: Span,
    },
    /// An argument can itself fail at runtime; the caller must handle that
    /// before passing it in.
    FallibleArgument { expr_span: Span },
    /// Propagating the compiled expression's bindings failed.
    UpdateState { call_span: Span, error: String },
}

impl FunctionCall {
    /// Validates and binds a call against the registry: looks the
    /// identifier up, checks arity, binds each supplied argument to a
    /// parameter slot (unkeyed arguments fill the positional cursor, keyed
    /// ones the parameter with that keyword, the cursor advancing past a
    /// keyed parameter that sits on it), type-checks every argument against
    /// its parameter, checks required parameters are bound, instantiates
    /// the function's inner expression through its compile hook (lending it
    /// the side-channel), rejects requested abort semantics on a statically
    /// infallible call, propagates state updates, and captures the
    /// function's registry index for dispatch.
    pub fn new(
        call_span: Span,
        ident: Node<Ident>,
        abort_on_error: bool,
        arguments: Vec<Node<FunctionArgument>>,
        funcs: &Vec<FunctionDecl>,
        local: &mut LocalEnv,
        external: &mut ExternalEnv,
    ) -> (r: Result<FunctionCall, Error>)
        requires
            ident.span.end < usize::MAX,
        ensures
            *final(local) == *old(local),
            final(external).side_channel() == old(external).side_channel(),
            ({
                let dv = decls_view(*funcs);
                let av = args_view(arguments);
                let outcome = new_outcome(dv, ident.node@, abort_on_error, av);
                &&& (outcome is Undefined ==> (r matches Err(Error::Undefined {
                    ident_span,
                    ident: bad,
                    idents,
                }) && ident_span == ident.span && bad@ == ident.node@ && idents@.len() == dv.len()
                    && (forall|i: int|
                    0 <= i < idents@.len() ==> idents@[i]@ == (#[trigger] dv[i]).ident)))
                &&& (outcome is TooManyArguments ==> (find_func(dv, ident.node@, 0)
                    matches Some(fid) && (r matches Err(Error::WrongNumberOfArgs {
                    arguments_span,
                    max,
                }) && max == dv[fid].parameters.len() && arguments_span.start == av[0].span.start
                    && arguments_span.end == av[av.len() - 1].span.end)))
                &&& (outcome matches NewOutcome::BadArgument { at } ==> (find_func(
                    dv,
                    ident.node@,
                    0,
                ) matches Some(fid) && {
                    let params = dv[fid].parameters;
                    match check_arg(params, av, at) {
                        ArgCheck::UnknownKeyword => r matches Err(Error::UnknownKeyword {
                            keyword_span,
                            ident_span,
                            keywords,
                        }) && (av[at].node.ident matches Some(idn) && keyword_span == idn.span)
                            && ident_span == ident.span && keywords@.len() == params.len() && (
                        forall|i: int|
                            0 <= i < keywords@.len() ==> keywords@[i]@ == (#[trigger] params[i]).keyword),
                        ArgCheck::InvalidKind { slot } => r matches Err(
                            Error::InvalidArgumentKind {
                                function_ident,
                                abort_on_error: aoe,
                                arguments_fmt,
                                parameter,
                                got,
                                argument,
                                argument_span,
                            },
                        ) && function_ident@ == dv[fid].ident && aoe == abort_on_error
                            && arguments_fmt@.len() == av.len() && (forall|i: int|
                            0 <= i < av.len() ==> arguments_fmt@[i]@ == arg_display(
                                (#[trigger] av[i]).node,
                            )) && parameter@ == params[slot] && got@ == type_def_of(
                            av[at].node.expr.node,
                        ).kind && argument@ == av[at].node && argument_span == av[at].span,
                        ArgCheck::FallibleArgument { .. } => r matches Err(
                            Error::FallibleArgument { expr_span },
                        ) && expr_span == av[at].node.expr.span,
                        ArgCheck::Accept { .. } => false,
                    }
                }))
                &&& (outcome matches NewOutcome::MissingArgument { at } ==> (find_func(
                    dv,
                    ident.node@,
                    0,
                ) matches Some(fid) && (r matches Err(Error::MissingArgument {
                    call_span: cs,
                    keyword,
                    position,
                }) && cs == call_span && position == at && keyword@
                    == dv[fid].parameters[at].keyword)))
                &&& (outcome is AbortInfallible ==> (r matches Err(Error::AbortInfallible {
                    ident_span,
                    abort_span,
                }) && ident_span == ident.span && abort_span == (Span {
                    start: ident.span.end,
                    end: (ident.span.end + 1) as usize,
                })))
                &&& (outcome is Success ==> (find_func(dv, ident.node@, 0) matches Some(fid) && (r
                    matches Ok(call) && call@.abort_on_error == abort_on_error && *call@.expr
                    == dv[fid].inner && call@.maybe_fallible_arguments == any_partial(
                    dv[fid].parameters,
                    av,
                    av.len() as int,
                ) && call@.span == call_span && call@.ident == dv[fid].ident && call@.function_id
                    == fid && call@.arguments == av)))
            }),
    {
        let ghost dv = decls_view(*funcs);
        let ghost av = args_view(arguments);
        let ghost identv = ident.node@;
        let (ident_span, ident_inner) = ident.take();

        // Look the identifier up in the registry.
        let fid = match find_function_index(funcs, &ident_inner.name) {
            Some(f) => f,
            None => {
                let mut idents: Vec<String> = Vec::new();
                let mut i: usize = 0;
                while i < funcs.len()
                    invariant
                        i <= funcs@.len(),
                        idents@.len() == i,
                        forall|j: int|
                            0 <= j < i ==> idents@[j]@ == (#[trigger] decls_view(*funcs)[j]).ident,
                    decreases funcs@.len() - i,
                {
                    let name = funcs[i].ident.clone();
                    idents.push(name);
                    i += 1;
                }
                return Err(Error::Undefined { ident_span, ident: ident_inner, idents });
            },
        };
        let function = &funcs[fid];
        let ghost pv = params_view(function.parameters);
        proof {
            assert(*function == funcs@[fid as int]);
            assert(dv[fid as int] == funcs@[fid as int]@);
            assert(pv == dv[fid as int].parameters);
        }

        // Check arity.
        if arguments.len() > function.parameters.len() {
            let first = arguments[0].span.start;
            let last = arguments[arguments.len() - 1].span.end;
            proof {
                assert(av[0].span == arguments@[0].span);
                assert(av[av.len() - 1].span == arguments@[arguments@.len() - 1].span);
            }
            return Err(
                Error::WrongNumberOfArgs {
                    arguments_span: Span::new(first, last),
                    max: function.parameters.len(),
                },
            );
        }

        // Bind and type-check each supplied argument in written order.
        let mut index: usize = 0;
        let mut list = ArgumentList::new();
        let mut maybe_fallible_arguments = false;
        let mut k: usize = 0;
        while k < arguments.len()
            invariant
                k <= arguments@.len(),
                arguments@.len() <= pv.len(),
                fid < funcs@.len(),
                *function == funcs@[fid as int],
                dv == decls_view(*funcs),
                av == args_view(arguments),
                pv == params_view(function.parameters),
                pv == dv[fid as int].parameters,
                av.len() == arguments@.len(),
                identv == ident.node@,
                ident_span == ident.span,
                find_func(dv, identv, 0) == Some(fid as int),
                index <= k,
                index as int == cursor_after(pv, av, k as int),
                forall|j: int|
                    0 <= j < k ==> #[trigger] check_arg(pv, av, j) matches ArgCheck::Accept { .. },
                maybe_fallible_arguments == any_partial(pv, av, k as int),
                forall|p: int|
                    0 <= p < pv.len() ==> (list.contains_kw((#[trigger] pv[p]).keyword)
                        == claimed_upto(pv, av, k as int, pv[p].keyword)),
                *local == *old(local),
                external.side_channel() == old(external).side_channel(),
            decreases arguments@.len() - k,
        {
            let arg_node_span = arguments[k].span;
            let arg = &arguments[k].node;
            proof {
                assert(av[k as int] == (NodeV { span: arguments@[k as int].span, node: arg_view(
                    arguments@[k as int].node,
                ) }));
                assert(av[k as int].node == arg_view(*arg));
            }
            let slot: usize = match &arg.ident {
                None => {
                    let s = index;
                    index = index + 1;
                    proof {
                        assert(av[k as int].node.ident is None);
                        assert(slot_of(pv, av, k as int) == Some(s as int));
                        assert(cursor_after(pv, av, k + 1) == index);
                    }
                    s
                },
                Some(idn) => {
                    match find_param_index(&function.parameters, &idn.node.name) {
                        Some(p) => {
                            proof {
                                assert(av[k as int].node.ident matches Some(nn) && nn.node
                                    == idn.node@ && nn.span == idn.span);
                                assert(slot_of(pv, av, k as int) == Some(p as int));
                            }
                            if p == index {
                                index = index + 1;
                            }
                            proof {
                                assert(cursor_after(pv, av, k + 1) == index);
                            }
                            p
                        },
                        None => {
                            proof {
                                assert(av[k as int].node.ident matches Some(nn) && nn.node
                                    == idn.node@ && nn.span == idn.span);
                                assert(slot_of(pv, av, k as int) is None);
                                assert(check_arg(pv, av, k as int) is UnknownKeyword);
                                lemma_first_bad_skip(pv, av, k as int);
                                assert(first_bad_arg(pv, av, 0) == Some(k as int));
                            }
                            let keywords = keywords_of(&function.parameters);
                            proof {
                                assert(new_outcome(dv, identv, abort_on_error, av)
                                    == (NewOutcome::BadArgument { at: k as int }));
                                assert(keywords@.len() == dv[fid as int].parameters.len());
                                assert forall|i: int|
                                    0 <= i < keywords@.len() implies keywords@[i]@ == (
                                #[trigger] dv[fid as int].parameters[i]).keyword by {
                                    assert(keywords@[i]@ == params_view(
                                        function.parameters,
                                    )[i].keyword);
                                }
                            }
                            return Err(
                                Error::UnknownKeyword { keyword_span: idn.span, ident_span, keywords },
                            );
                        },
                    }
                },
            };
            proof {
                assert(slot_of(pv, av, k as int) == Some(slot as int));
                assert(slot < pv.len());
            }
            let param = &function.parameters[slot];
            proof {
                assert(param@ == pv[slot as int]);
                assert(av[k as int].node.expr.node == expr_view(arguments@[k as int].node.expr.node));
            }
            let td = arg.expr.node.type_def((&*local, &*external));
            let TypeDef { fallible: td_fallible, abortable: _, kind: td_kind } = td;
            if !param.kind.intersects(&td_kind) {
                proof {
                    assert(check_arg(pv, av, k as int) == (ArgCheck::InvalidKind {
                        slot: slot as int,
                    }));
                    lemma_first_bad_skip(pv, av, k as int);
                    assert(first_bad_arg(pv, av, 0) == Some(k as int));
                }
                let fmt = format_arguments(&arguments);
                proof {
                    assert(new_outcome(dv, identv, abort_on_error, av)
                        == (NewOutcome::BadArgument { at: k as int }));
                    assert(fmt@.len() == av.len());
                    assert forall|i: int|
                        0 <= i < av.len() implies fmt@[i]@ == arg_display(
                        (#[trigger] av[i]).node,
                    ) by {
                        assert(fmt@[i]@ == arg_display(arguments@[i].node@));
                        assert(av[i].node == arguments@[i].node@);
                    }
                    assert(param@ == dv[fid as int].parameters[slot as int]);
                    assert(kind_view(td_kind) == type_def_of(av[k as int].node.expr.node).kind);
                    assert(arg@ == av[k as int].node);
                    assert(arg_node_span == av[k as int].span);
                }
                return Err(
                    Error::InvalidArgumentKind {
                        function_ident: function.ident.clone(),
                        abort_on_error,
                        arguments_fmt: fmt,
                        parameter: param.deep_clone(),
                        got: td_kind,
                        argument: arg.deep_clone(),
                        argument_span: arg_node_span,
                    },
                );
            }
            if td_fallible {
                proof {
                    assert(check_arg(pv, av, k as int) == (ArgCheck::FallibleArgument {
                        slot: slot as int,
                    }));
                    lemma_first_bad_skip(pv, av, k as int);
                    assert(first_bad_arg(pv, av, 0) == Some(k as int));
                }
                return Err(Error::FallibleArgument { expr_span: arg.expr.span });
            }
            let partial = !param.kind.is_superset(&td_kind);
            if partial {
                maybe_fallible_arguments = true;
            }
            proof {
                assert(check_arg(pv, av, k as int) == (ArgCheck::Accept { partial }));
                assert(any_partial(pv, av, k + 1) == (any_partial(pv, av, k as int) || partial));
            }
            let keyword = param.keyword.clone();
            let bound_expr = arg.expr.node.deep_clone();
            list.insert(keyword, bound_expr);
            proof {
                assert forall|p: int| 0 <= p < pv.len() implies (list.contains_kw(
                    (#[trigger] pv[p]).keyword,
                ) == claimed_upto(pv, av, k + 1, pv[p].keyword)) by {
                    assert(claimed_upto(pv, av, k + 1, pv[p].keyword) == (claimed_upto(
                        pv,
                        av,
                        k as int,
                        pv[p].keyword,
                    ) || pv[slot as int].keyword == pv[p].keyword));
                }
            }
            k = k + 1;
        }
        proof {
            lemma_first_bad_skip(pv, av, av.len() as int);
            assert(first_bad_arg(pv, av, 0) is None);
        }

        // Check that every required parameter was bound.
        let mut p: usize = 0;
        while p < function.parameters.len()
            invariant
                p <= function.parameters@.len(),
                fid < funcs@.len(),
                *function == funcs@[fid as int],
                dv == decls_view(*funcs),
                av == args_view(arguments),
                pv == params_view(function.parameters),
                pv == dv[fid as int].parameters,
                av.len() == arguments@.len(),
                arguments@.len() <= pv.len(),
                identv == ident.node@,
                find_func(dv, identv, 0) == Some(fid as int),
                first_bad_arg(pv, av, 0) is None,
                maybe_fallible_arguments == any_partial(pv, av, av.len() as int),
                forall|q: int|
                    0 <= q < pv.len() ==> (list.contains_kw((#[trigger] pv[q]).keyword)
                        == claimed_upto(pv, av, av.len() as int, pv[q].keyword)),
                forall|j: int|
                    0 <= j < p ==> !((#[trigger] pv[j]).required && !claimed_upto(
                        pv,
                        av,
                        av.len() as int,
                        pv[j].keyword,
                    )),
                *local == *old(local),
                external.side_channel() == old(external).side_channel(),
            decreases function.parameters@.len() - p,
        {
            let par = &function.parameters[p];
            proof {
                assert(par@ == pv[p as int]);
            }
            if par.required && !list.contains_keyword(&par.keyword) {
                proof {
                    lemma_first_missing_skip(pv, av, p as int);
                    assert(first_missing(pv, av, 0) == Some(p as int));
                    assert(new_outcome(dv, identv, abort_on_error, av)
                        == (NewOutcome::MissingArgument { at: p as int }));
                    assert(par.keyword@ == dv[fid as int].parameters[p as int].keyword);
                }
                return Err(
                    Error::MissingArgument {
                        call_span,
                        keyword: par.keyword.clone(),
                        position: p,
                    },
                );
            }
            p += 1;
        }
        proof {
            lemma_first_missing_skip(pv, av, pv.len() as int);
            assert(first_missing(pv, av, 0) is None);
        }

        // Instantiate the function's inner expression through its compile
        // hook, lending it the side-channel so the rest of the compiler
        // state stays immutably borrowed.
        let external_context = external.swap_external_context(SideChannel::new());
        let mut compile_ctx = FunctionCompileContext::new(call_span).with_external_context(
            external_context,
        );
        let compiled = function.compile(local, external, &mut compile_ctx, list);
        let mut expr = match compiled {
            Ok(e) => e,
            Err(_) => { vstd::pervasive::unreached() },
        };
        let _ = external.swap_external_context(compile_ctx.into_external_context());
        proof {
            assert(expr@ == dv[fid as int].inner);
        }

        // Asking an infallible call to abort on error is a compile-time
        // defect: the program would wrongly convey that the call can fail.
        if abort_on_error && !maybe_fallible_arguments {
            let td = expr.type_def((&*local, &*external));
            if !td.is_fallible() {
                return Err(
                    Error::AbortInfallible {
                        ident_span,
                        abort_span: Span::new(ident_span.end, ident_span.end + 1),
                    },
                );
            }
        }

        // Propagate any bindings the compiled expression introduces.
        match expr.update_state(local, external) {
            Ok(_) => {},
            Err(_) => { vstd::pervasive::unreached() },
        }

        let r = FunctionCall {
            abort_on_error,
            expr: Box::new(expr),
            maybe_fallible_arguments,
            span: call_span,
            ident: function.ident.clone(),
            function_id: fid,
            arguments,
        };
        proof {
            assert(call_view(r).arguments == av);
            assert(*call_view(r).expr == dv[fid as int].inner);
        }
        Ok(r)
    }
}

} // verus!
// Re-resolution of the supplied arguments into declaration order, for the
// bytecode backend and for inspection.
use crate::function::{ResolvedArgument, CompiledArgument, keyed_arg_for, unkeyed_count,
    empty_count, kw_args_ok, can_resolve, slots_assignment, lemma_keyed_arg_found,
    lemma_unkeyed_count_mono};
use crate::expression::as_value_of;
use crate::value::Value;

verus! {

/// Assigns each supplied argument to a parameter slot, in two passes:
/// keyword arguments claim the parameters carrying their keywords (the
/// later of two duplicates wins), then the unkeyed arguments fill the
/// remaining slots left to right, in written order. Fails exactly when a
/// keyword names no parameter or the unkeyed arguments outnumber the slots
/// the keyword arguments left open.
fn resolve_argument_slots(params: &Vec<Parameter>, args: &Vec<Node<FunctionArgument>>) -> (r:
    Result<Vec<Option<usize>>, String>)
    ensures
        match r {
            Ok(slots) => can_resolve(params_view(*params), args_view(*args)) && slots_assignment(
                params_view(*params),
                args_view(*args),
                slots@,
            ),
            Err(m) => !can_resolve(params_view(*params), args_view(*args)) && m@
                == "argument does not bind to any parameter of the function"@,
        },
{
    let ghost pv = params_view(*params);
    let ghost av = args_view(*args);
    let mut slots: Vec<Option<usize>> = Vec::new();
    let mut q: usize = 0;
    while q < params.len()
        invariant
            q <= params@.len(),
            slots@.len() == q,
            forall|p: int| 0 <= p < q ==> (#[trigger] slots@[p]) is None,
        decreases params@.len() - q,
    {
        slots.push(None);
        q += 1;
    }
    // Keyword pass: each keyword argument claims its parameter.
    let mut k: usize = 0;
    while k < args.len()
        invariant
            k <= args@.len(),
            pv == params_view(*params),
            av == args_view(*args),
            av.len() == args@.len(),
            pv.len() == params@.len(),
            slots@.len() == pv.len(),
            forall|p: int|
                0 <= p < pv.len() ==> (match keyed_arg_for(pv, av, k as int, p) {
                    Some(kk) => (#[trigger] slots@[p]) matches Some(x) && x == kk,
                    None => slots@[p] is None,
                }),
            forall|j: int|
                0 <= j < k ==> ((#[trigger] av[j].node.ident) matches Some(id) ==> find_param(
                    pv,
                    id.node,
                    0,
                ) is Some),
        decreases args@.len() - k,
    {
        let arg = &args[k].node;
        proof {
            assert(av[k as int].node == arg_view(*arg));
        }
        match &arg.ident {
            Some(idn) => {
                match find_param_index(params, &idn.node.name) {
                    Some(p) => {
                        slots.set(p, Some(k));
                        proof {
                            assert(av[k as int].node.ident matches Some(nn) && nn.node
                                == idn.node@);
                            assert forall|p2: int|
                                0 <= p2 < pv.len() implies (match keyed_arg_for(
                                pv,
                                av,
                                k + 1,
                                p2,
                            ) {
                                Some(kk) => (#[trigger] slots@[p2]) matches Some(x) && x == kk,
                                None => slots@[p2] is None,
                            }) by {
                                if p2 == p {
                                    assert(keyed_arg_for(pv, av, k + 1, p2) == Some(k as int));
                                } else {
                                    assert(keyed_arg_for(pv, av, k + 1, p2) == keyed_arg_for(
                                        pv,
                                        av,
                                        k as int,
                                        p2,
                                    ));
                                }
                            }
                        }
                    },
                    None => {
                        proof {
                            assert(av[k as int].node.ident matches Some(nn) && nn.node
                                == idn.node@);
                            assert(!kw_args_ok(pv, av));
                        }
                        return Err(
                            String::from_str(
                                "argument does not bind to any parameter of the function",
                            ),
                        );
                    },
                }
            },
            None => {
                proof {
                    assert(av[k as int].node.ident is None);
                    assert(forall|p2: int|
                        0 <= p2 < pv.len() ==> #[trigger] keyed_arg_for(pv, av, k + 1, p2)
                            == keyed_arg_for(pv, av, k as int, p2));
                }
            },
        }
        k += 1;
    }
    // Gap-fill pass: unkeyed arguments take the open slots left to right.
    proof {
        assert forall|p2: int|
            0 <= p2 < pv.len() implies ((#[trigger] slots@[p2]) matches Some(x) ==> x
            < args@.len()) by {
            match keyed_arg_for(pv, av, av.len() as int, p2) {
                Some(_) => {
                    lemma_keyed_arg_found(pv, av, av.len() as int, p2);
                },
                None => {},
            }
        }
        assert forall|p1: int, p2: int|
            0 <= p1 < p2 < pv.len() implies !((#[trigger] slots@[p1]) matches Some(k1) && (
        #[trigger] slots@[p2]) matches Some(k2) && k1 == k2) by {
            match keyed_arg_for(pv, av, av.len() as int, p1) {
                Some(_) => {
                    lemma_keyed_arg_found(pv, av, av.len() as int, p1);
                },
                None => {},
            }
            match keyed_arg_for(pv, av, av.len() as int, p2) {
                Some(_) => {
                    lemma_keyed_arg_found(pv, av, av.len() as int, p2);
                },
                None => {},
            }
        }
        assert forall|p1: int, p2: int|
            0 <= p1 < p2 < pv.len() implies !((#[trigger] slots@[p1]) matches Some(k1) && (
        #[trigger] slots@[p2]) matches Some(k2) && av[k1 as int].node.ident is None && av[k2 as int].node.ident
            is None && k2 <= k1) by {
            match keyed_arg_for(pv, av, av.len() as int, p1) {
                Some(_) => {
                    lemma_keyed_arg_found(pv, av, av.len() as int, p1);
                },
                None => {},
            }
        }
    }
    let mut a: usize = 0;
    let mut p: usize = 0;
    while p < slots.len()
        invariant
            p <= slots@.len(),
            a <= args@.len(),
            pv == params_view(*params),
            av == args_view(*args),
            av.len() == args@.len(),
            pv.len() == params@.len(),
            slots@.len() == pv.len(),
            kw_args_ok(pv, av),
            forall|p2: int|
                0 <= p2 < pv.len() ==> (keyed_arg_for(pv, av, av.len() as int, p2) matches Some(kk)
                    ==> ((#[trigger] slots@[p2]) matches Some(x) && x == kk)),
            forall|p2: int|
                p <= p2 < pv.len() ==> (keyed_arg_for(pv, av, av.len() as int, p2) is None ==> (
                #[trigger] slots@[p2]) is None),
            forall|p2: int|
                0 <= p2 < pv.len() ==> (keyed_arg_for(pv, av, av.len() as int, p2) is None ==> ((
                #[trigger] slots@[p2]) matches Some(x) ==> (x < a && av[x as int].node.ident
                    is None))),
            forall|j: int|
                0 <= j < a ==> ((#[trigger] av[j].node.ident) is None ==> exists|p2: int|
                    0 <= p2 < p && #[trigger] slots@[p2] == Some(j as usize)),
            forall|p2: int|
                0 <= p2 < pv.len() ==> ((#[trigger] slots@[p2]) matches Some(x) ==> x
                    < args@.len()),
            forall|p1: int, p2: int|
                0 <= p1 < p2 < pv.len() ==> !((#[trigger] slots@[p1]) matches Some(k1) && (
                #[trigger] slots@[p2]) matches Some(k2) && k1 == k2),
            forall|p1: int, p2: int|
                0 <= p1 < p2 < pv.len() ==> !((#[trigger] slots@[p1]) matches Some(k1) && (
                #[trigger] slots@[p2]) matches Some(k2) && av[k1 as int].node.ident is None
                    && av[k2 as int].node.ident is None && k2 <= k1),
            forall|p1: int, p2: int|
                0 <= p1 < p2 < p ==> !((#[trigger] slots@[p1]) is None && ((
                #[trigger] slots@[p2]) matches Some(k2) && av[k2 as int].node.ident is None)),
            (exists|p2: int|
                0 <= p2 < p && keyed_arg_for(pv, av, av.len() as int, p2) is None && (
                #[trigger] slots@[p2]) is None) ==> a == args@.len(),
            unkeyed_count(av, a as int) <= empty_count(pv, av, p as int),
            !(exists|p2: int|
                0 <= p2 < p && keyed_arg_for(pv, av, av.len() as int, p2) is None && (
                #[trigger] slots@[p2]) is None) ==> unkeyed_count(av, a as int) == empty_count(
                pv,
                av,
                p as int,
            ),
        decreases slots@.len() - p,
    {
        let ghost gap_before = exists|p2: int|
            0 <= p2 < p && keyed_arg_for(pv, av, av.len() as int, p2) is None && (
            #[trigger] slots@[p2]) is None;
        let ghost slots_entry = slots@;
        if slots[p].is_none() {
            proof {
                assert(keyed_arg_for(pv, av, av.len() as int, p as int) is None) by {
                    if keyed_arg_for(pv, av, av.len() as int, p as int) is Some {
                        assert(slots@[p as int] is Some);
                    }
                }
            }
            let ghost a0 = a;
            while a < args.len() && args[a].node.ident.is_some()
                invariant
                    a0 <= a <= args@.len(),
                    av == args_view(*args),
                    av.len() == args@.len(),
                    unkeyed_count(av, a as int) == unkeyed_count(av, a0 as int),
                    forall|j: int| a0 <= j < a ==> (#[trigger] av[j].node.ident) is Some,
                decreases args@.len() - a,
            {
                proof {
                    assert(av[a as int].node == arg_view(args@[a as int].node));
                    assert(av[a as int].node.ident is Some);
                }
                a += 1;
            }
            if a < args.len() {
                proof {
                    assert(av[a as int].node == arg_view(args@[a as int].node));
                    assert(av[a as int].node.ident is None);
                    assert(!gap_before);
                    if keyed_arg_for(pv, av, av.len() as int, p as int) is Some {
                        lemma_keyed_arg_found(pv, av, av.len() as int, p as int);
                    }
                }
                slots.set(p, Some(a));
                proof {
                    assert forall|p2: int|
                        0 <= p2 < pv.len() implies (keyed_arg_for(pv, av, av.len() as int, p2)
                        matches Some(kk) ==> ((#[trigger] slots@[p2]) matches Some(x) && x
                        == kk)) by {
                        if p2 == p {
                            assert(keyed_arg_for(pv, av, av.len() as int, p as int) is None);
                        }
                    }
                    assert forall|p1: int, p2: int|
                        0 <= p1 < p2 < pv.len() implies !((#[trigger] slots@[p1]) matches Some(
                        k1,
                    ) && (#[trigger] slots@[p2]) matches Some(k2) && k1 == k2) by {
                        if p1 == p || p2 == p {
                            if slots@[p1] matches Some(k1) && slots@[p2] matches Some(k2) && k1
                                == k2 {
                                if p2 == p {
                                    if keyed_arg_for(pv, av, av.len() as int, p1) is Some {
                                        lemma_keyed_arg_found(pv, av, av.len() as int, p1);
                                    }
                                } else {
                                    if keyed_arg_for(pv, av, av.len() as int, p2) is Some {
                                        lemma_keyed_arg_found(pv, av, av.len() as int, p2);
                                    }
                                }
                            }
                        }
                    }
                    assert forall|p1: int, p2: int|
                        0 <= p1 < p2 < pv.len() implies !((#[trigger] slots@[p1]) matches Some(
                        k1,
                    ) && (#[trigger] slots@[p2]) matches Some(k2) && av[k1 as int].node.ident
                        is None && av[k2 as int].node.ident is None && k2 <= k1) by {
                        if p2 == p {
                            match slots@[p1] {
                                Some(k1v) => {
                                    if av[k1v as int].node.ident is None {
                                        assert(keyed_arg_for(pv, av, av.len() as int, p1)
                                            is None) by {
                                            if keyed_arg_for(pv, av, av.len() as int, p1)
                                                is Some {
                                                lemma_keyed_arg_found(
                                                    pv,
                                                    av,
                                                    av.len() as int,
                                                    p1,
                                                );
                                            }
                                        }
                                        assert(k1v < a);
                                    }
                                },
                                None => {},
                            }
                        }
                        if p1 == p {
                            match slots@[p2] {
                                Some(k2v) => {
                                    if av[k2v as int].node.ident is None {
                                        assert(keyed_arg_for(pv, av, av.len() as int, p2)
                                            is None) by {
                                            if keyed_arg_for(pv, av, av.len() as int, p2)
                                                is Some {
                                                lemma_keyed_arg_found(
                                                    pv,
                                                    av,
                                                    av.len() as int,
                                                    p2,
                                                );
                                            }
                                        }
                                        assert(slots@[p2] is None);
                                    }
                                },
                                None => {},
                            }
                        }
                    }
                }
                a += 1;
                proof {
                    assert(slots@[p as int] == Some((a - 1) as usize));
                    assert forall|j: int|
                        0 <= j < a implies ((#[trigger] av[j].node.ident) is None ==> exists|
                        p2: int,
                    |
                        0 <= p2 < p + 1 && #[trigger] slots@[p2] == Some(j as usize)) by {
                        if av[j].node.ident is None {
                            if j == a - 1 {
                                assert(slots@[p as int] == Some(j as usize));
                            } else {
                                assert(j < a0);
                                let w = choose|p2: int|
                                    0 <= p2 < p && #[trigger] slots_entry[p2] == Some(j as usize);
                                assert(slots@[w] == Some(j as usize));
                            }
                        }
                    }
                }
            } else {
                proof {
                    assert(unkeyed_count(av, a as int) == unkeyed_count(av, a0 as int));
                }
            }
        } else {
            proof {
                assert(keyed_arg_for(pv, av, av.len() as int, p as int) is Some) by {
                    if keyed_arg_for(pv, av, av.len() as int, p as int) is None {
                        assert(slots@[p as int] is None);
                    }
                }
            }
        }
        p += 1;
    }
    // Any unkeyed argument left over cannot be placed.
    let ghost a1 = a;
    while a < args.len() && args[a].node.ident.is_some()
        invariant
            a1 <= a <= args@.len(),
            av == args_view(*args),
            av.len() == args@.len(),
            unkeyed_count(av, a as int) == unkeyed_count(av, a1 as int),
            forall|j: int| a1 <= j < a ==> (#[trigger] av[j].node.ident) is Some,
        decreases args@.len() - a,
    {
        proof {
            assert(av[a as int].node == arg_view(args@[a as int].node));
            assert(av[a as int].node.ident is Some);
        }
        a += 1;
    }
    if a < args.len() {
        proof {
            assert(av[a as int].node == arg_view(args@[a as int].node));
            assert(av[a as int].node.ident is None);
            assert(!(exists|p2: int|
                0 <= p2 < pv.len() && keyed_arg_for(pv, av, av.len() as int, p2) is None && (
                #[trigger] slots@[p2]) is None)) by {
                if exists|p2: int|
                    0 <= p2 < pv.len() && keyed_arg_for(pv, av, av.len() as int, p2) is None && (
                    #[trigger] slots@[p2]) is None {
                    assert(a1 == args@.len());
                }
            }
            assert(unkeyed_count(av, a as int) == empty_count(pv, av, pv.len() as int));
            assert(unkeyed_count(av, a + 1) == unkeyed_count(av, a as int) + 1);
            lemma_unkeyed_count_mono(av, a + 1, av.len() as int);
            assert(!can_resolve(pv, av));
        }
        return Err(String::from_str("argument does not bind to any parameter of the function"));
    }
    proof {
        assert(a == args@.len());
        assert(unkeyed_count(av, av.len() as int) <= empty_count(pv, av, pv.len() as int));
        assert(can_resolve(pv, av));
        assert forall|p2: int|
            0 <= p2 < slots@.len() implies (match keyed_arg_for(pv, av, av.len() as int, p2) {
            Some(kk) => (#[trigger] slots@[p2]) matches Some(x) && x == kk,
            None => slots@[p2] matches Some(x) ==> av[x as int].node.ident is None,
        }) by {
            if keyed_arg_for(pv, av, av.len() as int, p2) is Some {
                assert(slots@[p2] matches Some(x) && x == keyed_arg_for(
                    pv,
                    av,
                    av.len() as int,
                    p2,
                )->Some_0);
            }
        }
        assert(slots_assignment(pv, av, slots@));
    }
    Ok(slots)
}

} // verus!
// Bytecode emission for calls.
use crate::vm::{Vm, OpCode, Instruction, VmState, RunResult, vm_run, code_computes, compilable,
    well_bound, args_all_bound, args_all_compilable, lemma_args_all_bound_pointwise,
    lemma_args_all_compilable_pointwise, lemma_run_append, lemma_run_extend, is_prefix_of,
    lemma_prefix_refl, lemma_prefix_trans, concat_all, lemma_concat_all_push, param_segment_shape,
    lemma_param_segment_shape_extend};
use crate::expression::{ExprV, lemma_as_value_eval};
use crate::text::dec_digits;
use crate::value::{ValueV, value_view};

verus! {

/// The values the parameter-push section leaves on the parameter stack for
/// slots `0..p` of the given assignment: the bound argument's value, or an
/// absent marker.
pub open spec fn param_entries(
    slots: Seq<Option<usize>>,
    args: Seq<NodeV<ArgV>>,
    p: int,
) -> Seq<Option<ValueV>> {
    Seq::new(
        (if p <= 0 {
            0
        } else {
            p
        }) as nat,
        |j: int|
            if 0 <= j < p {
                match slots[j] {
                    Some(ai) => if (ai as int) < args.len() {
                        Some(eval(args[ai as int].node.expr.node)->Ok_0)
                    } else {
                        None
                    },
                    None => None,
                }
            } else {
                arbitrary()
            },
    )
}

/// The message reported when a bound call names a registry index the
/// machine does not have.
pub open spec fn function_not_found_message(id: int) -> Seq<char> {
    "Function "@ + dec_digits(id as nat) + " not found."@
}

impl FunctionCall {
    /// Pushes the resolved arguments in declaration order — statically
    /// known ones through the statics pool, dynamic ones compiled in place,
    /// absent optional ones as explicit empty markers — then emits one call
    /// opcode carrying the registry index and the call's span.
    pub fn compile_to_vm(
        &self,
        vm: &mut Vm,
        local: &mut LocalEnv,
        external: &mut ExternalEnv,
    ) -> (r: Result<(), String>)
        ensures
            final(vm).functions == old(vm).functions,
            *final(local) == *old(local),
            *final(external) == *old(external),
            is_prefix_of(old(vm).constants@, final(vm).constants@),
            is_prefix_of(old(vm).statics@, final(vm).statics@),
            is_prefix_of(old(vm).instructions@, final(vm).instructions@),
            compilable(ExprV::FunctionCall(Box::new(self@)), decls_view(old(vm).functions))
                ==> r is Ok,
            self@.function_id >= decls_view(old(vm).functions).len() ==> (r matches Err(m) && m@
                == function_not_found_message(self@.function_id as int)),
            r is Ok ==> (exists|aslots: Seq<Option<usize>>, segs: Seq<Seq<Instruction>>|
                #![trigger slots_assignment(
                    decls_view(final(vm).functions)[self@.function_id as int].parameters,
                    self@.arguments,
                    aslots,
                ), concat_all(segs, segs.len() as int)]
                {
                    &&& self@.function_id < decls_view(final(vm).functions).len()
                    &&& slots_assignment(
                        decls_view(final(vm).functions)[self@.function_id as int].parameters,
                        self@.arguments,
                        aslots,
                    )
                    &&& segs.len() == aslots.len()
                    &&& final(vm).instructions@.skip(old(vm).instructions@.len() as int)
                        == concat_all(segs, segs.len() as int) + seq![
                        Instruction::Op(OpCode::Call),
                        Instruction::Primitive(self@.function_id),
                        Instruction::Primitive(self@.span.start),
                        Instruction::Primitive(self@.span.end),
                    ]
                    &&& (forall|q: int|
                        0 <= q < segs.len() ==> param_segment_shape(
                            #[trigger] segs[q],
                            aslots[q],
                            self@.arguments,
                            final(vm).constants@,
                            final(vm).statics@,
                            decls_view(final(vm).functions),
                        ))
                }),
            r is Ok ==> (well_bound(ExprV::FunctionCall(Box::new(self@)), decls_view(
                final(vm).functions,
            )) ==> code_computes(
                final(vm).instructions@.skip(old(vm).instructions@.len() as int),
                final(vm).constants@,
                final(vm).statics@,
                decls_view(final(vm).functions),
                ExprV::FunctionCall(Box::new(self@)),
            )),
        decreases self,
    {
        let ghost n0 = vm.instructions@.len() as int;
        let ghost cv = self@;
        let ghost ev = ExprV::FunctionCall(Box::new(self@));
        let ghost dv = decls_view(vm.functions);
        let ghost av = args_view(self.arguments);

        if self.function_id >= vm.functions.len() {
            let mut m = String::from_str("Function ");
            push_dec_usize(&mut m, self.function_id);
            m.append(" not found.");
            proof {
                assert(m@ =~= function_not_found_message(self.function_id as int));
                assert(!compilable(ev, dv));
                lemma_prefix_refl(vm.constants@);
                lemma_prefix_refl(vm.statics@);
                lemma_prefix_refl(vm.instructions@);
            }
            return Err(m);
        }
        let slots = match resolve_argument_slots(
            &vm.functions[self.function_id].parameters,
            &self.arguments,
        ) {
            Ok(s) => s,
            Err(m) => {
                proof {
                    assert(!compilable(ev, dv));
                    lemma_prefix_refl(vm.constants@);
                    lemma_prefix_refl(vm.statics@);
                    lemma_prefix_refl(vm.instructions@);
                }
                return Err(m);
            },
        };
        let ghost pv = params_view(vm.functions@[self.function_id as int].parameters);
        proof {
            assert(pv == dv[self.function_id as int].parameters);
            assert(cv.arguments == av);
        }
        let argc = vm.functions[self.function_id].parameters.len();
        proof {
            lemma_prefix_refl(vm.constants@);
            lemma_prefix_refl(vm.statics@);
            lemma_prefix_refl(vm.instructions@);
        }
        let mut p: usize = 0;
        let ghost mut segs: Seq<Seq<Instruction>> = Seq::empty();
        proof {
            assert(vm.instructions@.skip(n0) =~= concat_all(segs, 0));
        }
        while p < argc
            invariant
                p <= argc,
                segs.len() == p,
                vm.instructions@.skip(n0) == concat_all(segs, segs.len() as int),
                forall|q: int|
                    0 <= q < p ==> param_segment_shape(
                        #[trigger] segs[q],
                        slots@[q],
                        av,
                        vm.constants@,
                        vm.statics@,
                        dv,
                    ),
                cv == self@,
                ev == ExprV::FunctionCall(Box::new(self@)),
                av == args_view(self.arguments),
                av == cv.arguments,
                av.len() == self.arguments@.len(),
                vm.functions == old(vm).functions,
                dv == decls_view(vm.functions),
                self.function_id < vm.functions@.len(),
                cv.function_id == self.function_id,
                pv == params_view(vm.functions@[self.function_id as int].parameters),
                pv == dv[self.function_id as int].parameters,
                argc == pv.len(),
                slots@.len() == pv.len(),
                slots_assignment(pv, av, slots@),
                *local == *old(local),
                *external == *old(external),
                is_prefix_of(old(vm).constants@, vm.constants@),
                is_prefix_of(old(vm).statics@, vm.statics@),
                is_prefix_of(old(vm).instructions@, vm.instructions@),
                n0 == old(vm).instructions@.len(),
                n0 <= vm.instructions@.len(),
                decreases_to!(*self => self.arguments),
                args_all_bound(av, dv, av.len() as int) ==> (forall|st: VmState| #[trigger] vm_run(
                    vm.instructions@.skip(n0),
                    vm.constants@,
                    vm.statics@,
                    dv,
                    st,
                ) == RunResult::Done(
                    VmState {
                        stack: st.stack,
                        params: st.params + param_entries(slots@, av, p as int),
                    },
                )),
            decreases argc - p,
        {
            let ghost instrs_mid = vm.instructions@;
            let ghost consts_mid = vm.constants@;
            let ghost statics_mid = vm.statics@;
            let ghost prev_code = instrs_mid.skip(n0);
            let ghost mut new_seg: Seq<Instruction> = Seq::empty();
            match slots[p] {
                Some(ai) => {
                    proof {
                        assert(slots@[p as int] matches Some(x) && x < self.arguments@.len());
                        assert(av[ai as int].node.expr.node == expr_view(
                            self.arguments@[ai as int].node.expr.node,
                        ));
                        assert(decreases_to!(self.arguments => self.arguments@[ai as int]));
                    }
                    let has_static = self.arguments[ai].node.expr.node.as_value();
                    match has_static {
                        Some(v) => {
                            proof {
                                lemma_as_value_eval(av[ai as int].node.expr.node);
                                assert(eval(av[ai as int].node.expr.node) == Ok::<ValueV, ErrV>(
                                    v@,
                                ));
                            }
                            let idx = vm.add_static(v);
                            vm.write_opcode(OpCode::MoveStaticParameter);
                            vm.write_primitive(idx);
                            proof {
                                let code = vm.instructions@.skip(n0);
                                let tail = seq![
                                    Instruction::Op(OpCode::MoveStaticParameter),
                                    Instruction::Primitive(idx),
                                ];
                                assert(code =~= prev_code + tail);
                                assert(value_view(vm.statics@[idx as int]) == eval(
                                    av[ai as int].node.expr.node,
                                )->Ok_0);
                                new_seg = tail;
                                assert(as_value_of(av[ai as int].node.expr.node) == Some(v@));
                                assert(value_view(vm.statics@[idx as int]) == v@);
                                assert(param_segment_shape(
                                    new_seg,
                                    slots@[p as int],
                                    av,
                                    vm.constants@,
                                    vm.statics@,
                                    dv,
                                ));
                                if args_all_bound(av, dv, av.len() as int) {
                                    assert forall|st: VmState| #[trigger] vm_run(
                                        code,
                                        vm.constants@,
                                        vm.statics@,
                                        dv,
                                        st,
                                    ) == RunResult::Done(
                                        VmState {
                                            stack: st.stack,
                                            params: st.params + param_entries(slots@, av, p + 1),
                                        },
                                    ) by {
                                        assert(vm_run(prev_code, consts_mid, statics_mid, dv, st)
                                            == RunResult::Done(
                                            VmState {
                                                stack: st.stack,
                                                params: st.params + param_entries(
                                                    slots@,
                                                    av,
                                                    p as int,
                                                ),
                                            },
                                        ));
                                        assert(is_prefix_of(consts_mid, vm.constants@)) by {
                                            assert(consts_mid =~= vm.constants@.subrange(
                                                0,
                                                consts_mid.len() as int,
                                            ));
                                        }
                                        assert(is_prefix_of(statics_mid, vm.statics@)) by {
                                            assert(statics_mid =~= vm.statics@.subrange(
                                                0,
                                                statics_mid.len() as int,
                                            ));
                                        }
                                        lemma_run_extend(
                                            prev_code,
                                            consts_mid,
                                            vm.constants@,
                                            statics_mid,
                                            vm.statics@,
                                            dv,
                                            st,
                                        );
                                        lemma_run_append(
                                            prev_code,
                                            tail,
                                            vm.constants@,
                                            vm.statics@,
                                            dv,
                                            st,
                                        );
                                        let st2 = VmState {
                                            stack: st.stack,
                                            params: st.params + param_entries(slots@, av, p as int),
                                        };
                                        assert(tail.skip(2) =~= Seq::<Instruction>::empty());
                                        let st3 = VmState {
                                            params: st2.params.push(
                                                Some(value_view(vm.statics@[idx as int])),
                                            ),
                                            ..st2
                                        };
                                        assert(vm_run(
                                            tail.skip(2),
                                            vm.constants@,
                                            vm.statics@,
                                            dv,
                                            st3,
                                        ) == RunResult::Done(st3));
                                        assert(vm_run(tail, vm.constants@, vm.statics@, dv, st2)
                                            == RunResult::Done(st3));
                                        assert(st2.params.push(
                                            Some(value_view(vm.statics@[idx as int])),
                                        ) =~= st.params + param_entries(slots@, av, p + 1));
                                        assert(st3 =~= (VmState {
                                            stack: st.stack,
                                            params: st.params + param_entries(slots@, av, p + 1),
                                        }));
                                    }
                                }
                            }
                        },
                        None => {
                            match self.arguments[ai].node.expr.node.compile_to_vm(
                                vm,
                                local,
                                external,
                            ) {
                                Ok(()) => {},
                                Err(m) => {
                                    proof {
                                        assert(!compilable(av[ai as int].node.expr.node, dv));
                                        assert(!(as_value_of(av[ai as int].node.expr.node)
                                            is Some));
                                        lemma_args_all_compilable_pointwise(
                                            av,
                                            dv,
                                            av.len() as int,
                                        );
                                        assert(!args_all_compilable(av, dv, av.len() as int));
                                        assert(!compilable(ev, dv));
                                        lemma_prefix_trans(
                                            old(vm).constants@,
                                            consts_mid,
                                            vm.constants@,
                                        );
                                        lemma_prefix_trans(
                                            old(vm).statics@,
                                            statics_mid,
                                            vm.statics@,
                                        );
                                        lemma_prefix_trans(
                                            old(vm).instructions@,
                                            instrs_mid,
                                            vm.instructions@,
                                        );
                                    }
                                    return Err(m);
                                },
                            }
                            let ghost arg_code = vm.instructions@.skip(instrs_mid.len() as int);
                            vm.write_opcode(OpCode::MoveParameter);
                            proof {
                                let code = vm.instructions@.skip(n0);
                                let tail = seq![Instruction::Op(OpCode::MoveParameter)];
                                assert(code =~= prev_code + arg_code + tail);
                                new_seg = arg_code + tail;
                                assert(as_value_of(av[ai as int].node.expr.node) is None);
                                assert(param_segment_shape(
                                    new_seg,
                                    slots@[p as int],
                                    av,
                                    vm.constants@,
                                    vm.statics@,
                                    dv,
                                )) by {
                                    assert(new_seg == (arg_code + seq![
                                        Instruction::Op(OpCode::MoveParameter),
                                    ]) && (well_bound(av[ai as int].node.expr.node, dv)
                                        ==> code_computes(
                                        arg_code,
                                        vm.constants@,
                                        vm.statics@,
                                        dv,
                                        av[ai as int].node.expr.node,
                                    )));
                                }
                                if args_all_bound(av, dv, av.len() as int) {
                                    lemma_args_all_bound_pointwise(av, dv, av.len() as int);
                                    assert(eval(av[ai as int].node.expr.node) is Ok);
                                    assert(well_bound(av[ai as int].node.expr.node, dv));
                                    assert(code_computes(
                                        arg_code,
                                        vm.constants@,
                                        vm.statics@,
                                        dv,
                                        av[ai as int].node.expr.node,
                                    ));
                                    let v = eval(av[ai as int].node.expr.node)->Ok_0;
                                    assert forall|st: VmState| #[trigger] vm_run(
                                        code,
                                        vm.constants@,
                                        vm.statics@,
                                        dv,
                                        st,
                                    ) == RunResult::Done(
                                        VmState {
                                            stack: st.stack,
                                            params: st.params + param_entries(slots@, av, p + 1),
                                        },
                                    ) by {
                                        assert(vm_run(prev_code, consts_mid, statics_mid, dv, st)
                                            == RunResult::Done(
                                            VmState {
                                                stack: st.stack,
                                                params: st.params + param_entries(
                                                    slots@,
                                                    av,
                                                    p as int,
                                                ),
                                            },
                                        ));
                                        assert(is_prefix_of(consts_mid, vm.constants@)) by {
                                            assert(consts_mid =~= vm.constants@.subrange(
                                                0,
                                                consts_mid.len() as int,
                                            ));
                                        }
                                        assert(is_prefix_of(statics_mid, vm.statics@)) by {
                                            assert(statics_mid =~= vm.statics@.subrange(
                                                0,
                                                statics_mid.len() as int,
                                            ));
                                        }
                                        lemma_run_extend(
                                            prev_code,
                                            consts_mid,
                                            vm.constants@,
                                            statics_mid,
                                            vm.statics@,
                                            dv,
                                            st,
                                        );
                                        lemma_run_append(
                                            prev_code,
                                            arg_code + tail,
                                            vm.constants@,
                                            vm.statics@,
                                            dv,
                                            st,
                                        );
                                        assert(prev_code + (arg_code + tail) =~= code);
                                        let st2 = VmState {
                                            stack: st.stack,
                                            params: st.params + param_entries(slots@, av, p as int),
                                        };
                                        lemma_run_append(
                                            arg_code,
                                            tail,
                                            vm.constants@,
                                            vm.statics@,
                                            dv,
                                            st2,
                                        );
                                        assert(vm_run(arg_code, vm.constants@, vm.statics@, dv, st2)
                                            == RunResult::Done(
                                            VmState { stack: st2.stack.push(v), params: st2.params },
                                        ));
                                        let st3 = VmState {
                                            stack: st2.stack.push(v),
                                            params: st2.params,
                                        };
                                        assert(tail.skip(1) =~= Seq::<Instruction>::empty());
                                        assert(st3.stack.len() >= 1);
                                        let st4 = VmState {
                                            stack: st3.stack.drop_last(),
                                            params: st3.params.push(Some(st3.stack.last())),
                                        };
                                        assert(vm_run(
                                            tail.skip(1),
                                            vm.constants@,
                                            vm.statics@,
                                            dv,
                                            st4,
                                        ) == RunResult::Done(st4));
                                        assert(vm_run(tail, vm.constants@, vm.statics@, dv, st3)
                                            == RunResult::Done(st4));
                                        assert(st3.stack.drop_last() =~= st.stack);
                                        assert(st3.params.push(Some(st3.stack.last())) =~= st.params
                                            + param_entries(slots@, av, p + 1));
                                        assert(st4 =~= (VmState {
                                            stack: st.stack,
                                            params: st.params + param_entries(slots@, av, p + 1),
                                        }));
                                    }
                                }
                            }
                        },
                    }
                },
                None => {
                    vm.write_opcode(OpCode::EmptyParameter);
                    proof {
                        let code = vm.instructions@.skip(n0);
                        let tail = seq![Instruction::Op(OpCode::EmptyParameter)];
                        assert(code =~= prev_code + tail);
                        new_seg = tail;
                        assert(param_segment_shape(
                            new_seg,
                            slots@[p as int],
                            av,
                            vm.constants@,
                            vm.statics@,
                            dv,
                        ));
                        if args_all_bound(av, dv, av.len() as int) {
                            assert forall|st: VmState| #[trigger] vm_run(
                                code,
                                vm.constants@,
                                vm.statics@,
                                dv,
                                st,
                            ) == RunResult::Done(
                                VmState {
                                    stack: st.stack,
                                    params: st.params + param_entries(slots@, av, p + 1),
                                },
                            ) by {
                                assert(vm_run(prev_code, vm.constants@, vm.statics@, dv, st)
                                    == RunResult::Done(
                                    VmState {
                                        stack: st.stack,
                                        params: st.params + param_entries(slots@, av, p as int),
                                    },
                                ));
                                lemma_run_append(
                                    prev_code,
                                    tail,
                                    vm.constants@,
                                    vm.statics@,
                                    dv,
                                    st,
                                );
                                let st2 = VmState {
                                    stack: st.stack,
                                    params: st.params + param_entries(slots@, av, p as int),
                                };
                                assert(tail.skip(1) =~= Seq::<Instruction>::empty());
                                let st3 = VmState { params: st2.params.push(None), ..st2 };
                                assert(vm_run(tail.skip(1), vm.constants@, vm.statics@, dv, st3)
                                    == RunResult::Done(st3));
                                assert(vm_run(tail, vm.constants@, vm.statics@, dv, st2)
                                    == RunResult::Done(st3));
                                assert(st2.params.push(None) =~= st.params + param_entries(
                                    slots@,
                                    av,
                                    p + 1,
                                ));
                                assert(st3 =~= (VmState {
                                    stack: st.stack,
                                    params: st.params + param_entries(slots@, av, p + 1),
                                }));
                            }
                        }
                    }
                },
            }
            proof {
                assert(is_prefix_of(consts_mid, vm.constants@)) by {
                    assert(consts_mid =~= vm.constants@.subrange(0, consts_mid.len() as int));
                }
                assert(is_prefix_of(statics_mid, vm.statics@)) by {
                    assert(statics_mid =~= vm.statics@.subrange(0, statics_mid.len() as int));
                }
                assert(is_prefix_of(instrs_mid, vm.instructions@)) by {
                    assert(instrs_mid =~= vm.instructions@.subrange(0, instrs_mid.len() as int));
                }
                lemma_prefix_trans(old(vm).constants@, consts_mid, vm.constants@);
                lemma_prefix_trans(old(vm).statics@, statics_mid, vm.statics@);
                lemma_prefix_trans(old(vm).instructions@, instrs_mid, vm.instructions@);
                assert(vm.instructions@.skip(n0) =~= prev_code + new_seg);
                let segs_pre = segs;
                segs = segs.push(new_seg);
                lemma_concat_all_push(segs_pre, new_seg);
                assert(vm.instructions@.skip(n0) == concat_all(segs, segs.len() as int));
                assert forall|q: int|
                    0 <= q < segs.len() implies param_segment_shape(
                    #[trigger] segs[q],
                    slots@[q],
                    av,
                    vm.constants@,
                    vm.statics@,
                    dv,
                ) by {
                    if q < segs_pre.len() {
                        assert(segs[q] == segs_pre[q]);
                        lemma_param_segment_shape_extend(
                            segs_pre[q],
                            slots@[q],
                            av,
                            consts_mid,
                            vm.constants@,
                            statics_mid,
                            vm.statics@,
                            dv,
                        );
                    } else {
                        assert(segs[q] == new_seg);
                    }
                }
            }
            p += 1;
        }
        let ghost instrs_args = vm.instructions@;
        vm.write_opcode(OpCode::Call);
        vm.write_primitive(self.function_id);
        vm.write_primitive(self.span.start);
        vm.write_primitive(self.span.end);
        proof {
            let args_code = instrs_args.skip(n0);
            let tail = seq![
                Instruction::Op(OpCode::Call),
                Instruction::Primitive(cv.function_id),
                Instruction::Primitive(cv.span.start),
                Instruction::Primitive(cv.span.end),
            ];
            let code = vm.instructions@.skip(n0);
            let consts = vm.constants@;
            let statics = vm.statics@;
            assert(code =~= args_code + tail);
            if well_bound(ev, dv) {
                assert(args_all_bound(av, dv, av.len() as int));
                let f = dv[cv.function_id as int];
                assert(*cv.expr == f.inner);
                assert forall|st: VmState|
                    match eval(ev) {
                        Ok(v) => #[trigger] vm_run(code, consts, statics, dv, st)
                            == RunResult::Done(
                            VmState { stack: st.stack.push(v), params: st.params },
                        ),
                        Err(_) => vm_run(code, consts, statics, dv, st)
                            matches RunResult::Failed(ErrV::Error { .. }),
                    } by {
                    lemma_run_append(args_code, tail, consts, statics, dv, st);
                    let entries = param_entries(slots@, av, argc as int);
                    let st2 = VmState { stack: st.stack, params: st.params + entries };
                    assert(vm_run(args_code, consts, statics, dv, st)
                        == RunResult::Done(st2));
                    assert(entries.len() == argc);
                    assert(f.parameters.len() == argc);
                    assert(st2.params.len() >= argc);
                    let remaining = st2.params.take(st2.params.len() - argc as int);
                    assert(remaining =~= st.params);
                    lemma_eval_no_abort(f.inner);
                    match eval(f.inner) {
                        Ok(v) => {
                            assert(tail.skip(4) =~= Seq::<Instruction>::empty());
                            let stc = VmState { stack: st2.stack.push(v), params: remaining };
                            assert(vm_run(tail.skip(4), consts, statics, dv, stc)
                                == RunResult::Done(stc));
                            assert(vm_run(tail, consts, statics, dv, st2) == RunResult::Done(
                                VmState { stack: st2.stack.push(v), params: remaining },
                            ));
                            assert(eval(ev) == Ok::<ValueV, ErrV>(v));
                            assert(VmState { stack: st2.stack.push(v), params: remaining } =~= (
                            VmState { stack: st.stack.push(v), params: st.params }));
                        },
                        Err(e) => {
                            assert(e matches ErrV::Error { .. });
                            assert(vm_run(tail, consts, statics, dv, st2)
                                matches RunResult::Failed(ErrV::Error { .. }));
                            assert(eval(ev) is Err);
                        },
                    }
                }
                assert(code_computes(code, consts, statics, dv, ev));
            }
            assert(vm.instructions@.skip(n0) =~= concat_all(segs, segs.len() as int) + seq![
                Instruction::Op(OpCode::Call),
                Instruction::Primitive(cv.function_id),
                Instruction::Primitive(cv.span.start),
                Instruction::Primitive(cv.span.end),
            ]);
            assert(slots_assignment(dv[cv.function_id as int].parameters, cv.arguments, slots@));
            assert(is_prefix_of(old(vm).constants@, vm.constants@));
            assert(is_prefix_of(old(vm).statics@, vm.statics@));
            assert(is_prefix_of(old(vm).instructions@, vm.instructions@)) by {
                assert(is_prefix_of(instrs_args, vm.instructions@)) by {
                    assert(instrs_args =~= vm.instructions@.subrange(
                        0,
                        instrs_args.len() as int,
                    ));
                }
                lemma_prefix_trans(old(vm).instructions@, instrs_args, vm.instructions@);
            }
        }
        Ok(())
    }
}

} // verus!
// The diagnostics each binding failure renders to.
use crate::diagnostic::{LabelV as LabelView, Note, NoteV, notes_view, strings_view, strings_join,
    quoted_join, push_strings_join, push_quoted_join, expression_docs_url};
use crate::kind::{KindV, kind_description, push_kind_description};
use crate::expression::levenstein;
use crate::text::{push_dec_usize as push_dec, str_chars};

verus! {

/// The candidate the `Undefined` diagnostic suggests: among the first `n`
/// registered identifiers, the first one at minimal edit distance from the
/// written identifier — a tie keeps the earlier candidate.
pub open spec fn best_candidate(ident: Seq<char>, idents: Seq<Seq<char>>, n: int) -> Option<int>
    decreases n,
{
    if n <= 0 || n > idents.len() {
        Option::None
    } else if n == 1 {
        Option::Some(0int)
    } else {
        match best_candidate(ident, idents, n - 1) {
            Option::Some(p) => if levenstein::edit_distance(ident, idents[n - 1])
                < levenstein::edit_distance(ident, idents[p]) {
                Option::Some(n - 1)
            } else {
                Option::Some(p)
            },
            Option::None => Option::Some(n - 1),
        }
    }
}

/// The numeric diagnostic code of each failure.
pub open spec fn error_code(e: Error) -> usize {
    match e {
        Error::Undefined { .. } => 105,
        Error::WrongNumberOfArgs { .. } => 106,
        Error::UnknownKeyword { .. } => 108,
        Error::Compilation { .. } => 610,
        Error::MissingArgument { .. } => 107,
        Error::AbortInfallible { .. } => 620,
        Error::InvalidArgumentKind { .. } => 110,
        Error::FallibleArgument { .. } => 630,
        Error::UpdateState { .. } => 640,
    }
}

/// The headline of each failure.
pub open spec fn error_message(e: Error) -> Seq<char> {
    match e {
        Error::Undefined { .. } => "call to undefined function"@,
        Error::WrongNumberOfArgs { .. } => "wrong number of function arguments"@,
        Error::UnknownKeyword { .. } => "unknown function argument keyword"@,
        Error::MissingArgument { .. } => "missing function argument"@,
        Error::Compilation { error, .. } => "function compilation error: error[E"@ + dec_digits(
            error.code as nat,
        ) + "] "@ + error.message@,
        Error::AbortInfallible { .. } => "can't abort infallible function"@,
        Error::InvalidArgumentKind { .. } => "invalid argument type"@,
        Error::FallibleArgument { .. } => "fallible argument"@,
        Error::UpdateState { error, .. } => "error updating state "@ + error@,
    }
}

/// The source-anchored labels of each failure: one primary label naming the
/// fault, plus context.
pub open spec fn error_labels(e: Error) -> Seq<LabelView> {
    match e {
        Error::Undefined { ident_span, ident, idents } => {
            let base = seq![
                LabelView { message: "undefined function"@, primary: true, span: ident_span },
            ];
            match best_candidate(
                ident@,
                strings_view(idents),
                strings_view(idents).len() as int,
            ) {
                Option::Some(p) => base.push(
                    LabelView {
                        message: "did you mean \""@ + strings_view(idents)[p] + "\"?"@,
                        primary: false,
                        span: ident_span,
                    },
                ),
                Option::None => base,
            }
        },
        Error::WrongNumberOfArgs { arguments_span, max } => seq![
            LabelView {
                message: "too many function arguments"@,
                primary: true,
                span: arguments_span,
            },
            LabelView {
                message: "this function takes a maximum of "@ + dec_digits(max as nat) + " "@ + (
                if max == 1 {
                    "argument"@
                } else {
                    "arguments"@
                }),
                primary: false,
                span: arguments_span,
            },
        ],
        Error::UnknownKeyword { keyword_span, ident_span, keywords } => seq![
            LabelView { message: "unknown keyword"@, primary: true, span: keyword_span },
            LabelView {
                message: "this function accepts the following keywords: "@ + quoted_join(
                    strings_view(keywords),
                    strings_view(keywords).len() as int,
                ),
                primary: false,
                span: ident_span,
            },
        ],
        Error::Compilation { call_span, error } => Seq::new(
            crate::diagnostic::labels_view(error.labels).len(),
            |i: int|
                if 0 <= i < crate::diagnostic::labels_view(error.labels).len() {
                    LabelView {
                        message: crate::diagnostic::labels_view(error.labels)[i].message,
                        primary: crate::diagnostic::labels_view(error.labels)[i].primary,
                        span: call_span,
                    }
                } else {
                    arbitrary()
                },
        ),
        Error::MissingArgument { call_span, keyword, position } => seq![
            LabelView {
                message: "required argument missing: \""@ + keyword@ + "\" (position "@
                    + dec_digits(position as nat) + ")"@,
                primary: true,
                span: call_span,
            },
        ],
        Error::AbortInfallible { ident_span, abort_span } => seq![
            LabelView { message: "this function can't fail"@, primary: true, span: ident_span },
            LabelView {
                message: "remove this abort-instruction"@,
                primary: false,
                span: abort_span,
            },
        ],
        Error::InvalidArgumentKind { parameter, got, argument, argument_span, .. } => seq![
            LabelView {
                message: "this expression resolves to "@ + kind_description(got@),
                primary: true,
                span: argument.expr.span,
            },
            LabelView {
                message: "but the parameter \""@ + parameter.keyword@ + "\" expects "@
                    + kind_description(parameter@.kind),
                primary: false,
                span: argument_span,
            },
        ],
        Error::FallibleArgument { expr_span } => seq![
            LabelView { message: "this expression can fail"@, primary: true, span: expr_span },
            LabelView {
                message: "handle the error before passing it in as an argument"@,
                primary: false,
                span: expr_span,
            },
        ],
        Error::UpdateState { call_span, error } => seq![
            LabelView {
                message: "an error occurred updating the compiler state: "@ + error@,
                primary: true,
                span: call_span,
            },
        ],
    }
}

/// The type-guard rewrite suggested for an argument that should have the
/// given kind, when the kind names a single guardable shape.
pub open spec fn guard_suggestion(k: KindV, argd: Seq<char>) -> Option<Seq<char>> {
    if k.shape_count() == 1 && k.bytes {
        Option::Some("string!("@ + argd + ")"@)
    } else if k.shape_count() == 1 && k.integer {
        Option::Some("int!("@ + argd + ")"@)
    } else if k.shape_count() == 1 && k.float {
        Option::Some("float!("@ + argd + ")"@)
    } else if k.shape_count() == 1 && k.boolean {
        Option::Some("bool!("@ + argd + ")"@)
    } else if k.shape_count() == 1 && !(k.object is Never) {
        Option::Some("object!("@ + argd + ")"@)
    } else if k.shape_count() == 1 && !(k.array is Never) {
        Option::Some("array!("@ + argd + ")"@)
    } else if k.shape_count() == 1 && k.timestamp {
        Option::Some("timestamp!("@ + argd + ")"@)
    } else {
        Option::None
    }
}

/// The fallible-coercion-with-default rewrite, where the kind has a safe
/// default.
pub open spec fn coerce_suggestion(k: KindV, argd: Seq<char>) -> Option<Seq<char>> {
    if k.shape_count() == 1 && k.bytes {
        Option::Some("to_string("@ + argd + ") ?? \"default\""@)
    } else if k.shape_count() == 1 && k.integer {
        Option::Some("to_int("@ + argd + ") ?? 0"@)
    } else if k.shape_count() == 1 && k.float {
        Option::Some("to_float("@ + argd + ") ?? 0"@)
    } else if k.shape_count() == 1 && k.boolean {
        Option::Some("to_bool("@ + argd + ") ?? false"@)
    } else if k.shape_count() == 1 && k.timestamp {
        Option::Some("to_timestamp("@ + argd + ") ?? now()"@)
    } else {
        Option::None
    }
}

/// The full call as the user wrote it, for use inside a suggested rewrite.
pub open spec fn call_suggestion(
    function_ident: Seq<char>,
    abort_on_error: bool,
    arguments_fmt: Seq<Seq<char>>,
) -> Seq<char> {
    function_ident + (if abort_on_error {
        "!"@
    } else {
        Seq::<char>::empty()
    }) + "("@ + strings_join(arguments_fmt, arguments_fmt.len() as int) + ")"@
}

/// The remediation notes of each failure: documentation pointers, and for a
/// kind mismatch two alternative rewrites — a type guard, and where a safe
/// default exists a fallible coercion — neither auto-applied.
pub open spec fn error_notes(e: Error) -> Seq<NoteV> {
    match e {
        Error::WrongNumberOfArgs { .. } => seq![
            NoteV::SeeDocs(
                "function arguments"@,
                "https://vrl.dev/expressions/"@ + "#arguments"@,
            ),
        ],
        Error::AbortInfallible { .. } => seq![NoteV::SeeErrorDocs],
        Error::FallibleArgument { .. } => seq![NoteV::SeeErrorDocs],
        Error::InvalidArgumentKind {
            function_ident,
            abort_on_error,
            arguments_fmt,
            parameter,
            argument,
            ..
        } => {
            let argd = arg_display(argument@);
            match guard_suggestion(parameter@.kind, argd) {
                Option::None => Seq::empty(),
                Option::Some(guard) => {
                    let call = call_suggestion(
                        function_ident@,
                        abort_on_error,
                        strings_view(arguments_fmt),
                    );
                    let base = seq![
                        NoteV::Solution {
                            title: "ensuring an appropriate type at runtime"@,
                            code: seq![argd + " = "@ + guard, call],
                        },
                    ];
                    let with_coerce = match coerce_suggestion(parameter@.kind, argd) {
                        Option::Some(coerce) => base.push(
                            NoteV::Solution {
                                title:
                                    "coercing to an appropriate type and specifying a default value as a fallback in case coercion fails"@,
                                code: seq![argd + " = "@ + coerce, call],
                            },
                        ),
                        Option::None => base,
                    };
                    with_coerce.push(NoteV::SeeErrorDocs)
                },
            }
        },
        Error::Compilation { error, .. } => notes_view(error.notes),
        _ => Seq::empty(),
    }
}

} // verus!
verus! {

impl Error {
    /// The numeric code of this diagnostic.
    pub fn code(&self) -> (r: usize)
        ensures
            r == error_code(*self),
    {
        match self {
            Error::Undefined { .. } => 105,
            Error::WrongNumberOfArgs { .. } => 106,
            Error::UnknownKeyword { .. } => 108,
            Error::Compilation { .. } => 610,
            Error::MissingArgument { .. } => 107,
            Error::AbortInfallible { .. } => 620,
            Error::InvalidArgumentKind { .. } => 110,
            Error::FallibleArgument { .. } => 630,
            Error::UpdateState { .. } => 640,
        }
    }

    /// The headline of this diagnostic.
    pub fn message(&self) -> (r: String)
        ensures
            r@ == error_message(*self),
    {
        match self {
            Error::Undefined { .. } => String::from_str("call to undefined function"),
            Error::WrongNumberOfArgs { .. } => String::from_str(
                "wrong number of function arguments",
            ),
            Error::UnknownKeyword { .. } => String::from_str("unknown function argument keyword"),
            Error::MissingArgument { .. } => String::from_str("missing function argument"),
            Error::Compilation { error, .. } => {
                let mut m = String::from_str("function compilation error: error[E");
                push_dec(&mut m, error.code);
                m.append("] ");
                m.append(error.message.as_str());
                proof {
                    assert(m@ =~= error_message(*self));
                }
                m
            },
            Error::AbortInfallible { .. } => String::from_str("can't abort infallible function"),
            Error::InvalidArgumentKind { .. } => String::from_str("invalid argument type"),
            Error::FallibleArgument { .. } => String::from_str("fallible argument"),
            Error::UpdateState { error, .. } => {
                let mut m = String::from_str("error updating state ");
                m.append(error.as_str());
                proof {
                    assert(m@ =~= error_message(*self));
                }
                m
            },
        }
    }

    /// The source-anchored labels of this diagnostic: one primary label
    /// naming the fault, plus context. For an undefined function the nearest
    /// registered identifier by edit distance is suggested; a wrapped
    /// compilation error keeps its labels, re-anchored to the call's span.
    pub fn labels(&self) -> (r: Vec<Label>)
        requires
            self matches Error::Undefined { ident, idents, .. } ==> (forall|i: int|
                0 <= i < strings_view(*idents).len() ==> ident@.len() + (#[trigger] strings_view(
                    *idents,
                )[i]).len() < usize::MAX),
        ensures
            labels_view(r) == error_labels(*self),
    {
        let mut out: Vec<Label> = Vec::new();
        match self {
            Error::Undefined { ident_span, ident, idents } => {
                let ghost identv = ident@;
                let ghost sv = strings_view(*idents);
                out.push(Label::primary(String::from_str("undefined function"), *ident_span));
                let ident_chars = str_chars(ident.name.as_str());
                let mut best: Option<usize> = None;
                let mut best_dist: usize = 0;
                let mut i: usize = 0;
                while i < idents.len()
                    invariant
                        i <= idents@.len(),
                        identv == ident@,
                        sv == strings_view(*idents),
                        sv.len() == idents@.len(),
                        ident_chars@ == identv,
                        forall|q: int|
                            0 <= q < sv.len() ==> identv.len() + (#[trigger] sv[q]).len()
                                < usize::MAX,
                        match best_candidate(identv, sv, i as int) {
                            Some(p) => best matches Some(bp) && bp == p && bp < idents@.len()
                                && best_dist == levenstein::edit_distance(identv, sv[p]),
                            None => best is None,
                        },
                    decreases idents@.len() - i,
                {
                    let cand_chars = str_chars(idents[i].as_str());
                    proof {
                        assert(sv[i as int] == idents@[i as int]@);
                    }
                    let d = levenstein::distance(&ident_chars, &cand_chars);
                    match best {
                        None => {
                            best = Some(i);
                            best_dist = d;
                        },
                        Some(_) => {
                            if d < best_dist {
                                best = Some(i);
                                best_dist = d;
                            }
                        },
                    }
                    i += 1;
                }
                match best {
                    Some(bp) => {
                        let mut m = String::from_str("did you mean \"");
                        m.append(idents[bp].as_str());
                        m.append("\"?");
                        proof {
                            assert(m@ =~= "did you mean \""@ + sv[bp as int] + "\"?"@);
                        }
                        out.push(Label::context(m, *ident_span));
                    },
                    None => {},
                }
                proof {
                    assert(labels_view(out) =~= error_labels(*self));
                }
            },
            Error::WrongNumberOfArgs { arguments_span, max } => {
                out.push(
                    Label::primary(String::from_str("too many function arguments"), *arguments_span),
                );
                let mut m = String::from_str("this function takes a maximum of ");
                push_dec(&mut m, *max);
                m.append(" ");
                if *max == 1 {
                    m.append("argument");
                } else {
                    m.append("arguments");
                }
                out.push(Label::context(m, *arguments_span));
                proof {
                    assert(labels_view(out) =~= error_labels(*self));
                }
            },
            Error::UnknownKeyword { keyword_span, ident_span, keywords } => {
                out.push(Label::primary(String::from_str("unknown keyword"), *keyword_span));
                let mut m = String::from_str("this function accepts the following keywords: ");
                push_quoted_join(&mut m, keywords);
                out.push(Label::context(m, *ident_span));
                proof {
                    assert(labels_view(out) =~= error_labels(*self));
                }
            },
            Error::Compilation { call_span, error } => {
                let mut i: usize = 0;
                while i < error.labels.len()
                    invariant
                        i <= error.labels@.len(),
                        out@.len() == i,
                        forall|q: int|
                            0 <= q < i ==> (#[trigger] out@[q])@ == (LabelView {
                                message: error.labels@[q]@.message,
                                primary: error.labels@[q]@.primary,
                                span: *call_span,
                            }),
                    decreases error.labels@.len() - i,
                {
                    let message = error.labels[i].message.clone();
                    let primary = error.labels[i].primary;
                    out.push(Label { message, primary, span: *call_span });
                    proof {
                        assert(out@[i as int]@ == (LabelView {
                            message: error.labels@[i as int]@.message,
                            primary: error.labels@[i as int]@.primary,
                            span: *call_span,
                        }));
                    }
                    i += 1;
                }
                proof {
                    assert(labels_view(out) =~= error_labels(*self));
                }
            },
            Error::MissingArgument { call_span, keyword, position } => {
                let mut m = String::from_str("required argument missing: \"");
                m.append(keyword.as_str());
                m.append("\" (position ");
                push_dec(&mut m, *position);
                m.append(")");
                out.push(Label::primary(m, *call_span));
                proof {
                    assert(labels_view(out) =~= error_labels(*self));
                }
            },
            Error::AbortInfallible { ident_span, abort_span } => {
                out.push(Label::primary(String::from_str("this function can't fail"), *ident_span));
                out.push(
                    Label::context(String::from_str("remove this abort-instruction"), *abort_span),
                );
                proof {
                    assert(labels_view(out) =~= error_labels(*self));
                }
            },
            Error::InvalidArgumentKind { parameter, got, argument, argument_span, .. } => {
                let mut m1 = String::from_str("this expression resolves to ");
                push_kind_description(got, &mut m1);
                out.push(Label::primary(m1, argument.expr.span));
                let mut m2 = String::from_str("but the parameter \"");
                m2.append(parameter.keyword.as_str());
                m2.append("\" expects ");
                push_kind_description(&parameter.kind, &mut m2);
                proof {
                    assert(m2@ =~= "but the parameter \""@ + parameter.keyword@ + "\" expects "@
                        + kind_description(parameter@.kind));
                }
                out.push(Label::context(m2, *argument_span));
                proof {
                    assert(labels_view(out) =~= error_labels(*self));
                }
            },
            Error::FallibleArgument { expr_span } => {
                out.push(Label::primary(String::from_str("this expression can fail"), *expr_span));
                out.push(
                    Label::context(
                        String::from_str("handle the error before passing it in as an argument"),
                        *expr_span,
                    ),
                );
                proof {
                    assert(labels_view(out) =~= error_labels(*self));
                }
            },
            Error::UpdateState { call_span, error } => {
                let mut m = String::from_str("an error occurred updating the compiler state: ");
                m.append(error.as_str());
                out.push(Label::primary(m, *call_span));
                proof {
                    assert(labels_view(out) =~= error_labels(*self));
                }
            },
        }
        out
    }

    /// The remediation notes of this diagnostic; see [`error_notes`].
    pub fn notes(&self) -> (r: Vec<Note>)
        ensures
            notes_view(r) == error_notes(*self),
    {
        let mut out: Vec<Note> = Vec::new();
        match self {
            Error::WrongNumberOfArgs { .. } => {
                out.push(
                    Note::SeeDocs(
                        String::from_str("function arguments"),
                        expression_docs_url("#arguments"),
                    ),
                );
                proof {
                    assert(notes_view(out) =~= error_notes(*self));
                }
            },
            Error::AbortInfallible { .. } => {
                out.push(Note::SeeErrorDocs);
                proof {
                    assert(notes_view(out) =~= error_notes(*self));
                }
            },
            Error::FallibleArgument { .. } => {
                out.push(Note::SeeErrorDocs);
                proof {
                    assert(notes_view(out) =~= error_notes(*self));
                }
            },
            Error::InvalidArgumentKind {
                function_ident,
                abort_on_error,
                arguments_fmt,
                parameter,
                argument,
                ..
            } => {
                let mut argd = String::new();
                write_arg_display(argument, &mut argd);
                let guard: Option<String> = if parameter.kind.is_bytes() {
                    Some(String::from_str("string!("))
                } else if parameter.kind.is_integer() {
                    Some(String::from_str("int!("))
                } else if parameter.kind.is_float() {
                    Some(String::from_str("float!("))
                } else if parameter.kind.is_boolean() {
                    Some(String::from_str("bool!("))
                } else if parameter.kind.is_object() {
                    Some(String::from_str("object!("))
                } else if parameter.kind.is_array() {
                    Some(String::from_str("array!("))
                } else if parameter.kind.is_timestamp() {
                    Some(String::from_str("timestamp!("))
                } else {
                    None
                };
                match guard {
                    None => {
                        proof {
                            assert(guard_suggestion(parameter@.kind, arg_display(argument@))
                                is None);
                            assert(notes_view(out) =~= error_notes(*self));
                        }
                    },
                    Some(prefix) => {
                        let mut guard_text = prefix;
                        guard_text.append(argd.as_str());
                        guard_text.append(")");
                        proof {
                            assert(guard_suggestion(parameter@.kind, arg_display(argument@))
                                matches Some(g) && g == guard_text@);
                        }
                        let mut call = String::new();
                        call.append(function_ident.as_str());
                        if *abort_on_error {
                            call.append("!");
                        }
                        call.append("(");
                        push_strings_join(&mut call, arguments_fmt);
                        call.append(")");
                        proof {
                            assert(call@ =~= call_suggestion(
                                function_ident@,
                                *abort_on_error,
                                strings_view(*arguments_fmt),
                            ));
                        }
                        let mut line1 = String::new();
                        line1.append(argd.as_str());
                        line1.append(" = ");
                        line1.append(guard_text.as_str());
                        let mut code1: Vec<String> = Vec::new();
                        code1.push(line1);
                        code1.push(call.clone());
                        proof {
                            assert(strings_view(code1) =~= seq![
                                arg_display(argument@) + " = "@ + guard_text@,
                                call@,
                            ]);
                        }
                        out.push(
                            Note::solution(
                                String::from_str("ensuring an appropriate type at runtime"),
                                code1,
                            ),
                        );
                        let coerce: Option<String> = if parameter.kind.is_bytes() {
                            Some(String::from_str("to_string("))
                        } else if parameter.kind.is_integer() {
                            Some(String::from_str("to_int("))
                        } else if parameter.kind.is_float() {
                            Some(String::from_str("to_float("))
                        } else if parameter.kind.is_boolean() {
                            Some(String::from_str("to_bool("))
                        } else if parameter.kind.is_timestamp() {
                            Some(String::from_str("to_timestamp("))
                        } else {
                            None
                        };
                        match coerce {
                            Some(cprefix) => {
                                let mut coerce_text = cprefix;
                                coerce_text.append(argd.as_str());
                                if parameter.kind.is_bytes() {
                                    coerce_text.append(") ?? \"default\"");
                                } else if parameter.kind.is_integer() {
                                    coerce_text.append(") ?? 0");
                                } else if parameter.kind.is_float() {
                                    coerce_text.append(") ?? 0");
                                } else if parameter.kind.is_boolean() {
                                    coerce_text.append(") ?? false");
                                } else {
                                    coerce_text.append(") ?? now()");
                                }
                                proof {
                                    assert(coerce_suggestion(
                                        parameter@.kind,
                                        arg_display(argument@),
                                    ) matches Some(c) && c == coerce_text@);
                                }
                                let mut line2 = String::new();
                                line2.append(argd.as_str());
                                line2.append(" = ");
                                line2.append(coerce_text.as_str());
                                let mut code2: Vec<String> = Vec::new();
                                code2.push(line2);
                                code2.push(call.clone());
                                proof {
                                    assert(strings_view(code2) =~= seq![
                                        arg_display(argument@) + " = "@ + coerce_text@,
                                        call@,
                                    ]);
                                }
                                out.push(
                                    Note::solution(
                                        String::from_str(
                                            "coercing to an appropriate type and specifying a default value as a fallback in case coercion fails",
                                        ),
                                        code2,
                                    ),
                                );
                            },
                            None => {
                                proof {
                                    assert(coerce_suggestion(
                                        parameter@.kind,
                                        arg_display(argument@),
                                    ) is None);
                                }
                            },
                        }
                        out.push(Note::SeeErrorDocs);
                        proof {
                            assert(notes_view(out) =~= error_notes(*self));
                        }
                    },
                }
            },
            Error::Compilation { error, .. } => {
                let mut i: usize = 0;
                while i < error.notes.len()
                    invariant
                        i <= error.notes@.len(),
                        out@.len() == i,
                        forall|q: int| 0 <= q < i ==> (#[trigger] out@[q])@ == error.notes@[q]@,
                    decreases error.notes@.len() - i,
                {
                    let n = match &error.notes[i] {
                        Note::SeeDocs(topic, url) => Note::SeeDocs(topic.clone(), url.clone()),
                        Note::SeeErrorDocs => Note::SeeErrorDocs,
                        Note::Solution { title, code } => {
                            let mut code2: Vec<String> = Vec::new();
                            let mut j: usize = 0;
                            while j < code.len()
                                invariant
                                    j <= code@.len(),
                                    code2@.len() == j,
                                    forall|q: int|
                                        0 <= q < j ==> (#[trigger] code2@[q])@ == code@[q]@,
                                decreases code@.len() - j,
                            {
                                let line = code[j].clone();
                                code2.push(line);
                                j += 1;
                            }
                            proof {
                                assert(strings_view(code2) =~= strings_view(*code));
                            }
                            Note::Solution { title: title.clone(), code: code2 }
                        },
                    };
                    proof {
                        assert(n@ == error.notes@[i as int]@);
                    }
                    out.push(n);
                    proof {
                        assert(out@[i as int]@ == error.notes@[i as int]@);
                    }
                    i += 1;
                }
                proof {
                    assert(notes_view(out) =~= error_notes(*self));
                }
            },
            _ => {
                proof {
                    assert(notes_view(out) =~= error_notes(*self));
                }
            },
        }
        out
    }
}

} // verus!
verus! {

impl FunctionCall {
    /// Re-resolves the call's supplied arguments against `function`'s
    /// schema: the result lists, for each parameter in declaration order,
    /// its keyword and the argument bound to it, if any. Keyword arguments
    /// claim their parameters (the later of two duplicates wins); the
    /// unkeyed ones fill the remaining slots left to right.
    pub fn resolve_arguments(&self, function: &FunctionDecl) -> (r: Result<
        Vec<(String, Option<ResolvedArgument>)>,
        String,
    >)
        ensures
            ({
                let pv = params_view(function.parameters);
                let av = args_view(self.arguments);
                match r {
                    Ok(out) => can_resolve(pv, av) && (exists|slots: Seq<Option<usize>>|
                        #[trigger] slots_assignment(pv, av, slots) && out@.len() == pv.len() && (
                        forall|p: int|
                            0 <= p < pv.len() ==> {
                                &&& (#[trigger] out@[p]).0@ == pv[p].keyword
                                &&& (match slots[p] {
                                    Some(ai) => ai < av.len() && (out@[p].1 matches Some(ra)
                                        && ra@.argument == pv[p] && ra@.expression
                                        == av[ai as int].node.expr.node),
                                    None => out@[p].1 is None,
                                })
                            })),
                    Err(m) => !can_resolve(pv, av) && m@
                        == "argument does not bind to any parameter of the function"@,
                }
            }),
    {
        let ghost pv = params_view(function.parameters);
        let ghost av = args_view(self.arguments);
        let slots = match resolve_argument_slots(&function.parameters, &self.arguments) {
            Ok(s) => s,
            Err(m) => {
                return Err(m);
            },
        };
        let mut out: Vec<(String, Option<ResolvedArgument>)> = Vec::new();
        let mut p: usize = 0;
        while p < slots.len()
            invariant
                p <= slots@.len(),
                pv == params_view(function.parameters),
                av == args_view(self.arguments),
                av.len() == self.arguments@.len(),
                slots@.len() == pv.len(),
                pv.len() == function.parameters@.len(),
                slots_assignment(pv, av, slots@),
                out@.len() == p,
                forall|j: int|
                    0 <= j < p ==> {
                        &&& (#[trigger] out@[j]).0@ == pv[j].keyword
                        &&& (match slots@[j] {
                            Some(ai) => ai < av.len() && (out@[j].1 matches Some(ra)
                                && ra@.argument == pv[j] && ra@.expression
                                == av[ai as int].node.expr.node),
                            None => out@[j].1 is None,
                        })
                    },
            decreases slots@.len() - p,
        {
            let keyword = function.parameters[p].keyword.clone();
            let entry: Option<ResolvedArgument> = match slots[p] {
                Some(ai) => {
                    proof {
                        assert(slots@[p as int] matches Some(x) && x < self.arguments@.len());
                        assert(av[ai as int].node.expr.node == expr_view(
                            self.arguments@[ai as int].node.expr.node,
                        ));
                    }
                    Some(
                        ResolvedArgument {
                            argument: function.parameters[p].deep_clone(),
                            expression: self.arguments[ai].node.expr.node.deep_clone(),
                        },
                    )
                },
                None => None,
            };
            out.push((keyword, entry));
            i_step(&mut p);
        }
        proof {
            assert(slots_assignment(pv, av, slots@));
        }
        Ok(out)
    }

    /// Classifies each re-resolved argument for the bytecode backend: an
    /// argument whose value is statically known is precomputed into the
    /// statics pool, any other bound argument is compiled in place, and an
    /// absent optional argument stays absent so slot alignment is kept.
    pub fn compile_arguments(&self, function: &FunctionDecl) -> (r: Result<
        Vec<(String, Option<CompiledArgument>)>,
        String,
    >)
        ensures
            ({
                let pv = params_view(function.parameters);
                let av = args_view(self.arguments);
                match r {
                    Ok(out) => can_resolve(pv, av) && (exists|slots: Seq<Option<usize>>|
                        #[trigger] slots_assignment(pv, av, slots) && out@.len() == pv.len() && (
                        forall|p: int|
                            0 <= p < pv.len() ==> {
                                &&& (#[trigger] out@[p]).0@ == pv[p].keyword
                                &&& (match slots[p] {
                                    Some(ai) => ai < av.len() && (match as_value_of(
                                        av[ai as int].node.expr.node,
                                    ) {
                                        Some(v) => out@[p].1 matches Some(
                                            CompiledArgument::Static(sv),
                                        ) && sv@ == v,
                                        None => out@[p].1 matches Some(
                                            CompiledArgument::Dynamic(ra),
                                        ) && ra@.argument == pv[p] && ra@.expression
                                            == av[ai as int].node.expr.node,
                                    }),
                                    None => out@[p].1 is None,
                                })
                            })),
                    Err(m) => !can_resolve(pv, av) && m@
                        == "argument does not bind to any parameter of the function"@,
                }
            }),
    {
        let ghost pv = params_view(function.parameters);
        let ghost av = args_view(self.arguments);
        let resolved = match self.resolve_arguments(function) {
            Ok(s) => s,
            Err(m) => {
                return Err(m);
            },
        };
        let ghost slots = choose|slots: Seq<Option<usize>>|
            #[trigger] slots_assignment(pv, av, slots) && resolved@.len() == pv.len() && (forall|
                p: int,
            |
                0 <= p < pv.len() ==> {
                    &&& (#[trigger] resolved@[p]).0@ == pv[p].keyword
                    &&& (match slots[p] {
                        Some(ai) => ai < av.len() && (resolved@[p].1 matches Some(ra)
                            && ra@.argument == pv[p] && ra@.expression
                            == av[ai as int].node.expr.node),
                        None => resolved@[p].1 is None,
                    })
                });
        let ghost rv = resolved@;
        let mut p: usize = 0;
        let n = resolved.len();
        let mut rest = resolved;
        let mut out2: Vec<(String, Option<CompiledArgument>)> = Vec::new();
        while p < n
            invariant
                p <= n,
                n == rv.len(),
                rest@ =~= rv.subrange(p as int, n as int),
                pv == params_view(function.parameters),
                av == args_view(self.arguments),
                rv.len() == pv.len(),
                slots_assignment(pv, av, slots),
                forall|j: int|
                    0 <= j < pv.len() ==> {
                        &&& (#[trigger] rv[j]).0@ == pv[j].keyword
                        &&& (match slots[j] {
                            Some(ai) => ai < av.len() && (rv[j].1 matches Some(ra) && ra@.argument
                                == pv[j] && ra@.expression == av[ai as int].node.expr.node),
                            None => rv[j].1 is None,
                        })
                    },
                out2@.len() == p,
                forall|j: int|
                    0 <= j < p ==> {
                        &&& (#[trigger] out2@[j]).0@ == pv[j].keyword
                        &&& (match slots[j] {
                            Some(ai) => ai < av.len() && (match as_value_of(
                                av[ai as int].node.expr.node,
                            ) {
                                Some(v) => out2@[j].1 matches Some(CompiledArgument::Static(sv))
                                    && sv@ == v,
                                None => out2@[j].1 matches Some(CompiledArgument::Dynamic(ra))
                                    && ra@.argument == pv[j] && ra@.expression
                                    == av[ai as int].node.expr.node,
                            }),
                            None => out2@[j].1 is None,
                        })
                    },
            decreases n - p,
        {
            let item = rest.remove(0);
            proof {
                assert(item == rv[p as int]);
                assert(rest@ =~= rv.subrange(p + 1, n as int));
            }
            let (keyword, entry) = item;
            let compiled: Option<CompiledArgument> = match entry {
                Some(ra) => {
                    match ra.expression.as_value() {
                        Some(v) => Some(CompiledArgument::Static(v)),
                        None => Some(CompiledArgument::Dynamic(ra)),
                    }
                },
                None => None,
            };
            out2.push((keyword, compiled));
            p += 1;
        }
        Ok(out2)
    }
}

/// Advances a loop counter; kept separate so the borrow of the output
/// vector ends before the increment.
fn i_step(i: &mut usize)
    requires
        *old(i) < usize::MAX,
    ensures
        *final(i) == *old(i) + 1,
{
    *i = *i + 1;
}

} // verus!
verus! {

impl FunctionCall {
    /// The call as it was written: the identifier and the supplied
    /// arguments, in source order.
    pub fn display_string(&self) -> (r: String)
        ensures
            r@ == self@.ident + "("@ + args_display_join(
                self@.arguments,
                self@.arguments.len() as int,
            ) + ")"@,
    {
        let mut out = String::new();
        out.append(self.ident.as_str());
        out.append("(");
        let ghost entry = out@;
        let mut i: usize = 0;
        while i < self.arguments.len()
            invariant
                i <= self.arguments@.len(),
                out@ == entry + args_display_join(args_view(self.arguments), i as int),
            decreases self.arguments@.len() - i,
        {
            if i > 0 {
                out.append(", ");
            }
            write_arg_display(&self.arguments[i].node, &mut out);
            proof {
                assert(args_view(self.arguments)[i as int].node == arg_view(
                    self.arguments@[i as int].node,
                ));
                assert(out@ =~= entry + args_display_join(args_view(self.arguments), i + 1));
            }
            i += 1;
        }
        out.append(")");
        proof {
            assert(out@ =~= self@.ident + "("@ + args_display_join(
                self@.arguments,
                self@.arguments.len() as int,
            ) + ")"@);
        }
        out
    }
}

} // verus!

use vstd::prelude::*;
use vstd::string::StringExecFns;
use crate::span::Span;
use crate::parser::{Node, NodeV, Ident};
use crate::value::{Value, ValueV, value_display};
use crate::kind::{KindV, kind_of_value, empty_kind, kind_is_superset, CollectionKindV};
use crate::type_def::{TypeDef, TypeDefV};
use crate::diagnostic::{Label, LabelV, Note, NoteV, labels_view, notes_view};
use crate::state::{LocalEnv, ExternalEnv};
use crate::context::Context;
use crate::text::dec_digits;

pub mod literal;
pub mod noop;
pub mod array;
pub mod unary;
pub mod function_call;
pub mod levenstein;

use literal::Literal;
use noop::Noop;
use array::Array;
use unary::{Unary, Variant, Not};
use function_call::FunctionCall;

verus! {

broadcast use vstd::std_specs::vec::axiom_vec_index_decreases, vstd::seq::group_seq_axioms;

/// A runtime failure.
#[derive(Debug, PartialEq)]
pub enum ExpressionError {
    /// A recoverable error; it bubbles to the nearest error-handling
    /// construct or to the top-level caller.
    Error { message: String, labels: Vec<Label>, notes: Vec<Note> },
    /// The abort control-flow signal, reserved for an explicit abort
    /// construct. None of the expression forms in this core raises it.
    Abort { span: Span },
}

/// Mathematical model of an [`ExpressionError`].
#[verifier::ext_equal]
pub enum ErrV {
    Error { message: Seq<char>, labels: Seq<LabelV>, notes: Seq<NoteV> },
    Abort { span: Span },
}

impl View for ExpressionError {
    type V = ErrV;

    open spec fn view(&self) -> ErrV {
        match *self {
            ExpressionError::Error { message, labels, notes } => ErrV::Error {
                message: message@,
                labels: labels_view(labels),
                notes: notes_view(notes),
            },
            ExpressionError::Abort { span } => ErrV::Abort { span },
        }
    }
}

/// What evaluating an expression produces.
pub type Resolved = Result<Value, ExpressionError>;

/// Whether the executable result `r` models the mathematical result `m`.
pub open spec fn resolved_models(r: Resolved, m: Result<ValueV, ErrV>) -> bool {
    match r {
        Ok(v) => m == Ok::<ValueV, ErrV>(v@),
        Err(e) => m == Err::<ValueV, ErrV>(e@),
    }
}

/// One supplied argument of a function call: an optional keyword and the
/// argument expression, each with its source span.
#[derive(Debug, PartialEq)]
pub struct FunctionArgument {
    pub ident: Option<Node<Ident>>,
    pub expr: Node<Expr>,
}

/// An expression of the language. The forms covered by this core are the
/// literal, the array literal, unary operators, function calls and the
/// no-operation placeholder; further forms extend the enum.
#[derive(Debug, PartialEq)]
pub enum Expr {
    Literal(Literal),
    Array(Array),
    Unary(Unary),
    FunctionCall(FunctionCall),
    Noop(Noop),
}

/// Mathematical model of a [`FunctionArgument`].
#[verifier::ext_equal]
pub struct ArgV {
    pub ident: Option<NodeV<Seq<char>>>,
    pub expr: NodeV<ExprV>,
}

/// Mathematical model of a [`Not`] node.
#[verifier::ext_equal]
pub struct NotV {
    pub inner: Box<ExprV>,
    pub span: Span,
}

/// Mathematical model of a [`Unary`] node.
#[verifier::ext_equal]
pub enum UnaryV {
    Not(NotV),
}

/// Mathematical model of a [`FunctionCall`] node.
#[verifier::ext_equal]
pub struct CallV {
    pub abort_on_error: bool,
    pub expr: Box<ExprV>,
    pub maybe_fallible_arguments: bool,
    pub span: Span,
    pub ident: Seq<char>,
    pub function_id: usize,
    pub arguments: Seq<NodeV<ArgV>>,
}

/// Mathematical model of an [`Expr`].
#[verifier::ext_equal]
pub enum ExprV {
    Literal(ValueV),
    Array(Seq<ExprV>),
    Unary(UnaryV),
    FunctionCall(Box<CallV>),
    Noop,
}

/// The views of the elements of an expression vector.
pub open spec fn exprs_view(elems: Vec<Expr>) -> Seq<ExprV>
    decreases elems,
{
    Seq::new(
        elems@.len(),
        |i: int|
            if 0 <= i < elems@.len() {
                expr_view(elems@[i])
            } else {
                arbitrary()
            },
    )
}

/// The view of one supplied argument.
pub open spec fn arg_view(a: FunctionArgument) -> ArgV
    decreases a,
{
    ArgV {
        ident: match a.ident {
            Option::None => Option::None,
            Option::Some(n) => Option::Some(NodeV { span: n.span, node: n.node@ }),
        },
        expr: NodeV { span: a.expr.span, node: expr_view(a.expr.node) },
    }
}

impl View for FunctionArgument {
    type V = ArgV;

    open spec fn view(&self) -> ArgV {
        arg_view(*self)
    }
}

/// The views of the supplied arguments of a call.
pub open spec fn args_view(args: Vec<Node<FunctionArgument>>) -> Seq<NodeV<ArgV>>
    decreases args,
{
    Seq::new(
        args@.len(),
        |i: int|
            if 0 <= i < args@.len() {
                NodeV { span: args@[i].span, node: arg_view(args@[i].node) }
            } else {
                arbitrary()
            },
    )
}

/// The view of a call node.
pub open spec fn call_view(c: FunctionCall) -> CallV
    decreases c,
{
    CallV {
        abort_on_error: c.abort_on_error,
        expr: Box::new(expr_view(*c.expr)),
        maybe_fallible_arguments: c.maybe_fallible_arguments,
        span: c.span,
        ident: c.ident@,
        function_id: c.function_id,
        arguments: args_view(c.arguments),
    }
}

impl View for FunctionCall {
    type V = CallV;

    open spec fn view(&self) -> CallV {
        call_view(*self)
    }
}

/// The mathematical model of an expression.
pub open spec fn expr_view(e: Expr) -> ExprV
    decreases e,
{
    match e {
        Expr::Literal(l) => ExprV::Literal(l.value@),
        Expr::Array(a) => ExprV::Array(exprs_view(a.inner)),
        Expr::Unary(u) => match u.variant {
            Variant::Not(n) => ExprV::Unary(
                UnaryV::Not(NotV { inner: Box::new(expr_view(*n.inner)), span: n.span }),
            ),
        },
        Expr::FunctionCall(c) => ExprV::FunctionCall(Box::new(call_view(c))),
        Expr::Noop(_) => ExprV::Noop,
    }
}

impl View for Expr {
    type V = ExprV;

    open spec fn view(&self) -> ExprV {
        expr_view(*self)
    }
}

impl View for Literal {
    type V = ValueV;

    open spec fn view(&self) -> ValueV {
        self.value@
    }
}

impl View for Array {
    type V = Seq<ExprV>;

    open spec fn view(&self) -> Seq<ExprV> {
        exprs_view(self.inner)
    }
}

impl View for Not {
    type V = NotV;

    open spec fn view(&self) -> NotV {
        NotV { inner: Box::new(expr_view(*self.inner)), span: self.span }
    }
}

impl View for Unary {
    type V = UnaryV;

    open spec fn view(&self) -> UnaryV {
        match self.variant {
            Variant::Not(n) => UnaryV::Not(
                NotV { inner: Box::new(expr_view(*n.inner)), span: n.span },
            ),
        }
    }
}

// ------------------------------------------------------------------
// Evaluation semantics
// ------------------------------------------------------------------

/// The message an error of a call to `ident` spanning `span` is wrapped in.
pub open spec fn call_error_message(ident: Seq<char>, span: Span, inner: Seq<char>) -> Seq<char> {
    "function call error for \""@ + ident + "\" at ("@ + dec_digits(span.start as nat) + ":"@
        + dec_digits(span.end as nat) + "): "@ + inner
}

/// The message of the runtime error raised when logical negation meets a
/// non-boolean operand.
pub open spec fn not_operand_message() -> Seq<char> {
    "the operand of logical negation must resolve to a boolean"@
}

/// Left-to-right evaluation of the first `n` elements; the first failure
/// short-circuits, so no partial array is ever produced.
pub open spec fn eval_elems(elems: Seq<ExprV>, n: int) -> Result<Seq<ValueV>, ErrV>
    decreases elems, 0int, n,
{
    if n <= 0 || n > elems.len() {
        Ok(Seq::empty())
    } else {
        match eval_elems(elems, n - 1) {
            Err(e) => Err(e),
            Ok(vs) => match eval(elems[n - 1]) {
                Err(e) => Err(e),
                Ok(v) => Ok(vs.push(v)),
            },
        }
    }
}

pub open spec fn eval_array(elems: Seq<ExprV>) -> Result<ValueV, ErrV>
    decreases elems, 1int, 0int,
{
    match eval_elems(elems, elems.len() as int) {
        Ok(vs) => Ok(ValueV::Array(vs)),
        Err(e) => Err(e),
    }
}

pub open spec fn eval_not(n: NotV) -> Result<ValueV, ErrV>
    decreases n,
{
    match eval(*n.inner) {
        Ok(ValueV::Boolean(b)) => Ok(ValueV::Boolean(!b)),
        Ok(_) => Err(
            ErrV::Error {
                message: not_operand_message(),
                labels: seq![
                    LabelV { message: not_operand_message(), primary: true, span: n.span },
                ],
                notes: Seq::empty(),
            },
        ),
        Err(e) => Err(e),
    }
}

pub open spec fn eval_unary(u: UnaryV) -> Result<ValueV, ErrV>
    decreases u,
{
    match u {
        UnaryV::Not(n) => eval_not(n),
    }
}

pub open spec fn eval_call(c: CallV) -> Result<ValueV, ErrV>
    decreases c,
{
    match eval(*c.expr) {
        Ok(v) => Ok(v),
        Err(ErrV::Abort { span }) => Err(ErrV::Abort { span }),
        Err(ErrV::Error { message, labels, notes }) => Err(
            ErrV::Error {
                message: call_error_message(c.ident, c.span, message),
                labels: labels.push(LabelV { message, primary: true, span: c.span }),
                notes,
            },
        ),
    }
}

/// Tree-walking evaluation semantics. Evaluation of the forms in this core
/// reads nothing from the runtime context, so the context is not a
/// parameter: every result holds in every environment.
pub open spec fn eval(e: ExprV) -> Result<ValueV, ErrV>
    decreases e,
{
    match e {
        ExprV::Literal(v) => Ok(v),
        ExprV::Array(elems) => eval_array(elems),
        ExprV::Unary(u) => eval_unary(u),
        ExprV::FunctionCall(c) => eval_call(*c),
        ExprV::Noop => Ok(ValueV::Null),
    }
}

// ------------------------------------------------------------------
// Static typing
// ------------------------------------------------------------------

/// The kinds of the elements of an expression sequence.
pub open spec fn elems_kinds(elems: Seq<ExprV>) -> Seq<KindV>
    decreases elems, 0int, 0int,
{
    Seq::new(
        elems.len(),
        |i: int|
            if 0 <= i < elems.len() {
                type_def_of(elems[i]).kind
            } else {
                arbitrary()
            },
    )
}

/// Whether one of the first `n` elements is statically fallible.
pub open spec fn elems_fallible(elems: Seq<ExprV>, n: int) -> bool
    decreases elems, 0int, n,
{
    if n <= 0 || n > elems.len() {
        false
    } else {
        elems_fallible(elems, n - 1) || type_def_of(elems[n - 1]).fallible
    }
}

/// The OR-fold over element fallibility is the existence of one fallible
/// element.
pub proof fn lemma_elems_fallible_exists(elems: Seq<ExprV>, n: int)
    requires
        0 <= n <= elems.len(),
    ensures
        elems_fallible(elems, n) == (exists|j: int|
            0 <= j < n && (#[trigger] type_def_of(elems[j])).fallible),
    decreases n,
{
    if n > 0 {
        lemma_elems_fallible_exists(elems, n - 1);
        if type_def_of(elems[n - 1]).fallible {
            assert(elems_fallible(elems, n));
        }
        if elems_fallible(elems, n) {
            if elems_fallible(elems, n - 1) {
                let w = choose|j: int|
                    0 <= j < n - 1 && (#[trigger] type_def_of(elems[j])).fallible;
                assert(0 <= w < n && type_def_of(elems[w]).fallible);
            } else {
                assert(type_def_of(elems[n - 1]).fallible);
            }
        }
    }
}

/// An array literal is fallible exactly when some element is; its kind maps
/// index `i` to the `i`-th element's kind, in source order.
pub open spec fn type_def_of_array(elems: Seq<ExprV>) -> TypeDefV
    decreases elems, 1int, 0int,
{
    TypeDefV {
        fallible: elems_fallible(elems, elems.len() as int),
        abortable: false,
        kind: KindV { array: CollectionKindV::Known(elems_kinds(elems)), ..empty_kind() },
    }
}

/// Logical negation produces a boolean; it is fallible when its operand is,
/// or when the operand is not statically known to be a boolean.
pub open spec fn type_def_of_not(n: NotV) -> TypeDefV
    decreases n,
{
    let t = type_def_of(*n.inner);
    TypeDefV {
        fallible: t.fallible || !kind_is_superset(KindV { boolean: true, ..empty_kind() }, t.kind),
        abortable: t.abortable,
        kind: KindV { boolean: true, ..empty_kind() },
    }
}

pub open spec fn type_def_of_unary(u: UnaryV) -> TypeDefV
    decreases u,
{
    match u {
        UnaryV::Not(n) => type_def_of_not(n),
    }
}

/// A call takes the type of its compiled inner expression; an argument that
/// only partially matched its parameter makes the whole call fallible, and
/// requested abort semantics replace ordinary fallibility.
pub open spec fn type_def_of_call(c: CallV) -> TypeDefV
    decreases c,
{
    let t = type_def_of(*c.expr);
    if c.abort_on_error {
        TypeDefV { fallible: false, abortable: true, kind: t.kind }
    } else {
        TypeDefV {
            fallible: t.fallible || c.maybe_fallible_arguments,
            abortable: t.abortable,
            kind: t.kind,
        }
    }
}

/// Everything statically known about an expression's result. Pure: typing
/// reads nothing from the compile environments for the forms in this core.
pub open spec fn type_def_of(e: ExprV) -> TypeDefV
    decreases e,
{
    match e {
        ExprV::Literal(v) => TypeDefV { fallible: false, abortable: false, kind: kind_of_value(v) },
        ExprV::Array(elems) => type_def_of_array(elems),
        ExprV::Unary(u) => type_def_of_unary(u),
        ExprV::FunctionCall(c) => type_def_of_call(*c),
        ExprV::Noop => TypeDefV {
            fallible: false,
            abortable: false,
            kind: KindV { null: true, ..empty_kind() },
        },
    }
}

// ------------------------------------------------------------------
// Static values
// ------------------------------------------------------------------

/// The statically known values of the first `n` elements, if every one of
/// them is statically known.
pub open spec fn elems_as_values(elems: Seq<ExprV>, n: int) -> Option<Seq<ValueV>>
    decreases elems, 0int, n,
{
    if n <= 0 || n > elems.len() {
        Option::Some(Seq::empty())
    } else {
        match elems_as_values(elems, n - 1) {
            Option::None => Option::None,
            Option::Some(vs) => match as_value_of(elems[n - 1]) {
                Option::None => Option::None,
                Option::Some(v) => Option::Some(vs.push(v)),
            },
        }
    }
}

/// The value an expression is statically known to evaluate to, if any:
/// literals are known, and an array of known elements is known.
pub open spec fn as_value_of(e: ExprV) -> Option<ValueV>
    decreases e,
{
    match e {
        ExprV::Literal(v) => Option::Some(v),
        ExprV::Array(elems) => match elems_as_values(elems, elems.len() as int) {
            Option::Some(vs) => Option::Some(ValueV::Array(vs)),
            Option::None => Option::None,
        },
        _ => Option::None,
    }
}

// ------------------------------------------------------------------
// Display
// ------------------------------------------------------------------

/// Source-style rendering of one supplied argument: `keyword: expr` when
/// keyworded, the expression alone otherwise.
pub open spec fn arg_display(a: ArgV) -> Seq<char>
    decreases a,
{
    match a.ident {
        Option::Some(id) => id.node + ": "@ + display_of(a.expr.node),
        Option::None => display_of(a.expr.node),
    }
}

/// Debugging rendering of one supplied argument.
pub open spec fn arg_debug(a: ArgV) -> Seq<char>
    decreases a,
{
    match a.ident {
        Option::Some(id) => "FunctionArgument("@ + id.node + ": "@ + display_of(a.expr.node)
            + ")"@,
        Option::None => "FunctionArgument("@ + display_of(a.expr.node) + ")"@,
    }
}

/// Source-style rendering of the first `n` elements, `", "`-separated.
pub open spec fn exprs_display_join(elems: Seq<ExprV>, n: int) -> Seq<char>
    decreases elems, n,
{
    if n <= 0 || n > elems.len() {
        Seq::empty()
    } else if n == 1 {
        display_of(elems[0])
    } else {
        exprs_display_join(elems, n - 1) + ", "@ + display_of(elems[n - 1])
    }
}

/// Source-style rendering of the first `n` supplied arguments.
pub open spec fn args_display_join(args: Seq<NodeV<ArgV>>, n: int) -> Seq<char>
    decreases args, n,
{
    if n <= 0 || n > args.len() {
        Seq::empty()
    } else if n == 1 {
        arg_display(args[0].node)
    } else {
        args_display_join(args, n - 1) + ", "@ + arg_display(args[n - 1].node)
    }
}

/// Source-style rendering of an expression.
pub open spec fn display_of(e: ExprV) -> Seq<char>
    decreases e,
{
    match e {
        ExprV::Literal(v) => value_display(v),
        ExprV::Array(elems) => "["@ + exprs_display_join(elems, elems.len() as int) + "]"@,
        ExprV::Unary(u) => match u {
            UnaryV::Not(n) => "!"@ + display_of(*n.inner),
        },
        ExprV::FunctionCall(c) => c.ident + "("@ + args_display_join(
            c.arguments,
            c.arguments.len() as int,
        ) + ")"@,
        ExprV::Noop => "null"@,
    }
}

// ------------------------------------------------------------------
// No form in this core raises the abort signal
// ------------------------------------------------------------------

proof fn lemma_eval_elems_no_abort(elems: Seq<ExprV>, n: int)
    ensures
        !(eval_elems(elems, n) matches Err(ErrV::Abort { .. })),
    decreases elems, n,
{
    if n <= 0 || n > elems.len() {
    } else {
        lemma_eval_elems_no_abort(elems, n - 1);
        lemma_eval_no_abort(elems[n - 1]);
    }
}

/// Evaluation of the forms in this core never raises the abort signal:
/// the abort control-flow channel is reserved for an explicit abort
/// construct elsewhere in the language.
pub proof fn lemma_eval_no_abort(e: ExprV)
    ensures
        !(eval(e) matches Err(ErrV::Abort { .. })),
    decreases e,
{
    match e {
        ExprV::Literal(_) => {},
        ExprV::Array(elems) => {
            lemma_eval_elems_no_abort(elems, elems.len() as int);
        },
        ExprV::Unary(u) => {
            match u {
                UnaryV::Not(n) => {
                    lemma_eval_no_abort(*n.inner);
                    assert(eval(e) == eval_not(n));
                    assert(!(eval(e) matches Err(ErrV::Abort { .. })));
                },
            }
        },
        ExprV::FunctionCall(c) => {
            lemma_eval_no_abort(*c.expr);
            assert(eval(e) == eval_call(*c));
            assert(!(eval(e) matches Err(ErrV::Abort { .. })));
        },
        ExprV::Noop => {},
    }
}

/// When every element evaluates, the fold collects exactly their values.
pub proof fn lemma_eval_elems_ok(elems: Seq<ExprV>, n: int)
    requires
        0 <= n <= elems.len(),
        forall|j: int| 0 <= j < n ==> (#[trigger] eval(elems[j])) is Ok,
    ensures
        eval_elems(elems, n) matches Ok(vs) && vs.len() == n && (forall|j: int|
            0 <= j < n ==> vs[j] == (#[trigger] eval(elems[j]))->Ok_0),
    decreases n,
{
    if n > 0 {
        lemma_eval_elems_ok(elems, n - 1);
        assert(eval(elems[n - 1]) is Ok);
        let prev = eval_elems(elems, n - 1)->Ok_0;
        let vs = prev.push(eval(elems[n - 1])->Ok_0);
        assert(eval_elems(elems, n) == Ok::<Seq<ValueV>, ErrV>(vs));
        assert(forall|j: int| 0 <= j < n - 1 ==> vs[j] == prev[j]);
        assert(vs[n - 1] == eval(elems[n - 1])->Ok_0);
    }
}

/// One failing element makes the whole prefix fail.
pub proof fn lemma_eval_elems_has_err(elems: Seq<ExprV>, j: int, n: int)
    requires
        0 <= j < n <= elems.len(),
        eval(elems[j]) is Err,
    ensures
        eval_elems(elems, n) is Err,
    decreases n,
{
    if j < n - 1 {
        lemma_eval_elems_has_err(elems, j, n - 1);
    }
}

proof fn lemma_elems_as_values_eval(elems: Seq<ExprV>, n: int)
    requires
        0 <= n <= elems.len(),
        elems_as_values(elems, n) is Some,
        forall|j: int|
            0 <= j < n ==> (as_value_of(#[trigger] elems[j]) matches Some(v) && eval(elems[j])
                == Ok::<ValueV, ErrV>(v)),
    ensures
        eval_elems(elems, n) == Ok::<Seq<ValueV>, ErrV>(elems_as_values(elems, n)->Some_0),
    decreases n,
{
    if n > 0 {
        lemma_elems_as_values_eval(elems, n - 1);
    }
}

/// A statically known value is exactly what evaluation produces.
pub proof fn lemma_as_value_eval(e: ExprV)
    requires
        as_value_of(e) is Some,
    ensures
        eval(e) == Ok::<ValueV, ErrV>(as_value_of(e)->Some_0),
    decreases e,
{
    match e {
        ExprV::Array(elems) => {
            assert forall|j: int|
                0 <= j < elems.len() implies (as_value_of(#[trigger] elems[j]) matches Some(v)
                && eval(elems[j]) == Ok::<ValueV, ErrV>(v)) by {
                lemma_elems_as_values_some_each(elems, elems.len() as int, j);
                lemma_as_value_eval(elems[j]);
            }
            lemma_elems_as_values_eval(elems, elems.len() as int);
        },
        _ => {},
    }
}

/// When a whole prefix is statically known, each element is.
proof fn lemma_elems_as_values_some_each(elems: Seq<ExprV>, n: int, j: int)
    requires
        0 <= j < n <= elems.len(),
        elems_as_values(elems, n) is Some,
    ensures
        as_value_of(elems[j]) is Some,
    decreases n,
{
    if j < n - 1 {
        lemma_elems_as_values_some_each(elems, n - 1, j);
    }
}

/// Once a prefix fails, every longer in-bounds prefix fails the same way.
pub proof fn lemma_eval_elems_err_persists(elems: Seq<ExprV>, k: int, n: int)
    requires
        0 <= k <= n <= elems.len(),
        eval_elems(elems, k) matches Err(_),
    ensures
        eval_elems(elems, n) == eval_elems(elems, k),
    decreases n - k,
{
    if n > k {
        lemma_eval_elems_err_persists(elems, k, n - 1);
    }
}

/// Once a prefix has no static value, no longer in-bounds prefix has one.
pub proof fn lemma_elems_as_values_none_persists(elems: Seq<ExprV>, k: int, n: int)
    requires
        0 <= k <= n <= elems.len(),
        elems_as_values(elems, k) is None,
    ensures
        elems_as_values(elems, n) is None,
    decreases n - k,
{
    if n > k {
        lemma_elems_as_values_none_persists(elems, k, n - 1);
    }
}

impl FunctionArgument {
    pub fn new(ident: Option<Node<Ident>>, expr: Node<Expr>) -> (a: FunctionArgument)
        ensures
            a.ident == ident,
            a.expr == expr,
    {
        FunctionArgument { ident, expr }
    }

    /// The keyword this argument was tagged with, if any.
    pub fn keyword(&self) -> (r: Option<&str>)
        ensures
            match r {
                Some(k) => self.ident matches Some(n) && k@ == n.node@,
                None => self.ident is None,
            },
    {
        match &self.ident {
            Some(n) => Some(n.node.as_str()),
            None => None,
        }
    }

    /// The span of the keyword tag, if any.
    pub fn keyword_span(&self) -> (r: Option<Span>)
        ensures
            match r {
                Some(s) => self.ident matches Some(n) && s == n.span,
                None => self.ident is None,
            },
    {
        match &self.ident {
            Some(n) => Some(n.span),
            None => None,
        }
    }

    /// The span of the argument expression.
    pub fn span(&self) -> (r: Span)
        ensures
            r == self.expr.span,
    {
        self.expr.span
    }

    /// The argument expression.
    pub fn inner(&self) -> (r: &Expr)
        ensures
            r == &self.expr.node,
    {
        &self.expr.node
    }

    /// A structural copy with the same mathematical model.
    pub fn deep_clone(&self) -> (r: FunctionArgument)
        ensures
            r@ == self@,
        decreases self,
    {
        let ident: Option<Node<Ident>> = match &self.ident {
            Some(n) => Some(Node { span: n.span, node: Ident { name: n.node.name.clone() } }),
            None => None,
        };
        proof {
            assert(decreases_to!(*self => self.expr));
            assert(decreases_to!(self.expr => self.expr.node));
        }
        let expr = Node { span: self.expr.span, node: self.expr.node.deep_clone() };
        FunctionArgument { ident, expr }
    }
}

impl Expr {
    /// Tree-walking evaluation: synchronous, single-threaded, leaving the
    /// runtime context untouched for every form in this core.
    pub fn resolve(&self, ctx: &mut Context) -> (r: Resolved)
        ensures
            resolved_models(r, eval(self@)),
            *final(ctx) == *old(ctx),
        decreases self,
    {
        match self {
            Expr::Literal(l) => l.resolve(ctx),
            Expr::Array(a) => a.resolve(ctx),
            Expr::Unary(u) => u.resolve(ctx),
            Expr::FunctionCall(c) => c.resolve(ctx),
            Expr::Noop(n) => n.resolve(ctx),
        }
    }

    /// Everything statically known about this expression's result. Pure and
    /// side-effect-free: callable repeatedly with the same outcome.
    pub fn type_def(&self, state: (&LocalEnv, &ExternalEnv)) -> (r: TypeDef)
        ensures
            r@ == type_def_of(self@),
        decreases self,
    {
        match self {
            Expr::Literal(l) => l.type_def(state),
            Expr::Array(a) => a.type_def(state),
            Expr::Unary(u) => u.type_def(state),
            Expr::FunctionCall(c) => c.type_def(state),
            Expr::Noop(n) => n.type_def(state),
        }
    }

    /// The value this expression is statically known to evaluate to, if any.
    pub fn as_value(&self) -> (r: Option<Value>)
        ensures
            match r {
                Some(v) => as_value_of(self@) == Some(v@),
                None => as_value_of(self@) is None,
            },
        decreases self,
    {
        match self {
            Expr::Literal(l) => l.as_value(),
            Expr::Array(a) => a.as_value(),
            Expr::Unary(_) => None,
            Expr::FunctionCall(_) => None,
            Expr::Noop(_) => None,
        }
    }

    /// Propagates bindings a newly compiled expression introduces into the
    /// compile environments. The forms in this core introduce none, so the
    /// environments are left as they are and the update always succeeds.
    pub fn update_state(&mut self, local: &mut LocalEnv, external: &mut ExternalEnv) -> (r: Result<
        (),
        String,
    >)
        ensures
            r is Ok,
            *final(self) == *old(self),
            *final(local) == *old(local),
            *final(external) == *old(external),
    {
        Ok(())
    }

    /// A structural copy with the same mathematical model.
    pub fn deep_clone(&self) -> (r: Expr)
        ensures
            r@ == self@,
        decreases self,
    {
        match self {
            Expr::Literal(l) => {
                let result = Expr::Literal(Literal { value: l.value.clone() });
                proof {
                    assert(expr_view(result) == expr_view(*self));
                }
                result
            },
            Expr::Noop(_) => Expr::Noop(Noop),
            Expr::Unary(u) => {
                match &u.variant {
                    Variant::Not(n) => {
                        proof {
                            assert(decreases_to!(*self => *n.inner));
                        }
                        let inner = n.inner.deep_clone();
                        let result = Expr::Unary(
                            Unary {
                                variant: Variant::Not(Not { inner: Box::new(inner), span: n.span }),
                            },
                        );
                        proof {
                            assert(expr_view(result) == expr_view(*self));
                        }
                        result
                    },
                }
            },
            Expr::Array(a) => {
                proof {
                    assert(decreases_to!(*self => a.inner));
                }
                let mut out: Vec<Expr> = Vec::new();
                let mut i: usize = 0;
                while i < a.inner.len()
                    invariant
                        i <= a.inner.len(),
                        out@.len() == i,
                        decreases_to!(*self => a.inner),
                        forall|j: int| 0 <= j < i ==> expr_view(out@[j]) == expr_view(a.inner@[j]),
                    decreases a.inner.len() - i,
                {
                    let e = a.inner[i].deep_clone();
                    out.push(e);
                    i += 1;
                }
                proof {
                    assert(exprs_view(out) =~= exprs_view(a.inner));
                }
                let result = Expr::Array(Array { inner: out });
                proof {
                    assert(expr_view(result) == expr_view(*self));
                }
                result
            },
            Expr::FunctionCall(c) => {
                proof {
                    assert(decreases_to!(*self => *c.expr));
                    assert(decreases_to!(*self => c.arguments));
                }
                let inner = c.expr.deep_clone();
                let mut args: Vec<Node<FunctionArgument>> = Vec::new();
                let mut i: usize = 0;
                while i < c.arguments.len()
                    invariant
                        i <= c.arguments.len(),
                        args@.len() == i,
                        decreases_to!(*self => c.arguments),
                        forall|j: int|
                            0 <= j < i ==> args@[j].span == c.arguments@[j].span && arg_view(
                                args@[j].node,
                            ) == arg_view(c.arguments@[j].node),
                    decreases c.arguments.len() - i,
                {
                    proof {
                        assert(decreases_to!(c.arguments => c.arguments@[i as int]));
                    }
                    let node = c.arguments[i].node.deep_clone();
                    args.push(Node { span: c.arguments[i].span, node });
                    i += 1;
                }
                proof {
                    assert(args_view(args) =~= args_view(c.arguments));
                }
                let newc = FunctionCall {
                    abort_on_error: c.abort_on_error,
                    expr: Box::new(inner),
                    maybe_fallible_arguments: c.maybe_fallible_arguments,
                    span: c.span,
                    ident: c.ident.clone(),
                    function_id: c.function_id,
                    arguments: args,
                };
                proof {
                    assert(call_view(newc) == call_view(*c));
                }
                let result = Expr::FunctionCall(newc);
                proof {
                    assert(expr_view(result) == expr_view(*self));
                }
                result
            },
        }
    }

    /// Appends the source-style rendering of this expression to `out`.
    pub fn write_display(&self, out: &mut String)
        ensures
            final(out)@ == old(out)@ + display_of(self@),
        decreases self,
    {
        match self {
            Expr::Literal(l) => {
                crate::value::write_value_display(&l.value, out);
            },
            Expr::Noop(_) => {
                out.append("null");
            },
            Expr::Unary(u) => {
                match &u.variant {
                    Variant::Not(n) => {
                        out.append("!");
                        proof {
                            assert(decreases_to!(*self => *n.inner));
                        }
                        n.inner.write_display(out);
                        proof {
                            assert(display_of(self@) == "!"@ + display_of(expr_view(*n.inner)));
                            assert(out@ =~= old(out)@ + display_of(self@));
                        }
                    },
                }
            },
            Expr::Array(a) => {
                out.append("[");
                proof {
                    assert(decreases_to!(*self => a.inner));
                }
                let ghost entry = out@;
                let mut i: usize = 0;
                while i < a.inner.len()
                    invariant
                        i <= a.inner.len(),
                        decreases_to!(*self => a.inner),
                        out@ == entry + exprs_display_join(exprs_view(a.inner), i as int),
                    decreases a.inner.len() - i,
                {
                    if i > 0 {
                        out.append(", ");
                    }
                    a.inner[i].write_display(out);
                    proof {
                        assert(exprs_view(a.inner)[i as int] == expr_view(a.inner@[i as int]));
                        assert(out@ =~= entry + exprs_display_join(exprs_view(a.inner), i + 1));
                    }
                    i += 1;
                }
                out.append("]");
                proof {
                    assert(out@ =~= old(out)@ + display_of(self@));
                }
            },
            Expr::FunctionCall(c) => {
                out.append(c.ident.as_str());
                out.append("(");
                proof {
                    assert(decreases_to!(*self => c.arguments));
                }
                let ghost entry = out@;
                let mut i: usize = 0;
                while i < c.arguments.len()
                    invariant
                        i <= c.arguments.len(),
                        decreases_to!(*self => c.arguments),
                        self@ == ExprV::FunctionCall(Box::new(call_view(*c))),
                        out@ == entry + args_display_join(args_view(c.arguments), i as int),
                    decreases c.arguments.len() - i,
                {
                    if i > 0 {
                        out.append(", ");
                    }
                    proof {
                        assert(decreases_to!(c.arguments => c.arguments@[i as int]));
                    }
                    write_arg_display(&c.arguments[i].node, out);
                    proof {
                        assert(args_view(c.arguments)[i as int].node == arg_view(
                            c.arguments@[i as int].node,
                        ));
                        assert(out@ =~= entry + args_display_join(args_view(c.arguments), i + 1));
                    }
                    i += 1;
                }
                out.append(")");
                proof {
                    assert(display_of(self@) == call_view(*c).ident + "("@
                        + args_display_join(args_view(c.arguments), c.arguments@.len() as int)
                        + ")"@);
                    assert(out@ =~= old(out)@ + display_of(self@));
                }
            },
        }
    }

    /// The source-style rendering of this expression as a fresh string.
    pub fn display_string(&self) -> (r: String)
        ensures
            r@ == display_of(self@),
    {
        let mut out = String::new();
        self.write_display(&mut out);
        proof {
            assert(out@ =~= display_of(self@));
        }
        out
    }
}

impl Clone for Expr {
    /// Clones are structural copies.
    fn clone(&self) -> (r: Expr)
        ensures
            r@ == self@,
    {
        self.deep_clone()
    }
}

/// Source-style rendering of each supplied argument of a call, in written
/// order.
pub fn format_arguments(args: &Vec<Node<FunctionArgument>>) -> (r: Vec<String>)
    ensures
        r@.len() == args@.len(),
        forall|i: int| 0 <= i < r@.len() ==> r@[i]@ == arg_display(args@[i].node@),
{
    let mut out: Vec<String> = Vec::new();
    let mut i: usize = 0;
    while i < args.len()
        invariant
            i <= args@.len(),
            out@.len() == i,
            forall|j: int| 0 <= j < i ==> out@[j]@ == arg_display(args@[j].node@),
        decreases args@.len() - i,
    {
        let mut s = String::new();
        write_arg_display(&args[i].node, &mut s);
        proof {
            assert(s@ =~= arg_display(args@[i as int].node@));
        }
        out.push(s);
        i += 1;
    }
    out
}

/// Appends the source-style rendering of one supplied argument to `out`.
pub fn write_arg_display(a: &FunctionArgument, out: &mut String)
    ensures
        final(out)@ == old(out)@ + arg_display(a@),
    decreases a,
{
    match &a.ident {
        Some(id) => {
            out.append(id.node.name.as_str());
            out.append(": ");
        },
        None => {},
    }
    proof {
        assert(decreases_to!(*a => a.expr));
        assert(decreases_to!(a.expr => a.expr.node));
    }
    a.expr.node.write_display(out);
    proof {
        assert(final(out)@ =~= old(out)@ + arg_display(a@));
    }
}

/// Appends the debugging rendering of one supplied argument to `out`.
pub fn write_arg_debug(a: &FunctionArgument, out: &mut String)
    ensures
        final(out)@ == old(out)@ + arg_debug(a@),
    decreases a,
{
    out.append("FunctionArgument(");
    match &a.ident {
        Some(id) => {
            out.append(id.node.name.as_str());
            out.append(": ");
        },
        None => {},
    }
    proof {
        assert(decreases_to!(*a => a.expr));
        assert(decreases_to!(a.expr => a.expr.node));
    }
    a.expr.node.write_display(out);
    out.append(")");
    proof {
        assert(final(out)@ =~= old(out)@ + arg_debug(a@));
    }
}

} // verus!
// Bytecode emission: the dispatcher over the expression forms.
use crate::vm::{Vm, code_computes, compilable, well_bound, is_prefix_of};
use crate::function::decls_view;

verus! {

impl Expr {
    /// Emits opcodes such that exactly one value is left on the operand
    /// stack per node, children compiled before parents. The emitted code's
    /// agreement with tree-walking evaluation holds for programs bound
    /// against the machine's own registry; see [`crate::vm::well_bound`].
    pub fn compile_to_vm(
        &self,
        vm: &mut Vm,
        local: &mut LocalEnv,
        external: &mut ExternalEnv,
    ) -> (r: Result<(), String>)
        ensures
            final(vm).functions == old(vm).functions,
            *final(local) == *old(local),
            *final(external) == *old(external),
            is_prefix_of(old(vm).constants@, final(vm).constants@),
            is_prefix_of(old(vm).statics@, final(vm).statics@),
            is_prefix_of(old(vm).instructions@, final(vm).instructions@),
            compilable(self@, decls_view(old(vm).functions)) ==> r is Ok,
            r is Ok ==> (well_bound(self@, decls_view(final(vm).functions)) ==> code_computes(
                final(vm).instructions@.skip(old(vm).instructions@.len() as int),
                final(vm).constants@,
                final(vm).statics@,
                decls_view(final(vm).functions),
                self@,
            )),
        decreases self,
    {
        match self {
            Expr::Literal(l) => l.compile_to_vm(vm, local, external),
            Expr::Array(a) => a.compile_to_vm(vm, local, external),
            Expr::Unary(u) => u.compile_to_vm(vm, local, external),
            Expr::FunctionCall(c) => c.compile_to_vm(vm, local, external),
            Expr::Noop(n) => n.compile_to_vm(vm, local, external),
        }
    }
}

} // verus!

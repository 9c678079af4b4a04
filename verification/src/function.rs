use vstd::prelude::*;
use crate::span::Span;
use crate::parser::NodeV;
use crate::kind::{Kind, KindV, kind_view, kind_intersects, kind_is_superset};
use crate::state::{LocalEnv, ExternalEnv, SideChannel};
use crate::diagnostic::Diagnostic;
use crate::value::Value;
use crate::expression::{Expr, ExprV, ArgV, expr_view, type_def_of};

verus! {

broadcast use vstd::std_specs::vec::axiom_vec_index_decreases, vstd::seq::group_seq_axioms;

/// One declared parameter of a function: its keyword, the kind of argument
/// it accepts, and whether a call must supply it.
#[derive(Debug, PartialEq)]
pub struct Parameter {
    pub keyword: String,
    pub kind: Kind,
    pub required: bool,
}

/// Mathematical model of a [`Parameter`].
#[verifier::ext_equal]
pub struct ParamV {
    pub keyword: Seq<char>,
    pub kind: KindV,
    pub required: bool,
}

impl View for Parameter {
    type V = ParamV;

    open spec fn view(&self) -> ParamV {
        ParamV { keyword: self.keyword@, kind: kind_view(self.kind), required: self.required }
    }
}

impl Parameter {
    pub fn new(keyword: String, kind: Kind, required: bool) -> (p: Parameter)
        ensures
            p@ == (ParamV { keyword: keyword@, kind: kind@, required }),
    {
        Parameter { keyword, kind, required }
    }

    pub fn kind(&self) -> (r: &Kind)
        ensures
            r@ == self@.kind,
    {
        &self.kind
    }

    /// A structural copy with the same mathematical model.
    pub fn deep_clone(&self) -> (r: Parameter)
        ensures
            r@ == self@,
    {
        Parameter {
            keyword: self.keyword.clone(),
            kind: self.kind.deep_clone(),
            required: self.required,
        }
    }
}

impl Clone for Parameter {
    /// Clones are structural copies.
    fn clone(&self) -> (r: Parameter)
        ensures
            r@ == self@,
    {
        self.deep_clone()
    }
}

/// The views of a parameter vector.
pub open spec fn params_view(params: Vec<Parameter>) -> Seq<ParamV> {
    Seq::new(
        params@.len(),
        |i: int|
            if 0 <= i < params@.len() {
                params@[i]@
            } else {
                arbitrary()
            },
    )
}

/// One entry of the function registry: the identifier calls are written
/// with, the declared parameter schema, and the inner expression the
/// function's compile step instantiates for each bound call. The registry
/// is open: hosts add functions by value, without touching this core, and
/// the same ordered list must be used unchanged at compile time and at run
/// time, since bound calls address functions by position.
#[derive(Debug, PartialEq)]
pub struct FunctionDecl {
    pub ident: String,
    pub parameters: Vec<Parameter>,
    pub inner: Expr,
}

/// Mathematical model of a [`FunctionDecl`].
#[verifier::ext_equal]
pub struct DeclV {
    pub ident: Seq<char>,
    pub parameters: Seq<ParamV>,
    pub inner: ExprV,
}

impl View for FunctionDecl {
    type V = DeclV;

    open spec fn view(&self) -> DeclV {
        DeclV {
            ident: self.ident@,
            parameters: params_view(self.parameters),
            inner: expr_view(self.inner),
        }
    }
}

/// The views of the registry.
pub open spec fn decls_view(decls: Vec<FunctionDecl>) -> Seq<DeclV> {
    Seq::new(
        decls@.len(),
        |i: int|
            if 0 <= i < decls@.len() {
                decls@[i]@
            } else {
                arbitrary()
            },
    )
}

/// The state a function's compile hook runs against: the span of the call
/// being compiled and the program-wide side-channel, lent to the hook while
/// the rest of the compiler state stays immutably borrowed.
pub struct FunctionCompileContext {
    pub span: Span,
    pub external_context: SideChannel,
}

impl FunctionCompileContext {
    /// The side-channel currently lent to the hook.
    pub open spec fn side_channel(self) -> SideChannel {
        self.external_context
    }

    pub fn new(span: Span) -> (r: FunctionCompileContext)
        ensures
            r.span == span,
    {
        FunctionCompileContext { span, external_context: SideChannel::new() }
    }

    /// The same context, carrying the given side-channel.
    pub fn with_external_context(self, ctx: SideChannel) -> (r: FunctionCompileContext)
        ensures
            r.span == self.span,
            r.side_channel() == ctx,
    {
        FunctionCompileContext { span: self.span, external_context: ctx }
    }

    /// Releases the side-channel so it can be returned to the environment.
    pub fn into_external_context(self) -> (r: SideChannel)
        ensures
            r == self.side_channel(),
    {
        self.external_context
    }

    pub fn span(&self) -> (r: Span)
        ensures
            r == self.span,
    {
        self.span
    }
}

/// The arguments of one call after binding, keyed by the keyword of the
/// parameter each was bound to. Handed to the function's compile hook.
pub struct ArgumentList {
    entries: Vec<(String, Expr)>,
}

impl View for ArgumentList {
    type V = Seq<(Seq<char>, ExprV)>;

    closed spec fn view(&self) -> Seq<(Seq<char>, ExprV)> {
        Seq::new(
            self.entries@.len(),
            |i: int|
                if 0 <= i < self.entries@.len() {
                    (self.entries@[i].0@, expr_view(self.entries@[i].1))
                } else {
                    arbitrary()
                },
        )
    }
}

impl ArgumentList {
    /// Whether an argument is bound under the given keyword.
    pub open spec fn contains_kw(self, kw: Seq<char>) -> bool {
        exists|i: int| 0 <= i < self@.len() && (#[trigger] self@[i]).0 == kw
    }

    pub fn new() -> (r: ArgumentList)
        ensures
            r@ == Seq::<(Seq<char>, ExprV)>::empty(),
    {
        let r = ArgumentList { entries: Vec::new() };
        proof {
            assert(r@ =~= Seq::<(Seq<char>, ExprV)>::empty());
        }
        r
    }

    /// Binds `expr` under `keyword`. A keyword bound twice keeps one entry:
    /// the later expression replaces the earlier one.
    pub fn insert(&mut self, keyword: String, expr: Expr)
        ensures
            forall|kw: Seq<char>|
                final(self).contains_kw(kw) == (old(self).contains_kw(kw) || kw == keyword@),
            exists|i: int|
                0 <= i < final(self)@.len() && #[trigger] final(self)@[i] == (keyword@, expr@),
            forall|j: int|
                0 <= j < old(self)@.len() && (#[trigger] old(self)@[j]).0 != keyword@
                    ==> final(self)@.contains(old(self)@[j]),
    {
        let mut i: usize = 0;
        while i < self.entries.len()
            invariant
                i <= self.entries@.len(),
                self@ == old(self)@,
                forall|j: int| 0 <= j < i ==> (#[trigger] old(self)@[j]).0 != keyword@,
            decreases self.entries@.len() - i,
        {
            if self.entries[i].0.eq(&keyword) {
                proof {
                    assert(old(self)@[i as int].0 == keyword@);
                }
                let ghost kwv = keyword@;
                let ghost exprv = expr_view(expr);
                self.entries.set(i, (keyword, expr));
                proof {
                    assert(forall|j: int|
                        0 <= j < old(self)@.len() ==> (#[trigger] self@[j]).0 == old(
                            self,
                        )@[j].0);
                    assert(self@.len() == old(self)@.len());
                    assert(old(self)@[i as int].0 == kwv);
                    assert(self@[i as int] == (kwv, exprv));
                    assert(forall|j: int|
                        0 <= j < old(self)@.len() && j != i ==> (#[trigger] self@[j]) == old(
                            self,
                        )@[j]);
                    assert forall|j: int|
                        0 <= j < old(self)@.len() && (#[trigger] old(self)@[j]).0 != kwv implies
                        self@.contains(old(self)@[j]) by {
                        assert(j != i);
                        assert(self@[j] == old(self)@[j]);
                    }
                    assert forall|kw: Seq<char>|
                        self.contains_kw(kw) == (old(self).contains_kw(kw) || kw
                            == kwv) by {
                        if self.contains_kw(kw) {
                            let w = choose|j: int|
                                0 <= j < self@.len() && (#[trigger] self@[j]).0
                                    == kw;
                            assert(old(self)@[w].0 == kw);
                            assert(old(self).contains_kw(kw));
                        }
                        if old(self).contains_kw(kw) {
                            let w = choose|j: int|
                                0 <= j < old(self)@.len() && (#[trigger] old(self)@[j]).0 == kw;
                            assert(self@[w].0 == kw);
                            assert(self.contains_kw(kw));
                        }
                        if kw == kwv {
                            assert(self@[i as int].0 == kw);
                            assert(self.contains_kw(kw));
                        }
                    }
                }
                return ;
            }
            i += 1;
        }
        let ghost kwv = keyword@;
        let ghost exprv = expr_view(expr);
        self.entries.push((keyword, expr));
        proof {
            assert(self@.len() == old(self)@.len() + 1);
            assert(forall|j: int|
                0 <= j < old(self)@.len() ==> (#[trigger] self@[j]) == old(self)@[j]);
            assert(self@[old(self)@.len() as int].0 == kwv);
            assert(self@[old(self)@.len() as int] == (kwv, exprv));
            assert forall|j: int|
                0 <= j < old(self)@.len() && (#[trigger] old(self)@[j]).0 != kwv implies
                self@.contains(old(self)@[j]) by {
                assert(self@[j] == old(self)@[j]);
            }
            assert forall|kw: Seq<char>|
                self.contains_kw(kw) == (old(self).contains_kw(kw) || kw == kwv) by {
                if self.contains_kw(kw) {
                    let w = choose|j: int|
                        0 <= j < self@.len() && (#[trigger] self@[j]).0 == kw;
                    if w < old(self)@.len() {
                        assert(old(self)@[w].0 == kw);
                        assert(old(self).contains_kw(kw));
                    }
                }
                if old(self).contains_kw(kw) {
                    let w = choose|j: int|
                        0 <= j < old(self)@.len() && (#[trigger] old(self)@[j]).0 == kw;
                    assert(self@[w].0 == kw);
                    assert(self.contains_kw(kw));
                }
            }
        }
    }

    /// Whether an argument is bound under the given keyword.
    pub fn contains_keyword(&self, kw: &String) -> (r: bool)
        ensures
            r == self.contains_kw(kw@),
    {
        let mut i: usize = 0;
        while i < self.entries.len()
            invariant
                i <= self.entries@.len(),
                forall|j: int| 0 <= j < i ==> (#[trigger] self@[j]).0 != kw@,
            decreases self.entries@.len() - i,
        {
            if self.entries[i].0.eq(kw) {
                proof {
                    assert(self@[i as int].0 == kw@);
                }
                return true;
            }
            i += 1;
        }
        false
    }

    /// The bound keywords, in entry order.
    pub fn keywords(&self) -> (r: Vec<String>)
        ensures
            r@.len() == self@.len(),
            forall|i: int| 0 <= i < r@.len() ==> r@[i]@ == (#[trigger] self@[i]).0,
    {
        let mut out: Vec<String> = Vec::new();
        let mut i: usize = 0;
        while i < self.entries.len()
            invariant
                i <= self.entries@.len(),
                out@.len() == i,
                forall|j: int| 0 <= j < i ==> out@[j]@ == (#[trigger] self@[j]).0,
            decreases self.entries@.len() - i,
        {
            let k = self.entries[i].0.clone();
            out.push(k);
            i += 1;
        }
        out
    }
}

impl Default for ArgumentList {
    fn default() -> (r: ArgumentList)
        ensures
            r@ == Seq::<(Seq<char>, ExprV)>::empty(),
    {
        ArgumentList::new()
    }
}

/// One argument after re-resolution into declaration order: the parameter
/// it was bound to and the bound expression.
#[derive(Debug, PartialEq)]
pub struct ResolvedArgument {
    pub argument: Parameter,
    pub expression: Expr,
}

/// Mathematical model of a [`ResolvedArgument`].
#[verifier::ext_equal]
pub struct ResolvedArgV {
    pub argument: ParamV,
    pub expression: ExprV,
}

impl View for ResolvedArgument {
    type V = ResolvedArgV;

    open spec fn view(&self) -> ResolvedArgV {
        ResolvedArgV { argument: self.argument@, expression: expr_view(self.expression) }
    }
}

/// One argument as the bytecode compiler will emit it: precomputed into the
/// statics pool when its value is statically known, compiled in place
/// otherwise.
#[derive(Debug, PartialEq)]
pub enum CompiledArgument {
    Static(Value),
    Dynamic(ResolvedArgument),
}

impl FunctionDecl {
    pub fn new(ident: String, parameters: Vec<Parameter>, inner: Expr) -> (r: FunctionDecl)
        ensures
            r@ == (DeclV {
                ident: ident@,
                parameters: params_view(parameters),
                inner: expr_view(inner),
            }),
    {
        FunctionDecl { ident, parameters, inner }
    }

    /// The identifier calls are written with.
    pub fn identifier(&self) -> (r: &String)
        ensures
            r@ == self@.ident,
    {
        &self.ident
    }

    /// The declared parameter schema, in positional order.
    pub fn parameters(&self) -> (r: &Vec<Parameter>)
        ensures
            params_view(*r) == self@.parameters,
    {
        &self.parameters
    }

    /// The function's compile step: instantiates the inner expression this
    /// call will execute. The hook may keep private bookkeeping in the
    /// side-channel carried by `ctx`; this registry's value-level functions
    /// leave it untouched and never fail.
    #[allow(unused_variables)]
    pub fn compile(
        &self,
        local: &mut LocalEnv,
        external: &mut ExternalEnv,
        ctx: &mut FunctionCompileContext,
        arguments: ArgumentList,
    ) -> (r: Result<Expr, Diagnostic>)
        ensures
            r matches Ok(e) && e@ == self@.inner,
            *final(local) == *old(local),
            *final(external) == *old(external),
            final(ctx).span == old(ctx).span,
            final(ctx).side_channel() == old(ctx).side_channel(),
    {
        Ok(self.inner.deep_clone())
    }
}

// ------------------------------------------------------------------
// The binding algorithm, mathematically
// ------------------------------------------------------------------

/// The first registry index at or after `from` whose identifier is `ident`.
pub open spec fn find_func(decls: Seq<DeclV>, ident: Seq<char>, from: int) -> Option<int>
    decreases decls.len() - from,
{
    if from < 0 || from >= decls.len() {
        Option::None
    } else if decls[from].ident == ident {
        Option::Some(from)
    } else {
        find_func(decls, ident, from + 1)
    }
}

/// The first parameter index at or after `from` whose keyword is `kw`.
pub open spec fn find_param(params: Seq<ParamV>, kw: Seq<char>, from: int) -> Option<int>
    decreases params.len() - from,
{
    if from < 0 || from >= params.len() {
        Option::None
    } else if params[from].keyword == kw {
        Option::Some(from)
    } else {
        find_param(params, kw, from + 1)
    }
}

/// The positional cursor after the first `k` supplied arguments have been
/// bound: an unkeyed argument always advances it, and a keyed argument
/// advances it exactly when its parameter sits at the cursor.
pub open spec fn cursor_after(params: Seq<ParamV>, args: Seq<NodeV<ArgV>>, k: int) -> int
    decreases k,
{
    if k <= 0 {
        0
    } else {
        let cur = cursor_after(params, args, k - 1);
        if k > args.len() {
            cur
        } else {
            match args[k - 1].node.ident {
                Option::None => cur + 1,
                Option::Some(id) => match find_param(params, id.node, 0) {
                    Option::Some(p) => if p == cur {
                        cur + 1
                    } else {
                        cur
                    },
                    Option::None => cur,
                },
            }
        }
    }
}

/// The parameter slot the `k`-th supplied argument claims: the positional
/// cursor for an unkeyed argument, the parameter with the matching keyword
/// for a keyed one. `None` means the keyword matches no parameter.
pub open spec fn slot_of(params: Seq<ParamV>, args: Seq<NodeV<ArgV>>, k: int) -> Option<int> {
    if !(0 <= k < args.len()) {
        Option::None
    } else {
        match args[k].node.ident {
            Option::None => Option::Some(cursor_after(params, args, k)),
            Option::Some(id) => find_param(params, id.node, 0),
        }
    }
}

/// The cursor never runs ahead of the number of arguments processed.
pub proof fn lemma_cursor_bound(params: Seq<ParamV>, args: Seq<NodeV<ArgV>>, k: int)
    requires
        k >= 0,
    ensures
        0 <= cursor_after(params, args, k) <= k,
    decreases k,
{
    if k > 0 {
        lemma_cursor_bound(params, args, k - 1);
    }
}

/// How one supplied argument fares against the schema.
pub enum ArgCheck {
    /// Bound; `partial` records an intersecting but not fully contained
    /// argument kind, which makes the whole call fallible.
    Accept { partial: bool },
    /// The keyword names no parameter.
    UnknownKeyword,
    /// The argument's kind does not even intersect the parameter's.
    InvalidKind { slot: int },
    /// The argument itself can fail at runtime; the caller must handle that
    /// before passing it in.
    FallibleArgument { slot: int },
}

/// The outcome of checking the `k`-th supplied argument.
pub open spec fn check_arg(params: Seq<ParamV>, args: Seq<NodeV<ArgV>>, k: int) -> ArgCheck {
    match slot_of(params, args, k) {
        Option::None => ArgCheck::UnknownKeyword,
        Option::Some(p) => if !(0 <= p < params.len()) {
            ArgCheck::UnknownKeyword
        } else {
            let td = type_def_of(args[k].node.expr.node);
            if !kind_intersects(params[p].kind, td.kind) {
                ArgCheck::InvalidKind { slot: p }
            } else if td.fallible {
                ArgCheck::FallibleArgument { slot: p }
            } else {
                ArgCheck::Accept { partial: !kind_is_superset(params[p].kind, td.kind) }
            }
        },
    }
}

/// The first supplied argument at or after `k` that fails its check.
pub open spec fn first_bad_arg(params: Seq<ParamV>, args: Seq<NodeV<ArgV>>, k: int) -> Option<int>
    decreases args.len() - k,
{
    if k < 0 || k >= args.len() {
        Option::None
    } else if !(check_arg(params, args, k) matches ArgCheck::Accept { .. }) {
        Option::Some(k)
    } else {
        first_bad_arg(params, args, k + 1)
    }
}

/// Whether one of the first `n` supplied arguments matches its parameter
/// only partially.
pub open spec fn any_partial(params: Seq<ParamV>, args: Seq<NodeV<ArgV>>, n: int) -> bool
    decreases n,
{
    if n <= 0 || n > args.len() {
        false
    } else {
        any_partial(params, args, n - 1) || (check_arg(params, args, n - 1)
            matches ArgCheck::Accept { partial: true })
    }
}

/// Whether one of the first `upto` supplied arguments was bound to a
/// parameter carrying keyword `kw`.
pub open spec fn claimed_upto(
    params: Seq<ParamV>,
    args: Seq<NodeV<ArgV>>,
    upto: int,
    kw: Seq<char>,
) -> bool
    decreases upto,
{
    if upto <= 0 {
        false
    } else {
        claimed_upto(params, args, upto - 1, kw) || (slot_of(params, args, upto - 1)
            matches Option::Some(p) && 0 <= p < params.len() && params[p].keyword == kw)
    }
}

/// The first required parameter at or after `p` that no supplied argument
/// claimed.
pub open spec fn first_missing(params: Seq<ParamV>, args: Seq<NodeV<ArgV>>, p: int) -> Option<int>
    decreases params.len() - p,
{
    if p < 0 || p >= params.len() {
        Option::None
    } else if params[p].required && !claimed_upto(params, args, args.len() as int, params[p].keyword) {
        Option::Some(p)
    } else {
        first_missing(params, args, p + 1)
    }
}

/// Which way binding a call comes out, given the registry, the identifier,
/// the abort flag and the supplied arguments. The cases are checked in this
/// order; the first that applies decides the result.
pub enum NewOutcome {
    /// The identifier names no registered function.
    Undefined,
    /// More arguments than declared parameters.
    TooManyArguments,
    /// The argument at index `at` fails its check.
    BadArgument { at: int },
    /// The required parameter at index `at` is unclaimed.
    MissingArgument { at: int },
    /// Abort semantics were requested on a statically infallible call.
    AbortInfallible,
    /// The call binds.
    Success,
}

/// The outcome of binding a call; see [`NewOutcome`].
pub open spec fn new_outcome(
    decls: Seq<DeclV>,
    ident: Seq<char>,
    abort_on_error: bool,
    args: Seq<NodeV<ArgV>>,
) -> NewOutcome {
    match find_func(decls, ident, 0) {
        Option::None => NewOutcome::Undefined,
        Option::Some(fid) => {
            let params = decls[fid].parameters;
            if args.len() > params.len() {
                NewOutcome::TooManyArguments
            } else {
                match first_bad_arg(params, args, 0) {
                    Option::Some(k) => NewOutcome::BadArgument { at: k },
                    Option::None => match first_missing(params, args, 0) {
                        Option::Some(p) => NewOutcome::MissingArgument { at: p },
                        Option::None => if abort_on_error && !any_partial(
                            params,
                            args,
                            args.len() as int,
                        ) && !type_def_of(decls[fid].inner).fallible {
                            NewOutcome::AbortInfallible
                        } else {
                            NewOutcome::Success
                        },
                    },
                }
            }
        },
    }
}

/// The last of the first `upto` supplied arguments that claimed slot `p`,
/// if any: a slot claimed twice keeps the later argument.
pub open spec fn bound_arg_for(
    params: Seq<ParamV>,
    args: Seq<NodeV<ArgV>>,
    upto: int,
    p: int,
) -> Option<int>
    decreases upto,
{
    if upto <= 0 {
        Option::None
    } else if slot_of(params, args, upto - 1) == Option::Some(p) {
        Option::Some(upto - 1)
    } else {
        bound_arg_for(params, args, upto - 1, p)
    }
}

/// Skipping an accepted prefix does not change the first failing argument.
pub proof fn lemma_first_bad_skip(params: Seq<ParamV>, args: Seq<NodeV<ArgV>>, k: int)
    requires
        0 <= k <= args.len(),
        forall|j: int|
            0 <= j < k ==> #[trigger] check_arg(params, args, j) matches ArgCheck::Accept { .. },
    ensures
        first_bad_arg(params, args, 0) == first_bad_arg(params, args, k),
    decreases k,
{
    if k > 0 {
        lemma_first_bad_skip(params, args, k - 1);
    }
}

/// Skipping a satisfied prefix does not change the first missing parameter.
pub proof fn lemma_first_missing_skip(params: Seq<ParamV>, args: Seq<NodeV<ArgV>>, p: int)
    requires
        0 <= p <= params.len(),
        forall|j: int|
            0 <= j < p ==> !((#[trigger] params[j]).required && !claimed_upto(
                params,
                args,
                args.len() as int,
                params[j].keyword,
            )),
    ensures
        first_missing(params, args, 0) == first_missing(params, args, p),
    decreases p,
{
    if p > 0 {
        lemma_first_missing_skip(params, args, p - 1);
    }
}

/// Skipping a mismatching prefix does not change the found parameter.
pub proof fn lemma_find_param_skip(params: Seq<ParamV>, kw: Seq<char>, from: int)
    requires
        0 <= from <= params.len(),
        forall|j: int| 0 <= j < from ==> (#[trigger] params[j]).keyword != kw,
    ensures
        find_param(params, kw, 0) == find_param(params, kw, from),
    decreases from,
{
    if from > 0 {
        lemma_find_param_skip(params, kw, from - 1);
    }
}

/// Skipping a mismatching prefix does not change the found function.
pub proof fn lemma_find_func_skip(decls: Seq<DeclV>, ident: Seq<char>, from: int)
    requires
        0 <= from <= decls.len(),
        forall|j: int| 0 <= j < from ==> (#[trigger] decls[j]).ident != ident,
    ensures
        find_func(decls, ident, 0) == find_func(decls, ident, from),
    decreases from,
{
    if from > 0 {
        lemma_find_func_skip(decls, ident, from - 1);
    }
}

/// Finds the first parameter whose keyword is `kw`.
pub fn find_param_index(params: &Vec<Parameter>, kw: &String) -> (r: Option<usize>)
    ensures
        match r {
            Some(p) => find_param(params_view(*params), kw@, 0) == Some(p as int) && p
                < params@.len(),
            None => find_param(params_view(*params), kw@, 0) is None,
        },
{
    let mut j: usize = 0;
    while j < params.len()
        invariant
            j <= params@.len(),
            forall|i: int| 0 <= i < j ==> (#[trigger] params_view(*params)[i]).keyword != kw@,
        decreases params@.len() - j,
    {
        if params[j].keyword.eq(kw) {
            proof {
                assert(params_view(*params)[j as int].keyword == kw@);
                lemma_find_param_skip(params_view(*params), kw@, j as int);
            }
            return Some(j);
        }
        proof {
            assert(params_view(*params)[j as int].keyword != kw@);
        }
        j += 1;
    }
    proof {
        lemma_find_param_skip(params_view(*params), kw@, params@.len() as int);
    }
    None
}

/// Finds the first registry entry whose identifier is `ident`.
pub fn find_function_index(decls: &Vec<FunctionDecl>, ident: &String) -> (r: Option<usize>)
    ensures
        match r {
            Some(f) => find_func(decls_view(*decls), ident@, 0) == Some(f as int) && f
                < decls@.len(),
            None => find_func(decls_view(*decls), ident@, 0) is None,
        },
{
    let mut j: usize = 0;
    while j < decls.len()
        invariant
            j <= decls@.len(),
            forall|i: int| 0 <= i < j ==> (#[trigger] decls_view(*decls)[i]).ident != ident@,
        decreases decls@.len() - j,
    {
        if decls[j].ident.eq(ident) {
            proof {
                assert(decls_view(*decls)[j as int].ident == ident@);
                lemma_find_func_skip(decls_view(*decls), ident@, j as int);
            }
            return Some(j);
        }
        proof {
            assert(decls_view(*decls)[j as int].ident != ident@);
        }
        j += 1;
    }
    proof {
        lemma_find_func_skip(decls_view(*decls), ident@, decls@.len() as int);
    }
    None
}

/// The keywords of the schema, cloned in positional order.
pub fn keywords_of(params: &Vec<Parameter>) -> (r: Vec<String>)
    ensures
        r@.len() == params@.len(),
        forall|i: int| 0 <= i < r@.len() ==> r@[i]@ == (#[trigger] params_view(*params)[i]).keyword,
{
    let mut out: Vec<String> = Vec::new();
    let mut i: usize = 0;
    while i < params.len()
        invariant
            i <= params@.len(),
            out@.len() == i,
            forall|j: int|
                0 <= j < i ==> out@[j]@ == (#[trigger] params_view(*params)[j]).keyword,
        decreases params@.len() - i,
    {
        let k = params[i].keyword.clone();
        out.push(k);
        i += 1;
    }
    out
}

} // verus!
verus! {

/// Whether every supplied argument is keyword-tagged.
pub open spec fn all_keyworded(args: Seq<NodeV<ArgV>>) -> bool {
    forall|k: int| 0 <= k < args.len() ==> (#[trigger] args[k].node.ident) is Some
}

/// Whether no two supplied arguments carry the same keyword.
pub open spec fn distinct_keywords(args: Seq<NodeV<ArgV>>) -> bool {
    forall|k1: int, k2: int|
        0 <= k1 < k2 < args.len() ==> !((#[trigger] args[k1].node.ident) matches Some(a) && (
        #[trigger] args[k2].node.ident) matches Some(b) && a.node == b.node)
}

/// The expression the first argument at or after `k` tagged `kw` carries.
pub open spec fn kw_lookup(args: Seq<NodeV<ArgV>>, kw: Seq<char>, k: int) -> Option<ExprV>
    decreases args.len() - k,
{
    if k < 0 || k >= args.len() {
        Option::None
    } else {
        match args[k].node.ident {
            Option::Some(id) => if id.node == kw {
                Option::Some(args[k].node.expr.node)
            } else {
                kw_lookup(args, kw, k + 1)
            },
            Option::None => kw_lookup(args, kw, k + 1),
        }
    }
}

/// The expression the binding walk leaves in parameter slot `p`, if any.
pub open spec fn slot_binding(params: Seq<ParamV>, args: Seq<NodeV<ArgV>>, p: int) -> Option<
    ExprV,
> {
    match bound_arg_for(params, args, args.len() as int, p) {
        Option::Some(k) => if 0 <= k < args.len() {
            Option::Some(args[k].node.expr.node)
        } else {
            Option::None
        },
        Option::None => Option::None,
    }
}

/// A found parameter carries the keyword it was found by.
pub proof fn lemma_find_param_found(params: Seq<ParamV>, kw: Seq<char>, from: int)
    requires
        find_param(params, kw, from) is Some,
    ensures
        find_param(params, kw, from) matches Some(p) && from <= p < params.len() && params[p].keyword
            == kw,
    decreases params.len() - from,
{
    if !(from < 0 || from >= params.len()) && params[from].keyword != kw {
        lemma_find_param_found(params, kw, from + 1);
    }
}

/// A successful lookup names an argument carrying that keyword.
proof fn lemma_kw_lookup_some(args: Seq<NodeV<ArgV>>, kw: Seq<char>, k: int)
    requires
        kw_lookup(args, kw, k) is Some,
    ensures
        exists|j: int|
            k <= j < args.len() && ((#[trigger] args[j].node.ident) matches Some(id) && id.node
                == kw && kw_lookup(args, kw, k) == Option::Some(args[j].node.expr.node)),
    decreases args.len() - k,
{
    if !(k < 0 || k >= args.len()) {
        match args[k].node.ident {
            Option::Some(id) => {
                if id.node == kw {
                    assert(args[k].node.ident matches Some(id2) && id2.node == kw && kw_lookup(
                        args,
                        kw,
                        k,
                    ) == Option::Some(args[k].node.expr.node));
                } else {
                    lemma_kw_lookup_some(args, kw, k + 1);
                }
            },
            Option::None => {
                lemma_kw_lookup_some(args, kw, k + 1);
            },
        }
    }
}

/// With distinct keywords, looking an argument's own keyword up finds it.
proof fn lemma_kw_lookup_of_arg(args: Seq<NodeV<ArgV>>, k: int, from: int)
    requires
        distinct_keywords(args),
        0 <= from <= k < args.len(),
        args[k].node.ident is Some,
        forall|j: int|
            from <= j < k ==> !((#[trigger] args[j].node.ident) matches Some(a) && a.node
                == args[k].node.ident->Some_0.node),
    ensures
        kw_lookup(args, args[k].node.ident->Some_0.node, from) == Option::Some(
            args[k].node.expr.node,
        ),
    decreases k - from,
{
    if from < k {
        lemma_kw_lookup_of_arg(args, k, from + 1);
    }
}

/// With every argument keyworded and no keyword repeated, the binding walk
/// leaves in slot `p` exactly the expression whose keyword names `p`'s
/// parameter — written order does not enter.
proof fn lemma_keyed_slot(params: Seq<ParamV>, args: Seq<NodeV<ArgV>>, n: int, p: int)
    requires
        all_keyworded(args),
        distinct_keywords(args),
        0 <= n <= args.len(),
    ensures
        match bound_arg_for(params, args, n, p) {
            Option::Some(k) => 0 <= k < n && (args[k].node.ident matches Some(id) && find_param(
                params,
                id.node,
                0,
            ) == Option::Some(p) && kw_lookup(args, id.node, 0) == Option::Some(
                args[k].node.expr.node,
            )),
            Option::None => forall|k2: int|
                0 <= k2 < n ==> !((#[trigger] args[k2].node.ident) matches Some(id) && find_param(
                    params,
                    id.node,
                    0,
                ) == Option::Some(p)),
        },
    decreases n,
{
    if n > 0 {
        lemma_keyed_slot(params, args, n - 1, p);
        assert(args[n - 1].node.ident is Some);
        let id = args[n - 1].node.ident->Some_0;
        if slot_of(params, args, n - 1) == Option::Some(p) {
            assert(find_param(params, id.node, 0) == Option::Some(p));
            assert(forall|j: int|
                0 <= j < n - 1 ==> !((#[trigger] args[j].node.ident) matches Some(a) && a.node
                    == id.node));
            lemma_kw_lookup_of_arg(args, n - 1, 0);
        }
    }
}

/// Keyword-argument binding is order-independent: two fully keyworded
/// argument lists with no repeated keywords and the same
/// keyword-to-expression associations bind the same expression to every
/// parameter slot, whatever order the arguments were written in.
pub proof fn lemma_keyword_binding_order_independent(
    params: Seq<ParamV>,
    args1: Seq<NodeV<ArgV>>,
    args2: Seq<NodeV<ArgV>>,
)
    requires
        all_keyworded(args1),
        all_keyworded(args2),
        distinct_keywords(args1),
        distinct_keywords(args2),
        forall|kw: Seq<char>| #[trigger] kw_lookup(args1, kw, 0) == kw_lookup(args2, kw, 0),
    ensures
        forall|p: int|
            0 <= p < params.len() ==> #[trigger] slot_binding(params, args1, p) == slot_binding(
                params,
                args2,
                p,
            ),
{
    assert forall|p: int|
        0 <= p < params.len() implies #[trigger] slot_binding(params, args1, p) == slot_binding(
        params,
        args2,
        p,
    ) by {
        lemma_keyed_slot(params, args1, args1.len() as int, p);
        lemma_keyed_slot(params, args2, args2.len() as int, p);
        match bound_arg_for(params, args1, args1.len() as int, p) {
            Option::Some(k1) => {
                let id1 = args1[k1].node.ident->Some_0;
                assert(kw_lookup(args2, id1.node, 0) == Option::Some(args1[k1].node.expr.node));
                lemma_kw_lookup_some(args2, id1.node, 0);
                let j = choose|j: int|
                    0 <= j < args2.len() && ((#[trigger] args2[j].node.ident) matches Some(id)
                        && id.node == id1.node && kw_lookup(args2, id1.node, 0) == Option::Some(
                        args2[j].node.expr.node,
                    ));
                assert(find_param(params, args2[j].node.ident->Some_0.node, 0) == Option::Some(p));
                match bound_arg_for(params, args2, args2.len() as int, p) {
                    Option::Some(k2) => {
                        let id2 = args2[k2].node.ident->Some_0;
                        lemma_find_param_found(params, id1.node, 0);
                        lemma_find_param_found(params, id2.node, 0);
                        assert(id2.node == id1.node);
                        assert(kw_lookup(args2, id2.node, 0) == Option::Some(
                            args2[k2].node.expr.node,
                        ));
                    },
                    Option::None => {
                        assert(false);
                    },
                }
            },
            Option::None => {
                match bound_arg_for(params, args2, args2.len() as int, p) {
                    Option::Some(k2) => {
                        let id2 = args2[k2].node.ident->Some_0;
                        assert(kw_lookup(args2, id2.node, 0) == Option::Some(
                            args2[k2].node.expr.node,
                        ));
                        assert(kw_lookup(args1, id2.node, 0) == Option::Some(
                            args2[k2].node.expr.node,
                        ));
                        lemma_kw_lookup_some(args1, id2.node, 0);
                        let j = choose|j: int|
                            0 <= j < args1.len() && ((#[trigger] args1[j].node.ident) matches Some(
                                id,
                            ) && id.node == id2.node && kw_lookup(args1, id2.node, 0)
                                == Option::Some(args1[j].node.expr.node));
                        assert(find_param(params, args1[j].node.ident->Some_0.node, 0)
                            == Option::Some(p));
                        assert(false);
                    },
                    Option::None => {},
                }
            },
        }
    }
}

/// Whether some argument before `k` claimed slot `s`.
pub open spec fn slot_claimed_before(
    params: Seq<ParamV>,
    args: Seq<NodeV<ArgV>>,
    k: int,
    s: int,
) -> bool {
    exists|k2: int| 0 <= k2 < k && #[trigger] slot_of(params, args, k2) == Option::Some(s)
}

/// Every slot below the positional cursor was claimed by an earlier
/// argument.
proof fn lemma_cursor_slots_claimed(params: Seq<ParamV>, args: Seq<NodeV<ArgV>>, k: int)
    requires
        0 <= k <= args.len(),
    ensures
        forall|s: int|
            0 <= s < cursor_after(params, args, k) ==> #[trigger] slot_claimed_before(
                params,
                args,
                k,
                s,
            ),
    decreases k,
{
    if k > 0 {
        lemma_cursor_slots_claimed(params, args, k - 1);
        let cur = cursor_after(params, args, k - 1);
        assert(forall|s: int|
            0 <= s < cur ==> #[trigger] slot_claimed_before(params, args, k, s)) by {
            assert(forall|s: int|
                slot_claimed_before(params, args, k - 1, s) ==> #[trigger] slot_claimed_before(
                    params,
                    args,
                    k,
                    s,
                ));
        }
        if cursor_after(params, args, k) == cur + 1 {
            assert(slot_of(params, args, k - 1) == Option::Some(cur)) by {
                match args[k - 1].node.ident {
                    Option::None => {},
                    Option::Some(id) => {
                        assert(find_param(params, id.node, 0) == Option::Some(cur));
                    },
                }
            }
            assert(slot_claimed_before(params, args, k, cur));
        }
    }
}

/// Mixed binding: as long as no parameter slot is claimed twice, an unkeyed
/// argument always fills the lowest slot no earlier argument claimed,
/// however keyword arguments are interleaved around it.
pub proof fn lemma_unkeyed_fills_next_unclaimed(
    params: Seq<ParamV>,
    args: Seq<NodeV<ArgV>>,
    k: int,
)
    requires
        0 <= k < args.len(),
        args[k].node.ident is None,
        forall|k1: int, k2: int|
            0 <= k1 < k2 < args.len() ==> !((#[trigger] slot_of(params, args, k1)) matches Some(s1)
                && #[trigger] slot_of(params, args, k2) == Option::Some(s1)),
    ensures
        slot_of(params, args, k) matches Some(s) && {
            &&& (forall|s2: int|
                0 <= s2 < s ==> #[trigger] slot_claimed_before(params, args, k, s2))
            &&& (forall|k2: int|
                0 <= k2 < k ==> #[trigger] slot_of(params, args, k2) != Option::Some(s))
        },
{
    let s = cursor_after(params, args, k);
    lemma_cursor_bound(params, args, k);
    assert(slot_of(params, args, k) == Option::Some(s));
    lemma_cursor_slots_claimed(params, args, k);
    assert forall|k2: int| 0 <= k2 < k implies #[trigger] slot_of(params, args, k2)
        != Option::Some(s) by {
        if slot_of(params, args, k2) == Option::Some(s) {
            assert(!((slot_of(params, args, k2) matches Some(s1) && slot_of(params, args, k)
                == Option::Some(s1))));
        }
    }
}

} // verus!
verus! {

/// The last keyword-tagged argument among the first `upto` whose keyword
/// names parameter `p`.
pub open spec fn keyed_arg_for(
    params: Seq<ParamV>,
    args: Seq<NodeV<ArgV>>,
    upto: int,
    p: int,
) -> Option<int>
    decreases upto,
{
    if upto <= 0 {
        Option::None
    } else {
        match args[upto - 1].node.ident {
            Option::Some(id) => if find_param(params, id.node, 0) == Option::Some(p) {
                Option::Some(upto - 1)
            } else {
                keyed_arg_for(params, args, upto - 1, p)
            },
            Option::None => keyed_arg_for(params, args, upto - 1, p),
        }
    }
}

/// How many of the first `n` supplied arguments are unkeyed.
pub open spec fn unkeyed_count(args: Seq<NodeV<ArgV>>, n: int) -> int
    decreases n,
{
    if n <= 0 || n > args.len() {
        0
    } else {
        unkeyed_count(args, n - 1) + (if args[n - 1].node.ident is None {
            1int
        } else {
            0int
        })
    }
}

/// How many of the first `p` parameter slots no keyword argument claims.
pub open spec fn empty_count(params: Seq<ParamV>, args: Seq<NodeV<ArgV>>, p: int) -> int
    decreases p,
{
    if p <= 0 || p > params.len() {
        0
    } else {
        empty_count(params, args, p - 1) + (if keyed_arg_for(
            params,
            args,
            args.len() as int,
            p - 1,
        ) is None {
            1int
        } else {
            0int
        })
    }
}

/// Whether every keyword argument names a parameter.
pub open spec fn kw_args_ok(params: Seq<ParamV>, args: Seq<NodeV<ArgV>>) -> bool {
    forall|k: int|
        0 <= k < args.len() ==> ((#[trigger] args[k].node.ident) matches Some(id) ==> find_param(
            params,
            id.node,
            0,
        ) is Some)
}

/// When re-resolution succeeds: every keyword argument names a parameter,
/// and the slots the keyword arguments leave empty suffice for the unkeyed
/// ones.
pub open spec fn can_resolve(params: Seq<ParamV>, args: Seq<NodeV<ArgV>>) -> bool {
    kw_args_ok(params, args) && unkeyed_count(args, args.len() as int) <= empty_count(
        params,
        args,
        params.len() as int,
    )
}

/// What re-resolution produces: each parameter slot holds the keyword
/// argument naming it (the later of two duplicates), and the unkeyed
/// arguments fill the remaining slots left to right, in written order, every
/// one of them placed.
pub open spec fn slots_assignment(
    params: Seq<ParamV>,
    args: Seq<NodeV<ArgV>>,
    slots: Seq<Option<usize>>,
) -> bool {
    &&& slots.len() == params.len()
    &&& (forall|p: int|
        0 <= p < slots.len() ==> ((#[trigger] slots[p]) matches Some(k) ==> k < args.len()))
    &&& (forall|p: int|
        0 <= p < slots.len() ==> (match keyed_arg_for(params, args, args.len() as int, p) {
            Option::Some(k) => (#[trigger] slots[p]) matches Some(x) && x == k,
            Option::None => slots[p] matches Some(x) ==> args[x as int].node.ident is None,
        }))
    &&& (forall|k: int|
        0 <= k < args.len() && (#[trigger] args[k].node.ident) is None ==> exists|p: int|
            0 <= p < slots.len() && #[trigger] slots[p] == Option::Some(k as usize))
    &&& (forall|p1: int, p2: int|
        0 <= p1 < p2 < slots.len() ==> !((#[trigger] slots[p1]) matches Some(k1) && (
        #[trigger] slots[p2]) matches Some(k2) && k1 == k2))
    &&& (forall|p1: int, p2: int|
        0 <= p1 < p2 < slots.len() ==> !((#[trigger] slots[p1]) matches Some(k1) && (
        #[trigger] slots[p2]) matches Some(k2) && args[k1 as int].node.ident is None
            && args[k2 as int].node.ident is None && k2 <= k1))
    &&& (forall|p1: int, p2: int|
        0 <= p1 < p2 < slots.len() ==> !((#[trigger] slots[p1]) is None && ((
        #[trigger] slots[p2]) matches Some(k2) && args[k2 as int].node.ident is None)))
}

} // verus!

verus! {

/// A keyword-bound slot names a keyword argument that found it.
pub proof fn lemma_keyed_arg_found(
    params: Seq<ParamV>,
    args: Seq<NodeV<ArgV>>,
    upto: int,
    p: int,
)
    requires
        keyed_arg_for(params, args, upto, p) is Some,
        upto <= args.len(),
    ensures
        keyed_arg_for(params, args, upto, p) matches Some(k) && 0 <= k < upto && (
        args[k].node.ident matches Some(id) && find_param(params, id.node, 0) == Option::Some(p)),
    decreases upto,
{
    if upto > 0 {
        match args[upto - 1].node.ident {
            Option::Some(id) => {
                if find_param(params, id.node, 0) != Option::Some(p) {
                    lemma_keyed_arg_found(params, args, upto - 1, p);
                }
            },
            Option::None => {
                lemma_keyed_arg_found(params, args, upto - 1, p);
            },
        }
    }
}

/// The unkeyed-argument count grows with the prefix.
pub proof fn lemma_unkeyed_count_mono(args: Seq<NodeV<ArgV>>, a: int, b: int)
    requires
        0 <= a <= b <= args.len(),
    ensures
        unkeyed_count(args, a) <= unkeyed_count(args, b),
    decreases b - a,
{
    if a < b {
        lemma_unkeyed_count_mono(args, a, b - 1);
    }
}

} // verus!
verus! {

/// What checking a keyword argument amounts to: the written position never
/// enters, only the keyword and the argument expression.
pub open spec fn keyed_check(params: Seq<ParamV>, kw: Seq<char>, expr: ExprV) -> ArgCheck {
    match find_param(params, kw, 0) {
        Option::None => ArgCheck::UnknownKeyword,
        Option::Some(p) => if !(0 <= p < params.len()) {
            ArgCheck::UnknownKeyword
        } else {
            let td = type_def_of(expr);
            if !kind_intersects(params[p].kind, td.kind) {
                ArgCheck::InvalidKind { slot: p }
            } else if td.fallible {
                ArgCheck::FallibleArgument { slot: p }
            } else {
                ArgCheck::Accept { partial: !kind_is_superset(params[p].kind, td.kind) }
            }
        },
    }
}

/// A keyword argument's check is a function of its keyword and expression
/// alone.
pub proof fn lemma_check_keyed(params: Seq<ParamV>, args: Seq<NodeV<ArgV>>, k: int)
    requires
        0 <= k < args.len(),
        args[k].node.ident is Some,
    ensures
        check_arg(params, args, k) == keyed_check(
            params,
            args[k].node.ident->Some_0.node,
            args[k].node.expr.node,
        ),
{
}

/// The fold over partial matches is the existence of one.
pub proof fn lemma_any_partial_pointwise(params: Seq<ParamV>, args: Seq<NodeV<ArgV>>, n: int)
    requires
        0 <= n <= args.len(),
    ensures
        any_partial(params, args, n) == (exists|k: int|
            0 <= k < n && #[trigger] check_arg(params, args, k) matches ArgCheck::Accept {
                partial: true,
            }),
    decreases n,
{
    if n > 0 {
        lemma_any_partial_pointwise(params, args, n - 1);
        if any_partial(params, args, n) {
            if any_partial(params, args, n - 1) {
                let w = choose|k: int|
                    0 <= k < n - 1 && #[trigger] check_arg(params, args, k)
                        matches ArgCheck::Accept { partial: true };
                assert(0 <= w < n && check_arg(params, args, w) matches ArgCheck::Accept {
                    partial: true,
                });
            }
        }
    }
}

/// A scan that found nothing bad accepted everything it passed.
pub proof fn lemma_first_bad_none(params: Seq<ParamV>, args: Seq<NodeV<ArgV>>, k: int)
    requires
        0 <= k <= args.len(),
        first_bad_arg(params, args, k) is None,
    ensures
        forall|j: int|
            k <= j < args.len() ==> #[trigger] check_arg(params, args, j)
                matches ArgCheck::Accept { .. },
    decreases args.len() - k,
{
    if k < args.len() {
        lemma_first_bad_none(params, args, k + 1);
    }
}

/// The fold over claimed keywords is the existence of a claiming argument.
pub proof fn lemma_claimed_pointwise(
    params: Seq<ParamV>,
    args: Seq<NodeV<ArgV>>,
    upto: int,
    kw: Seq<char>,
)
    requires
        0 <= upto <= args.len(),
    ensures
        claimed_upto(params, args, upto, kw) == (exists|k: int|
            0 <= k < upto && (#[trigger] slot_of(params, args, k) matches Some(p) && 0 <= p
                < params.len() && params[p].keyword == kw)),
    decreases upto,
{
    if upto > 0 {
        lemma_claimed_pointwise(params, args, upto - 1, kw);
        if claimed_upto(params, args, upto, kw) {
            if claimed_upto(params, args, upto - 1, kw) {
                let w = choose|k: int|
                    0 <= k < upto - 1 && (#[trigger] slot_of(params, args, k) matches Some(p) && 0
                        <= p < params.len() && params[p].keyword == kw);
                assert(0 <= w < upto && (slot_of(params, args, w) matches Some(p) && 0 <= p
                    < params.len() && params[p].keyword == kw));
            }
        }
    }
}

} // verus!
verus! {

/// Every keyword argument of one list has a counterpart carrying the same
/// keyword and expression in the other, when the two lists are fully
/// keyworded, duplicate-free and carry the same associations.
proof fn lemma_assoc_counterpart(args1: Seq<NodeV<ArgV>>, args2: Seq<NodeV<ArgV>>, k2: int)
    requires
        all_keyworded(args1),
        all_keyworded(args2),
        distinct_keywords(args1),
        distinct_keywords(args2),
        forall|kw: Seq<char>| #[trigger] kw_lookup(args1, kw, 0) == kw_lookup(args2, kw, 0),
        0 <= k2 < args2.len(),
    ensures
        exists|j: int|
            0 <= j < args1.len() && ((#[trigger] args1[j].node.ident) matches Some(a) && a.node
                == args2[k2].node.ident->Some_0.node && args1[j].node.expr.node
                == args2[k2].node.expr.node),
{
    let kw = args2[k2].node.ident->Some_0.node;
    assert(forall|j: int|
        0 <= j < k2 ==> !((#[trigger] args2[j].node.ident) matches Some(a) && a.node == kw));
    lemma_kw_lookup_of_arg(args2, k2, 0);
    assert(kw_lookup(args1, kw, 0) == Option::Some(args2[k2].node.expr.node));
    lemma_kw_lookup_some(args1, kw, 0);
}

/// Whether one argument of the list matches its parameter only partially.
pub open spec fn has_partial_arg(params: Seq<ParamV>, args: Seq<NodeV<ArgV>>) -> bool {
    exists|k: int|
        0 <= k < args.len() && #[trigger] check_arg(params, args, k) matches ArgCheck::Accept {
            partial: true,
        }
}

/// For fully keyworded, duplicate-free lists with the same associations,
/// every per-argument property of the binder's checks transfers.
proof fn lemma_partial_transfer(params: Seq<ParamV>, args1: Seq<NodeV<ArgV>>, args2: Seq<
    NodeV<ArgV>,
>)
    requires
        all_keyworded(args1),
        all_keyworded(args2),
        distinct_keywords(args1),
        distinct_keywords(args2),
        forall|kw: Seq<char>| #[trigger] kw_lookup(args1, kw, 0) == kw_lookup(args2, kw, 0),
        has_partial_arg(params, args2),
    ensures
        has_partial_arg(params, args1),
{
    let k2 = choose|k: int|
        0 <= k < args2.len() && #[trigger] check_arg(params, args2, k) matches ArgCheck::Accept {
            partial: true,
        };
    lemma_assoc_counterpart(args1, args2, k2);
    let j = choose|j: int|
        0 <= j < args1.len() && ((#[trigger] args1[j].node.ident) matches Some(a) && a.node
            == args2[k2].node.ident->Some_0.node && args1[j].node.expr.node
            == args2[k2].node.expr.node);
    lemma_check_keyed(params, args2, k2);
    lemma_check_keyed(params, args1, j);
    assert(check_arg(params, args1, j) matches ArgCheck::Accept { partial: true });
}

/// All-accepted transfers between such lists.
proof fn lemma_accept_transfer(params: Seq<ParamV>, args1: Seq<NodeV<ArgV>>, args2: Seq<
    NodeV<ArgV>,
>)
    requires
        all_keyworded(args1),
        all_keyworded(args2),
        distinct_keywords(args1),
        distinct_keywords(args2),
        forall|kw: Seq<char>| #[trigger] kw_lookup(args1, kw, 0) == kw_lookup(args2, kw, 0),
        forall|k: int|
            0 <= k < args1.len() ==> #[trigger] check_arg(params, args1, k)
                matches ArgCheck::Accept { .. },
    ensures
        forall|k: int|
            0 <= k < args2.len() ==> #[trigger] check_arg(params, args2, k)
                matches ArgCheck::Accept { .. },
{
    assert forall|k: int|
        0 <= k < args2.len() implies #[trigger] check_arg(params, args2, k)
        matches ArgCheck::Accept { .. } by {
        lemma_assoc_counterpart(args1, args2, k);
        let j = choose|j: int|
            0 <= j < args1.len() && ((#[trigger] args1[j].node.ident) matches Some(a) && a.node
                == args2[k].node.ident->Some_0.node && args1[j].node.expr.node
                == args2[k].node.expr.node);
        lemma_check_keyed(params, args2, k);
        lemma_check_keyed(params, args1, j);
    }
}

/// A claimed keyword transfers between such lists.
proof fn lemma_claimed_transfer(
    params: Seq<ParamV>,
    args1: Seq<NodeV<ArgV>>,
    args2: Seq<NodeV<ArgV>>,
    kw: Seq<char>,
)
    requires
        all_keyworded(args1),
        all_keyworded(args2),
        distinct_keywords(args1),
        distinct_keywords(args2),
        forall|kw2: Seq<char>| #[trigger] kw_lookup(args1, kw2, 0) == kw_lookup(args2, kw2, 0),
        claimed_upto(params, args2, args2.len() as int, kw),
    ensures
        claimed_upto(params, args1, args1.len() as int, kw),
{
    lemma_claimed_pointwise(params, args2, args2.len() as int, kw);
    let k2 = choose|k: int|
        0 <= k < args2.len() && (#[trigger] slot_of(params, args2, k) matches Some(p) && 0 <= p
            < params.len() && params[p].keyword == kw);
    lemma_assoc_counterpart(args1, args2, k2);
    let j = choose|j: int|
        0 <= j < args1.len() && ((#[trigger] args1[j].node.ident) matches Some(a) && a.node
            == args2[k2].node.ident->Some_0.node && args1[j].node.expr.node
            == args2[k2].node.expr.node);
    assert(slot_of(params, args1, j) == find_param(params, args1[j].node.ident->Some_0.node, 0));
    assert(slot_of(params, args2, k2) == find_param(
        params,
        args2[k2].node.ident->Some_0.node,
        0,
    ));
    lemma_claimed_pointwise(params, args1, args1.len() as int, kw);
    assert(slot_of(params, args1, j) matches Some(p) && 0 <= p < params.len() && params[p].keyword
        == kw);
}

/// The first-missing scan agrees when each keyword is claimed alike.
proof fn lemma_first_missing_congruent(
    params: Seq<ParamV>,
    args1: Seq<NodeV<ArgV>>,
    args2: Seq<NodeV<ArgV>>,
    p: int,
)
    requires
        0 <= p <= params.len(),
        forall|q: int|
            0 <= q < params.len() ==> claimed_upto(
                params,
                args1,
                args1.len() as int,
                (#[trigger] params[q]).keyword,
            ) == claimed_upto(params, args2, args2.len() as int, params[q].keyword),
    ensures
        first_missing(params, args1, p) == first_missing(params, args2, p),
    decreases params.len() - p,
{
    if p < params.len() {
        lemma_first_missing_congruent(params, args1, args2, p + 1);
    }
}

} // verus!
verus! {

/// Keyword binding is order-independent at the binder itself: two
/// orderings of the same fully keyworded, duplicate-free arguments pass or
/// fail the per-argument checks alike, leave the same required parameters
/// unclaimed, and flag the same partial matches. Only which failing
/// argument is reported first can depend on the written order.
pub proof fn lemma_binder_checks_order_independent(
    params: Seq<ParamV>,
    args1: Seq<NodeV<ArgV>>,
    args2: Seq<NodeV<ArgV>>,
)
    requires
        all_keyworded(args1),
        all_keyworded(args2),
        distinct_keywords(args1),
        distinct_keywords(args2),
        forall|kw: Seq<char>| #[trigger] kw_lookup(args1, kw, 0) == kw_lookup(args2, kw, 0),
    ensures
        (first_bad_arg(params, args1, 0) is None) == (first_bad_arg(params, args2, 0) is None),
        first_missing(params, args1, 0) == first_missing(params, args2, 0),
        any_partial(params, args1, args1.len() as int) == any_partial(
            params,
            args2,
            args2.len() as int,
        ),
{
    if first_bad_arg(params, args1, 0) is None {
        lemma_first_bad_none(params, args1, 0);
        lemma_accept_transfer(params, args1, args2);
        lemma_first_bad_skip(params, args2, args2.len() as int);
    }
    if first_bad_arg(params, args2, 0) is None {
        lemma_first_bad_none(params, args2, 0);
        lemma_accept_transfer(params, args2, args1);
        lemma_first_bad_skip(params, args1, args1.len() as int);
    }
    assert forall|q: int|
        0 <= q < params.len() implies claimed_upto(
        params,
        args1,
        args1.len() as int,
        (#[trigger] params[q]).keyword,
    ) == claimed_upto(params, args2, args2.len() as int, params[q].keyword) by {
        if claimed_upto(params, args1, args1.len() as int, params[q].keyword) {
            lemma_claimed_transfer(params, args2, args1, params[q].keyword);
        }
        if claimed_upto(params, args2, args2.len() as int, params[q].keyword) {
            lemma_claimed_transfer(params, args1, args2, params[q].keyword);
        }
    }
    lemma_first_missing_congruent(params, args1, args2, 0);
    lemma_any_partial_pointwise(params, args1, args1.len() as int);
    lemma_any_partial_pointwise(params, args2, args2.len() as int);
    if has_partial_arg(params, args1) {
        lemma_partial_transfer(params, args2, args1);
    }
    if has_partial_arg(params, args2) {
        lemma_partial_transfer(params, args1, args2);
    }
}

/// The same, lifted to the binder's whole outcome: two orderings of the
/// same fully keyworded, duplicate-free arguments make the bind succeed
/// alike — same registry entry, same maybe-fallible flag — whatever order
/// the arguments were written in.
pub proof fn lemma_new_outcome_order_independent(
    decls: Seq<DeclV>,
    ident: Seq<char>,
    abort_on_error: bool,
    args1: Seq<NodeV<ArgV>>,
    args2: Seq<NodeV<ArgV>>,
)
    requires
        all_keyworded(args1),
        all_keyworded(args2),
        distinct_keywords(args1),
        distinct_keywords(args2),
        forall|kw: Seq<char>| #[trigger] kw_lookup(args1, kw, 0) == kw_lookup(args2, kw, 0),
        args1.len() == args2.len(),
    ensures
        (new_outcome(decls, ident, abort_on_error, args1) is Success) == (new_outcome(
            decls,
            ident,
            abort_on_error,
            args2,
        ) is Success),
        new_outcome(decls, ident, abort_on_error, args1) is Success ==> (find_func(decls, ident, 0)
            matches Some(fid) && any_partial(decls[fid].parameters, args1, args1.len() as int)
            == any_partial(decls[fid].parameters, args2, args2.len() as int)),
{
    match find_func(decls, ident, 0) {
        Option::Some(fid) => {
            lemma_binder_checks_order_independent(decls[fid].parameters, args1, args2);
        },
        Option::None => {},
    }
}

} // verus!

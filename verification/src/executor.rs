//! Evaluation of expressions and execution of statements and programs.
//!
//! Each function requires that what it runs completes, within some budget of
//! nested calls and loop iterations, whatever the clock and the random number
//! generator answer, and ensures that it did what [`crate::semantics`] says
//! for the answers they actually gave.
use vstd::prelude::*;
use crate::call;
use crate::eval::{eval_expr, eval_place_exec};
use crate::exec::exec_stmt_exec;
use crate::model::{
    AzimuthId, LocalId, Number, Operator, ResolvedExpression, ResolvedShapeExpression,
    ResolvedStatement, SKind, SVal, ShapeId, Span, Value, ValueKind, map_view,
};
use crate::runtime::{Runtime, RtState, SOpResult, st_init_statics};
use crate::semantics::{
    stack_kept, lemma_kept_trans,
    Oracle, agrees, create_range_spec, eval, eval_place, exec_stmt, lemma_agrees_prefix,
    lemma_extends_trans, state_extends, run, run_program,
};

verus! {

/// A shape and the kinds it was instantiated with.
#[derive(Debug)]
pub struct ShapeInstance {
    pub id: ShapeId,
    pub generics: Vec<ValueKind>,
}

/// An error that stops evaluation.
#[derive(Debug)]
pub enum RuntimeError {
    Error { span: Span, message: String },
    Throw { span: Span, message: String },
    TypeMismatch { span: Span, found: Value, expected: ValueKind },
    UnexpectedBreakout { span: Span },
    InvalidOperator { span: Span, operator: Operator, operand: ValueKind },
}

/// The mathematical form of a [`RuntimeError`].
pub enum SErr {
    Error { span: Span, message: Seq<char> },
    Throw { span: Span, message: Seq<char> },
    TypeMismatch { span: Span, found: SVal, expected: SKind },
    UnexpectedBreakout { span: Span },
    InvalidOperator { span: Span, operator: Operator, operand: SKind },
}

impl View for RuntimeError {
    type V = SErr;

    open spec fn view(&self) -> SErr {
        match self {
            RuntimeError::Error { span, message } => SErr::Error { span: *span, message: message@ },
            RuntimeError::Throw { span, message } => SErr::Throw { span: *span, message: message@ },
            RuntimeError::TypeMismatch { span, found, expected } => SErr::TypeMismatch {
                span: *span,
                found: found@,
                expected: expected@,
            },
            RuntimeError::UnexpectedBreakout { span } => SErr::UnexpectedBreakout { span: *span },
            RuntimeError::InvalidOperator { span, operator, operand } => SErr::InvalidOperator {
                span: *span,
                operator: *operator,
                operand: operand@,
            },
        }
    }
}

/// How a statement finished.
#[derive(Debug)]
pub enum ExecFlow {
    Normal(Span),
    Break(Span),
    Continue(Span),
    Return(Span, Value),
    Declare(Span, LocalId),
    Error { span: Span, message: String },
}

/// The mathematical form of an [`ExecFlow`].
pub enum SFlow {
    Normal(Span),
    Break(Span),
    Continue(Span),
    Return(Span, SVal),
    Declare(Span, LocalId),
    Error { span: Span, message: Seq<char> },
}

impl View for ExecFlow {
    type V = SFlow;

    open spec fn view(&self) -> SFlow {
        match self {
            ExecFlow::Normal(s) => SFlow::Normal(*s),
            ExecFlow::Break(s) => SFlow::Break(*s),
            ExecFlow::Continue(s) => SFlow::Continue(*s),
            ExecFlow::Return(s, v) => SFlow::Return(*s, v@),
            ExecFlow::Declare(s, l) => SFlow::Declare(*s, *l),
            ExecFlow::Error { span, message } => SFlow::Error { span: *span, message: message@ },
        }
    }
}

/// The mathematical form of a result.
pub open spec fn result_view(r: Result<Value, RuntimeError>) -> Result<SVal, SErr> {
    match r {
        Ok(v) => Ok(v@),
        Err(e) => Err(e@),
    }
}

/// The mathematical form of the result of a statement.
pub open spec fn flow_view(r: Result<ExecFlow, RuntimeError>) -> Result<SFlow, SErr> {
    match r {
        Ok(f) => Ok(f@),
        Err(e) => Err(e@),
    }
}

/// The error `Error { span, message }`.
pub open spec fn err(span: Span, message: Seq<char>) -> SErr {
    SErr::Error { span, message }
}

/// Builds the error `Error { span, message }`.
pub fn error(span: Span, message: &str) -> (e: RuntimeError)
    ensures
        e@ == err(span, message@),
{
    RuntimeError::Error { span, message: String::from_str(message) }
}


/// Whether evaluating `e` in state `st` completes within `fuel` whatever the
/// clock and the random number generator answer.
pub open spec fn evaluates(fuel: nat, st: RtState, e: ResolvedExpression) -> bool {
    forall|o: Oracle| agrees(o, st) ==> #[trigger] eval(fuel, o, st, e) is Some
}

/// A budget within which evaluating `e` in state `st` completes, if there is one.
pub open spec fn eval_budget(st: RtState, e: ResolvedExpression) -> nat {
    choose|fuel: nat| evaluates(fuel, st, e)
}

/// Whether evaluating `e` as a place in state `st` completes within `fuel`.
pub open spec fn places(fuel: nat, st: RtState, e: ResolvedExpression) -> bool {
    forall|o: Oracle| agrees(o, st) ==> #[trigger] eval_place(fuel, o, st, e) is Some
}

/// A budget within which evaluating `e` as a place completes, if there is one.
pub open spec fn place_budget(st: RtState, e: ResolvedExpression) -> nat {
    choose|fuel: nat| places(fuel, st, e)
}

/// Whether executing `s` in state `st` completes within `fuel`.
pub open spec fn executes(fuel: nat, st: RtState, s: ResolvedStatement) -> bool {
    forall|o: Oracle| agrees(o, st) ==> #[trigger] exec_stmt(fuel, o, st, s) is Some
}

/// A budget within which executing `s` completes, if there is one.
pub open spec fn exec_budget(st: RtState, s: ResolvedStatement) -> nat {
    choose|fuel: nat| executes(fuel, st, s)
}

/// Whether running a program completes within `fuel` for each statement.
pub open spec fn runs(
    fuel: nat,
    st: RtState,
    ss: Seq<ResolvedStatement>,
    statics: Seq<(ShapeId, Seq<AzimuthId>)>,
) -> bool {
    forall|o: Oracle| agrees(o, st) ==> #[trigger] run(fuel, o, st, ss, statics) is Some
}

/// A budget within which running a program completes, if there is one.
pub open spec fn run_budget(
    st: RtState,
    ss: Seq<ResolvedStatement>,
    statics: Seq<(ShapeId, Seq<AzimuthId>)>,
) -> nat {
    choose|fuel: nat| runs(fuel, st, ss, statics)
}

/// The kind a shape expression stands for.
pub fn evaluate_shape(runtime: &Runtime, shape: ResolvedShapeExpression) -> (k: ValueKind)
    ensures
        k@ == shape.kind@,
{
    shape.kind
}

/// Evaluates an expression.
pub fn evaluate(runtime: &mut Runtime, expression: ResolvedExpression) -> (r: Result<
    Value,
    RuntimeError,
>)
    requires
        exists|fuel: nat| evaluates(fuel, old(runtime)@, expression),
    ensures
        state_extends(old(runtime)@, final(runtime)@),
        r is Ok ==> stack_kept(old(runtime)@, final(runtime)@),
        forall|o: Oracle|
            agrees(o, final(runtime)@) ==> #[trigger] eval(
                eval_budget(old(runtime)@, expression),
                o,
                old(runtime)@,
                expression,
            ) == Some((final(runtime)@, result_view(r))),
{
    let ghost fuel = eval_budget(runtime@, expression);
    eval_expr(runtime, &expression, Ghost(fuel))
}

/// Evaluates an expression as a place: a slot, an element or a local.
pub fn evaluate_place(runtime: &mut Runtime, expression: ResolvedExpression) -> (r: Result<
    Value,
    RuntimeError,
>)
    requires
        exists|fuel: nat| places(fuel, old(runtime)@, expression),
    ensures
        state_extends(old(runtime)@, final(runtime)@),
        r is Ok ==> stack_kept(old(runtime)@, final(runtime)@),
        forall|o: Oracle|
            agrees(o, final(runtime)@) ==> #[trigger] eval_place(
                place_budget(old(runtime)@, expression),
                o,
                old(runtime)@,
                expression,
            ) == Some((final(runtime)@, result_view(r))),
{
    let ghost fuel = place_budget(runtime@, expression);
    eval_place_exec(runtime, &expression, Ghost(fuel))
}

/// Executes a statement.
pub fn execute_statement(runtime: &mut Runtime, statement: ResolvedStatement) -> (r: Result<
    ExecFlow,
    RuntimeError,
>)
    requires
        exists|fuel: nat| executes(fuel, old(runtime)@, statement),
    ensures
        state_extends(old(runtime)@, final(runtime)@),
        r is Ok ==> stack_kept(old(runtime)@, final(runtime)@),
        forall|o: Oracle|
            agrees(o, final(runtime)@) ==> #[trigger] exec_stmt(
                exec_budget(old(runtime)@, statement),
                o,
                old(runtime)@,
                statement,
            ) == Some((final(runtime)@, flow_view(r))),
{
    let ghost fuel = exec_budget(runtime@, statement);
    exec_stmt_exec(runtime, &statement, Ghost(fuel))
}

/// The range value from `from` to `to`: a signed start steps by 1 towards an
/// end that is not below it and by -1 otherwise; any other start steps by 1.
pub fn create_range(from: Number, to: Number, inclusive: bool) -> (v: Value)
    ensures
        v@ == create_range_spec(from, to, inclusive),
{
    crate::ops::range_value(from, to, inclusive)
}

/// Runs a program: creates the static singletons of `static_info`, then runs
/// the statements of `ast` in order.
pub fn execute(
    runtime: &mut Runtime,
    ast: Vec<ResolvedStatement>,
    static_info: Vec<(ShapeId, Vec<AzimuthId>)>,
) -> (r: Result<ExecFlow, RuntimeError>)
    requires
        exists|fuel: nat| runs(fuel, old(runtime)@, ast@, map_view(static_info@)),
    ensures
        state_extends(old(runtime)@, final(runtime)@),
        r is Ok ==> stack_kept(old(runtime)@, final(runtime)@),
        forall|o: Oracle|
            agrees(o, final(runtime)@) ==> #[trigger] run(
                run_budget(old(runtime)@, ast@, map_view(static_info@)),
                o,
                old(runtime)@,
                ast@,
                map_view(static_info@),
            ) == Some((final(runtime)@, flow_view(r))),
{
    let ghost fuel = run_budget(runtime@, ast@, map_view(static_info@));
    let ghost st0 = runtime@;
    let ghost statics = map_view(static_info@);
    match runtime.init_static_instances(&static_info) {
        Err(m) => {
            let r = Err(RuntimeError::Error { span: Span::empty(), message: m });
            assert(state_extends(st0, runtime@));
            return r;
        },
        Ok(()) => {},
    }
    let ghost s1 = runtime@;
    assert(state_extends(st0, s1));
    let mut i: usize = 0;
    assert(ast@.skip(0) =~= ast@);
    while i < ast.len()
        invariant
            i <= ast@.len(),
            st0 == old(runtime)@,
            statics == map_view(static_info@),
            st_init_statics(st0, statics) == SOpResult::Done(s1),
            fuel == run_budget(st0, ast@, statics),
            state_extends(st0, runtime@),
            state_extends(s1, runtime@),
            stack_kept(s1, runtime@),
            st0.call_stack == s1.call_stack,
            st0.caught == s1.caught,
            forall|o: Oracle| agrees(o, st0) ==> #[trigger] run(fuel, o, st0, ast@, statics) is Some,
            forall|o: Oracle|
                agrees(o, runtime@) ==> #[trigger] run(fuel, o, st0, ast@, statics) == run_program(
                    fuel,
                    o,
                    runtime@,
                    ast@.skip(i as int),
                ),
        decreases ast@.len() - i,
    {
        let ghost cur = runtime@;
        let ghost rest = ast@.skip(i as int);
        assert(rest[0] == ast@[i as int]);
        assert(rest.drop_first() =~= ast@.skip(i + 1));
        assert forall|o: Oracle| agrees(o, cur) implies #[trigger] exec_stmt(
            fuel,
            o,
            cur,
            ast@[i as int],
        ) is Some by {
            lemma_agrees_prefix(o, st0, cur);
            assert(run(fuel, o, st0, ast@, statics) is Some);
            assert(run(fuel, o, st0, ast@, statics) == run_program(fuel, o, cur, rest));
        }
        let fr = exec_stmt_exec(runtime, &ast[i], Ghost(fuel));
        let ghost nxt = runtime@;
        let ghost frv = flow_view(fr);
        proof {
            lemma_extends_trans(st0, cur, nxt);
            lemma_extends_trans(s1, cur, nxt);
        }
        assert forall|o: Oracle| agrees(o, nxt) implies #[trigger] run(fuel, o, st0, ast@, statics)
            == match frv {
            Err(x) => Some((nxt, Err(x))),
            Ok(flow) => match flow {
                SFlow::Normal(_) | SFlow::Declare(_, _) => run_program(
                    fuel,
                    o,
                    nxt,
                    ast@.skip(i + 1),
                ),
                SFlow::Break(sp) | SFlow::Continue(sp) | SFlow::Return(sp, _) => Some(
                    (nxt, Err(SErr::UnexpectedBreakout { span: sp })),
                ),
                SFlow::Error { span, message } => Some(
                    (nxt, Err(SErr::Throw { span, message })),
                ),
            },
        } by {
            lemma_agrees_prefix(o, cur, nxt);
            assert(exec_stmt(fuel, o, cur, rest[0]) == Some((nxt, frv)));
        }
        match fr {
            Err(x) => {
                return Err(x);
            },
            Ok(ExecFlow::Normal(_)) | Ok(ExecFlow::Declare(_, _)) => {},
            Ok(ExecFlow::Break(sp)) | Ok(ExecFlow::Continue(sp)) | Ok(ExecFlow::Return(sp, _)) => {
                return Err(RuntimeError::UnexpectedBreakout { span: sp });
            },
            Ok(ExecFlow::Error { span, message }) => {
                return Err(RuntimeError::Throw { span, message });
            },
        }
        i = i + 1;
    }
    assert(ast@.skip(i as int) =~= Seq::<ResolvedStatement>::empty());
    Ok(ExecFlow::Normal(Span::new(0, 0, "Runtime")))
}

} // verus!

//! What the operations of the language do, stated over their inputs and
//! results: arithmetic, entering a function, `switch`, and the numbers a range
//! runs through.
use vstd::prelude::*;
use vstd::arithmetic::div_mod::{lemma_fundamental_div_mod, lemma_mod_pos_bound};
use vstd::arithmetic::mul::lemma_mul_inequality;
use crate::executor::{SErr, SFlow};
use crate::intrinsic::{Intrinsic, dict_lookup, intrinsic_call, range_array};
use crate::model::{
    LocalId, NumKind, Number, Operator, ResolvedExpression, ResolvedStatement, SFunc, SKind, SParam,
    SVal, Span, Value,
};
use crate::runtime::{
    RtState, SLocal, local_index, local_value, st_push_frame, st_ref_local, st_reserve_local,
};
use crate::semantics::{
    Oracle, SwitchEnd, bind_params, dict_insert_all, first_key, enter_call, eval, eval_binary, exec_stmt, expr_kind, needs_right,
    number_binop, range_items, with_right, without_right, unary, index_result, while_loop,
    for_loop,
    ref_locals, switch_loop,
};
use crate::value::{dec_int, fits, is_int_kind, num_int, num_kind, same_value, sval_kind, trunc_div};

verus! {

// ---------------------------------------------------------------------------
// Subtraction
// ---------------------------------------------------------------------------
/// Subtracting two integers of one kind gives the left one minus the right
/// one, in that kind, wherever the difference fits the kind.
pub proof fn law_sub_is_left_minus_right(span: Span, l: Number, r: Number)
    requires
        num_kind(l) == num_kind(r),
        is_int_kind(num_kind(l)),
        !(num_kind(l) is Any),
        fits(num_kind(l), num_int(l) - num_int(r)),
    ensures
        number_binop(span, Operator::Sub, l, r) matches Some(Ok(SVal::Number(n))) && num_kind(n)
            == num_kind(l) && num_int(n) == num_int(l) - num_int(r),
        number_binop(span, Operator::Sub, l, r) matches Some(Ok(SVal::Number(n))) && num_int(n)
            + num_int(r) == num_int(l),
{
}

/// Evaluating `l - r` on two integer literals of one kind gives `l` minus
/// `r` and changes nothing.
pub proof fn law_eval_sub(
    fuel: nat,
    o: Oracle,
    st: RtState,
    span: Span,
    lspan: Span,
    rspan: Span,
    l: Number,
    r: Number,
)
    requires
        num_kind(l) == num_kind(r),
        is_int_kind(num_kind(l)),
        !(num_kind(l) is Any),
        fits(num_kind(l), num_int(l) - num_int(r)),
    ensures
        eval(
            fuel,
            o,
            st,
            ResolvedExpression::BinaryOp {
                span,
                left: Box::new(ResolvedExpression::Value(lspan, Value::Number(l))),
                operator: Operator::Sub,
                right: Box::new(ResolvedExpression::Value(rspan, Value::Number(r))),
            },
        ) matches Some((s, Ok(SVal::Number(n)))) && s == st && num_kind(n) == num_kind(l) && num_int(
            n,
        ) == num_int(l) - num_int(r),
{
    law_sub_is_left_minus_right(span, l, r);
    let left = ResolvedExpression::Value(lspan, Value::Number(l));
    let right = ResolvedExpression::Value(rspan, Value::Number(r));
    let e = ResolvedExpression::BinaryOp {
        span,
        left: Box::new(left),
        operator: Operator::Sub,
        right: Box::new(right),
    };
    assert(Value::Number(l)@ == SVal::Number(l));
    assert(Value::Number(r)@ == SVal::Number(r));
    assert(eval(fuel, o, st, left) == Some((st, Ok::<SVal, SErr>(SVal::Number(l)))));
    assert(eval(fuel, o, st, right) == Some((st, Ok::<SVal, SErr>(SVal::Number(r)))));
    assert(expr_kind(right) == SKind::Number(num_kind(r)));
    assert(needs_right(Operator::Sub, SVal::Number(l), expr_kind(right)));
    assert(with_right(span, Operator::Sub, SVal::Number(l), expr_kind(right), SVal::Number(r))
        == number_binop(span, Operator::Sub, l, r));
    assert(eval(fuel, o, st, e) == eval_binary(fuel, o, st, e));
}

/// The binary operation `l op r` on two literals.
pub open spec fn literal_binop(span: Span, ls: Span, rs: Span, l: Value, op: Operator, r: Value) -> ResolvedExpression {
    ResolvedExpression::BinaryOp {
        span,
        left: Box::new(ResolvedExpression::Value(ls, l)),
        operator: op,
        right: Box::new(ResolvedExpression::Value(rs, r)),
    }
}

/// Evaluating an operation on two number literals is the number operation.
proof fn lemma_eval_number_literals(
    fuel: nat,
    o: Oracle,
    st: RtState,
    span: Span,
    ls: Span,
    rs: Span,
    l: Number,
    op: Operator,
    r: Number,
)
    requires
        !(op is DQuestion),
    ensures
        eval(fuel, o, st, literal_binop(span, ls, rs, Value::Number(l), op, Value::Number(r)))
            == match number_binop(span, op, l, r) {
            None => None,
            Some(res) => Some((st, res)),
        },
{
    let left = ResolvedExpression::Value(ls, Value::Number(l));
    let right = ResolvedExpression::Value(rs, Value::Number(r));
    let e = literal_binop(span, ls, rs, Value::Number(l), op, Value::Number(r));
    assert(Value::Number(l)@ == SVal::Number(l));
    assert(Value::Number(r)@ == SVal::Number(r));
    assert(eval(fuel, o, st, left) == Some((st, Ok::<SVal, SErr>(SVal::Number(l)))));
    assert(eval(fuel, o, st, right) == Some((st, Ok::<SVal, SErr>(SVal::Number(r)))));
    assert(expr_kind(right) == SKind::Number(num_kind(r)));
    assert(needs_right(op, SVal::Number(l), expr_kind(right)));
    assert(with_right(span, op, SVal::Number(l), expr_kind(right), SVal::Number(r))
        == number_binop(span, op, l, r));
    assert(eval(fuel, o, st, e) == eval_binary(fuel, o, st, e));
}

/// Truncating division: the remainder `a - q * b` is smaller than `b` in size
/// and has the sign of `a` (or is zero).
proof fn lemma_trunc_div(a: int, b: int)
    requires
        b != 0,
    ensures
        ({
            let r = a - trunc_div(a, b) * b;
            &&& (if r < 0 { -r } else { r }) < (if b < 0 { -b } else { b })
            &&& (r == 0 || ((r > 0) == (a > 0)))
            &&& a - b * trunc_div(a, b) == r
        }),
{
    let aa = if a < 0 { -a } else { a };
    let bb = if b < 0 { -b } else { b };
    lemma_fundamental_div_mod(aa, bb);
    lemma_mod_pos_bound(aa, bb);
    let q = aa / bb;
    let rr = aa % bb;
    assert(aa == bb * q + rr);
    let t = trunc_div(a, b);
    if a >= 0 && b > 0 {
        assert(a - t * b == rr) by (nonlinear_arith)
            requires t == q, aa == a, bb == b, aa == bb * q + rr;
    } else if a >= 0 && b < 0 {
        assert(a - t * b == rr) by (nonlinear_arith)
            requires t == -q, aa == a, bb == -b, aa == bb * q + rr;
    } else if a < 0 && b > 0 {
        assert(a - t * b == -rr) by (nonlinear_arith)
            requires t == -q, aa == -a, bb == b, aa == bb * q + rr;
    } else {
        assert(a - t * b == -rr) by (nonlinear_arith)
            requires t == q, aa == -a, bb == -b, aa == bb * q + rr;
    }
    assert(t * b == b * t) by (nonlinear_arith);
}

/// Arithmetic and comparison on two integer literals of one kind: sums,
/// differences and products are the mathematical ones wherever they fit the
/// kind; comparisons compare the numbers; division truncates, leaving a
/// remainder smaller than the divisor with the sign of the dividend; the
/// remainder operator gives that remainder; division by zero does not
/// complete.
pub proof fn law_integer_arithmetic(
    fuel: nat,
    o: Oracle,
    st: RtState,
    span: Span,
    ls: Span,
    rs: Span,
    l: Number,
    r: Number,
)
    requires
        num_kind(l) == num_kind(r),
        is_int_kind(num_kind(l)),
        !(num_kind(l) is Any),
    ensures
        ({
            let (a, b, k) = (num_int(l), num_int(r), num_kind(l));
            let ev = |op: Operator|
                eval(fuel, o, st, literal_binop(span, ls, rs, Value::Number(l), op, Value::Number(r)));
            &&& fits(k, a + b) ==> (ev(Operator::Add) matches Some((s, Ok(SVal::Number(n)))) && s == st
                && num_kind(n) == k && num_int(n) == a + b)
            &&& fits(k, a - b) ==> (ev(Operator::Sub) matches Some((s, Ok(SVal::Number(n)))) && s == st
                && num_kind(n) == k && num_int(n) == a - b)
            &&& fits(k, a * b) ==> (ev(Operator::Mul) matches Some((s, Ok(SVal::Number(n)))) && s == st
                && num_kind(n) == k && num_int(n) == a * b)
            &&& ev(Operator::LT) == Some((st, Ok::<SVal, SErr>(SVal::Bool(a < b))))
            &&& ev(Operator::GT) == Some((st, Ok::<SVal, SErr>(SVal::Bool(a > b))))
            &&& ev(Operator::LTE) == Some((st, Ok::<SVal, SErr>(SVal::Bool(a <= b))))
            &&& ev(Operator::GTE) == Some((st, Ok::<SVal, SErr>(SVal::Bool(a >= b))))
            &&& ev(Operator::Equal) == Some((st, Ok::<SVal, SErr>(SVal::Bool(a == b))))
            &&& ev(Operator::NEqual) == Some((st, Ok::<SVal, SErr>(SVal::Bool(a != b))))
            &&& b == 0 ==> ev(Operator::Div) is None && ev(Operator::Mod) is None
            &&& b != 0 ==> (ev(Operator::Div) matches Some((s, Ok(SVal::Number(q)))) ==> s == st
                && num_kind(q) == k && ({
                let rem = a - num_int(q) * b;
                &&& (if rem < 0 { -rem } else { rem }) < (if b < 0 { -b } else { b })
                &&& (rem == 0 || ((rem > 0) == (a > 0)))
            }))
            &&& b != 0 ==> (ev(Operator::Mod) matches Some((s, Ok(SVal::Number(m)))) ==> s == st
                && num_kind(m) == k && (ev(Operator::Div) matches Some((_, Ok(SVal::Number(q))))
                && num_int(m) == a - num_int(q) * b) && ({
                let rem = num_int(m);
                &&& (if rem < 0 { -rem } else { rem }) < (if b < 0 { -b } else { b })
                &&& (rem == 0 || ((rem > 0) == (a > 0)))
            }))
        }),
{
    lemma_eval_number_literals(fuel, o, st, span, ls, rs, l, Operator::Add, r);
    lemma_eval_number_literals(fuel, o, st, span, ls, rs, l, Operator::Sub, r);
    lemma_eval_number_literals(fuel, o, st, span, ls, rs, l, Operator::Mul, r);
    lemma_eval_number_literals(fuel, o, st, span, ls, rs, l, Operator::LT, r);
    lemma_eval_number_literals(fuel, o, st, span, ls, rs, l, Operator::GT, r);
    lemma_eval_number_literals(fuel, o, st, span, ls, rs, l, Operator::LTE, r);
    lemma_eval_number_literals(fuel, o, st, span, ls, rs, l, Operator::GTE, r);
    lemma_eval_number_literals(fuel, o, st, span, ls, rs, l, Operator::Equal, r);
    lemma_eval_number_literals(fuel, o, st, span, ls, rs, l, Operator::NEqual, r);
    lemma_eval_number_literals(fuel, o, st, span, ls, rs, l, Operator::Div, r);
    lemma_eval_number_literals(fuel, o, st, span, ls, rs, l, Operator::Mod, r);
    if num_int(r) != 0 {
        lemma_trunc_div(num_int(l), num_int(r));
    }
}

// ---------------------------------------------------------------------------
// Entering a function
// ---------------------------------------------------------------------------
/// No two parameters bind the same local.
pub open spec fn distinct_locals(inputs: Seq<SParam>) -> bool {
    forall|i: int, j: int|
        0 <= i < inputs.len() && 0 <= j < inputs.len() && i != j && (#[trigger] inputs[i]).local
            is Some ==> (#[trigger] inputs[j]).local != inputs[i].local
}

proof fn lemma_local_index_facts(ls: Seq<SLocal>, id: LocalId)
    ensures
        -1 <= local_index(ls, id) < ls.len(),
        local_index(ls, id) >= 0 ==> ls[local_index(ls, id)].id == id,
        local_index(ls, id) < 0 ==> forall|j: int| 0 <= j < ls.len() ==> ls[j].id != id,
        local_index(ls, id) >= 0 ==> forall|j: int|
            local_index(ls, id) < j < ls.len() ==> ls[j].id != id,
    decreases ls.len(),
{
    if ls.len() > 0 {
        lemma_local_index_facts(ls.drop_last(), id);
        assert(forall|j: int| 0 <= j < ls.len() - 1 ==> ls.drop_last()[j] == ls[j]);
    }
}

proof fn lemma_local_index_update(ls: Seq<SLocal>, i: int, x: SLocal, id: LocalId)
    requires
        0 <= i < ls.len(),
        x.id == ls[i].id,
    ensures
        local_index(ls.update(i, x), id) == local_index(ls, id),
    decreases ls.len(),
{
    if ls.len() > 0 {
        if i < ls.len() - 1 {
            assert(ls.update(i, x).drop_last() =~= ls.drop_last().update(i, x));
            lemma_local_index_update(ls.drop_last(), i, x, id);
        } else {
            assert(ls.update(i, x).drop_last() =~= ls.drop_last());
        }
    }
}

/// Binding local `id` makes it read `v`, and leaves every other local.
proof fn lemma_reserve_reads(st: RtState, id: LocalId, v: SVal, x: LocalId)
    ensures
        local_value(st_reserve_local(st, id, v), x) == if x == id {
            Some(v)
        } else {
            local_value(st, x)
        },
{
    let i = local_index(st.locals, id);
    lemma_local_index_facts(st.locals, id);
    lemma_local_index_facts(st.locals, x);
    let j = local_index(st.locals, x);
    if i >= 0 {
        let e = SLocal { id, value: v, refs: st.locals[i].refs };
        lemma_local_index_update(st.locals, i, e, x);
        if x != id && j >= 0 {
            assert(j != i);
            assert(st.locals.update(i, e)[j] == st.locals[j]);
        }
    } else {
        let ls = st.locals.push(SLocal { id, value: v, refs: 1 });
        assert(ls.drop_last() =~= st.locals);
        if x != id && j >= 0 {
            assert(ls[j] == st.locals[j]);
        }
    }
}

/// Taking a reference to a local changes no local's value.
proof fn lemma_ref_local_reads(st: RtState, id: LocalId, x: LocalId)
    ensures
        local_value(st_ref_local(st, id), x) == local_value(st, x),
{
    let i = local_index(st.locals, id);
    lemma_local_index_facts(st.locals, id);
    lemma_local_index_facts(st.locals, x);
    if i >= 0 {
        let e = SLocal { refs: crate::runtime::inc_refs(st.locals[i].refs), ..st.locals[i] };
        lemma_local_index_update(st.locals, i, e, x);
        let j = local_index(st.locals, x);
        if j >= 0 && j != i {
            assert(st.locals.update(i, e)[j] == st.locals[j]);
        }
    }
}

proof fn lemma_ref_locals_reads(st: RtState, ids: Seq<LocalId>, x: LocalId)
    ensures
        local_value(ref_locals(st, ids), x) == local_value(st, x),
    decreases ids.len(),
{
    if ids.len() > 0 {
        lemma_ref_local_reads(st, ids[0], x);
        lemma_ref_locals_reads(st_ref_local(st, ids[0]), ids.drop_first(), x);
    }
}

/// Binding parameters leaves every local that none of them names.
proof fn lemma_bind_params_other(st: RtState, inputs: Seq<SParam>, params: Seq<SVal>, x: LocalId)
    requires
        forall|j: int| 0 <= j < inputs.len() ==> (#[trigger] inputs[j]).local != Some(x),
    ensures
        local_value(bind_params(st, inputs, params), x) == local_value(st, x),
    decreases inputs.len(),
{
    if inputs.len() > 0 && params.len() > 0 {
        let s1 = match inputs[0].local {
            Some(id) => st_reserve_local(st, id, params[0]),
            None => st,
        };
        if let Some(id) = inputs[0].local {
            lemma_reserve_reads(st, id, params[0], x);
        }
        assert forall|j: int| 0 <= j < inputs.drop_first().len() implies (
        #[trigger] inputs.drop_first()[j]).local != Some(x) by {
            assert(inputs.drop_first()[j] == inputs[j + 1]);
        }
        lemma_bind_params_other(s1, inputs.drop_first(), params.drop_first(), x);
    }
}

/// Binding parameters makes the local of parameter `i` read argument `i`,
/// when no two parameters name the same local.
pub proof fn law_bind_params_reads(st: RtState, inputs: Seq<SParam>, params: Seq<SVal>)
    requires
        inputs.len() <= params.len(),
        distinct_locals(inputs),
    ensures
        forall|i: int|
            0 <= i < inputs.len() && (#[trigger] inputs[i]).local is Some ==> local_value(
                bind_params(st, inputs, params),
                inputs[i].local->Some_0,
            ) == Some(params[i]),
    decreases inputs.len(),
{
    if inputs.len() > 0 {
        let s1 = match inputs[0].local {
            Some(id) => st_reserve_local(st, id, params[0]),
            None => st,
        };
        let rest = inputs.drop_first();
        let ps = params.drop_first();
        assert(distinct_locals(rest)) by {
            assert forall|i: int, j: int|
                0 <= i < rest.len() && 0 <= j < rest.len() && i != j && (#[trigger] rest[i]).local
                    is Some implies (#[trigger] rest[j]).local != rest[i].local by {
                assert(rest[i] == inputs[i + 1]);
                assert(rest[j] == inputs[j + 1]);
            }
        }
        law_bind_params_reads(s1, rest, ps);
        assert forall|i: int|
            0 <= i < inputs.len() && (#[trigger] inputs[i]).local is Some implies local_value(
            bind_params(st, inputs, params),
            inputs[i].local->Some_0,
        ) == Some(params[i]) by {
            if i == 0 {
                let id = inputs[0].local->Some_0;
                lemma_reserve_reads(st, id, params[0], id);
                assert forall|j: int| 0 <= j < rest.len() implies (#[trigger] rest[j]).local != Some(
                    id,
                ) by {
                    assert(rest[j] == inputs[j + 1]);
                }
                lemma_bind_params_other(s1, rest, ps, id);
            } else {
                assert(rest[i - 1] == inputs[i]);
                assert(ps[i - 1] == params[i]);
            }
        }
    }
}

/// On entering a script function, the local each parameter names holds the
/// argument at the parameter's position, when no two parameters name the same
/// local.
pub proof fn law_enter_call_binds_arguments(st: RtState, f: SFunc, params: Seq<SVal>, span: Span)
    requires
        distinct_locals(f.inputs),
        f.inputs.len() <= params.len(),
    ensures
        enter_call(st, f, params, span) matches Some(s1) && forall|i: int|
            0 <= i < f.inputs.len() && (#[trigger] f.inputs[i]).local is Some ==> local_value(
                s1,
                f.inputs[i].local->Some_0,
            ) == Some(params[i]),
{
    let b = bind_params(st, f.inputs, params);
    law_bind_params_reads(st, f.inputs, params);
    assert forall|i: int|
        0 <= i < f.inputs.len() && (#[trigger] f.inputs[i]).local is Some implies local_value(
        enter_call(st, f, params, span)->Some_0,
        f.inputs[i].local->Some_0,
    ) == Some(params[i]) by {
        lemma_ref_locals_reads(b, f.captures, f.inputs[i].local->Some_0);
    }
}

// ---------------------------------------------------------------------------
// Switch
// ---------------------------------------------------------------------------
/// Once a case has fallen through, the branches end as having fallen through.
pub proof fn law_switch_fell_stays(
    fuel: nat,
    o: Oracle,
    st: RtState,
    bs: Seq<(ResolvedExpression, bool, ResolvedStatement)>,
    t: SVal,
)
    ensures
        switch_loop(fuel, o, st, bs, t, true) matches Some((_, Ok(SwitchEnd::Done(f)))) ==> f,
    decreases bs.len(),
{
    if bs.len() > 0 {
        match eval(fuel, o, st, bs[0].0) {
            Some((s1, Ok(c))) => {
                if !same_value(t, c) {
                    law_switch_fell_stays(fuel, o, s1, bs.drop_first(), t);
                } else {
                    match exec_stmt(fuel, o, s1, bs[0].2) {
                        Some((s2, Ok(flow))) => {
                            law_switch_fell_stays(fuel, o, s2, bs.drop_first(), t);
                            if let SFlow::Declare(_, l) = flow {
                                law_switch_fell_stays(
                                    fuel,
                                    o,
                                    crate::runtime::st_deref_local(s2, l),
                                    bs.drop_first(),
                                    t,
                                );
                            }
                        },
                        _ => {},
                    }
                }
            },
            _ => {},
        }
    }
}

/// A case whose value equals the target, whose statement runs and which falls
/// through makes the branches end as having fallen through, whatever follows.
pub proof fn law_switch_match_falls_through(
    fuel: nat,
    o: Oracle,
    st: RtState,
    bs: Seq<(ResolvedExpression, bool, ResolvedStatement)>,
    t: SVal,
    fell: bool,
    s1: RtState,
    c: SVal,
    s2: RtState,
    flow: SFlow,
)
    requires
        bs.len() > 0,
        eval(fuel, o, st, bs[0].0) == Some((s1, Ok::<SVal, SErr>(c))),
        same_value(t, c),
        bs[0].1,
        exec_stmt(fuel, o, s1, bs[0].2) == Some((s2, Ok::<SFlow, SErr>(flow))),
        flow is Normal || flow is Declare,
    ensures
        switch_loop(fuel, o, st, bs, t, fell) matches Some((_, Ok(SwitchEnd::Done(f)))) ==> f,
{
    law_switch_fell_stays(fuel, o, s2, bs.drop_first(), t);
    if let SFlow::Declare(_, l) = flow {
        law_switch_fell_stays(fuel, o, crate::runtime::st_deref_local(s2, l), bs.drop_first(), t);
    }
}

/// When a case has fallen through, the `else` of a switch does not run: the
/// switch ends normally in the state the cases left.
pub proof fn law_switch_else_skipped(
    fuel: nat,
    o: Oracle,
    st: RtState,
    span: Span,
    target: ResolvedExpression,
    bs: Vec<(ResolvedExpression, bool, ResolvedStatement)>,
    e: Box<ResolvedStatement>,
    s1: RtState,
    t: SVal,
    s2: RtState,
)
    requires
        eval(fuel, o, st, target) == Some((s1, Ok::<SVal, SErr>(t))),
        switch_loop(fuel, o, s1, bs@, t, false) == Some((s2, Ok::<SwitchEnd, SErr>(SwitchEnd::Done(true)))),
    ensures
        exec_stmt(
            fuel,
            o,
            st,
            ResolvedStatement::Switch { span, target, branch_statements: bs, else_statement: Some(e) },
        ) == Some((s2, Ok::<SFlow, SErr>(SFlow::Normal(span)))),
{
}

// ---------------------------------------------------------------------------
// Ranges
// ---------------------------------------------------------------------------
/// For `d >= 0` and `c > 0`: `(d / c) * c <= d < (d / c + 1) * c`, and every
/// `k * c` with `0 <= k <= d / c` is at most `d`.
proof fn lemma_count_bounds(d: int, c: int)
    requires
        d >= 0,
        c > 0,
    ensures
        (d / c) * c <= d < (d / c + 1) * c,
        d / c >= 0,
        forall|k: int| 0 <= k <= d / c ==> #[trigger] (k * c) <= d,
{
    lemma_fundamental_div_mod(d, c);
    lemma_mod_pos_bound(d, c);
    let q = d / c;
    assert(q * c <= d && d < (q + 1) * c && q >= 0) by (nonlinear_arith)
        requires
            d == c * q + d % c,
            0 <= d % c < c,
            c > 0,
            d >= 0,
    ;
    assert forall|k: int| 0 <= k <= q implies #[trigger] (k * c) <= d by {
        lemma_mul_inequality(k, q, c);
    }
}

/// Whether a kind is one of the unsigned kinds.
pub open spec fn unsigned_kind(k: NumKind) -> bool {
    k is UInt8 || k is UInt16 || k is UInt32 || k is UInt64
}

/// A `for` loop over an inclusive signed range from `a` up to `b` with step
/// `c > 0` runs through `a, a + c, a + 2c, ...` as long as they are at most
/// `b`: every item is at most `b`, the next one would be above `b`, and there
/// is at least one item.
pub proof fn law_for_inclusive_range(start: Number, end: Number, by: Number, kind: NumKind)
    requires
        !unsigned_kind(kind),
        fits(NumKind::Int64, num_int(start)),
        fits(NumKind::Int64, num_int(end)),
        fits(NumKind::Int64, num_int(by)),
        num_int(start) <= num_int(end),
        1 <= num_int(by) <= usize::MAX,
    ensures
        range_items(start, end, by, true, kind) matches Some(xs) && xs.len() >= 1 && (forall|k: int|
            0 <= k < xs.len() ==> (#[trigger] xs[k]) == SVal::Number(
                Number::Int64((num_int(start) + k * num_int(by)) as i64),
            ) && num_int(start) + k * num_int(by) <= num_int(end)) && num_int(start) + xs.len()
            * num_int(by) > num_int(end),
        range_items(start, end, by, true, kind) matches Some(xs) && xs.last() == SVal::Number(
            Number::Int64((num_int(start) + (xs.len() - 1) * num_int(by)) as i64),
        ),
{
    let (a, b, c) = (num_int(start), num_int(end), num_int(by));
    assert(((c as i64) as usize) as int == c);
    lemma_count_bounds(b - a, c);
}

/// A `for` loop over an exclusive signed range from `a` up to `b` with step
/// `c > 0` runs through `a, a + c, ...` as long as they are below `b`: every
/// item is below `b` and the next one would not be.
pub proof fn law_for_exclusive_range(start: Number, end: Number, by: Number, kind: NumKind)
    requires
        !unsigned_kind(kind),
        fits(NumKind::Int64, num_int(start)),
        fits(NumKind::Int64, num_int(end)),
        fits(NumKind::Int64, num_int(by)),
        num_int(start) <= num_int(end),
        1 <= num_int(by) <= usize::MAX,
    ensures
        range_items(start, end, by, false, kind) matches Some(xs) && (forall|k: int|
            0 <= k < xs.len() ==> (#[trigger] xs[k]) == SVal::Number(
                Number::Int64((num_int(start) + k * num_int(by)) as i64),
            ) && num_int(start) + k * num_int(by) < num_int(end)) && num_int(start) + xs.len()
            * num_int(by) >= num_int(end),
{
    let (a, b, c) = (num_int(start), num_int(end), num_int(by));
    assert(((c as i64) as usize) as int == c);
    if a < b {
        lemma_count_bounds(b - a - 1, c);
    }
}

/// `Range::ToArray` on an exclusive range from `f` up to `t` with step
/// `s > 0` gives the `Int32` numbers `f, f + s, ...` that lie below `t`, and
/// no more: the next one would not be below `t`.
pub proof fn law_range_to_array_exclusive(
    o: Oracle,
    st: RtState,
    span: Span,
    from: Number,
    to: Number,
    by: Number,
    kind: NumKind,
)
    requires
        fits(NumKind::Int32, num_int(from)),
        fits(NumKind::Int32, num_int(to)),
        fits(NumKind::Int32, num_int(by)),
        num_int(from) <= num_int(to),
        num_int(by) >= 1,
    ensures
        intrinsic_call(
            o,
            st,
            Intrinsic::RangeToArray,
            span,
            seq![SVal::Range(from, to, by, false, kind)],
        ) matches Some((s, Ok(SVal::Array(xs, k)))) && s == st && k == SKind::Number(NumKind::Int32)
            && (forall|j: int|
            0 <= j < xs.len() ==> (#[trigger] xs[j]) == SVal::Number(
                Number::Int32((num_int(from) + j * num_int(by)) as i32),
            ) && num_int(from) + j * num_int(by) < num_int(to)) && num_int(from) + xs.len()
            * num_int(by) >= num_int(to),
{
    reveal(intrinsic_call);
    let (f, t, c) = (num_int(from), num_int(to), num_int(by));
    assert((((c as i32) as usize) as int) == c);
    if f < t {
        lemma_count_bounds(t - f - 1, c);
    }
}

/// `Range::ToArray` on an inclusive range from `f` up to `t` with step
/// `s > 0` gives the `Int32` numbers `f, f + s, ...` that are at most `t`, and
/// no more: the next one would be above `t`.
pub proof fn law_range_to_array_inclusive(
    o: Oracle,
    st: RtState,
    span: Span,
    from: Number,
    to: Number,
    by: Number,
    kind: NumKind,
)
    requires
        fits(NumKind::Int32, num_int(from)),
        fits(NumKind::Int32, num_int(to)),
        fits(NumKind::Int32, num_int(by)),
        num_int(from) <= num_int(to),
        num_int(by) >= 1,
    ensures
        intrinsic_call(
            o,
            st,
            Intrinsic::RangeToArray,
            span,
            seq![SVal::Range(from, to, by, true, kind)],
        ) matches Some((s, Ok(SVal::Array(xs, k)))) && s == st && k == SKind::Number(NumKind::Int32)
            && (forall|j: int|
            0 <= j < xs.len() ==> (#[trigger] xs[j]) == SVal::Number(
                Number::Int32((num_int(from) + j * num_int(by)) as i32),
            ) && num_int(from) + j * num_int(by) <= num_int(to)) && num_int(from) + xs.len()
            * num_int(by) > num_int(to),
{
    reveal(intrinsic_call);
    let (f, t, c) = (num_int(from), num_int(to), num_int(by));
    assert((((c as i32) as usize) as int) == c);
    lemma_count_bounds(t - f, c);
}

/// A `for` loop over an inclusive signed range running down from `a` to
/// `b < a` with step `c < 0` runs through `a, a + c, a + 2c, ...` as long as
/// they are at least `b`; the next one would be below `b`.
pub proof fn law_for_inclusive_descending_range(start: Number, end: Number, by: Number, kind: NumKind)
    requires
        !unsigned_kind(kind),
        fits(NumKind::Int64, num_int(start)),
        fits(NumKind::Int64, num_int(end)),
        fits(NumKind::Int64, num_int(start) - num_int(end)),
        num_int(start) > num_int(end),
        i64::MIN < num_int(by) <= -1,
    ensures
        range_items(start, end, by, true, kind) matches Some(xs) && xs.len() >= 1 && (forall|k: int|
            0 <= k < xs.len() ==> (#[trigger] xs[k]) == SVal::Number(
                Number::Int64((num_int(start) + k * num_int(by)) as i64),
            ) && num_int(start) + k * num_int(by) >= num_int(end)) && num_int(start) + xs.len()
            * num_int(by) < num_int(end),
{
    let (a, b, c) = (num_int(start), num_int(end), num_int(by));
    assert(trunc_div(a - b, -c) == (a - b) / (-c));
    lemma_count_bounds(a - b, -c);
    assert forall|k: int| 0 <= k <= (a - b) / (-c) implies a + #[trigger] (k * c) >= b by {
        assert(k * (-c) <= a - b);
        assert(k * c == -(k * (-c))) by (nonlinear_arith);
    }
    let n = (a - b) / (-c) + 1;
    assert(n * c == -(n * (-c))) by (nonlinear_arith);
}

/// Every item of an exclusive signed range running down from `a` to `b < a`
/// with step `c < 0` is of the form `a + k * c` and lies above `b`.
pub proof fn law_for_exclusive_descending_range(start: Number, end: Number, by: Number, kind: NumKind)
    requires
        !unsigned_kind(kind),
        fits(NumKind::Int64, num_int(start)),
        fits(NumKind::Int64, num_int(end)),
        fits(NumKind::Int64, num_int(start) - num_int(end)),
        num_int(start) > num_int(end),
        i64::MIN < num_int(by) <= -1,
    ensures
        range_items(start, end, by, false, kind) matches Some(xs) && (forall|k: int|
            0 <= k < xs.len() ==> (#[trigger] xs[k]) == SVal::Number(
                Number::Int64((num_int(start) + k * num_int(by)) as i64),
            ) && num_int(start) + k * num_int(by) > num_int(end)),
{
    let (a, b, c) = (num_int(start), num_int(end), num_int(by));
    assert(trunc_div(a - b, -c) == (a - b) / (-c));
    lemma_count_bounds(a - b, -c);
    let q = (a - b) / (-c);
    assert forall|k: int| 0 <= k < q implies a + #[trigger] (k * c) > b by {
        lemma_mul_inequality(k, q - 1, -c);
        assert((q - 1) * (-c) == q * (-c) + c) by (nonlinear_arith);
        assert(k * c == -(k * (-c))) by (nonlinear_arith);
    }
}

/// A `for` loop over an unsigned range from `a` up to `b` with step `c > 0`
/// runs through `a, a + c, ...` as long as they are at most `b` (inclusive)
/// or below `b` (exclusive), as `UInt64` numbers.
pub proof fn law_for_unsigned_range(start: Number, end: Number, by: Number, kind: NumKind, inclusive: bool)
    requires
        unsigned_kind(kind),
        fits(NumKind::UInt64, num_int(start)),
        fits(NumKind::UInt64, num_int(end)),
        1 <= num_int(by) <= usize::MAX,
        num_int(start) <= num_int(end),
    ensures
        range_items(start, end, by, inclusive, kind) matches Some(xs) && (forall|k: int|
            0 <= k < xs.len() ==> (#[trigger] xs[k]) == SVal::Number(
                Number::UInt64((num_int(start) + k * num_int(by)) as u64),
            ) && (if inclusive {
                num_int(start) + k * num_int(by) <= num_int(end)
            } else {
                num_int(start) + k * num_int(by) < num_int(end)
            })) && (if inclusive {
            num_int(start) + xs.len() * num_int(by) > num_int(end)
        } else {
            num_int(start) + xs.len() * num_int(by) >= num_int(end)
        }),
{
    let (a, b, c) = (num_int(start), num_int(end), num_int(by));
    assert(((c as u64) as usize) as int == c);
    if inclusive {
        lemma_count_bounds(b - a, c);
    } else if a < b {
        lemma_count_bounds(b - a - 1, c);
    }
}

/// `Range::ToArray` on a range running down from `f` to `t < f` with step
/// `s < 0` gives, when inclusive, `f, f + s, ...` as long as they are at least
/// `t`, and when exclusive `f - 1, f - 1 + s, ...` as long as they are at
/// least `t`; the next one would be below `t`.
pub proof fn law_range_to_array_descending(
    o: Oracle,
    st: RtState,
    span: Span,
    from: Number,
    to: Number,
    by: Number,
    kind: NumKind,
    inclusive: bool,
)
    requires
        fits(NumKind::Int32, num_int(from)),
        fits(NumKind::Int32, num_int(to)),
        i32::MIN < num_int(by) <= -1,
        num_int(from) > num_int(to),
    ensures
        ({
            let top = if inclusive { num_int(from) } else { num_int(from) - 1 };
            intrinsic_call(
                o,
                st,
                Intrinsic::RangeToArray,
                span,
                seq![SVal::Range(from, to, by, inclusive, kind)],
            ) matches Some((s, Ok(SVal::Array(xs, k)))) && s == st && k == SKind::Number(
                NumKind::Int32,
            ) && (forall|j: int|
                0 <= j < xs.len() ==> (#[trigger] xs[j]) == SVal::Number(
                    Number::Int32((top + j * num_int(by)) as i32),
                ) && top + j * num_int(by) >= num_int(to)) && top + xs.len() * num_int(by) < num_int(
                to,
            )
        }),
{
    reveal(intrinsic_call);
    let (f, t, c) = (num_int(from), num_int(to), num_int(by));
    let top = if inclusive { f } else { f - 1 };
    assert((((-c) as i32) as usize) as int == -c);
    lemma_count_bounds(top - t, -c);
    let q = (top - t) / (-c);
    assert forall|j: int| 0 <= j <= q implies top + #[trigger] (j * c) >= t && top - j * (-c) == top
        + j * c by {
        assert(j * (-c) <= top - t);
        assert(j * c == -(j * (-c))) by (nonlinear_arith);
    }
    assert((q + 1) * c == -((q + 1) * (-c))) by (nonlinear_arith);
    let ys = range_array(f as i32, t as i32, c as i32, inclusive)->Some_0;
    assert(ys.len() == q + 1);
    assert forall|j: int| 0 <= j < ys.len() implies #[trigger] ys[j] == top + j * c by {
        assert(top + j * c >= t);
    }
}

// ---------------------------------------------------------------------------
// Unary operators, booleans, strings, `??`
// ---------------------------------------------------------------------------
/// Unary operators on a number `x` (within `i64`): `++` gives `x + 1`, `--`
/// gives `x - 1`, `-` gives `-x` and `~` gives `-1 - x`, all as `Int64`;
/// `++` then `--` gives back `x`. `len` of a string counts its characters, of
/// an array its elements, and `!` negates a boolean.
pub proof fn law_unary_operators(span: Span, n: Number, s: Seq<char>, xs: Seq<SVal>, k: SKind, b: bool)
    requires
        fits(NumKind::Int64, num_int(n)),
    ensures
        ({
            let x = num_int(n);
            &&& fits(NumKind::Int64, x + 1) ==> unary(span, Operator::Inc, SVal::Number(n)) == Some(
                Ok::<SVal, SErr>(SVal::Number(Number::Int64((x + 1) as i64))),
            )
            &&& fits(NumKind::Int64, x + 1) ==> unary(
                span,
                Operator::Dec,
                SVal::Number(Number::Int64((x + 1) as i64)),
            ) == Some(Ok::<SVal, SErr>(SVal::Number(Number::Int64(x as i64))))
            &&& fits(NumKind::Int64, x - 1) ==> unary(span, Operator::Dec, SVal::Number(n)) == Some(
                Ok::<SVal, SErr>(SVal::Number(Number::Int64((x - 1) as i64))),
            )
            &&& fits(NumKind::Int64, -x) ==> unary(span, Operator::Sub, SVal::Number(n)) == Some(
                Ok::<SVal, SErr>(SVal::Number(Number::Int64((-x) as i64))),
            )
            &&& unary(span, Operator::BWNot, SVal::Number(n)) == Some(
                Ok::<SVal, SErr>(SVal::Number(Number::Int64((-1 - x) as i64))),
            )
            &&& s.len() <= u64::MAX ==> unary(span, Operator::Len, SVal::Str(s)) == Some(
                Ok::<SVal, SErr>(SVal::Number(Number::UInt64(s.len() as u64))),
            )
            &&& xs.len() <= u64::MAX ==> unary(span, Operator::Len, SVal::Array(xs, k)) == Some(
                Ok::<SVal, SErr>(SVal::Number(Number::UInt64(xs.len() as u64))),
            )
            &&& unary(span, Operator::Not, SVal::Bool(b)) == Some(Ok::<SVal, SErr>(SVal::Bool(!b)))
        }),
{
}

/// Evaluating a unary operator on a literal applies it to the literal and
/// changes nothing.
pub proof fn law_eval_unary_literal(fuel: nat, o: Oracle, st: RtState, span: Span, ls: Span, op: Operator, v: Value)
    ensures
        eval(
            fuel,
            o,
            st,
            ResolvedExpression::UnaryOp {
                span,
                operator: op,
                operand: Box::new(ResolvedExpression::Value(ls, v)),
            },
        ) == match unary(span, op, v@) {
            None => None,
            Some(r) => Some((st, r)),
        },
{
    let operand = ResolvedExpression::Value(ls, v);
    assert(eval(fuel, o, st, operand) == Some((st, Ok::<SVal, SErr>(v@))));
}

/// Evaluating an operation whose left operand is a literal: the literal, then
/// the right operand where the operation needs it.
proof fn lemma_eval_literal_left(
    fuel: nat,
    o: Oracle,
    st: RtState,
    span: Span,
    ls: Span,
    v: Value,
    op: Operator,
    e: ResolvedExpression,
)
    ensures
        eval(
            fuel,
            o,
            st,
            ResolvedExpression::BinaryOp {
                span,
                left: Box::new(ResolvedExpression::Value(ls, v)),
                operator: op,
                right: Box::new(e),
            },
        ) == if needs_right(op, v@, expr_kind(e)) {
            match eval(fuel, o, st, e) {
                None => None,
                Some((s2, Err(x))) => Some((s2, Err(x))),
                Some((s2, Ok(rv))) => match with_right(span, op, v@, expr_kind(e), rv) {
                    None => None,
                    Some(res) => Some((s2, res)),
                },
            }
        } else {
            Some((st, without_right(st, span, op, v@, expr_kind(e))))
        },
{
    let left = ResolvedExpression::Value(ls, v);
    let x = ResolvedExpression::BinaryOp {
        span,
        left: Box::new(left),
        operator: op,
        right: Box::new(e),
    };
    assert(eval(fuel, o, st, left) == Some((st, Ok::<SVal, SErr>(v@))));
    assert(eval(fuel, o, st, x) == eval_binary(fuel, o, st, x));
}

/// Evaluating a literal gives its view and changes nothing.
proof fn lemma_eval_literal(fuel: nat, o: Oracle, st: RtState, ls: Span, v: Value)
    ensures
        eval(fuel, o, st, ResolvedExpression::Value(ls, v)) == Some((st, Ok::<SVal, SErr>(v@))),
{
}

/// Boolean operators on two boolean literals compute the boolean function;
/// `false && e` and `true || e` do not evaluate `e` at all: they give the left
/// value in the state they started in, whatever `e` would do.
pub proof fn law_boolean_operators(
    fuel: nat,
    o: Oracle,
    st: RtState,
    span: Span,
    ls: Span,
    rs: Span,
    a: bool,
    b: bool,
    e: ResolvedExpression,
)
    requires
        expr_kind(e) == SKind::Bool,
    ensures
        ({
            let ev = |op: Operator|
                eval(fuel, o, st, literal_binop(span, ls, rs, Value::Bool(a), op, Value::Bool(b)));
            &&& ev(Operator::And) == Some((st, Ok::<SVal, SErr>(SVal::Bool(a && b))))
            &&& ev(Operator::Or) == Some((st, Ok::<SVal, SErr>(SVal::Bool(a || b))))
            &&& ev(Operator::Equal) == Some((st, Ok::<SVal, SErr>(SVal::Bool(a == b))))
            &&& ev(Operator::NEqual) == Some((st, Ok::<SVal, SErr>(SVal::Bool(a != b))))
        }),
        eval(
            fuel,
            o,
            st,
            ResolvedExpression::BinaryOp {
                span,
                left: Box::new(ResolvedExpression::Value(ls, Value::Bool(false))),
                operator: Operator::And,
                right: Box::new(e),
            },
        ) == Some((st, Ok::<SVal, SErr>(SVal::Bool(false)))),
        eval(
            fuel,
            o,
            st,
            ResolvedExpression::BinaryOp {
                span,
                left: Box::new(ResolvedExpression::Value(ls, Value::Bool(true))),
                operator: Operator::Or,
                right: Box::new(e),
            },
        ) == Some((st, Ok::<SVal, SErr>(SVal::Bool(true)))),
{
    assert(Value::Bool(a)@ == SVal::Bool(a));
    assert(Value::Bool(b)@ == SVal::Bool(b));
    assert(Value::Bool(false)@ == SVal::Bool(false));
    assert(Value::Bool(true)@ == SVal::Bool(true));
    let r = ResolvedExpression::Value(rs, Value::Bool(b));
    assert(expr_kind(r) == SKind::Bool);
    lemma_eval_literal(fuel, o, st, rs, Value::Bool(b));
    lemma_eval_literal_left(fuel, o, st, span, ls, Value::Bool(a), Operator::And, r);
    lemma_eval_literal_left(fuel, o, st, span, ls, Value::Bool(a), Operator::Or, r);
    lemma_eval_literal_left(fuel, o, st, span, ls, Value::Bool(a), Operator::Equal, r);
    lemma_eval_literal_left(fuel, o, st, span, ls, Value::Bool(a), Operator::NEqual, r);
    lemma_eval_literal_left(fuel, o, st, span, ls, Value::Bool(false), Operator::And, e);
    lemma_eval_literal_left(fuel, o, st, span, ls, Value::Bool(true), Operator::Or, e);
}

/// `+` on two string literals concatenates them, left first; `==` and `!=`
/// compare them.
pub proof fn law_string_operators(fuel: nat, o: Oracle, st: RtState, span: Span, ls: Span, rs: Span, a: String, b: String)
    ensures
        eval(fuel, o, st, literal_binop(span, ls, rs, Value::String(a), Operator::Add, Value::String(b)))
            == Some((st, Ok::<SVal, SErr>(SVal::Str(a@ + b@)))),
        eval(fuel, o, st, literal_binop(span, ls, rs, Value::String(a), Operator::Equal, Value::String(b)))
            == Some((st, Ok::<SVal, SErr>(SVal::Bool(a@ == b@)))),
        eval(fuel, o, st, literal_binop(span, ls, rs, Value::String(a), Operator::NEqual, Value::String(b)))
            == Some((st, Ok::<SVal, SErr>(SVal::Bool(a@ != b@)))),
{
    assert(Value::String(a)@ == SVal::Str(a@));
    assert(Value::String(b)@ == SVal::Str(b@));
    let x = literal_binop(span, ls, rs, Value::String(a), Operator::Add, Value::String(b));
    assert(eval(fuel, o, st, x) == eval_binary(fuel, o, st, x));
    let y = literal_binop(span, ls, rs, Value::String(a), Operator::Equal, Value::String(b));
    assert(eval(fuel, o, st, y) == eval_binary(fuel, o, st, y));
    let z = literal_binop(span, ls, rs, Value::String(a), Operator::NEqual, Value::String(b));
    assert(eval(fuel, o, st, z) == eval_binary(fuel, o, st, z));
}

/// `v ?? e` gives `v` without evaluating `e` when the kind of `v` is not
/// `Nil`, and is `e` when it is (as for the value `Nil`).
pub proof fn law_nil_coalescing(fuel: nat, o: Oracle, st: RtState, span: Span, ls: Span, v: Value, e: ResolvedExpression)
    ensures
        !(sval_kind(v@) is Nil) ==> eval(
            fuel,
            o,
            st,
            ResolvedExpression::BinaryOp {
                span,
                left: Box::new(ResolvedExpression::Value(ls, v)),
                operator: Operator::DQuestion,
                right: Box::new(e),
            },
        ) == Some((st, Ok::<SVal, SErr>(v@))),
        sval_kind(v@) is Nil ==> eval(
            fuel,
            o,
            st,
            ResolvedExpression::BinaryOp {
                span,
                left: Box::new(ResolvedExpression::Value(ls, v)),
                operator: Operator::DQuestion,
                right: Box::new(e),
            },
        ) == match eval(fuel, o, st, e) {
            Some((s, Ok(r))) => Some((s, Ok(r))),
            other => other,
        },
{
    let x = ResolvedExpression::BinaryOp {
        span,
        left: Box::new(ResolvedExpression::Value(ls, v)),
        operator: Operator::DQuestion,
        right: Box::new(e),
    };
    let left = ResolvedExpression::Value(ls, v);
    assert(eval(fuel, o, st, left) == Some((st, Ok::<SVal, SErr>(v@))));
    assert(needs_right(Operator::DQuestion, v@, expr_kind(e)) == (sval_kind(v@) is Nil));
    assert(eval(fuel, o, st, x) == eval_binary(fuel, o, st, x));
}

// ---------------------------------------------------------------------------
// Indexing and dictionaries
// ---------------------------------------------------------------------------
/// Indexing an array with `i` in `0..len` gives element `i`; with `i` in
/// `-len..0` gives element `len + i`, counting from the end. Indexing a
/// string with `i` below its length gives its `i`-th character as a string.
pub proof fn law_index(span: Span, xs: Seq<SVal>, k: SKind, s: Seq<char>, n: Number, optional: bool, chained: bool)
    requires
        fits(NumKind::Int64, num_int(n)),
    ensures
        0 <= num_int(n) < xs.len() ==> index_result(span, SVal::Array(xs, k), SVal::Number(n), optional, chained)
            == Some(Ok::<SVal, SErr>(xs[num_int(n)])),
        -(xs.len() as int) <= num_int(n) < 0 ==> index_result(
            span,
            SVal::Array(xs, k),
            SVal::Number(n),
            optional,
            chained,
        ) == Some(Ok::<SVal, SErr>(xs[xs.len() + num_int(n)])),
        0 <= num_int(n) < s.len() ==> index_result(span, SVal::Str(s), SVal::Number(n), optional, chained)
            == Some(Ok::<SVal, SErr>(SVal::Str(seq![s[num_int(n)]]))),
{
}

/// `Dict::Get` gives the value of the first entry whose key equals the key
/// asked for, and `Nil` when no key equals it.
pub proof fn law_dict_get(o: Oracle, st: RtState, span: Span, es: Seq<(SVal, SVal)>, kk: SKind, vk: SKind, key: SVal)
    ensures
        forall|j: int|
            0 <= j < es.len() && same_value(es[j].0, key) && (forall|i: int|
                0 <= i < j ==> !same_value(#[trigger] es[i].0, key)) ==> intrinsic_call(
                o,
                st,
                Intrinsic::DictGet,
                span,
                seq![SVal::Dict(es, kk, vk), key],
            ) == Some((st, Ok::<SVal, SErr>(#[trigger] es[j].1))),
        (forall|i: int| 0 <= i < es.len() ==> !same_value(#[trigger] es[i].0, key)) ==> intrinsic_call(
            o,
            st,
            Intrinsic::DictGet,
            span,
            seq![SVal::Dict(es, kk, vk), key],
        ) == Some((st, Ok::<SVal, SErr>(SVal::Nil))),
{
    reveal(intrinsic_call);
    lemma_dict_lookup(es, key);
}

proof fn lemma_dict_lookup(es: Seq<(SVal, SVal)>, key: SVal)
    ensures
        forall|j: int|
            0 <= j < es.len() && same_value(es[j].0, key) && (forall|i: int|
                0 <= i < j ==> !same_value(#[trigger] es[i].0, key)) ==> dict_lookup(es, key)
                == #[trigger] es[j].1,
        (forall|i: int| 0 <= i < es.len() ==> !same_value(#[trigger] es[i].0, key)) ==> dict_lookup(
            es,
            key,
        ) == SVal::Nil,
    decreases es.len(),
{
    if es.len() > 0 {
        let rest = es.drop_first();
        lemma_dict_lookup(rest, key);
        assert forall|j: int|
            0 <= j < es.len() && same_value(es[j].0, key) && (forall|i: int|
                0 <= i < j ==> !same_value(#[trigger] es[i].0, key)) implies dict_lookup(es, key)
            == #[trigger] es[j].1 by {
            if j > 0 {
                assert(!same_value(es[0].0, key));
                assert(rest[j - 1] == es[j]);
                assert forall|i: int| 0 <= i < j - 1 implies !same_value(#[trigger] rest[i].0, key) by {
                    assert(rest[i] == es[i + 1]);
                }
            }
        }
        if forall|i: int| 0 <= i < es.len() ==> !same_value(#[trigger] es[i].0, key) {
            assert(!same_value(es[0].0, key));
            assert forall|i: int| 0 <= i < rest.len() implies !same_value(#[trigger] rest[i].0, key) by {
                assert(rest[i] == es[i + 1]);
            }
        }
    }
}

// ---------------------------------------------------------------------------
// More on switch
// ---------------------------------------------------------------------------
/// A case whose value differs from the target does not run its statement:
/// the branches go on from the state its value left.
pub proof fn law_switch_unmatched_case_skipped(
    fuel: nat,
    o: Oracle,
    st: RtState,
    bs: Seq<(ResolvedExpression, bool, ResolvedStatement)>,
    t: SVal,
    fell: bool,
    s1: RtState,
    c: SVal,
)
    requires
        bs.len() > 0,
        eval(fuel, o, st, bs[0].0) == Some((s1, Ok::<SVal, SErr>(c))),
        !same_value(t, c),
    ensures
        switch_loop(fuel, o, st, bs, t, fell) == switch_loop(fuel, o, s1, bs.drop_first(), t, fell),
{
}

/// A case whose value equals the target and which does not fall through ends
/// the branches with the flow of its statement.
pub proof fn law_switch_match_stops(
    fuel: nat,
    o: Oracle,
    st: RtState,
    bs: Seq<(ResolvedExpression, bool, ResolvedStatement)>,
    t: SVal,
    fell: bool,
    s1: RtState,
    c: SVal,
    s2: RtState,
    flow: SFlow,
)
    requires
        bs.len() > 0,
        eval(fuel, o, st, bs[0].0) == Some((s1, Ok::<SVal, SErr>(c))),
        same_value(t, c),
        !bs[0].1,
        exec_stmt(fuel, o, s1, bs[0].2) == Some((s2, Ok::<SFlow, SErr>(flow))),
    ensures
        switch_loop(fuel, o, st, bs, t, fell) == Some((s2, Ok::<SwitchEnd, SErr>(SwitchEnd::Exit(flow)))),
{
}

/// When no case fell through, the `else` of a switch runs in the state the
/// cases left.
pub proof fn law_switch_else_runs(
    fuel: nat,
    o: Oracle,
    st: RtState,
    span: Span,
    target: ResolvedExpression,
    bs: Vec<(ResolvedExpression, bool, ResolvedStatement)>,
    e: Box<ResolvedStatement>,
    s1: RtState,
    t: SVal,
    s2: RtState,
)
    requires
        eval(fuel, o, st, target) == Some((s1, Ok::<SVal, SErr>(t))),
        switch_loop(fuel, o, s1, bs@, t, false) == Some((s2, Ok::<SwitchEnd, SErr>(SwitchEnd::Done(false)))),
    ensures
        exec_stmt(
            fuel,
            o,
            st,
            ResolvedStatement::Switch { span, target, branch_statements: bs, else_statement: Some(e) },
        ) == exec_stmt(fuel, o, s2, *e),
{
}

// ---------------------------------------------------------------------------
// Conditionals, loops and printing
// ---------------------------------------------------------------------------
/// `c ? x : y` evaluates `x` when `c` is `true` and `y` when it is `false`,
/// each from the state `c` left.
pub proof fn law_ternary(
    fuel: nat,
    o: Oracle,
    st: RtState,
    span: Span,
    c: ResolvedExpression,
    x: ResolvedExpression,
    y: ResolvedExpression,
    s1: RtState,
    b: bool,
)
    requires
        eval(fuel, o, st, c) == Some((s1, Ok::<SVal, SErr>(SVal::Bool(b)))),
    ensures
        eval(
            fuel,
            o,
            st,
            ResolvedExpression::Ternary {
                span,
                condition: Box::new(c),
                true_expr: Box::new(x),
                else_expr: Box::new(y),
            },
        ) == if b {
            eval(fuel, o, s1, x)
        } else {
            eval(fuel, o, s1, y)
        },
{
}

/// A boolean `if` runs its first statement when the condition is `true`, and
/// its `else` (or nothing) when it is `false`, from the state the condition
/// left.
pub proof fn law_if(
    fuel: nat,
    o: Oracle,
    st: RtState,
    span: Span,
    c: ResolvedExpression,
    t: Box<ResolvedStatement>,
    e: Option<Box<ResolvedStatement>>,
    s1: RtState,
    b: bool,
)
    requires
        expr_kind(c) == SKind::Bool,
        eval(fuel, o, st, c) == Some((s1, Ok::<SVal, SErr>(SVal::Bool(b)))),
    ensures
        exec_stmt(
            fuel,
            o,
            st,
            ResolvedStatement::If { span, condition: c, true_statement: t, else_statement: e },
        ) == if b {
            exec_stmt(fuel, o, s1, *t)
        } else {
            match e {
                Some(x) => exec_stmt(fuel, o, s1, *x),
                None => Some((s1, Ok::<SFlow, SErr>(SFlow::Normal(span)))),
            }
        },
{
}

/// A boolean `while` whose condition is `false` does not run its body: it
/// ends normally in the state the condition left. When the condition is
/// `true` and the body breaks, the loop ends normally where the body left it.
pub proof fn law_while(
    fuel: nat,
    o: Oracle,
    st: RtState,
    span: Span,
    c: ResolvedExpression,
    body: Box<ResolvedStatement>,
    s1: RtState,
    s2: RtState,
    bspan: Span,
)
    requires
        fuel > 0,
        expr_kind(c) == SKind::Bool,
    ensures
        eval(fuel, o, st, c) == Some((s1, Ok::<SVal, SErr>(SVal::Bool(false)))) ==> exec_stmt(
            fuel,
            o,
            st,
            ResolvedStatement::While { span, condition: c, statement: body },
        ) == Some((s1, Ok::<SFlow, SErr>(SFlow::Normal(span)))),
        eval(fuel, o, st, c) == Some((s1, Ok::<SVal, SErr>(SVal::Bool(true)))) && exec_stmt(
            fuel,
            o,
            s1,
            *body,
        ) == Some((s2, Ok::<SFlow, SErr>(SFlow::Break(bspan)))) ==> exec_stmt(
            fuel,
            o,
            st,
            ResolvedStatement::While { span, condition: c, statement: body },
        ) == Some((s2, Ok::<SFlow, SErr>(SFlow::Normal(span)))),
{
    let w = ResolvedStatement::While { span, condition: c, statement: body };
    assert(exec_stmt(fuel, o, st, w) == while_loop(fuel, o, st, w));
}

/// Printing a string literal appends exactly that string as one line of
/// output; printing a number appends its decimal form.
pub proof fn law_print(fuel: nat, o: Oracle, st: RtState, span: Span, ls: Span, text: String, n: Number)
    ensures
        exec_stmt(
            fuel,
            o,
            st,
            ResolvedStatement::Print { span, expr: ResolvedExpression::Value(ls, Value::String(text)) },
        ) matches Some((s, Ok(SFlow::Normal(_)))) && s.output == st.output.push(text@) && s.locals
            == st.locals && s.objects == st.objects,
        exec_stmt(
            fuel,
            o,
            st,
            ResolvedStatement::Print { span, expr: ResolvedExpression::Value(ls, Value::Number(n)) },
        ) matches Some((s, Ok(SFlow::Normal(_)))) && s.output == st.output.push(dec_int(num_int(n))),
{
    assert(Value::String(text)@ == SVal::Str(text@));
    assert(Value::Number(n)@ == SVal::Number(n));
    lemma_eval_literal(fuel, o, st, ls, Value::String(text));
    lemma_eval_literal(fuel, o, st, ls, Value::Number(n));
    assert(crate::value::render(SVal::Number(n)) == dec_int(num_int(n)));
}

/// Indexing a range from `a` by step `c` with `i` gives `a + c * i` as an
/// `Int32`, as long as that lies before the range's end.
pub proof fn law_range_index(span: Span, start: Number, end: Number, by: Number, kind: NumKind, inclusive: bool, i: Number)
    requires
        fits(NumKind::Int32, num_int(start)),
        fits(NumKind::Int32, num_int(end)),
        fits(NumKind::Int32, num_int(by)),
        fits(NumKind::Int32, num_int(i)),
        fits(NumKind::Int32, num_int(by) * num_int(i)),
        fits(NumKind::Int32, num_int(start) + num_int(by) * num_int(i)),
        ({
            let x = num_int(start) + num_int(by) * num_int(i);
            if inclusive { x < num_int(end) } else { x <= num_int(end) }
        }),
    ensures
        index_result(span, SVal::Range(start, end, by, inclusive, kind), SVal::Number(i), false, false)
            == Some(Ok::<SVal, SErr>(SVal::Number(Number::Int32((num_int(start) + num_int(by) * num_int(i)) as i32)))),
{
}

// ---------------------------------------------------------------------------
// Dictionary literals
// ---------------------------------------------------------------------------
/// In a dictionary literal, the last entry given for a key decides its value:
/// after entries `es` and then `(k, v)`, some entry has key `k` (or one equal
/// to it) and value `v`, and the dictionary grows by at most one entry.
pub proof fn law_dict_literal_last_value_wins(es: Seq<(SVal, SVal)>, k: SVal, v: SVal)
    ensures
        exists|i: int|
            0 <= i < dict_insert_all(es.push((k, v))).len() && ((#[trigger] dict_insert_all(
                es.push((k, v)),
            )[i]).0 == k || same_value(dict_insert_all(es.push((k, v)))[i].0, k))
                && dict_insert_all(es.push((k, v)))[i].1 == v,
        dict_insert_all(es.push((k, v))).len() <= dict_insert_all(es).len() + 1,
{
    let e2 = es.push((k, v));
    assert(e2.drop_last() =~= es);
    let rest = dict_insert_all(es);
    let d = dict_insert_all(e2);
    if exists|i: int| first_key(rest, k, i) {
        let i = choose|i: int| first_key(rest, k, i);
        assert(d[i] == (rest[i].0, v));
        assert(same_value(d[i].0, k));
    } else {
        assert(d[rest.len() as int] == (k, v));
    }
}

// ---------------------------------------------------------------------------
// For loops
// ---------------------------------------------------------------------------
/// A `for` loop whose body prints its loop variable prints the items in
/// order, one line each: each run of the body sees the next item bound to the
/// loop variable.
pub proof fn law_for_prints_items_in_order(
    fuel: nat,
    o: Oracle,
    st: RtState,
    span: Span,
    local: LocalId,
    target: ResolvedExpression,
    pspan: Span,
    vspan: Span,
    kind: crate::model::ValueKind,
    items: Seq<SVal>,
)
    requires
        fuel >= items.len(),
        forall|i: int| 0 <= i < items.len() ==> (#[trigger] items[i]) is Str,
    ensures
        for_loop(
            fuel,
            o,
            st,
            ResolvedStatement::For {
                span,
                local,
                target,
                statement: Box::new(
                    ResolvedStatement::Print {
                        span: pspan,
                        expr: ResolvedExpression::Variable(
                            vspan,
                            crate::model::Symbol::Local(crate::model::LocalInfo { id: local, kind }),
                        ),
                    },
                ),
            },
            items,
        ) matches Some((s, Ok(SFlow::Normal(_)))) && s.output == st.output + Seq::new(
            items.len(),
            |i: int| items[i]->Str_0,
        ),
    decreases items.len(),
{
    let body = ResolvedStatement::Print {
        span: pspan,
        expr: ResolvedExpression::Variable(
            vspan,
            crate::model::Symbol::Local(crate::model::LocalInfo { id: local, kind }),
        ),
    };
    let f = ResolvedStatement::For { span, local, target, statement: Box::new(body) };
    if items.len() == 0 {
        assert(st.output + Seq::new(0, |i: int| items[i]->Str_0) =~= st.output);
    } else {
        let s1 = st_reserve_local(st, local, items[0]);
        lemma_reserve_reads(st, local, items[0], local);
        let line = items[0]->Str_0;
        let var = ResolvedExpression::Variable(
            vspan,
            crate::model::Symbol::Local(crate::model::LocalInfo { id: local, kind }),
        );
        assert(local_value(s1, local) == Some(items[0]));
        assert(eval(fuel, o, s1, var) == Some((s1, Ok::<SVal, SErr>(items[0]))));
        assert(items[0] == SVal::Str(line));
        assert(exec_stmt(fuel, o, s1, body) == Some(
            (crate::runtime::st_print(s1, line), Ok::<SFlow, SErr>(SFlow::Normal(pspan))),
        ));
        let s2 = crate::runtime::st_print(s1, line);
        let s3 = crate::runtime::st_deref_local(s2, local);
        let rest = items.drop_first();
        assert forall|i: int| 0 <= i < rest.len() implies (#[trigger] rest[i]) is Str by {
            assert(rest[i] == items[i + 1]);
        }
        law_for_prints_items_in_order(
            (fuel - 1) as nat,
            o,
            s3,
            span,
            local,
            target,
            pspan,
            vspan,
            kind,
            rest,
        );
        assert(s3.output == st.output.push(line));
        assert(st.output.push(line) + Seq::new(rest.len(), |i: int| rest[i]->Str_0) =~= st.output
            + Seq::new(items.len(), |i: int| items[i]->Str_0));
    }
}

} // verus!

//! Function calls: evaluating a call, entering and leaving a script
//! function, intrinsics and function chains, each proved against
//! [`crate::semantics`] in the same way as [`crate::eval`].
use vstd::prelude::*;
use std::rc::Rc;
use crate::describe::{kind_error, value_first_error};
use crate::eval::{eval_expr, eval_list_exec, eval_place_exec, values_result};
use crate::exec::exec_stmt_exec;
use crate::executor::{ExecFlow, RuntimeError, SErr, SFlow, err, error, flow_view, result_view};
use crate::intrinsic::{IntrinsicParameters, call_intrinsic, intrinsic_call};
use crate::model::{
    Function, LocalId, MappingTo, ResolvedExpression, ResolvedFunctionBody, SParam, SVal, Span,
    Value, ValueKind, map_view,
};
use crate::ops::convert_value;
use crate::runtime::{CallStackFunction, Runtime, st_pop_frame};
use crate::semantics::{
    stack_kept, lemma_kept_trans,
    Oracle, agrees, bind_params, call_callee, chain_call, chain_loop, enter_call, eval,
    eval_call, eval_list, eval_place, exec_stmt, finish_call, invoke, lemma_agrees_prefix,
    lemma_extends_trans, lemma_oracle_of, state_extends, oracle_of, ref_locals, unbind_params,
};
use crate::value::{clone_values, copy_ids, kinds_equal};

verus! {

broadcast use vstd::std_specs::vec::group_vec_axioms, crate::model::group_map_view;

/// Evaluates a function call.
pub fn eval_call_exec(rt: &mut Runtime, e: &ResolvedExpression, Ghost(fuel): Ghost<nat>) -> (r:
    Result<Value, RuntimeError>)
    requires
        e is FunctionCall,
        forall|o: Oracle| agrees(o, old(rt)@) ==> #[trigger] eval_call(fuel, o, old(rt)@, *e) is Some,
    ensures
        state_extends(old(rt)@, final(rt)@),
        r is Ok ==> stack_kept(old(rt)@, final(rt)@),
        forall|o: Oracle|
            agrees(o, final(rt)@) ==> #[trigger] eval_call(fuel, o, old(rt)@, *e) == Some(
                (final(rt)@, result_view(r)),
            ),
    decreases fuel, e, 1nat,
{
    let ghost st = rt@;
    match e {
        ResolvedExpression::FunctionCall { span, target, args, optional, chained } => {
            assert forall|o: Oracle| agrees(o, st) implies #[trigger] eval_list(fuel, o, st, args@)
                is Some by {
                assert(eval_call(fuel, o, st, *e) is Some);
            }
            let pr = eval_list_exec(rt, args, Ghost(fuel));
            let ghost s1 = rt@;
            let ghost prv = values_result(pr);
            let params = match pr {
                Err(x) => {
                    let r = Err(x);
                    assert forall|o: Oracle| agrees(o, s1) implies #[trigger] eval_call(
                        fuel,
                        o,
                        st,
                        *e,
                    ) == Some((s1, result_view(r))) by {
                        assert(eval_list(fuel, o, st, args@) == Some((s1, prv)));
                    }
                    return r;
                },
                Ok(p) => p,
            };
            let ghost pv = map_view(params@);
            assert forall|o: Oracle| agrees(o, s1) implies #[trigger] eval(fuel, o, s1, **target)
                is Some by {
                lemma_agrees_prefix(o, st, s1);
                assert(eval_call(fuel, o, st, *e) is Some);
                assert(eval_list(fuel, o, st, args@) == Some((s1, Ok::<Seq<SVal>, SErr>(pv))));
            }
            let tr = eval_expr(rt, target, Ghost(fuel));
            let ghost s2 = rt@;
            let ghost trv = result_view(tr);
            proof {
                lemma_extends_trans(st, s1, s2);
            }
            let tv = match tr {
                Err(x) => {
                    let r = Err(x);
                    assert forall|o: Oracle| agrees(o, s2) implies #[trigger] eval_call(
                        fuel,
                        o,
                        st,
                        *e,
                    ) == Some((s2, result_view(r))) by {
                        lemma_agrees_prefix(o, s1, s2);
                        assert(eval_list(fuel, o, st, args@) == Some(
                            (s1, Ok::<Seq<SVal>, SErr>(pv)),
                        ));
                        assert(eval(fuel, o, s1, **target) == Some((s2, trv)));
                    }
                    return r;
                },
                Ok(v) => v,
            };
            let ghost tvv = tv@;
            match tv {
                Value::Function(f) => {
                    assert forall|o: Oracle| agrees(o, s2) implies #[trigger] invoke(
                        fuel,
                        o,
                        s2,
                        *span,
                        (*f)@,
                        pv,
                        args@,
                    ) is Some by {
                        lemma_agrees_prefix(o, s1, s2);
                        lemma_agrees_prefix(o, st, s1);
                        assert(eval_call(fuel, o, st, *e) is Some);
                        assert(eval_list(fuel, o, st, args@) == Some(
                            (s1, Ok::<Seq<SVal>, SErr>(pv)),
                        ));
                        assert(eval(fuel, o, s1, **target) == Some((s2, Ok::<SVal, SErr>(tvv))));
                    }
                    let r = invoke_exec(rt, *span, &f, params, Ghost(args@), Ghost(fuel));
                    let ghost s3 = rt@;
                    proof {
                        lemma_extends_trans(st, s2, s3);
                    }
                    assert forall|o: Oracle| agrees(o, s3) implies #[trigger] eval_call(
                        fuel,
                        o,
                        st,
                        *e,
                    ) == Some((s3, result_view(r))) by {
                        lemma_agrees_prefix(o, s2, s3);
                        lemma_agrees_prefix(o, s1, s2);
                        assert(eval_list(fuel, o, st, args@) == Some(
                            (s1, Ok::<Seq<SVal>, SErr>(pv)),
                        ));
                        assert(eval(fuel, o, s1, **target) == Some((s2, Ok::<SVal, SErr>(tvv))));
                        assert(invoke(fuel, o, s2, *span, (*f)@, pv, args@) == Some(
                            (s3, result_view(r)),
                        ));
                    }
                    r
                },
                Value::FunctionChain(maps, kind) => {
                    assert forall|o: Oracle| agrees(o, s2) implies #[trigger] chain_call(
                        fuel,
                        o,
                        s2,
                        *span,
                        **target,
                        (*maps)@,
                        kind@,
                        args@,
                        *chained,
                    ) is Some by {
                        lemma_agrees_prefix(o, s1, s2);
                        lemma_agrees_prefix(o, st, s1);
                        assert(eval_call(fuel, o, st, *e) is Some);
                        assert(eval_list(fuel, o, st, args@) == Some(
                            (s1, Ok::<Seq<SVal>, SErr>(pv)),
                        ));
                        assert(eval(fuel, o, s1, **target) == Some((s2, Ok::<SVal, SErr>(tvv))));
                    }
                    let ghost kv = kind@;
                    let r = chain_call_exec(rt, *span, target, &maps, kind, args, *chained, Ghost(fuel));
                    let ghost s3 = rt@;
                    proof {
                        lemma_extends_trans(st, s2, s3);
                    }
                    assert forall|o: Oracle| agrees(o, s3) implies #[trigger] eval_call(
                        fuel,
                        o,
                        st,
                        *e,
                    ) == Some((s3, result_view(r))) by {
                        lemma_agrees_prefix(o, s2, s3);
                        lemma_agrees_prefix(o, s1, s2);
                        assert(eval_list(fuel, o, st, args@) == Some(
                            (s1, Ok::<Seq<SVal>, SErr>(pv)),
                        ));
                        assert(eval(fuel, o, s1, **target) == Some((s2, Ok::<SVal, SErr>(tvv))));
                        assert(chain_call(fuel, o, s2, *span, **target, (*maps)@, kv, args@, *chained)
                            == Some((s3, result_view(r))));
                    }
                    r
                },
                other => {
                    let r = match other {
                        Value::Nil if *chained => Ok(Value::Nil),
                        _ => Err(value_first_error(*span, &other, " is not a function or function chain")),
                    };
                    assert forall|o: Oracle| agrees(o, s2) implies #[trigger] eval_call(
                        fuel,
                        o,
                        st,
                        *e,
                    ) == Some((s2, result_view(r))) by {
                        lemma_agrees_prefix(o, s1, s2);
                        assert(eval_list(fuel, o, st, args@) == Some(
                            (s1, Ok::<Seq<SVal>, SErr>(pv)),
                        ));
                        assert(eval(fuel, o, s1, **target) == Some((s2, Ok::<SVal, SErr>(tvv))));
                    }
                    r
                },
            }
        },
        _ => vstd::pervasive::unreached(),
    }
}

/// Calls the function chain found in member `target` of an object on that object.
fn chain_call_exec(
    rt: &mut Runtime,
    span: Span,
    target: &ResolvedExpression,
    maps: &Vec<MappingTo>,
    kind: ValueKind,
    args: &Vec<ResolvedExpression>,
    chained: bool,
    Ghost(fuel): Ghost<nat>,
) -> (r: Result<Value, RuntimeError>)
    requires
        forall|o: Oracle|
            agrees(o, old(rt)@) ==> #[trigger] chain_call(
                fuel,
                o,
                old(rt)@,
                span,
                *target,
                maps@,
                kind@,
                args@,
                chained,
            ) is Some,
    ensures
        state_extends(old(rt)@, final(rt)@),
        r is Ok ==> stack_kept(old(rt)@, final(rt)@),
        forall|o: Oracle|
            agrees(o, final(rt)@) ==> #[trigger] chain_call(
                fuel,
                o,
                old(rt)@,
                span,
                *target,
                maps@,
                kind@,
                args@,
                chained,
            ) == Some((final(rt)@, result_view(r))),
    decreases fuel, target, 0nat,
{
    let ghost st = rt@;
    let ghost kv = kind@;
    match target {
        ResolvedExpression::MemberAccess { target: t, .. } => {
            assert forall|o: Oracle| agrees(o, st) implies #[trigger] eval(fuel, o, st, **t)
                is Some by {
                assert(chain_call(fuel, o, st, span, *target, maps@, kv, args@, chained) is Some);
            }
            let orr = eval_expr(rt, t, Ghost(fuel));
            let ghost s1 = rt@;
            let ghost orv = result_view(orr);
            match orr {
                Ok(Value::Object(id, _)) => {
                    proof {
                        lemma_oracle_of(s1);
                        let o = oracle_of(s1);
                        lemma_agrees_prefix(o, st, s1);
                        assert(chain_call(fuel, o, st, span, *target, maps@, kv, args@, chained)
                            is Some);
                        assert(eval(fuel, o, st, **t) == Some((s1, orv)));
                        assert(fuel > 0);
                    }
                    assert forall|o: Oracle| agrees(o, s1) implies #[trigger] chain_loop(
                        (fuel - 1) as nat,
                        o,
                        s1,
                        span,
                        id,
                        maps@,
                        kv,
                        args@,
                        chained,
                        SVal::Nil,
                    ) is Some by {
                        lemma_agrees_prefix(o, st, s1);
                        assert(chain_call(fuel, o, st, span, *target, maps@, kv, args@, chained)
                            is Some);
                        assert(eval(fuel, o, st, **t) == Some((s1, orv)));
                    }
                    let r = run_chain(rt, span, id, maps, kind, args, chained, Ghost((fuel - 1) as nat));
                    let ghost s2 = rt@;
                    proof {
                        lemma_extends_trans(st, s1, s2);
                    }
                    assert forall|o: Oracle| agrees(o, s2) implies #[trigger] chain_call(
                        fuel,
                        o,
                        st,
                        span,
                        *target,
                        maps@,
                        kv,
                        args@,
                        chained,
                    ) == Some((s2, result_view(r))) by {
                        lemma_agrees_prefix(o, s1, s2);
                        assert(eval(fuel, o, st, **t) == Some((s1, orv)));
                        assert(chain_loop((fuel - 1) as nat, o, s1, span, id, maps@, kv, args@, chained, SVal::Nil)
                            == Some((s2, result_view(r))));
                    }
                    r
                },
                other => {
                    let r = match other {
                        Err(x) => Err(x),
                        Ok(_) => Err(error(span, "FUCK 2")),
                    };
                    assert forall|o: Oracle| agrees(o, s1) implies #[trigger] chain_call(
                        fuel,
                        o,
                        st,
                        span,
                        *target,
                        maps@,
                        kv,
                        args@,
                        chained,
                    ) == Some((s1, result_view(r))) by {
                        assert(eval(fuel, o, st, **t) == Some((s1, orv)));
                    }
                    r
                },
            }
        },
        _ => Err(error(span, "FUCK 1")),
    }
}

/// Binds each parameter that names a local, takes a reference to each
/// capture and pushes a frame: the state a script function starts in.
fn enter_call_exec(rt: &mut Runtime, f: &Function, params: &Vec<Value>, span: Span)
    requires
        enter_call(old(rt)@, f@, map_view(params@), span) is Some,
    ensures
        enter_call(old(rt)@, f@, map_view(params@), span) == Some(final(rt)@),
        final(rt)@.clock_log == old(rt)@.clock_log,
        final(rt)@.random_log == old(rt)@.random_log,
        final(rt)@.output == old(rt)@.output,
        final(rt)@.objects == old(rt)@.objects,
        final(rt)@.caught == old(rt)@.caught,
        final(rt)@.call_stack.len() == old(rt)@.call_stack.len() + 1,
        final(rt)@.call_stack.drop_last() == old(rt)@.call_stack,
{
    let ghost inputs = f@.inputs;
    let ghost pv = map_view(params@);
    let mut i: usize = 0;
    assert(inputs.skip(0) =~= inputs);
    assert(pv.skip(0) =~= pv);
    while i < f.input_types.len()
        invariant
            i <= f.input_types@.len(),
            inputs == f@.inputs,
            pv == map_view(params@),
            inputs.len() <= pv.len(),
            bind_params(old(rt)@, inputs, pv) == bind_params(
                rt@,
                inputs.skip(i as int),
                pv.skip(i as int),
            ),
            rt@.call_stack == old(rt)@.call_stack,
            rt@.clock_log == old(rt)@.clock_log,
            rt@.random_log == old(rt)@.random_log,
            rt@.output == old(rt)@.output,
            rt@.objects == old(rt)@.objects,
            rt@.caught == old(rt)@.caught,
        decreases f.input_types@.len() - i,
    {
        assert(inputs.skip(i as int).drop_first() =~= inputs.skip(i + 1));
        assert(pv.skip(i as int).drop_first() =~= pv.skip(i + 1));
        assert(inputs.skip(i as int)[0] == f.input_types@[i as int]@);
        match f.input_types[i].local {
            Some(id) => rt.reserve_local(id, params[i].duplicate()),
            None => {},
        }
        i = i + 1;
    }
    assert(inputs.skip(i as int) =~= Seq::<SParam>::empty());
    let ghost s1 = rt@;
    let ghost caps = f@.captures;
    let mut j: usize = 0;
    assert(caps.skip(0) =~= caps);
    while j < f.captures.len()
        invariant
            j <= f.captures@.len(),
            caps == f@.captures,
            ref_locals(s1, caps) == ref_locals(rt@, caps.skip(j as int)),
            rt@.call_stack == old(rt)@.call_stack,
            rt@.clock_log == old(rt)@.clock_log,
            rt@.random_log == old(rt)@.random_log,
            rt@.output == old(rt)@.output,
            rt@.objects == old(rt)@.objects,
            rt@.caught == old(rt)@.caught,
        decreases f.captures@.len() - j,
    {
        assert(caps.skip(j as int).drop_first() =~= caps.skip(j + 1));
        rt.ref_local(f.captures[j]);
        j = j + 1;
    }
    assert(caps.skip(j as int) =~= Seq::<LocalId>::empty());
    let frame = CallStackFunction { id: f.id, span, arguments: clone_values(params) };
    assert(frame@.arguments =~= pv);
    rt.push_frame(frame);
}

/// Leaves a script function whose body finished with `flow`.
fn finish_call_exec(rt: &mut Runtime, f: &Function, span: Span, flow: ExecFlow) -> (r: Result<
    Value,
    RuntimeError,
>)
    requires
        finish_call(old(rt)@, f@, span, flow@) is Some,
    ensures
        finish_call(old(rt)@, f@, span, flow@) == Some((final(rt)@, result_view(r))),
        final(rt)@.clock_log == old(rt)@.clock_log,
        final(rt)@.random_log == old(rt)@.random_log,
        final(rt)@.output == old(rt)@.output,
        final(rt)@.objects.len() == old(rt)@.objects.len(),
        forall|i: int|
            0 <= i < old(rt)@.objects.len() && (#[trigger] old(rt)@.objects[i]).sealed
                ==> final(rt)@.objects[i].sealed,
        final(rt)@.caught == old(rt)@.caught,
        r is Ok ==> final(rt)@.call_stack == st_pop_frame(old(rt)@).call_stack,
{
    match flow {
        ExecFlow::Error { span: s, message } => Err(RuntimeError::Throw { span: s, message }),
        ExecFlow::Return(s, v) => {
            if !v.kind().is_assignable_from(&f.output_type) {
                return Err(
                    RuntimeError::TypeMismatch { span: s, found: v, expected: f.output_type.duplicate() },
                );
            }
            match &v {
                Value::Object(id, _) => rt.ref_obj(*id),
                _ => {},
            }
            unbind_params_exec(rt, f);
            rt.deref_locals(copy_ids(&f.captures));
            rt.pop_frame();
            Ok(convert_value(v, &f.output_type))
        },
        ExecFlow::Normal(s) => {
            if !kinds_equal(&f.output_type, &ValueKind::Nil) {
                return Err(kind_error(s, "No value returned, expected ", &f.output_type));
            }
            unbind_params_exec(rt, f);
            rt.pop_frame();
            Ok(Value::Nil)
        },
        _ => Err(kind_error(span, "No value returned, expected ", &f.output_type)),
    }
}

/// Drops one reference to each local a parameter of `f` names.
fn unbind_params_exec(rt: &mut Runtime, f: &Function)
    ensures
        final(rt)@ == unbind_params(old(rt)@, f@.inputs),
        final(rt)@.clock_log == old(rt)@.clock_log,
        final(rt)@.random_log == old(rt)@.random_log,
        final(rt)@.output == old(rt)@.output,
        final(rt)@.objects == old(rt)@.objects,
        final(rt)@.caught == old(rt)@.caught,
        final(rt)@.call_stack == old(rt)@.call_stack,
{
    let ghost inputs = f@.inputs;
    let mut i: usize = 0;
    assert(inputs.skip(0) =~= inputs);
    while i < f.input_types.len()
        invariant
            i <= f.input_types@.len(),
            inputs == f@.inputs,
            unbind_params(old(rt)@, inputs) == unbind_params(rt@, inputs.skip(i as int)),
            rt@.clock_log == old(rt)@.clock_log,
            rt@.random_log == old(rt)@.random_log,
            rt@.output == old(rt)@.output,
            rt@.objects == old(rt)@.objects,
            rt@.caught == old(rt)@.caught,
            rt@.call_stack == old(rt)@.call_stack,
            rt@.caught == old(rt)@.caught,
        decreases f.input_types@.len() - i,
    {
        assert(inputs.skip(i as int).drop_first() =~= inputs.skip(i + 1));
        assert(inputs.skip(i as int)[0] == f.input_types@[i as int]@);
        match f.input_types[i].local {
            Some(id) => rt.deref_local(id),
            None => {},
        }
        i = i + 1;
    }
    assert(inputs.skip(i as int) =~= Seq::<SParam>::empty());
}

/// Calls function `f` with the evaluated `params`.
fn invoke_exec(
    rt: &mut Runtime,
    span: Span,
    f: &Function,
    params: Vec<Value>,
    Ghost(w): Ghost<Seq<ResolvedExpression>>,
    Ghost(fuel): Ghost<nat>,
) -> (r: Result<Value, RuntimeError>)
    requires
        forall|o: Oracle|
            agrees(o, old(rt)@) ==> #[trigger] invoke(
                fuel,
                o,
                old(rt)@,
                span,
                f@,
                map_view(params@),
                w,
            ) is Some,
    ensures
        state_extends(old(rt)@, final(rt)@),
        r is Ok ==> stack_kept(old(rt)@, final(rt)@),
        forall|o: Oracle|
            agrees(o, final(rt)@) ==> #[trigger] invoke(
                fuel,
                o,
                old(rt)@,
                span,
                f@,
                map_view(params@),
                w,
            ) == Some((final(rt)@, result_view(r))),
    decreases fuel, w, 0nat,
{
    let ghost st = rt@;
    let ghost pv = map_view(params@);
    proof {
        lemma_oracle_of(st);
        assert(invoke(fuel, oracle_of(st), st, span, f@, pv, w) is Some);
    }
    match &*f.func {
        None => Err(error(span, "Abstract method run without body")),
        Some(ResolvedFunctionBody::Intrinsic(op)) => {
            let input = IntrinsicParameters { span, args: params, azimuth: None };
            assert forall|o: Oracle| agrees(o, st) implies #[trigger] intrinsic_call(
                o,
                st,
                *op,
                input.span,
                map_view(input.args@),
            ) is Some by {
                assert(invoke(fuel, o, st, span, f@, pv, w) is Some);
            }
            call_intrinsic(rt, *op, input)
        },
        Some(ResolvedFunctionBody::Script(body)) => {
            enter_call_exec(rt, f, &params, span);
            let ghost s1 = rt@;
            assert(state_extends(st, s1));
            assert forall|o: Oracle| agrees(o, s1) implies #[trigger] exec_stmt(
                (fuel - 1) as nat,
                o,
                s1,
                *body,
            ) is Some by {
                lemma_agrees_prefix(o, st, s1);
                assert(invoke(fuel, o, st, span, f@, pv, w) is Some);
            }
            let fr = exec_stmt_exec(rt, body, Ghost((fuel - 1) as nat));
            let ghost s2 = rt@;
            proof {
                lemma_extends_trans(st, s1, s2);
            }
            match fr {
                Err(x) => {
                    let r = Err(x);
                    assert forall|o: Oracle| agrees(o, s2) implies #[trigger] invoke(
                        fuel,
                        o,
                        st,
                        span,
                        f@,
                        pv,
                        w,
                    ) == Some((s2, result_view(r))) by {
                        assert(exec_stmt((fuel - 1) as nat, o, s1, *body) == Some(
                            (s2, flow_view(fr)),
                        ));
                    }
                    r
                },
                Ok(flow) => {
                    let ghost fv = flow@;
                    proof {
                        lemma_oracle_of(s2);
                        let o = oracle_of(s2);
                        lemma_agrees_prefix(o, st, s2);
                        assert(invoke(fuel, o, st, span, f@, pv, w) is Some);
                        assert(exec_stmt((fuel - 1) as nat, o, s1, *body) == Some(
                            (s2, Ok::<SFlow, SErr>(fv)),
                        ));
                    }
                    let r = finish_call_exec(rt, f, span, flow);
                    assert(state_extends(s2, rt@));
                    proof {
                        lemma_extends_trans(st, s2, rt@);
                    }
                    assert forall|o: Oracle| agrees(o, rt@) implies #[trigger] invoke(
                        fuel,
                        o,
                        st,
                        span,
                        f@,
                        pv,
                        w,
                    ) == Some((rt@, result_view(r))) by {
                        lemma_agrees_prefix(o, s2, rt@);
                        assert(exec_stmt((fuel - 1) as nat, o, s1, *body) == Some(
                            (s2, Ok::<SFlow, SErr>(fv)),
                        ));
                    }
                    r
                },
            }
        },
    }
}

/// Evaluates the arguments and calls a value found in a function chain.
fn call_callee_exec(
    rt: &mut Runtime,
    span: Span,
    callee: Value,
    args: &Vec<ResolvedExpression>,
    chained: bool,
    Ghost(fuel): Ghost<nat>,
) -> (r: Result<Value, RuntimeError>)
    requires
        forall|o: Oracle|
            agrees(o, old(rt)@) ==> #[trigger] call_callee(
                fuel,
                o,
                old(rt)@,
                span,
                callee@,
                args@,
                chained,
            ) is Some,
    ensures
        state_extends(old(rt)@, final(rt)@),
        r is Ok ==> stack_kept(old(rt)@, final(rt)@),
        forall|o: Oracle|
            agrees(o, final(rt)@) ==> #[trigger] call_callee(
                fuel,
                o,
                old(rt)@,
                span,
                callee@,
                args@,
                chained,
            ) == Some((final(rt)@, result_view(r))),
    decreases fuel, args@, 1nat,
{
    let ghost st = rt@;
    let ghost cv = callee@;
    assert forall|o: Oracle| agrees(o, st) implies #[trigger] eval_list(fuel, o, st, args@)
        is Some by {
        assert(call_callee(fuel, o, st, span, cv, args@, chained) is Some);
    }
    match callee {
        Value::Function(f) => {
            let ghost fv = (*f)@;
            assert(cv == SVal::Function(fv));
            let pr = eval_list_exec(rt, args, Ghost(fuel));
            let ghost s1 = rt@;
            let ghost prv = values_result(pr);
            let params = match pr {
                Err(x) => {
                    let r = Err(x);
                    assert forall|o: Oracle| agrees(o, s1) implies #[trigger] call_callee(
                        fuel,
                        o,
                        st,
                        span,
                        cv,
                        args@,
                        chained,
                    ) == Some((s1, result_view(r))) by {
                        assert(eval_list(fuel, o, st, args@) == Some((s1, prv)));
                    }
                    return r;
                },
                Ok(p) => p,
            };
            let ghost pv = map_view(params@);
            assert forall|o: Oracle| agrees(o, s1) implies #[trigger] invoke(
                fuel,
                o,
                s1,
                span,
                fv,
                pv,
                args@,
            ) is Some by {
                lemma_agrees_prefix(o, st, s1);
                assert(call_callee(fuel, o, st, span, cv, args@, chained) is Some);
                assert(eval_list(fuel, o, st, args@) == Some((s1, Ok::<Seq<SVal>, SErr>(pv))));
            }
            let r = invoke_exec(rt, span, &f, params, Ghost(args@), Ghost(fuel));
            let ghost s2 = rt@;
            proof {
                lemma_extends_trans(st, s1, s2);
            }
            assert forall|o: Oracle| agrees(o, s2) implies #[trigger] call_callee(
                fuel,
                o,
                st,
                span,
                cv,
                args@,
                chained,
            ) == Some((s2, result_view(r))) by {
                lemma_agrees_prefix(o, s1, s2);
                assert(eval_list(fuel, o, st, args@) == Some((s1, Ok::<Seq<SVal>, SErr>(pv))));
                assert(invoke(fuel, o, s1, span, fv, pv, args@) == Some((s2, result_view(r))));
            }
            r
        },
        other => {
            assert(!(cv is Function));
            let pr = eval_list_exec(rt, args, Ghost(fuel));
            let ghost s1 = rt@;
            let ghost prv = values_result(pr);
            let r = match pr {
                Err(x) => Err(x),
                Ok(_) => match other {
                    Value::FunctionChain(_, _) => Err(
                        error(span, "FUCK 1"),
                    ),
                    Value::Nil if chained => Ok(Value::Nil),
                    _ => Err(value_first_error(span, &other, " is not a function or function chain")),
                },
            };
            assert forall|o: Oracle| agrees(o, s1) implies #[trigger] call_callee(
                fuel,
                o,
                st,
                span,
                cv,
                args@,
                chained,
            ) == Some((s1, result_view(r))) by {
                assert(eval_list(fuel, o, st, args@) == Some((s1, prv)));
            }
            r
        },
    }
}

/// Calls the functions of a chain on object `obj` one after another.
fn run_chain(
    rt: &mut Runtime,
    span: Span,
    obj: usize,
    maps: &Vec<MappingTo>,
    kind: ValueKind,
    args: &Vec<ResolvedExpression>,
    chained: bool,
    Ghost(fuel): Ghost<nat>,
) -> (r: Result<Value, RuntimeError>)
    requires
        forall|o: Oracle|
            agrees(o, old(rt)@) ==> #[trigger] chain_loop(
                fuel,
                o,
                old(rt)@,
                span,
                obj,
                maps@,
                kind@,
                args@,
                chained,
                SVal::Nil,
            ) is Some,
    ensures
        state_extends(old(rt)@, final(rt)@),
        r is Ok ==> stack_kept(old(rt)@, final(rt)@),
        forall|o: Oracle|
            agrees(o, final(rt)@) ==> #[trigger] chain_loop(
                fuel,
                o,
                old(rt)@,
                span,
                obj,
                maps@,
                kind@,
                args@,
                chained,
                SVal::Nil,
            ) == Some((final(rt)@, result_view(r))),
    decreases fuel, maps@, 0nat,
{
    let ghost st0 = rt@;
    let mut last = Value::Nil;
    let mut i: usize = 0;
    assert(maps@.skip(0) =~= maps@);
    while i < maps.len()
        invariant
            i <= maps@.len(),
            st0 == old(rt)@,
            state_extends(st0, rt@),
            stack_kept(st0, rt@),
            forall|o: Oracle| agrees(o, st0) ==> #[trigger] chain_loop(
                fuel,
                o,
                st0,
                span,
                obj,
                maps@,
                kind@,
                args@,
                chained,
                SVal::Nil,
            ) is Some,
            forall|o: Oracle| agrees(o, rt@) ==> #[trigger] chain_loop(
                fuel,
                o,
                st0,
                span,
                obj,
                maps@,
                kind@,
                args@,
                chained,
                SVal::Nil,
            ) == chain_loop(
                fuel,
                o,
                rt@,
                span,
                obj,
                maps@.skip(i as int),
                kind@,
                args@,
                chained,
                last@,
            ),
        decreases maps@.len() - i,
    {
        let ghost cur = rt@;
        let ghost rest = maps@.skip(i as int);
        assert(rest[0] == maps@[i as int]);
        assert(rest.drop_first() =~= maps@.skip(i + 1));
        assert forall|o: Oracle| agrees(o, cur) implies #[trigger] chain_loop(
            fuel,
            o,
            cur,
            span,
            obj,
            rest,
            kind@,
            args@,
            chained,
            last@,
        ) is Some by {
            lemma_agrees_prefix(o, st0, cur);
            assert(chain_loop(fuel, o, st0, span, obj, maps@, kind@, args@, chained, SVal::Nil)
                is Some);
        }
        proof {
            lemma_oracle_of(cur);
            assert(chain_loop(fuel, oracle_of(cur), cur, span, obj, rest, kind@, args@, chained, last@)
                is Some);
        }
        let found: Option<Value> = match &maps[i] {
            MappingTo::Slot(az) => {
                if obj >= rt.objects.len() {
                    vstd::pervasive::unreached()
                } else {
                    match rt.get_slot_value(obj, *az) {
                        Some(v) => Some(v),
                        None => vstd::pervasive::unreached(),
                    }
                }
            },
            MappingTo::Link(other, az) => rt.get_slot_value(*other, *az),
            MappingTo::Mapped(az) => rt.get_slot_value(obj, *az),
            MappingTo::Chain(inner, _) => Some(Value::FunctionChain(Rc::clone(inner), kind.duplicate())),
            MappingTo::Expression(expr) => {
                assert forall|o: Oracle| agrees(o, cur) implies #[trigger] eval_place(
                    fuel,
                    o,
                    cur,
                    **expr,
                ) is Some by {
                    assert(chain_loop(fuel, o, cur, span, obj, rest, kind@, args@, chained, last@)
                        is Some);
                }
                let pr = eval_place_exec(rt, expr, Ghost(fuel));
                match pr {
                    Ok(v) => Some(v),
                    Err(x) => {
                        let r = Err(x);
                        proof {
                            lemma_extends_trans(st0, cur, rt@);
                            assert forall|o: Oracle| agrees(o, rt@) implies #[trigger] chain_loop(
                                fuel,
                                o,
                                st0,
                                span,
                                obj,
                                maps@,
                                kind@,
                                args@,
                                chained,
                                SVal::Nil,
                            ) == Some((rt@, result_view(r))) by {
                                lemma_agrees_prefix(o, cur, rt@);
                                assert(eval_place(fuel, o, cur, **expr) == Some(
                                    (rt@, result_view(pr)),
                                ));
                            }
                        }
                        return r;
                    },
                }
            },
        };
        let ghost s1 = rt@;
        proof {
            lemma_extends_trans(st0, cur, s1);
        }
        let ghost found_view: Option<SVal> = match &found {
            Some(v) => Some(v@),
            None => None,
        };
        assert forall|o: Oracle| agrees(o, s1) implies #[trigger] chain_loop(
            fuel,
            o,
            cur,
            span,
            obj,
            rest,
            kind@,
            args@,
            chained,
            last@,
        ) == match found_view {
            None => Some((s1, Err(err(span, "FUCK 3"@)))),
            Some(fv) => if fuel == 0 {
                None
            } else {
                match call_callee((fuel - 1) as nat, o, s1, span, fv, args@, chained) {
                    None => None,
                    Some((s2, Err(x))) => Some((s2, Err(x))),
                    Some((s2, Ok(v))) => chain_loop(
                        fuel,
                        o,
                        s2,
                        span,
                        obj,
                        maps@.skip(i + 1),
                        kind@,
                        args@,
                        chained,
                        v,
                    ),
                }
            },
        } by {
            lemma_agrees_prefix(o, cur, s1);
            match maps@[i as int] {
                MappingTo::Expression(expr) => {
                    assert(eval_place(fuel, o, cur, *expr) == Some(
                        (s1, Ok::<SVal, SErr>(found_view->Some_0)),
                    ));
                },
                _ => {},
            }
        }
        match found {
            None => {
                let r = Err(error(span, "FUCK 3"));
                return r;
            },
            Some(fv) => {
                proof {
                    lemma_oracle_of(s1);
                    lemma_agrees_prefix(oracle_of(s1), st0, s1);
                    lemma_agrees_prefix(oracle_of(s1), cur, s1);
                    assert(chain_loop(fuel, oracle_of(s1), cur, span, obj, rest, kind@, args@, chained, last@) is Some);
                    assert(fuel > 0);
                }
                assert forall|o: Oracle| agrees(o, s1) implies #[trigger] call_callee(
                    (fuel - 1) as nat,
                    o,
                    s1,
                    span,
                    fv@,
                    args@,
                    chained,
                ) is Some by {
                    lemma_agrees_prefix(o, st0, s1);
                    lemma_agrees_prefix(o, cur, s1);
                    assert(chain_loop(fuel, o, cur, span, obj, rest, kind@, args@, chained, last@)
                        is Some);
                }
                let cr = call_callee_exec(rt, span, fv, args, chained, Ghost((fuel - 1) as nat));
                let ghost s2 = rt@;
                proof {
                    lemma_extends_trans(st0, s1, s2);
                }
                match cr {
                    Err(x) => {
                        let r = Err(x);
                        assert forall|o: Oracle| agrees(o, s2) implies #[trigger] chain_loop(
                            fuel,
                            o,
                            st0,
                            span,
                            obj,
                            maps@,
                            kind@,
                            args@,
                            chained,
                            SVal::Nil,
                        ) == Some((s2, result_view(r))) by {
                            lemma_agrees_prefix(o, s1, s2);
                            lemma_agrees_prefix(o, cur, s1);
                        }
                        return r;
                    },
                    Ok(v) => {
                        last = v;
                        assert forall|o: Oracle| agrees(o, s2) implies #[trigger] chain_loop(
                            fuel,
                            o,
                            st0,
                            span,
                            obj,
                            maps@,
                            kind@,
                            args@,
                            chained,
                            SVal::Nil,
                        ) == chain_loop(
                            fuel,
                            o,
                            s2,
                            span,
                            obj,
                            maps@.skip(i + 1),
                            kind@,
                            args@,
                            chained,
                            last@,
                        ) by {
                            lemma_agrees_prefix(o, s1, s2);
                            lemma_agrees_prefix(o, cur, s1);
                        }
                    },
                }
            },
        }
        i = i + 1;
    }
    assert(maps@.skip(i as int) =~= Seq::<MappingTo>::empty());
    Ok(last)
}

} // verus!

//! Evaluation of expressions, each function proved to do what its
//! counterpart in [`crate::semantics`] says.
//!
//! Every function takes a ghost `fuel`, the budget of nested calls and loop
//! iterations its spec counterpart is read with. It requires that the spec
//! counterpart completes for every answer of the clock and of the random
//! number generator that agrees with the readings taken so far, and ensures
//! that it did exactly what the spec counterpart says for every such answer
//! that agrees with the readings it took.
use vstd::prelude::*;
use std::rc::Rc;
use crate::call::eval_call_exec;
use crate::describe::{
    array_bounds_error, bounds_error, kind_error, member_error, name_error, number_error,
    push_number_text, shape_error, missing_local_error, member_access_error, two_values_error,
};
use crate::executor::{RuntimeError, SErr, ShapeInstance, result_view};
use crate::model::{
    AzimuthId, Function, FunctionParameter, NumKind, Number, ResolvedExpression, SParam, SVal,
    ShapeId,
    Span, Symbol, Value, ValueKind, map_view,
};
use crate::ops::{
    char_string, copy_shape_instance, expression_kind, needs_right_exec, unary_op,
    with_right_exec, without_right_exec,
};
use crate::runtime::{Runtime, RtState};
use crate::semantics::{
    stack_kept, lemma_kept_trans,
    Oracle, agrees, dedup, default_value, dict_insert_all, eval, eval_binary, eval_call,
    eval_entries, eval_index, eval_list, eval_member, eval_place, first_key, format_text,
    index_result, init_object, lemma_agrees_prefix, lemma_extends_trans, lemma_oracle_of,
    state_extends, oracle_of, prepend_entries, prepend_vals,
};
use crate::value::{
    copy_ids, lemma_array_view, push_int, lemma_dict_view, lemma_set_view, push_render, same_value,
    values_equal,
};

verus! {

broadcast use vstd::std_specs::vec::group_vec_axioms, crate::model::group_map_view;

/// The view of a list of values or an error.
pub open spec fn values_result(r: Result<Vec<Value>, RuntimeError>) -> Result<Seq<SVal>, SErr> {
    match r {
        Ok(v) => Ok(map_view(v@)),
        Err(e) => Err(e@),
    }
}

/// The view of a list of dictionary entries or an error.
pub open spec fn entries_result(r: Result<Vec<(Value, Value)>, RuntimeError>) -> Result<
    Seq<(SVal, SVal)>,
    SErr,
> {
    match r {
        Ok(v) => Ok(map_view(v@)),
        Err(e) => Err(e@),
    }
}

// ---------------------------------------------------------------------------
// Collections
// ---------------------------------------------------------------------------
/// The values with later duplicates dropped.
fn dedup_values(vs: &Vec<Value>) -> (r: Vec<Value>)
    ensures
        map_view(r@) == dedup(map_view(vs@)),
{
    let ghost all = map_view(vs@);
    let mut r: Vec<Value> = Vec::new();
    let mut i: usize = 0;
    assert(all.take(0) =~= Seq::<SVal>::empty());
    while i < vs.len()
        invariant
            i <= vs@.len(),
            all == map_view(vs@),
            map_view(r@) == dedup(all.take(i as int)),
        decreases vs@.len() - i,
    {
        let ghost rest = map_view(r@);
        assert(all.take(i + 1).drop_last() =~= all.take(i as int));
        assert(all.take(i + 1).last() == vs@[i as int]@);
        let mut found = false;
        let mut j: usize = 0;
        while j < r.len()
            invariant
                j <= r@.len(),
                i < vs@.len(),
                rest == map_view(r@),
                found ==> exists|k: int| 0 <= k < rest.len() && same_value(rest[k], vs@[i as int]@),
                !found ==> forall|k: int| 0 <= k < j ==> !same_value(rest[k], vs@[i as int]@),
            decreases r@.len() - j,
        {
            if values_equal(&r[j], &vs[i]) {
                assert(rest[j as int] == r@[j as int]@);
                found = true;
            }
            j = j + 1;
        }
        if !found {
            r.push(vs[i].duplicate());
        }
        i = i + 1;
    }
    assert(all.take(vs@.len() as int) =~= all);
    r
}

/// The entries inserted one after another: a key seen before keeps its place
/// and takes the new value.
fn insert_entries(es: &Vec<(Value, Value)>) -> (r: Vec<(Value, Value)>)
    ensures
        map_view(r@) == dict_insert_all(map_view(es@)),
{
    let ghost all = map_view(es@);
    let mut r: Vec<(Value, Value)> = Vec::new();
    let mut i: usize = 0;
    assert(all.take(0) =~= Seq::<(SVal, SVal)>::empty());
    while i < es.len()
        invariant
            i <= es@.len(),
            all == map_view(es@),
            map_view(r@) == dict_insert_all(all.take(i as int)),
        decreases es@.len() - i,
    {
        let ghost rest = map_view(r@);
        let ghost k = es@[i as int].0@;
        assert(all.take(i + 1).drop_last() =~= all.take(i as int));
        assert(all.take(i + 1).last() == (es@[i as int].0@, es@[i as int].1@));
        let mut j: usize = 0;
        while j < r.len() && !values_equal(&r[j].0, &es[i].0)
            invariant
                j <= r@.len(),
                i < es@.len(),
                rest == map_view(r@),
                k == es@[i as int].0@,
                forall|m: int| 0 <= m < j ==> !same_value(#[trigger] rest[m].0, k),
            decreases r@.len() - j,
        {
            j = j + 1;
        }
        if j < r.len() {
            assert(first_key(rest, k, j as int));
            let (key, _) = r.remove(j);
            r.insert(j, (key, es[i].1.duplicate()));
            proof {
                assert(forall|m: int| #[trigger] first_key(rest, k, m) ==> m == j);
                assert(map_view(r@) =~= rest.update(j as int, (rest[j as int].0, es@[i as int].1@)));
            }
        } else {
            assert(forall|m: int| !#[trigger] first_key(rest, k, m));
            r.push((es[i].0.duplicate(), es[i].1.duplicate()));
        }
        i = i + 1;
    }
    assert(all.take(es@.len() as int) =~= all);
    r
}

/// The text of string-format pieces.
fn format_values(vs: &Vec<Value>) -> (s: String)
    ensures
        s@ == format_text(map_view(vs@)),
{
    let ghost all = map_view(vs@);
    let mut s = String::new();
    let mut i: usize = 0;
    assert(all.take(0) =~= Seq::<SVal>::empty());
    while i < vs.len()
        invariant
            i <= vs@.len(),
            all == map_view(vs@),
            s@ == format_text(all.take(i as int)),
        decreases vs@.len() - i,
    {
        assert(all.take(i + 1).drop_last() =~= all.take(i as int));
        assert(all.take(i + 1).last() == vs@[i as int]@);
        match &vs[i] {
            Value::String(x) => s.append(x.as_str()),
            other => push_render(&mut s, other),
        }
        i = i + 1;
    }
    assert(all.take(vs@.len() as int) =~= all);
    s
}

// ---------------------------------------------------------------------------
// Objects
// ---------------------------------------------------------------------------
/// Creates an object and attaches shape `base` to it.
fn init_object_exec(
    rt: &mut Runtime,
    span: Span,
    base: ShapeId,
    base_kind: ValueKind,
    defaults: &Vec<(AzimuthId, Value)>,
    maps: &Vec<(AzimuthId, AzimuthId)>,
) -> (r: Result<Value, RuntimeError>)
    requires
        init_object(old(rt)@, span, base, base_kind@, map_view(defaults@), maps@) is Some,
    ensures
        init_object(old(rt)@, span, base, base_kind@, map_view(defaults@), maps@) == Some(
            (final(rt)@, result_view(r)),
        ),
        final(rt)@.clock_log == old(rt)@.clock_log,
        final(rt)@.random_log == old(rt)@.random_log,
{
    let ghost st = rt@;
    let id = rt.create_object();
    if base >= rt.shapes.len() {
        return Err(shape_error(span, "Shape not found: ", &base_kind));
    }
    let ghost parents = rt@.shapes[base as int].parents;
    let mut known: Vec<ValueKind> = Vec::new();
    known.push(base_kind);
    let mut k: usize = 0;
    while k < rt.shapes[base].parents.len()
        invariant
            base < rt.shapes@.len(),
            parents == rt@.shapes[base as int].parents,
            k <= parents.len(),
            map_view(known@) == seq![base_kind@] + parents.take(k as int),
        decreases parents.len() - k,
    {
        let inst = copy_shape_instance(&rt.shapes[base].parents[k]);
        known.push(ValueKind::Shape(inst));
        assert(map_view(known@) =~= seq![base_kind@] + parents.take(k + 1));
        k = k + 1;
    }
    assert(parents.take(k as int) =~= parents);
    let kind = ValueKind::Object(known);
    assert(kind@->Object_0 =~= map_view(known@));
    match rt.attach_shape(id, base, defaults, maps) {
        Ok(()) => Ok(Value::Object(id, kind)),
        Err(m) => Err(RuntimeError::Error { span, message: m }),
    }
}

/// The default value of a kind.
fn default_value_exec(rt: &mut Runtime, span: Span, k: &ValueKind) -> (r: Result<Value, RuntimeError>)
    requires
        default_value(old(rt)@, span, k@) is Some,
    ensures
        default_value(old(rt)@, span, k@) == Some((final(rt)@, result_view(r))),
        final(rt)@.clock_log == old(rt)@.clock_log,
        final(rt)@.random_log == old(rt)@.random_log,
{
    match k {
        ValueKind::String => Ok(Value::String(String::new())),
        ValueKind::Bool => Ok(Value::Bool(false)),
        ValueKind::Nil => Ok(Value::Nil),
        ValueKind::Number(nk) => {
            if *nk == NumKind::Float32 || *nk == NumKind::Float64 || *nk == NumKind::Any {
                Err(kind_error(span, "Could not determine default for ", k))
            } else {
                Ok(Value::Number(crate::value::number_of(*nk, 0)))
            }
        },
        ValueKind::Array(b) => {
            let r = Value::Array(Vec::new(), (**b).duplicate());
            assert(r@->Array_0 =~= seq![]);
            Ok(r)
        },
        ValueKind::SetOf(b) => {
            let r = Value::SetOf(Vec::new(), (**b).duplicate());
            assert(r@->SetOf_0 =~= seq![]);
            Ok(r)
        },
        ValueKind::Dict(a, b) => {
            let r = Value::Dict(Vec::new(), (**a).duplicate(), (**b).duplicate());
            assert(r@->Dict_0 =~= seq![]);
            Ok(r)
        },
        ValueKind::Option(_) => Ok(Value::Nil),
        ValueKind::Object(_) => {
            let base = ValueKind::Shape(ShapeInstance { id: 0, generics: Vec::new() });
            assert(base@->Shape_1 =~= seq![]);
            let d: Vec<(AzimuthId, Value)> = Vec::new();
            let m: Vec<(AzimuthId, AzimuthId)> = Vec::new();
            assert(map_view(d@) =~= seq![]);
            assert(m@ =~= seq![]);
            init_object_exec(rt, span, 0, base, &d, &m)
        },
        ValueKind::Shape(inst) => {
            let base = ValueKind::Shape(copy_shape_instance(inst));
            let d: Vec<(AzimuthId, Value)> = Vec::new();
            let m: Vec<(AzimuthId, AzimuthId)> = Vec::new();
            assert(map_view(d@) =~= seq![]);
            assert(m@ =~= seq![]);
            init_object_exec(rt, span, inst.id, base, &d, &m)
        },
        _ => Err(kind_error(span, "Could not determine default for ", k)),
    }
}

// ---------------------------------------------------------------------------
// Expressions
// ---------------------------------------------------------------------------
/// Evaluates the expressions left to right.
pub fn eval_list_exec(rt: &mut Runtime, es: &Vec<ResolvedExpression>, Ghost(fuel): Ghost<nat>) -> (r:
    Result<Vec<Value>, RuntimeError>)
    requires
        forall|o: Oracle| agrees(o, old(rt)@) ==> #[trigger] eval_list(fuel, o, old(rt)@, es@) is Some,
    ensures
        state_extends(old(rt)@, final(rt)@),
        r is Ok ==> stack_kept(old(rt)@, final(rt)@),
        forall|o: Oracle|
            agrees(o, final(rt)@) ==> #[trigger] eval_list(fuel, o, old(rt)@, es@) == Some(
                (final(rt)@, values_result(r)),
            ),
    decreases fuel, es@, 0nat,
{
    let ghost st0 = rt@;
    let mut vals: Vec<Value> = Vec::new();
    let mut i: usize = 0;
    assert(es@.skip(0) =~= es@);
    assert forall|o: Oracle| agrees(o, rt@) implies #[trigger] eval_list(fuel, o, st0, es@)
        == prepend_vals(map_view(vals@), eval_list(fuel, o, rt@, es@.skip(0))) by {
        match eval_list(fuel, o, st0, es@) {
            Some((s, Ok(rest))) => {
                assert(map_view(vals@) + rest =~= rest);
            },
            _ => {},
        }
    }
    while i < es.len()
        invariant
            i <= es@.len(),
            st0 == old(rt)@,
            state_extends(st0, rt@),
            stack_kept(st0, rt@),
            forall|o: Oracle| agrees(o, rt@) ==> #[trigger] eval_list(fuel, o, st0, es@)
                == prepend_vals(map_view(vals@), eval_list(fuel, o, rt@, es@.skip(i as int))),
            forall|o: Oracle| agrees(o, st0) ==> #[trigger] eval_list(fuel, o, st0, es@) is Some,
        decreases es@.len() - i,
    {
        let ghost cur = rt@;
        let ghost rest = es@.skip(i as int);
        assert(rest[0] == es@[i as int]);
        assert(rest.drop_first() =~= es@.skip(i + 1));
        assert forall|o: Oracle| agrees(o, cur) implies #[trigger] eval(fuel, o, cur, es@[i as int])
            is Some by {
            lemma_agrees_prefix(o, st0, cur);
            assert(eval_list(fuel, o, st0, es@) is Some);
            assert(eval_list(fuel, o, st0, es@) == prepend_vals(
                map_view(vals@),
                eval_list(fuel, o, cur, rest),
            ));
        }
        let v = eval_expr(rt, &es[i], Ghost(fuel));
        let ghost nxt = rt@;
        proof {
            lemma_extends_trans(st0, cur, nxt);
        }
        match v {
            Err(x) => {
                let r = Err(x);
                assert forall|o: Oracle| agrees(o, nxt) implies #[trigger] eval_list(fuel, o, st0, es@)
                    == Some((nxt, values_result(r))) by {
                    lemma_agrees_prefix(o, cur, nxt);
                    assert(eval_list(fuel, o, st0, es@) == prepend_vals(
                        map_view(vals@),
                        eval_list(fuel, o, cur, rest),
                    ));
                    assert(eval(fuel, o, cur, es@[i as int]) == Some((nxt, result_view(v))));
                }
                return r;
            },
            Ok(v) => {
                let ghost vv = v@;
                let ghost old_vals = map_view(vals@);
                vals.push(v);
                assert forall|o: Oracle| agrees(o, nxt) implies #[trigger] eval_list(fuel, o, st0, es@)
                    == prepend_vals(map_view(vals@), eval_list(fuel, o, nxt, es@.skip(i + 1))) by {
                    lemma_agrees_prefix(o, cur, nxt);
                    assert(eval_list(fuel, o, st0, es@) == prepend_vals(
                        old_vals,
                        eval_list(fuel, o, cur, rest),
                    ));
                    assert(eval(fuel, o, cur, rest[0]) == Some((nxt, Ok::<SVal, SErr>(vv))));
                    match eval_list(fuel, o, nxt, es@.skip(i + 1)) {
                        Some((s, Ok(more))) => {
                            assert(old_vals + (seq![vv] + more) =~= map_view(vals@) + more);
                        },
                        _ => {},
                    }
                }
            },
        }
        i = i + 1;
    }
    assert(es@.skip(i as int) =~= Seq::<ResolvedExpression>::empty());
    assert forall|o: Oracle| agrees(o, rt@) implies #[trigger] eval_list(fuel, o, st0, es@) == Some(
        (rt@, values_result(Ok::<Vec<Value>, RuntimeError>(vals))),
    ) by {
        assert(map_view(vals@) + seq![] =~= map_view(vals@));
    }
    Ok(vals)
}

/// Evaluates the key and the value of each entry, left to right.
pub fn eval_entries_exec(
    rt: &mut Runtime,
    es: &Vec<(ResolvedExpression, ResolvedExpression)>,
    Ghost(fuel): Ghost<nat>,
) -> (r: Result<Vec<(Value, Value)>, RuntimeError>)
    requires
        forall|o: Oracle|
            agrees(o, old(rt)@) ==> #[trigger] eval_entries(fuel, o, old(rt)@, es@) is Some,
    ensures
        state_extends(old(rt)@, final(rt)@),
        r is Ok ==> stack_kept(old(rt)@, final(rt)@),
        forall|o: Oracle|
            agrees(o, final(rt)@) ==> #[trigger] eval_entries(fuel, o, old(rt)@, es@) == Some(
                (final(rt)@, entries_result(r)),
            ),
    decreases fuel, es@, 0nat,
{
    let ghost st0 = rt@;
    let mut vals: Vec<(Value, Value)> = Vec::new();
    let mut i: usize = 0;
    assert(es@.skip(0) =~= es@);
    assert forall|o: Oracle| agrees(o, rt@) implies #[trigger] eval_entries(fuel, o, st0, es@)
        == prepend_entries(map_view(vals@), eval_entries(fuel, o, rt@, es@.skip(0))) by {
        match eval_entries(fuel, o, st0, es@) {
            Some((s, Ok(rest))) => {
                assert(map_view(vals@) + rest =~= rest);
            },
            _ => {},
        }
    }
    while i < es.len()
        invariant
            i <= es@.len(),
            st0 == old(rt)@,
            state_extends(st0, rt@),
            stack_kept(st0, rt@),
            forall|o: Oracle| agrees(o, rt@) ==> #[trigger] eval_entries(fuel, o, st0, es@)
                == prepend_entries(map_view(vals@), eval_entries(fuel, o, rt@, es@.skip(i as int))),
            forall|o: Oracle| agrees(o, st0) ==> #[trigger] eval_entries(fuel, o, st0, es@) is Some,
        decreases es@.len() - i,
    {
        let ghost cur = rt@;
        let ghost rest = es@.skip(i as int);
        assert(rest[0] == es@[i as int]);
        assert(rest.drop_first() =~= es@.skip(i + 1));
        assert forall|o: Oracle| agrees(o, cur) implies #[trigger] eval(fuel, o, cur, es@[i as int].0)
            is Some by {
            lemma_agrees_prefix(o, st0, cur);
            assert(eval_entries(fuel, o, st0, es@) is Some);
            assert(eval_entries(fuel, o, st0, es@) == prepend_entries(
                map_view(vals@),
                eval_entries(fuel, o, cur, rest),
            ));
        }
        let kv = eval_expr(rt, &es[i].0, Ghost(fuel));
        let ghost mid = rt@;
        proof {
            lemma_extends_trans(st0, cur, mid);
        }
        let key = match kv {
            Err(x) => {
                let r = Err(x);
                assert forall|o: Oracle| agrees(o, mid) implies #[trigger] eval_entries(
                    fuel,
                    o,
                    st0,
                    es@,
                ) == Some((mid, entries_result(r))) by {
                    lemma_agrees_prefix(o, cur, mid);
                    assert(eval_entries(fuel, o, st0, es@) == prepend_entries(
                        map_view(vals@),
                        eval_entries(fuel, o, cur, rest),
                    ));
                    assert(eval(fuel, o, cur, es@[i as int].0) == Some((mid, result_view(kv))));
                }
                return r;
            },
            Ok(k) => k,
        };
        let ghost kview = key@;
        assert forall|o: Oracle| agrees(o, mid) implies #[trigger] eval(fuel, o, mid, es@[i as int].1)
            is Some by {
            lemma_agrees_prefix(o, cur, mid);
            lemma_agrees_prefix(o, st0, cur);
            assert(eval_entries(fuel, o, st0, es@) is Some);
            assert(eval_entries(fuel, o, st0, es@) == prepend_entries(
                map_view(vals@),
                eval_entries(fuel, o, cur, rest),
            ));
            assert(eval(fuel, o, cur, rest[0].0) == Some((mid, Ok::<SVal, SErr>(kview))));
        }
        let vv = eval_expr(rt, &es[i].1, Ghost(fuel));
        let ghost nxt = rt@;
        proof {
            lemma_extends_trans(st0, mid, nxt);
            lemma_extends_trans(cur, mid, nxt);
        }
        match vv {
            Err(x) => {
                let r = Err(x);
                assert forall|o: Oracle| agrees(o, nxt) implies #[trigger] eval_entries(
                    fuel,
                    o,
                    st0,
                    es@,
                ) == Some((nxt, entries_result(r))) by {
                    lemma_agrees_prefix(o, mid, nxt);
                    lemma_agrees_prefix(o, cur, mid);
                    assert(eval_entries(fuel, o, st0, es@) == prepend_entries(
                        map_view(vals@),
                        eval_entries(fuel, o, cur, rest),
                    ));
                    assert(eval(fuel, o, cur, rest[0].0) == Some((mid, Ok::<SVal, SErr>(kview))));
                    assert(eval(fuel, o, mid, rest[0].1) == Some((nxt, result_view(vv))));
                }
                return r;
            },
            Ok(v) => {
                let ghost vview = v@;
                let ghost old_vals = map_view(vals@);
                vals.push((key, v));
                assert forall|o: Oracle| agrees(o, nxt) implies #[trigger] eval_entries(
                    fuel,
                    o,
                    st0,
                    es@,
                ) == prepend_entries(map_view(vals@), eval_entries(fuel, o, nxt, es@.skip(i + 1))) by {
                    lemma_agrees_prefix(o, mid, nxt);
                    lemma_agrees_prefix(o, cur, mid);
                    assert(eval_entries(fuel, o, st0, es@) == prepend_entries(
                        old_vals,
                        eval_entries(fuel, o, cur, rest),
                    ));
                    assert(eval(fuel, o, cur, rest[0].0) == Some((mid, Ok::<SVal, SErr>(kview))));
                    assert(eval(fuel, o, mid, rest[0].1) == Some((nxt, Ok::<SVal, SErr>(vview))));
                    match eval_entries(fuel, o, nxt, es@.skip(i + 1)) {
                        Some((s, Ok(more))) => {
                            assert(old_vals + (seq![(kview, vview)] + more) =~= map_view(vals@)
                                + more);
                        },
                        _ => {},
                    }
                }
            },
        }
        i = i + 1;
    }
    assert(es@.skip(i as int) =~= Seq::<(ResolvedExpression, ResolvedExpression)>::empty());
    assert forall|o: Oracle| agrees(o, rt@) implies #[trigger] eval_entries(fuel, o, st0, es@)
        == Some((rt@, entries_result(Ok::<Vec<(Value, Value)>, RuntimeError>(vals)))) by {
        assert(map_view(vals@) + seq![] =~= map_view(vals@));
    }
    Ok(vals)
}

/// Evaluates an expression.
pub fn eval_expr(rt: &mut Runtime, e: &ResolvedExpression, Ghost(fuel): Ghost<nat>) -> (r: Result<
    Value,
    RuntimeError,
>)
    requires
        forall|o: Oracle| agrees(o, old(rt)@) ==> #[trigger] eval(fuel, o, old(rt)@, *e) is Some,
    ensures
        state_extends(old(rt)@, final(rt)@),
        r is Ok ==> stack_kept(old(rt)@, final(rt)@),
        forall|o: Oracle|
            agrees(o, final(rt)@) ==> #[trigger] eval(fuel, o, old(rt)@, *e) == Some(
                (final(rt)@, result_view(r)),
            ),
    decreases fuel, e, 2nat,
{
    let ghost st = rt@;
    proof {
        lemma_oracle_of(st);
    }
    match e {
        ResolvedExpression::Value(..) | ResolvedExpression::Variable(..)
        | ResolvedExpression::StaticSingleton(..) | ResolvedExpression::Function { .. } => {
            let r = eval_pure(rt, e);
            assert forall|o: Oracle| agrees(o, rt@) implies #[trigger] eval(fuel, o, st, *e) == Some(
                (rt@, result_view(r)),
            ) by {
                assert(eval(fuel, o, st, *e) == Some((st, pure_result(st, *e))));
            }
            r
        },
        ResolvedExpression::Array(..) | ResolvedExpression::SetOf(..) | ResolvedExpression::Dict(
            ..,
        ) | ResolvedExpression::StringFormat(..) => eval_collection_exec(rt, e, Ghost(fuel)),
        ResolvedExpression::Default(span, k) => {
            assert(eval(fuel, oracle_of(st), st, *e) is Some);
            let r = default_value_exec(rt, *span, k);
            assert(state_extends(st, rt@));
            assert forall|o: Oracle| agrees(o, rt@) implies #[trigger] eval(fuel, o, st, *e) == Some(
                (rt@, result_view(r)),
            ) by {
                assert(eval(fuel, o, st, *e) == default_value(st, *span, k@));
            }
            r
        },
        ResolvedExpression::Option(_, _) | ResolvedExpression::Shape(_, _)
        | ResolvedExpression::Reflection(_, _) => {
            assert(eval(fuel, oracle_of(st), st, *e) is Some);
            vstd::pervasive::unreached()
        },
        ResolvedExpression::ObjectInit(span, att) => {
            assert(eval(fuel, oracle_of(st), st, *e) is Some);
            let base_kind = ValueKind::Shape(copy_shape_instance(&att.base));
            let ghost bk = base_kind@;
            let r = init_object_exec(rt, *span, att.base.id, base_kind, &att.defaults, &att.mappings);
            assert(state_extends(st, rt@));
            assert forall|o: Oracle| agrees(o, rt@) implies #[trigger] eval(fuel, o, st, *e) == Some(
                (rt@, result_view(r)),
            ) by {
                assert(eval(fuel, o, st, *e) == init_object(
                    st,
                    *span,
                    att.base.id,
                    bk,
                    map_view(att.defaults@),
                    att.mappings@,
                ));
            }
            r
        },
        ResolvedExpression::UnaryOp { .. } => eval_unary_exec(rt, e, Ghost(fuel)),
        ResolvedExpression::Ternary { .. } => eval_ternary_exec(rt, e, Ghost(fuel)),
        ResolvedExpression::BinaryOp { .. } => {
            assert forall|o: Oracle| agrees(o, st) implies #[trigger] eval_binary(fuel, o, st, *e)
                is Some by {
                assert(eval(fuel, o, st, *e) is Some);
            }
            let r = eval_binary_exec(rt, e, Ghost(fuel));
            assert forall|o: Oracle| agrees(o, rt@) implies #[trigger] eval(fuel, o, st, *e) == Some(
                (rt@, result_view(r)),
            ) by {
                assert(eval_binary(fuel, o, st, *e) == Some((rt@, result_view(r))));
            }
            r
        },
        ResolvedExpression::MemberAccess { .. } => {
            assert forall|o: Oracle| agrees(o, st) implies #[trigger] eval_member(fuel, o, st, *e)
                is Some by {
                assert(eval(fuel, o, st, *e) is Some);
            }
            let r = eval_member_exec(rt, e, Ghost(fuel));
            assert forall|o: Oracle| agrees(o, rt@) implies #[trigger] eval(fuel, o, st, *e) == Some(
                (rt@, result_view(r)),
            ) by {
                assert(eval_member(fuel, o, st, *e) == Some((rt@, result_view(r))));
            }
            r
        },
        ResolvedExpression::ArrayAccess { .. } => {
            assert forall|o: Oracle| agrees(o, st) implies #[trigger] eval_index(fuel, o, st, *e)
                is Some by {
                assert(eval(fuel, o, st, *e) is Some);
            }
            let r = eval_index_exec(rt, e, Ghost(fuel));
            assert forall|o: Oracle| agrees(o, rt@) implies #[trigger] eval(fuel, o, st, *e) == Some(
                (rt@, result_view(r)),
            ) by {
                assert(eval_index(fuel, o, st, *e) == Some((rt@, result_view(r))));
            }
            r
        },
        ResolvedExpression::FunctionCall { .. } => {
            assert forall|o: Oracle| agrees(o, st) implies #[trigger] eval_call(fuel, o, st, *e)
                is Some by {
                assert(eval(fuel, o, st, *e) is Some);
            }
            let r = eval_call_exec(rt, e, Ghost(fuel));
            assert forall|o: Oracle| agrees(o, rt@) implies #[trigger] eval(fuel, o, st, *e) == Some(
                (rt@, result_view(r)),
            ) by {
                assert(eval_call(fuel, o, st, *e) == Some((rt@, result_view(r))));
            }
            r
        },
    }
}

/// What a literal, a variable, a static singleton or a function expression
/// evaluates to; these leave the state unchanged.
pub open spec fn pure_result(st: RtState, e: ResolvedExpression) -> Result<SVal, SErr> {
    match eval(0, oracle_of(st), st, e) {
        Some((_, r)) => r,
        None => Ok(SVal::Nil),
    }
}

/// Evaluates a literal, a variable, a static singleton or a function expression.
fn eval_pure(rt: &Runtime, e: &ResolvedExpression) -> (r: Result<Value, RuntimeError>)
    requires
        e is Value || e is Variable || e is StaticSingleton || e is Function,
    ensures
        forall|fuel: nat, o: Oracle| #[trigger] eval(fuel, o, rt@, *e) == Some(
            (rt@, result_view(r)),
        ),
        result_view(r) == pure_result(rt@, *e),
{
    match e {
        ResolvedExpression::Value(_, v) => Ok(v.duplicate()),
        ResolvedExpression::Variable(span, Symbol::Generic(g)) => Err(
            number_error(*span, "Somehow generic made it through: ", *g as u128),
        ),
        ResolvedExpression::Variable(span, Symbol::Local(info)) => match rt.get_local(info.id) {
            Some(v) => Ok(v.duplicate()),
            None => Err(missing_local_error(*span, info)),
        },
        ResolvedExpression::StaticSingleton(span, id) => match rt.get_shape(*id) {
            None => Err(number_error(*span, "No shape found for static id: ", *id as u128)),
            Some(info) => match info.static_id {
                None => Err(name_error(
                    *span,
                    "\"",
                    info.name.as_str(),
                    "\" does not have static singleton",
                )),
                Some(s) => {
                    let k = ValueKind::Object(Vec::new());
                    assert(k@->Object_0 =~= seq![]);
                    Ok(Value::Object(s.id, k))
                },
            },
        },
        ResolvedExpression::Function { has_self, input_types, output_type, func, captures, .. } => {
            let mut inputs: Vec<FunctionParameter> = Vec::new();
            let mut i: usize = 0;
            while i < input_types.len()
                invariant
                    i <= input_types@.len(),
                    inputs@.len() == i,
                    forall|j: int|
                        0 <= j < i ==> (#[trigger] inputs@[j])@ == (SParam {
                            kind: input_types@[j].shape.kind@,
                            local: input_types@[j].local,
                        }),
                decreases input_types@.len() - i,
            {
                inputs.push(
                    FunctionParameter {
                        kind: input_types[i].shape.kind.duplicate(),
                        local: input_types[i].local,
                    },
                );
                i = i + 1;
            }
            let f = Function {
                id: 0,
                has_self: *has_self,
                input_types: inputs,
                output_type: output_type.kind.duplicate(),
                func: Rc::clone(func),
                captures: copy_ids(captures),
            };
            assert(f@.inputs =~= Seq::new(
                input_types@.len(),
                |i: int| SParam { kind: input_types@[i].shape.kind@, local: input_types@[i].local },
            ));
            Ok(Value::Function(Rc::new(f)))
        },
        _ => vstd::pervasive::unreached(),
    }
}

/// Evaluates an array, set, dictionary or string-format expression.
fn eval_collection_exec(rt: &mut Runtime, e: &ResolvedExpression, Ghost(fuel): Ghost<nat>) -> (r:
    Result<Value, RuntimeError>)
    requires
        e is Array || e is SetOf || e is Dict || e is StringFormat,
        forall|o: Oracle| agrees(o, old(rt)@) ==> #[trigger] eval(fuel, o, old(rt)@, *e) is Some,
    ensures
        state_extends(old(rt)@, final(rt)@),
        r is Ok ==> stack_kept(old(rt)@, final(rt)@),
        forall|o: Oracle|
            agrees(o, final(rt)@) ==> #[trigger] eval(fuel, o, old(rt)@, *e) == Some(
                (final(rt)@, result_view(r)),
            ),
    decreases fuel, e, 1nat,
{
    let ghost st = rt@;
    match e {
        ResolvedExpression::Array(_, items, k) => {
            assert forall|o: Oracle| agrees(o, st) implies #[trigger] eval_list(fuel, o, st, items@)
                is Some by {
                assert(eval(fuel, o, st, *e) is Some);
            }
            let lr = eval_list_exec(rt, items, Ghost(fuel));
            let ghost lv = values_result(lr);
            let r = match lr {
                Ok(vs) => {
                    let kd = k.duplicate();
                    proof {
                        lemma_array_view(vs, kd);
                    }
                    Ok(Value::Array(vs, kd))
                },
                Err(x) => Err(x),
            };
            assert forall|o: Oracle| agrees(o, rt@) implies #[trigger] eval(fuel, o, st, *e) == Some(
                (rt@, result_view(r)),
            ) by {
                assert(eval_list(fuel, o, st, items@) == Some((rt@, lv)));
            }
            r
        },
        ResolvedExpression::SetOf(_, items, k) => {
            assert forall|o: Oracle| agrees(o, st) implies #[trigger] eval_list(fuel, o, st, items@)
                is Some by {
                assert(eval(fuel, o, st, *e) is Some);
            }
            let lr = eval_list_exec(rt, items, Ghost(fuel));
            let ghost lv = values_result(lr);
            let r = match lr {
                Ok(vs) => {
                    let d = dedup_values(&vs);
                    let kd = k.duplicate();
                    proof {
                        lemma_set_view(d, kd);
                    }
                    Ok(Value::SetOf(d, kd))
                },
                Err(x) => Err(x),
            };
            assert forall|o: Oracle| agrees(o, rt@) implies #[trigger] eval(fuel, o, st, *e) == Some(
                (rt@, result_view(r)),
            ) by {
                assert(eval_list(fuel, o, st, items@) == Some((rt@, lv)));
            }
            r
        },
        ResolvedExpression::Dict(_, entries, kk, vk) => {
            assert forall|o: Oracle| agrees(o, st) implies #[trigger] eval_entries(
                fuel,
                o,
                st,
                entries@,
            ) is Some by {
                assert(eval(fuel, o, st, *e) is Some);
            }
            let lr = eval_entries_exec(rt, entries, Ghost(fuel));
            let ghost lv = entries_result(lr);
            let r = match lr {
                Ok(es) => {
                    let d = insert_entries(&es);
                    let a = kk.duplicate();
                    let b = vk.duplicate();
                    proof {
                        lemma_dict_view(d, a, b);
                    }
                    Ok(Value::Dict(d, a, b))
                },
                Err(x) => Err(x),
            };
            assert forall|o: Oracle| agrees(o, rt@) implies #[trigger] eval(fuel, o, st, *e) == Some(
                (rt@, result_view(r)),
            ) by {
                assert(eval_entries(fuel, o, st, entries@) == Some((rt@, lv)));
            }
            r
        },
        ResolvedExpression::StringFormat(_, items) => {
            assert forall|o: Oracle| agrees(o, st) implies #[trigger] eval_list(fuel, o, st, items@)
                is Some by {
                assert(eval(fuel, o, st, *e) is Some);
            }
            let lr = eval_list_exec(rt, items, Ghost(fuel));
            let ghost lv = values_result(lr);
            let r = match lr {
                Ok(vs) => Ok(Value::String(format_values(&vs))),
                Err(x) => Err(x),
            };
            assert forall|o: Oracle| agrees(o, rt@) implies #[trigger] eval(fuel, o, st, *e) == Some(
                (rt@, result_view(r)),
            ) by {
                assert(eval_list(fuel, o, st, items@) == Some((rt@, lv)));
            }
            r
        },
        _ => vstd::pervasive::unreached(),
    }
}

/// Evaluates a unary operation.
fn eval_unary_exec(rt: &mut Runtime, e: &ResolvedExpression, Ghost(fuel): Ghost<nat>) -> (r: Result<
    Value,
    RuntimeError,
>)
    requires
        e is UnaryOp,
        forall|o: Oracle| agrees(o, old(rt)@) ==> #[trigger] eval(fuel, o, old(rt)@, *e) is Some,
    ensures
        state_extends(old(rt)@, final(rt)@),
        r is Ok ==> stack_kept(old(rt)@, final(rt)@),
        forall|o: Oracle|
            agrees(o, final(rt)@) ==> #[trigger] eval(fuel, o, old(rt)@, *e) == Some(
                (final(rt)@, result_view(r)),
            ),
    decreases fuel, e, 1nat,
{
    let ghost st = rt@;
    match e {
        ResolvedExpression::UnaryOp { span, operator, operand } => {
            assert forall|o: Oracle| agrees(o, st) implies #[trigger] eval(fuel, o, st, **operand)
                is Some by {
                assert(eval(fuel, o, st, *e) is Some);
            }
            let v = eval_expr(rt, operand, Ghost(fuel));
            let ghost s1 = rt@;
            let ghost vr = result_view(v);
            match v {
                Err(x) => {
                    let r = Err(x);
                    assert forall|o: Oracle| agrees(o, s1) implies #[trigger] eval(fuel, o, st, *e)
                        == Some((s1, result_view(r))) by {
                        assert(eval(fuel, o, st, **operand) == Some((s1, vr)));
                    }
                    r
                },
                Ok(v) => {
                    let ghost vv = v@;
                    proof {
                        lemma_oracle_of(s1);
                        lemma_agrees_prefix(oracle_of(s1), st, s1);
                        assert(eval(fuel, oracle_of(s1), st, *e) is Some);
                        assert(eval(fuel, oracle_of(s1), st, **operand) == Some(
                            (s1, Ok::<SVal, SErr>(vv)),
                        ));
                    }
                    let r = unary_op(*span, *operator, v);
                    assert forall|o: Oracle| agrees(o, s1) implies #[trigger] eval(fuel, o, st, *e)
                        == Some((s1, result_view(r))) by {
                        assert(eval(fuel, o, st, **operand) == Some((s1, Ok::<SVal, SErr>(vv))));
                    }
                    r
                },
            }
        },
        _ => vstd::pervasive::unreached(),
    }
}

/// Evaluates a conditional expression.
fn eval_ternary_exec(rt: &mut Runtime, e: &ResolvedExpression, Ghost(fuel): Ghost<nat>) -> (r: Result<
    Value,
    RuntimeError,
>)
    requires
        e is Ternary,
        forall|o: Oracle| agrees(o, old(rt)@) ==> #[trigger] eval(fuel, o, old(rt)@, *e) is Some,
    ensures
        state_extends(old(rt)@, final(rt)@),
        r is Ok ==> stack_kept(old(rt)@, final(rt)@),
        forall|o: Oracle|
            agrees(o, final(rt)@) ==> #[trigger] eval(fuel, o, old(rt)@, *e) == Some(
                (final(rt)@, result_view(r)),
            ),
    decreases fuel, e, 1nat,
{
    let ghost st = rt@;
    match e {
        ResolvedExpression::Ternary { span, condition, true_expr, else_expr } => {
            assert forall|o: Oracle| agrees(o, st) implies #[trigger] eval(fuel, o, st, **condition)
                is Some by {
                assert(eval(fuel, o, st, *e) is Some);
            }
            let c = eval_expr(rt, condition, Ghost(fuel));
            let ghost s1 = rt@;
            let ghost cr = result_view(c);
            match c {
                Ok(Value::Bool(b)) => {
                    let branch: &ResolvedExpression = if b {
                        true_expr
                    } else {
                        else_expr
                    };
                    assert forall|o: Oracle| agrees(o, s1) implies #[trigger] eval(
                        fuel,
                        o,
                        s1,
                        *branch,
                    ) is Some by {
                        lemma_agrees_prefix(o, st, s1);
                        assert(eval(fuel, o, st, *e) is Some);
                        assert(eval(fuel, o, st, **condition) == Some(
                            (s1, Ok::<SVal, SErr>(SVal::Bool(b))),
                        ));
                    }
                    let r = eval_expr(rt, branch, Ghost(fuel));
                    let ghost s2 = rt@;
                    proof {
                        lemma_extends_trans(st, s1, s2);
                    }
                    assert forall|o: Oracle| agrees(o, s2) implies #[trigger] eval(fuel, o, st, *e)
                        == Some((s2, result_view(r))) by {
                        lemma_agrees_prefix(o, s1, s2);
                        assert(eval(fuel, o, st, **condition) == Some(
                            (s1, Ok::<SVal, SErr>(SVal::Bool(b))),
                        ));
                        assert(eval(fuel, o, s1, *branch) == Some((s2, result_view(r))));
                    }
                    r
                },
                other => {
                    let r = match other {
                        Err(x) => Err(x),
                        Ok(v) => Err(
                            RuntimeError::TypeMismatch {
                                span: *span,
                                found: v,
                                expected: ValueKind::Bool,
                            },
                        ),
                    };
                    assert forall|o: Oracle| agrees(o, s1) implies #[trigger] eval(fuel, o, st, *e)
                        == Some((s1, result_view(r))) by {
                        assert(eval(fuel, o, st, **condition) == Some((s1, cr)));
                    }
                    r
                },
            }
        },
        _ => vstd::pervasive::unreached(),
    }
}

/// Evaluates a binary operation.
fn eval_binary_exec(rt: &mut Runtime, e: &ResolvedExpression, Ghost(fuel): Ghost<nat>) -> (r: Result<
    Value,
    RuntimeError,
>)
    requires
        e is BinaryOp,
        forall|o: Oracle| agrees(o, old(rt)@) ==> #[trigger] eval_binary(fuel, o, old(rt)@, *e) is Some,
    ensures
        state_extends(old(rt)@, final(rt)@),
        r is Ok ==> stack_kept(old(rt)@, final(rt)@),
        forall|o: Oracle|
            agrees(o, final(rt)@) ==> #[trigger] eval_binary(fuel, o, old(rt)@, *e) == Some(
                (final(rt)@, result_view(r)),
            ),
    decreases fuel, e, 1nat,
{
    let ghost st = rt@;
    match e {
        ResolvedExpression::BinaryOp { span, left, operator, right } => {
            let span = *span;
            let op = *operator;
            assert forall|o: Oracle| agrees(o, st) implies #[trigger] eval(fuel, o, st, **left)
                is Some by {
                assert(eval_binary(fuel, o, st, *e) is Some);
            }
            let lr = eval_expr(rt, left, Ghost(fuel));
            let ghost s1 = rt@;
            let ghost lrv = result_view(lr);
            let lv = match lr {
                Err(x) => {
                    let r = Err(x);
                    assert forall|o: Oracle| agrees(o, s1) implies #[trigger] eval_binary(
                        fuel,
                        o,
                        st,
                        *e,
                    ) == Some((s1, result_view(r))) by {
                        assert(eval(fuel, o, st, **left) == Some((s1, lrv)));
                    }
                    return r;
                },
                Ok(v) => v,
            };
            let ghost lvv = lv@;
            let rk = expression_kind(right);
            if !needs_right_exec(op, &lv, &rk) {
                let res = without_right_exec(rt, span, op, lv, &rk);
                assert forall|o: Oracle| agrees(o, s1) implies #[trigger] eval_binary(
                    fuel,
                    o,
                    st,
                    *e,
                ) == Some((s1, result_view(res))) by {
                    assert(eval(fuel, o, st, **left) == Some((s1, Ok::<SVal, SErr>(lvv))));
                }
                res
            } else {
                assert forall|o: Oracle| agrees(o, s1) implies #[trigger] eval(
                    fuel,
                    o,
                    s1,
                    **right,
                ) is Some by {
                    lemma_agrees_prefix(o, st, s1);
                    assert(eval_binary(fuel, o, st, *e) is Some);
                    assert(eval(fuel, o, st, **left) == Some((s1, Ok::<SVal, SErr>(lvv))));
                }
                let rr = eval_expr(rt, right, Ghost(fuel));
                let ghost s2 = rt@;
                proof {
                    lemma_extends_trans(st, s1, s2);
                }
                match rr {
                    Err(x) => {
                        let r = Err(x);
                        assert forall|o: Oracle| agrees(o, s2) implies #[trigger] eval_binary(
                            fuel,
                            o,
                            st,
                            *e,
                        ) == Some((s2, result_view(r))) by {
                            lemma_agrees_prefix(o, s1, s2);
                            assert(eval(fuel, o, st, **left) == Some((s1, Ok::<SVal, SErr>(lvv))));
                            assert(eval(fuel, o, s1, **right) == Some((s2, result_view(rr))));
                        }
                        r
                    },
                    Ok(rv) => {
                        let ghost rvv = rv@;
                        proof {
                            lemma_oracle_of(s2);
                            let o = oracle_of(s2);
                            lemma_agrees_prefix(o, s1, s2);
                            lemma_agrees_prefix(o, st, s1);
                            assert(eval_binary(fuel, o, st, *e) is Some);
                            assert(eval(fuel, o, st, **left) == Some((s1, Ok::<SVal, SErr>(lvv))));
                            assert(eval(fuel, o, s1, **right) == Some((s2, Ok::<SVal, SErr>(rvv))));
                        }
                        let r = with_right_exec(span, op, lv, &rk, rv);
                        assert forall|o: Oracle| agrees(o, s2) implies #[trigger] eval_binary(
                            fuel,
                            o,
                            st,
                            *e,
                        ) == Some((s2, result_view(r))) by {
                            lemma_agrees_prefix(o, s1, s2);
                            assert(eval(fuel, o, st, **left) == Some((s1, Ok::<SVal, SErr>(lvv))));
                            assert(eval(fuel, o, s1, **right) == Some((s2, Ok::<SVal, SErr>(rvv))));
                        }
                        r
                    },
                }
            }
        },
        _ => vstd::pervasive::unreached(),
    }
}

/// Evaluates a member access.
fn eval_member_exec(rt: &mut Runtime, e: &ResolvedExpression, Ghost(fuel): Ghost<nat>) -> (r: Result<
    Value,
    RuntimeError,
>)
    requires
        e is MemberAccess,
        forall|o: Oracle| agrees(o, old(rt)@) ==> #[trigger] eval_member(fuel, o, old(rt)@, *e) is Some,
    ensures
        state_extends(old(rt)@, final(rt)@),
        r is Ok ==> stack_kept(old(rt)@, final(rt)@),
        forall|o: Oracle|
            agrees(o, final(rt)@) ==> #[trigger] eval_member(fuel, o, old(rt)@, *e) == Some(
                (final(rt)@, result_view(r)),
            ),
    decreases fuel, e, 1nat,
{
    let ghost st = rt@;
    match e {
        ResolvedExpression::MemberAccess { span, target, member, optional, chained } => {
            assert forall|o: Oracle| agrees(o, st) implies #[trigger] eval(fuel, o, st, **target)
                is Some by {
                assert(eval_member(fuel, o, st, *e) is Some);
            }
            let tr = eval_expr(rt, target, Ghost(fuel));
            let ghost s1 = rt@;
            let ghost trv = result_view(tr);
            let t = match tr {
                Err(x) => {
                    let r = Err(x);
                    assert forall|o: Oracle| agrees(o, s1) implies #[trigger] eval_member(
                        fuel,
                        o,
                        st,
                        *e,
                    ) == Some((s1, result_view(r))) by {
                        assert(eval(fuel, o, st, **target) == Some((s1, trv)));
                    }
                    return r;
                },
                Ok(t) => t,
            };
            let ghost tv = t@;
            let r = match t {
                Value::Object(id, _) => match rt.get_slot_value(id, member.id) {
                    Some(v) => Ok(v),
                    None => if *optional {
                        Ok(Value::Nil)
                    } else {
                        Err(member_error(*span, member.name.as_str(), id))
                    },
                },
                Value::Nil if *chained => Ok(Value::Nil),
                other => match rt.get_intrinsic_static_id(&other.kind()) {
                    None => Err(member_access_error(*span, &other, member)),
                    Some(id) => match rt.get_slot_value(id, member.id) {
                        Some(v) => Ok(v),
                        None => if *optional {
                            Ok(Value::Nil)
                        } else {
                            Err(member_error(*span, member.name.as_str(), id))
                        },
                    },
                },
            };
            assert forall|o: Oracle| agrees(o, s1) implies #[trigger] eval_member(fuel, o, st, *e)
                == Some((s1, result_view(r))) by {
                assert(eval(fuel, o, st, **target) == Some((s1, Ok::<SVal, SErr>(tv))));
            }
            r
        },
        _ => vstd::pervasive::unreached(),
    }
}

/// Evaluates an index access.
fn eval_index_exec(rt: &mut Runtime, e: &ResolvedExpression, Ghost(fuel): Ghost<nat>) -> (r: Result<
    Value,
    RuntimeError,
>)
    requires
        e is ArrayAccess,
        forall|o: Oracle| agrees(o, old(rt)@) ==> #[trigger] eval_index(fuel, o, old(rt)@, *e) is Some,
    ensures
        state_extends(old(rt)@, final(rt)@),
        r is Ok ==> stack_kept(old(rt)@, final(rt)@),
        forall|o: Oracle|
            agrees(o, final(rt)@) ==> #[trigger] eval_index(fuel, o, old(rt)@, *e) == Some(
                (final(rt)@, result_view(r)),
            ),
    decreases fuel, e, 1nat,
{
    let ghost st = rt@;
    match e {
        ResolvedExpression::ArrayAccess { span, target, index, optional, chained } => {
            assert forall|o: Oracle| agrees(o, st) implies #[trigger] eval(fuel, o, st, **target)
                is Some by {
                assert(eval_index(fuel, o, st, *e) is Some);
            }
            let tr = eval_expr(rt, target, Ghost(fuel));
            let ghost s1 = rt@;
            let ghost trv = result_view(tr);
            let t = match tr {
                Err(x) => {
                    let r = Err(x);
                    assert forall|o: Oracle| agrees(o, s1) implies #[trigger] eval_index(
                        fuel,
                        o,
                        st,
                        *e,
                    ) == Some((s1, result_view(r))) by {
                        assert(eval(fuel, o, st, **target) == Some((s1, trv)));
                    }
                    return r;
                },
                Ok(t) => t,
            };
            let ghost tv = t@;
            assert forall|o: Oracle| agrees(o, s1) implies #[trigger] eval(fuel, o, s1, **index)
                is Some by {
                lemma_agrees_prefix(o, st, s1);
                assert(eval_index(fuel, o, st, *e) is Some);
                assert(eval(fuel, o, st, **target) == Some((s1, Ok::<SVal, SErr>(tv))));
            }
            let ir = eval_expr(rt, index, Ghost(fuel));
            let ghost s2 = rt@;
            proof {
                lemma_extends_trans(st, s1, s2);
            }
            let i = match ir {
                Err(x) => {
                    let r = Err(x);
                    assert forall|o: Oracle| agrees(o, s2) implies #[trigger] eval_index(
                        fuel,
                        o,
                        st,
                        *e,
                    ) == Some((s2, result_view(r))) by {
                        lemma_agrees_prefix(o, s1, s2);
                        assert(eval(fuel, o, st, **target) == Some((s1, Ok::<SVal, SErr>(tv))));
                        assert(eval(fuel, o, s1, **index) == Some((s2, result_view(ir))));
                    }
                    return r;
                },
                Ok(i) => i,
            };
            let ghost iv = i@;
            proof {
                lemma_oracle_of(s2);
                let o = oracle_of(s2);
                lemma_agrees_prefix(o, s1, s2);
                lemma_agrees_prefix(o, st, s1);
                assert(eval_index(fuel, o, st, *e) is Some);
                assert(eval(fuel, o, st, **target) == Some((s1, Ok::<SVal, SErr>(tv))));
                assert(eval(fuel, o, s1, **index) == Some((s2, Ok::<SVal, SErr>(iv))));
            }
            let r = index_value(*span, &t, &i, *optional, *chained);
            assert forall|o: Oracle| agrees(o, s2) implies #[trigger] eval_index(fuel, o, st, *e)
                == Some((s2, result_view(r))) by {
                lemma_agrees_prefix(o, s1, s2);
                assert(eval(fuel, o, st, **target) == Some((s1, Ok::<SVal, SErr>(tv))));
                assert(eval(fuel, o, s1, **index) == Some((s2, Ok::<SVal, SErr>(iv))));
            }
            r
        },
        _ => vstd::pervasive::unreached(),
    }
}

/// The element an index access selects.
fn index_value(span: Span, t: &Value, i: &Value, optional: bool, chained: bool) -> (r: Result<
    Value,
    RuntimeError,
>)
    requires
        index_result(span, t@, i@, optional, chained) is Some,
    ensures
        index_result(span, t@, i@, optional, chained) == Some(result_view(r)),
{
    match (t, i) {
        (Value::Array(xs, _), Value::Number(n)) => {
            let x = n.int_value();
            let len = xs.len();
            assert(t@->Array_0.len() == xs@.len());
            let p: Option<usize> = if x < 0 {
                if -x <= len as i128 {
                    Some(len - ((-x) as usize))
                } else {
                    None
                }
            } else if x < len as i128 {
                Some(x as usize)
            } else {
                None
            };
            match p {
                Some(p) => {
                    assert(t@->Array_0[p as int] == xs@[p as int]@);
                    Ok(xs[p].duplicate())
                },
                None => if optional {
                    Ok(Value::Nil)
                } else {
                    Err(array_bounds_error(span, x, len))
                },
            }
        },
        (Value::String(s), Value::Number(n)) => {
            let x = n.int_value();
            let len = s.as_str().unicode_len();
            if x < len as i128 {
                let c = s.as_str().get_char(x as usize);
                Ok(Value::String(char_string(c)))
            } else if optional {
                Ok(Value::Nil)
            } else {
                let mut index = String::new();
                push_number_text(&mut index, *n);
                Err(bounds_error(span, index, (len - 1) as i128))
            }
        },
        (Value::Range(start, end, by, inclusive, _), Value::Number(n)) => {
            let a = start.int_value();
            let b = end.int_value();
            let c = by.int_value();
            let x = n.int_value();
            let num = a + c * x;
            if (*inclusive && num >= b) || num > b {
                let mut index = String::new();
                push_int(&mut index, x);
                Err(bounds_error(span, index, b))
            } else {
                Ok(Value::Number(Number::Int32(num as i32)))
            }
        },
        (Value::Nil, _) if chained => Ok(Value::Nil),
        _ => Err(two_values_error(span, "Array access not permitted for ", t, ".", i)),
    }
}

/// Evaluates an expression as a place, the target of an assignment.
pub fn eval_place_exec(rt: &mut Runtime, e: &ResolvedExpression, Ghost(fuel): Ghost<nat>) -> (r: Result<
    Value,
    RuntimeError,
>)
    requires
        forall|o: Oracle| agrees(o, old(rt)@) ==> #[trigger] eval_place(fuel, o, old(rt)@, *e) is Some,
    ensures
        state_extends(old(rt)@, final(rt)@),
        r is Ok ==> stack_kept(old(rt)@, final(rt)@),
        forall|o: Oracle|
            agrees(o, final(rt)@) ==> #[trigger] eval_place(fuel, o, old(rt)@, *e) == Some(
                (final(rt)@, result_view(r)),
            ),
    decreases fuel, e, 3nat,
{
    let ghost st = rt@;
    proof {
        lemma_oracle_of(st);
    }
    match e {
        ResolvedExpression::MemberAccess { span, target, member, chained, .. } => {
            assert forall|o: Oracle| agrees(o, st) implies #[trigger] eval(fuel, o, st, **target)
                is Some by {
                assert(eval_place(fuel, o, st, *e) is Some);
            }
            let tr = eval_expr(rt, target, Ghost(fuel));
            let ghost s1 = rt@;
            let r = match tr {
                Err(x) => Err(x),
                Ok(Value::Object(id, k)) => Ok(Value::Pointer(id, member.id, k)),
                Ok(Value::Nil) if *chained => Ok(Value::Nil),
                Ok(other) => Err(member_access_error(*span, &other, member)),
            };
            assert forall|o: Oracle| agrees(o, s1) implies #[trigger] eval_place(fuel, o, st, *e)
                == Some((s1, result_view(r))) by {
                assert(eval(fuel, o, st, **target) == Some((s1, result_view(tr))));
            }
            r
        },
        ResolvedExpression::ArrayAccess { span, target, index, chained, .. } => {
            assert forall|o: Oracle| agrees(o, st) implies #[trigger] eval_place(
                fuel,
                o,
                st,
                **target,
            ) is Some by {
                assert(eval_place(fuel, o, st, *e) is Some);
            }
            let tr = eval_place_exec(rt, target, Ghost(fuel));
            let ghost s1 = rt@;
            let ghost trv = result_view(tr);
            let t = match tr {
                Err(x) => {
                    let r = Err(x);
                    assert forall|o: Oracle| agrees(o, s1) implies #[trigger] eval_place(
                        fuel,
                        o,
                        st,
                        *e,
                    ) == Some((s1, result_view(r))) by {
                        assert(eval_place(fuel, o, st, **target) == Some((s1, trv)));
                    }
                    return r;
                },
                Ok(t) => t,
            };
            let ghost tv = t@;
            let tk = t.kind();
            let kinds: Option<(ValueKind, ValueKind)> = match tk {
                ValueKind::Array(k) => Some((ValueKind::Number(NumKind::Any), *k)),
                ValueKind::Dict(a, b) => Some((*a, *b)),
                _ => None,
            };
            let is_nil = match t.kind() {
                ValueKind::Nil => true,
                _ => false,
            };
            match kinds {
                None => {
                    let r = if is_nil && *chained {
                        Ok(Value::Nil)
                    } else {
                        Err(kind_error(*span, "Array access not permitted for ", &t.kind()))
                    };
                    assert forall|o: Oracle| agrees(o, s1) implies #[trigger] eval_place(
                        fuel,
                        o,
                        st,
                        *e,
                    ) == Some((s1, result_view(r))) by {
                        assert(eval_place(fuel, o, st, **target) == Some(
                            (s1, Ok::<SVal, SErr>(tv)),
                        ));
                    }
                    r
                },
                Some((access_kind, value_kind)) => {
                    let ghost ak = access_kind@;
                    let ghost vk = value_kind@;
                    assert forall|o: Oracle| agrees(o, s1) implies #[trigger] eval(
                        fuel,
                        o,
                        s1,
                        **index,
                    ) is Some by {
                        lemma_agrees_prefix(o, st, s1);
                        assert(eval_place(fuel, o, st, *e) is Some);
                        assert(eval_place(fuel, o, st, **target) == Some(
                            (s1, Ok::<SVal, SErr>(tv)),
                        ));
                    }
                    let ar = eval_expr(rt, index, Ghost(fuel));
                    let ghost s2 = rt@;
                    proof {
                        lemma_extends_trans(st, s1, s2);
                    }
                    let r = match ar {
                        Err(x) => Err(x),
                        Ok(a) => {
                            if !a.kind().is_assignable_from(&access_kind) {
                                Err(
                                    RuntimeError::TypeMismatch {
                                        span: *span,
                                        found: a,
                                        expected: access_kind,
                                    },
                                )
                            } else {
                                Ok(Value::Element(Box::new(t), Box::new(a), value_kind))
                            }
                        },
                    };
                    assert forall|o: Oracle| agrees(o, s2) implies #[trigger] eval_place(
                        fuel,
                        o,
                        st,
                        *e,
                    ) == Some((s2, result_view(r))) by {
                        lemma_agrees_prefix(o, s1, s2);
                        assert(eval_place(fuel, o, st, **target) == Some(
                            (s1, Ok::<SVal, SErr>(tv)),
                        ));
                        assert(eval(fuel, o, s1, **index) == Some((s2, result_view(ar))));
                    }
                    r
                },
            }
        },
        ResolvedExpression::Variable(_, Symbol::Local(info)) => match rt.get_local(info.id) {
            Some(v) => {
                let r = Ok(Value::Local(info.id, v.kind()));
                assert forall|o: Oracle| agrees(o, rt@) implies #[trigger] eval_place(
                    fuel,
                    o,
                    st,
                    *e,
                ) == Some((rt@, result_view(r))) by {}
                r
            },
            None => {
                assert(eval_place(fuel, oracle_of(st), st, *e) is Some);
                vstd::pervasive::unreached()
            },
        },
        _ => {
            assert forall|o: Oracle| agrees(o, st) implies #[trigger] eval(fuel, o, st, *e)
                is Some by {
                assert(eval_place(fuel, o, st, *e) is Some);
            }
            let r = eval_expr(rt, e, Ghost(fuel));
            assert forall|o: Oracle| agrees(o, rt@) implies #[trigger] eval_place(
                fuel,
                o,
                st,
                *e,
            ) == Some((rt@, result_view(r))) by {
                assert(eval(fuel, o, st, *e) == Some((rt@, result_view(r))));
            }
            r
        },
    }
}

} // verus!

//! Properties that hold of every program and every state: what a read gives
//! back after a write, what collection literals guarantee, how a program ends.
use vstd::prelude::*;
use crate::executor::{SErr, SFlow};
use crate::intrinsic::{Intrinsic, intrinsic_call, intrinsic_named};
use crate::model::{
    AzimuthId, LocalId, LocalInfo, Symbol, ResolvedFunctionBody, SFunc, SParam, NumKind, Number, ObjectId, ResolvedAttachment, ResolvedExpression,
    ResolvedShapeExpression, ResolvedStatement, SKind, SVal, Span,
};
use crate::runtime::{
    RtState, local_index, st_deref_locals, st_ref_local, st_ref_obj, SFrame, local_value, set_slot, slot_index, slot_value, st_deref_local,
    st_reserve_local, st_set_slot,
};
use crate::semantics::{
    Oracle, bind_params, convert, enter_call, invoke, ref_locals, state_extends, unbind_params,
    create_range_spec, dedup, dict_insert_all, eval, eval_place, exec_stmt, first_key, run_program,
};
use crate::value::{fits, num_int, num_kind, same_value};

verus! {

proof fn lemma_local_index_facts(ls: Seq<crate::runtime::SLocal>, id: LocalId)
    ensures
        -1 <= local_index(ls, id) < ls.len(),
        local_index(ls, id) >= 0 ==> ls[local_index(ls, id)].id == id,
        local_index(ls, id) < 0 ==> forall|j: int| 0 <= j < ls.len() ==> ls[j].id != id,
        local_index(ls, id) >= 0 ==> forall|j: int|
            local_index(ls, id) < j < ls.len() ==> ls[j].id != id,
    decreases ls.len(),
{
    if ls.len() > 0 {
        lemma_local_index_facts(ls.drop_last(), id);
        assert(forall|j: int| 0 <= j < ls.len() - 1 ==> ls.drop_last()[j] == ls[j]);
    }
}

proof fn lemma_local_index_update(ls: Seq<crate::runtime::SLocal>, i: int, x: crate::runtime::SLocal, id: LocalId)
    requires
        0 <= i < ls.len(),
        x.id == ls[i].id,
    ensures
        local_index(ls.update(i, x), id) == local_index(ls, id),
    decreases ls.len(),
{
    if ls.len() > 0 {
        if i < ls.len() - 1 {
            assert(ls.update(i, x).drop_last() =~= ls.drop_last().update(i, x));
            lemma_local_index_update(ls.drop_last(), i, x, id);
        } else {
            assert(ls.update(i, x).drop_last() =~= ls.drop_last());
        }
    }
}

proof fn lemma_slot_index_facts(ss: Seq<(AzimuthId, SVal)>, az: AzimuthId)
    ensures
        -1 <= slot_index(ss, az) < ss.len(),
        slot_index(ss, az) >= 0 ==> ss[slot_index(ss, az)].0 == az,
        slot_index(ss, az) < 0 ==> forall|j: int| 0 <= j < ss.len() ==> ss[j].0 != az,
        slot_index(ss, az) >= 0 ==> forall|j: int|
            slot_index(ss, az) < j < ss.len() ==> ss[j].0 != az,
    decreases ss.len(),
{
    if ss.len() > 0 {
        lemma_slot_index_facts(ss.drop_last(), az);
        assert(forall|j: int| 0 <= j < ss.len() - 1 ==> ss.drop_last()[j] == ss[j]);
    }
}

proof fn lemma_slot_index_update(ss: Seq<(AzimuthId, SVal)>, i: int, x: (AzimuthId, SVal), az: AzimuthId)
    requires
        0 <= i < ss.len(),
        x.0 == ss[i].0,
    ensures
        slot_index(ss.update(i, x), az) == slot_index(ss, az),
    decreases ss.len(),
{
    if ss.len() > 0 {
        if i < ss.len() - 1 {
            assert(ss.update(i, x).drop_last() =~= ss.drop_last().update(i, x));
            lemma_slot_index_update(ss.drop_last(), i, x, az);
        } else {
            assert(ss.update(i, x).drop_last() =~= ss.drop_last());
        }
    }
}

proof fn lemma_slot_index_push(ss: Seq<(AzimuthId, SVal)>, x: (AzimuthId, SVal), az: AzimuthId)
    ensures
        slot_index(ss.push(x), az) == if x.0 == az {
            ss.len() as int
        } else {
            slot_index(ss, az)
        },
{
    assert(ss.push(x).drop_last() =~= ss);
}

/// Reading a local right after binding it gives the bound value.
pub proof fn law_local_read_after_write(st: RtState, id: LocalId, v: SVal)
    ensures
        local_value(st_reserve_local(st, id, v), id) == Some(v),
{
    let i = local_index(st.locals, id);
    lemma_local_index_facts(st.locals, id);
    if i >= 0 {
        let x = crate::runtime::SLocal { id, value: v, refs: st.locals[i].refs };
        lemma_local_index_update(st.locals, i, x, id);
    } else {
        let ls = st.locals.push(crate::runtime::SLocal { id, value: v, refs: 1 });
        assert(ls.drop_last() =~= st.locals);
    }
}

/// Binding a local leaves every other local as it was.
pub proof fn law_local_write_other(st: RtState, id: LocalId, v: SVal, other: LocalId)
    requires
        other != id,
    ensures
        local_value(st_reserve_local(st, id, v), other) == local_value(st, other),
{
    let i = local_index(st.locals, id);
    lemma_local_index_facts(st.locals, id);
    lemma_local_index_facts(st.locals, other);
    let j = local_index(st.locals, other);
    if i >= 0 {
        let x = crate::runtime::SLocal { id, value: v, refs: st.locals[i].refs };
        lemma_local_index_update(st.locals, i, x, other);
        if j >= 0 {
            assert(j != i);
            assert(st.locals.update(i, x)[j] == st.locals[j]);
        }
    } else {
        let ls = st.locals.push(crate::runtime::SLocal { id, value: v, refs: 1 });
        assert(ls.drop_last() =~= st.locals);
        assert(local_index(ls, other) == j);
        if j >= 0 {
            assert(ls[j] == st.locals[j]);
        }
    }
}

/// After `let` binds a local to the value of an expression, reading the local
/// gives that value.
pub proof fn law_declared_local_reads_back(
    fuel: nat,
    o: Oracle,
    st: RtState,
    s1: RtState,
    v: SVal,
    span: Span,
    info: LocalInfo,
    value: ResolvedExpression,
    read_span: Span,
    read: LocalInfo,
)
    requires
        eval(fuel, o, st, value) == Some((s1, Ok::<SVal, SErr>(v))),
        read.id == info.id,
    ensures
        exec_stmt(fuel, o, st, ResolvedStatement::DeclareLocal { span, info, value }) matches Some(
            (s2, Ok(_)),
        ) && eval(fuel, o, s2, ResolvedExpression::Variable(read_span, Symbol::Local(read)))
            == Some((s2, Ok::<SVal, SErr>(v))),
{
    law_local_read_after_write(s1, info.id, v);
}

/// After an assignment to a local succeeds, reading the local gives the
/// assigned value.
pub proof fn law_assigned_local_reads_back(
    fuel: nat,
    o: Oracle,
    st: RtState,
    s1: RtState,
    s2: RtState,
    v: SVal,
    span: Span,
    target: ResolvedExpression,
    value: ResolvedExpression,
    id: LocalId,
    k: SKind,
    read_span: Span,
    read: LocalInfo,
)
    requires
        eval(fuel, o, st, value) == Some((s1, Ok::<SVal, SErr>(v))),
        eval_place(fuel, o, s1, target) == Some((s2, Ok::<SVal, SErr>(SVal::Local(id, k)))),
        read.id == id,
    ensures
        exec_stmt(fuel, o, st, ResolvedStatement::Assign { span, target, value }) matches Some(
            (s3, Ok(_)),
        ) && eval(fuel, o, s3, ResolvedExpression::Variable(read_span, Symbol::Local(read)))
            == Some((s3, Ok::<SVal, SErr>(v))),
{
    law_local_read_after_write(s2, id, v);
}

/// After an assignment to a slot of an existing object succeeds, the slot
/// holds the assigned value.
pub proof fn law_assigned_slot_reads_back(
    fuel: nat,
    o: Oracle,
    st: RtState,
    s1: RtState,
    s2: RtState,
    v: SVal,
    span: Span,
    target: ResolvedExpression,
    value: ResolvedExpression,
    id: ObjectId,
    az: AzimuthId,
    k: SKind,
)
    requires
        eval(fuel, o, st, value) == Some((s1, Ok::<SVal, SErr>(v))),
        eval_place(fuel, o, s1, target) == Some((s2, Ok::<SVal, SErr>(SVal::Pointer(id, az, k)))),
        id < s2.objects.len(),
    ensures
        exec_stmt(fuel, o, st, ResolvedStatement::Assign { span, target, value }) matches Some(
            (s3, Ok(_)),
        ) && slot_value(s3, id, az) == Some(v),
{
    law_slot_read_after_write(s2, id, az, v);
}

/// Binding a local that did not exist and then releasing it gives back the
/// state it started from.
pub proof fn law_fresh_local_released(st: RtState, id: LocalId, v: SVal)
    requires
        local_value(st, id) is None,
    ensures
        st_deref_local(st_reserve_local(st, id, v), id) == st,
{
    let ls = st.locals.push(crate::runtime::SLocal { id, value: v, refs: 1 });
    assert(ls.drop_last() =~= st.locals);
    assert(local_index(ls, id) == st.locals.len());
    assert(ls.remove(st.locals.len() as int) =~= st.locals);
}

/// Reading a slot of an existing object right after setting it gives the
/// value set.
pub proof fn law_slot_read_after_write(st: RtState, id: ObjectId, az: AzimuthId, v: SVal)
    requires
        id < st.objects.len(),
    ensures
        slot_value(st_set_slot(st, id, az, v), id, az) == Some(v),
{
    let ss = st.objects[id as int].slots;
    lemma_slot_index_facts(ss, az);
    let i = slot_index(ss, az);
    if i >= 0 {
        lemma_slot_index_update(ss, i, (az, v), az);
    } else {
        lemma_slot_index_push(ss, (az, v), az);
    }
}

/// Setting a slot leaves every other slot, of this object and of every other
/// object, as it was.
pub proof fn law_slot_write_other(
    st: RtState,
    id: ObjectId,
    az: AzimuthId,
    v: SVal,
    other: ObjectId,
    other_az: AzimuthId,
)
    requires
        id < st.objects.len(),
        other != id || other_az != az,
    ensures
        slot_value(st_set_slot(st, id, az, v), other, other_az) == slot_value(st, other, other_az),
{
    if other == id {
        let ss = st.objects[id as int].slots;
        lemma_slot_index_facts(ss, az);
        lemma_slot_index_facts(ss, other_az);
        let i = slot_index(ss, az);
        if i >= 0 {
            lemma_slot_index_update(ss, i, (az, v), other_az);
            let j = slot_index(ss, other_az);
            if j >= 0 {
                assert(j != i);
            }
        } else {
            lemma_slot_index_push(ss, (az, v), other_az);
        }
    }
}

/// No two elements of a set literal are equal.
pub proof fn law_set_literal_distinct(vs: Seq<SVal>)
    ensures
        forall|i: int, j: int|
            0 <= i < j < dedup(vs).len() ==> !same_value(#[trigger] dedup(vs)[i], #[trigger] dedup(vs)[j]),
    decreases vs.len(),
{
    if vs.len() > 0 {
        let init = vs.drop_last();
        let rest = dedup(init);
        law_set_literal_distinct(init);
        let d = dedup(vs);
        assert forall|i: int, j: int| 0 <= i < j < d.len() implies !same_value(
            #[trigger] d[i],
            #[trigger] d[j],
        ) by {
            assert(d[i] == rest[i]);
            if j < rest.len() {
                assert(d[j] == rest[j]);
                assert(!same_value(rest[i], rest[j]));
            } else {
                assert(!(exists|k: int| 0 <= k < rest.len() && same_value(rest[k], vs.last())));
                assert(d[j] == vs.last());
                if same_value(rest[i], vs.last()) {
                    assert(0 <= i < rest.len() && same_value(rest[i], vs.last()));
                }
            }
        }
    }
}

/// Every element of a set literal is one of the values it was written with,
/// and every value it was written with equals one of its elements.
pub proof fn law_set_literal_elements(vs: Seq<SVal>)
    ensures
        forall|i: int| 0 <= i < dedup(vs).len() ==> vs.contains(#[trigger] dedup(vs)[i]),
        forall|j: int|
            0 <= j < vs.len() ==> (exists|i: int|
                0 <= i < dedup(vs).len() && (dedup(vs)[i] == vs[j] || same_value(
                    dedup(vs)[i],
                    #[trigger] vs[j],
                ))),
    decreases vs.len(),
{
    if vs.len() > 0 {
        let init = vs.drop_last();
        law_set_literal_elements(init);
        let rest = dedup(init);
        assert forall|i: int| 0 <= i < dedup(vs).len() implies vs.contains(#[trigger] dedup(vs)[i]) by {
            if i < rest.len() {
                let k = choose|k: int| 0 <= k < init.len() && init[k] == rest[i];
                assert(vs[k] == rest[i]);
            } else {
                assert(vs[vs.len() - 1] == dedup(vs)[i]);
            }
        }
        assert forall|j: int| 0 <= j < vs.len() implies (exists|i: int|
            0 <= i < dedup(vs).len() && (dedup(vs)[i] == vs[j] || same_value(
                dedup(vs)[i],
                #[trigger] vs[j],
            ))) by {
            if j < init.len() {
                assert(init[j] == vs[j]);
                let i = choose|i: int|
                    0 <= i < rest.len() && (rest[i] == init[j] || same_value(rest[i], init[j]));
                assert(dedup(vs)[i] == rest[i]);
            } else if exists|i: int| 0 <= i < rest.len() && same_value(rest[i], vs.last()) {
                let i = choose|i: int| 0 <= i < rest.len() && same_value(rest[i], vs.last());
                assert(dedup(vs)[i] == rest[i]);
            } else {
                assert(dedup(vs)[rest.len() as int] == vs[j]);
            }
        }
    }
}

/// No two keys of a dictionary literal are equal.
pub proof fn law_dict_literal_keys_distinct(es: Seq<(SVal, SVal)>)
    ensures
        forall|i: int, j: int|
            0 <= i < j < dict_insert_all(es).len() ==> !same_value(
                #[trigger] dict_insert_all(es)[i].0,
                #[trigger] dict_insert_all(es)[j].0,
            ),
    decreases es.len(),
{
    if es.len() > 0 {
        let rest = dict_insert_all(es.drop_last());
        let k = es.last().0;
        law_dict_literal_keys_distinct(es.drop_last());
        if exists|i: int| first_key(rest, k, i) {
            let m = choose|i: int| first_key(rest, k, i);
            let d = dict_insert_all(es);
            assert(d == rest.update(m, (rest[m].0, es.last().1)));
            assert forall|i: int, j: int| 0 <= i < j < d.len() implies !same_value(
                #[trigger] d[i].0,
                #[trigger] d[j].0,
            ) by {
                assert(d[i].0 == rest[i].0);
                assert(d[j].0 == rest[j].0);
            }
        } else {
            let d = dict_insert_all(es);
            assert forall|i: int| 0 <= i < rest.len() implies !same_value(#[trigger] rest[i].0, k) by {
                if same_value(rest[i].0, k) {
                    if forall|j: int| 0 <= j < i ==> !same_value(#[trigger] rest[j].0, k) {
                        assert(first_key(rest, k, i));
                    } else {
                        let m = choose|j: int| 0 <= j < i && same_value(#[trigger] rest[j].0, k);
                        lemma_first_below(rest, k, m);
                    }
                }
            }
        }
    }
}

/// Below any position whose key equals `k` there is a first one.
proof fn lemma_first_below(es: Seq<(SVal, SVal)>, k: SVal, m: int)
    requires
        0 <= m < es.len(),
        same_value(es[m].0, k),
    ensures
        exists|i: int| first_key(es, k, i),
    decreases m,
{
    if forall|j: int| 0 <= j < m ==> !same_value(#[trigger] es[j].0, k) {
        assert(first_key(es, k, m));
    } else {
        let j = choose|j: int| 0 <= j < m && same_value(#[trigger] es[j].0, k);
        lemma_first_below(es, k, j);
    }
}

/// A range steps by 1 or by -1; a range of a signed kind steps by -1 exactly
/// when its start lies above its end.
pub proof fn law_range_step(from: Number, to: Number, inclusive: bool)
    ensures
        create_range_spec(from, to, inclusive) is Range,
        num_int(create_range_spec(from, to, inclusive)->Range_2) == 1 || num_int(
            create_range_spec(from, to, inclusive)->Range_2,
        ) == -1,
        (num_kind(from) is Int8 || num_kind(from) is Int16 || num_kind(from) is Int32 || num_kind(
            from,
        ) is Int64) && fits(NumKind::Int64, num_int(to)) ==> (num_int(
            create_range_spec(from, to, inclusive)->Range_2,
        ) == -1 <==> num_int(from) > num_int(to)),
{
}

/// A program that completes without an error ends with a normal flow: a
/// `break`, `continue` or `return` that reaches the top level, and an error
/// thrown and not caught, end it with an error.
pub proof fn law_program_ends_normally(
    fuel: nat,
    o: Oracle,
    st: RtState,
    ss: Seq<ResolvedStatement>,
)
    ensures
        run_program(fuel, o, st, ss) matches Some((_, Ok(flow))) ==> flow is Normal,
    decreases ss.len(),
{
    if ss.len() > 0 {
        match exec_stmt(fuel, o, st, ss[0]) {
            Some((s1, Ok(SFlow::Normal(_)))) => law_program_ends_normally(
                fuel,
                o,
                s1,
                ss.drop_first(),
            ),
            Some((s1, Ok(SFlow::Declare(_, _)))) => law_program_ends_normally(
                fuel,
                o,
                s1,
                ss.drop_first(),
            ),
            _ => {},
        }
    }
}

/// Attaching a shape to, detaching a shape from, or remapping a slot of a
/// sealed object changes nothing: the state is the one evaluating the object
/// left.
pub proof fn law_sealed_object_unchanged(
    fuel: nat,
    o: Oracle,
    st: RtState,
    s: ResolvedStatement,
    s1: RtState,
    id: ObjectId,
    k: SKind,
)
    requires
        s is Attach || s is AddMapping || (s matches ResolvedStatement::Detach { shape, .. }
            && shape.kind@ is Shape),
        eval(fuel, o, st, crate::exec::stmt_expr(s)) == Some(
            (s1, Ok::<SVal, SErr>(SVal::Object(id, k))),
        ),
        id < s1.objects.len(),
        s1.objects[id as int].sealed,
    ensures
        exec_stmt(fuel, o, st, s) matches Some((s2, Ok(SFlow::Normal(_)))) && s2 == s1,
{
}

/// A `try` without a `catch` never fails: an error of its body ends it
/// normally, in the state the body left.
pub proof fn law_try_without_catch_never_fails(
    fuel: nat,
    o: Oracle,
    st: RtState,
    span: Span,
    body: ResolvedStatement,
)
    ensures
        exec_stmt(
            fuel,
            o,
            st,
            ResolvedStatement::Try { span, try_statement: Box::new(body), catch_statement: None },
        ) matches Some((_, r)) ==> r is Ok,
{
}

proof fn lemma_bind_params_stack(st: RtState, inputs: Seq<SParam>, params: Seq<SVal>)
    ensures
        bind_params(st, inputs, params).call_stack == st.call_stack,
    decreases inputs.len(),
{
    if inputs.len() > 0 && params.len() > 0 {
        let s1 = match inputs[0].local {
            Some(id) => st_reserve_local(st, id, params[0]),
            None => st,
        };
        lemma_bind_params_stack(s1, inputs.drop_first(), params.drop_first());
    }
}

proof fn lemma_ref_locals_stack(st: RtState, ids: Seq<LocalId>)
    ensures
        ref_locals(st, ids).call_stack == st.call_stack,
    decreases ids.len(),
{
    if ids.len() > 0 {
        lemma_ref_locals_stack(st_ref_local(st, ids[0]), ids.drop_first());
    }
}

proof fn lemma_unbind_params_stack(st: RtState, inputs: Seq<SParam>)
    ensures
        unbind_params(st, inputs).call_stack == st.call_stack,
    decreases inputs.len(),
{
    if inputs.len() > 0 {
        let s1 = match inputs[0].local {
            Some(id) => st_deref_local(st, id),
            None => st,
        };
        lemma_unbind_params_stack(s1, inputs.drop_first());
    }
}

proof fn lemma_deref_locals_stack(st: RtState, ids: Seq<LocalId>)
    ensures
        st_deref_locals(st, ids).call_stack == st.call_stack,
    decreases ids.len(),
{
    if ids.len() > 0 {
        lemma_deref_locals_stack(st_deref_local(st, ids[0]), ids.drop_first());
    }
}

/// A call of a script function pops exactly the frame it pushed: when the body
/// ends normally or returns and leaves the call stack as it found it, a call
/// that succeeds leaves the call stack as it was before the call, and its
/// result is the returned value converted to the output kind (`Nil` when the
/// body ends without returning).
pub proof fn law_call_restores_stack(
    fuel: nat,
    o: Oracle,
    st: RtState,
    span: Span,
    f: SFunc,
    params: Seq<SVal>,
    w: Seq<ResolvedExpression>,
    body: ResolvedStatement,
    s1: RtState,
    s2: RtState,
    flow: SFlow,
)
    requires
        f.body == Some(ResolvedFunctionBody::Script(body)),
        fuel > 0,
        enter_call(st, f, params, span) == Some(s1),
        exec_stmt((fuel - 1) as nat, o, s1, body) == Some((s2, Ok::<SFlow, SErr>(flow))),
        s2.call_stack == s1.call_stack,
    ensures
        invoke(fuel, o, st, span, f, params, w) matches Some((s3, Ok(v))) ==> s3.call_stack
            == st.call_stack && match flow {
            SFlow::Return(_, x) => convert(x, f.output) == Some(v),
            _ => v == SVal::Nil,
        },
{
    let b = bind_params(st, f.inputs, params);
    lemma_bind_params_stack(st, f.inputs, params);
    lemma_ref_locals_stack(b, f.captures);
    assert(s1.call_stack == st.call_stack.push(SFrame { id: f.id, span, arguments: params }));
    assert(s2.call_stack.drop_last() =~= st.call_stack);
    match flow {
        SFlow::Return(_, x) => {
            let t = match x {
                SVal::Object(id, _) => st_ref_obj(s2, id),
                _ => s2,
            };
            lemma_unbind_params_stack(t, f.inputs);
            lemma_deref_locals_stack(unbind_params(t, f.inputs), f.captures);
        },
        SFlow::Normal(_) => {
            lemma_unbind_params_stack(s2, f.inputs);
        },
        _ => {},
    }
}

/// Once an object is sealed it stays sealed in every later state of a run,
/// so every later attachment, detachment or slot mapping on it ends normally
/// and changes nothing.
pub proof fn law_seal_persists(
    fuel: nat,
    o: Oracle,
    earlier: RtState,
    st: RtState,
    s: ResolvedStatement,
    s1: RtState,
    id: ObjectId,
    k: SKind,
)
    requires
        id < earlier.objects.len(),
        earlier.objects[id as int].sealed,
        state_extends(earlier, s1),
        s is Attach || s is AddMapping || (s matches ResolvedStatement::Detach { shape, .. }
            && shape.kind@ is Shape),
        eval(fuel, o, st, crate::exec::stmt_expr(s)) == Some(
            (s1, Ok::<SVal, SErr>(SVal::Object(id, k))),
        ),
    ensures
        s1.objects[id as int].sealed,
        exec_stmt(fuel, o, st, s) matches Some((s2, Ok(SFlow::Normal(_)))) && s2 == s1,
{
    law_sealed_object_unchanged(fuel, o, st, s, s1, id, k);
}

/// Evaluating as a place anything but a member, an element or a local is
/// evaluating it: same result, same state.
pub proof fn law_place_is_value(fuel: nat, o: Oracle, st: RtState, e: ResolvedExpression)
    requires
        !(e is MemberAccess),
        !(e is ArrayAccess),
        !(e matches ResolvedExpression::Variable(_, Symbol::Local(_))),
    ensures
        eval_place(fuel, o, st, e) == eval(fuel, o, st, e),
{
}

/// The names of the operations that are not implemented resolve to the stub,
/// and calling it fails with "TODO" and changes nothing.
pub proof fn law_stub_names_fail(o: Oracle, st: RtState, name: Seq<char>, span: Span, args: Seq<SVal>)
    requires
        name == "Array::Get"@ || name == "Set::Add"@ || name == "Set::Remove"@ || name
            == "Dict::Set"@ || name == "Dict::Remove"@,
    ensures
        intrinsic_named(name) == Some(Intrinsic::Todo),
        intrinsic_call(o, st, Intrinsic::Todo, span, args) == Some(
            (st, Err::<SVal, SErr>(SErr::Error { span, message: "TODO"@ })),
        ),
{
    reveal(intrinsic_call);
    reveal_strlit("Array::Get");
    reveal_strlit("Set::Add");
    reveal_strlit("Set::Remove");
    reveal_strlit("Dict::Set");
    reveal_strlit("Dict::Remove");
    reveal_strlit("Array::Append");
    reveal_strlit("Array::Add");
    reveal_strlit("Array::Remove");
    reveal_strlit("Set::ToArray");
    reveal_strlit("Set::Contains");
    reveal_strlit("Dict::Keys");
    reveal_strlit("Dict::Values");
    if name == "Array::Get"@ {
        assert(name.len() != "Array::Append"@.len());
        assert(name[7] != "Array::Add"@[7]);
        assert(name.len() != "Array::Remove"@.len());
    }
    if name == "Set::Add"@ {
        assert(name.len() != "Array::Append"@.len());
        assert(name.len() != "Array::Add"@.len());
        assert(name.len() != "Array::Remove"@.len());
        assert(name.len() != "Array::Get"@.len());
        assert(name.len() != "Set::ToArray"@.len());
    }
    if name == "Set::Remove"@ {
        assert(name.len() != "Array::Append"@.len());
        assert(name.len() != "Array::Add"@.len());
        assert(name.len() != "Array::Remove"@.len());
        assert(name.len() != "Array::Get"@.len());
        assert(name.len() != "Set::ToArray"@.len());
        assert(name.len() != "Set::Add"@.len());
    }
    if name == "Dict::Set"@ {
        assert(name.len() != "Array::Append"@.len());
        assert(name.len() != "Array::Add"@.len());
        assert(name.len() != "Array::Remove"@.len());
        assert(name.len() != "Array::Get"@.len());
        assert(name.len() != "Set::ToArray"@.len());
        assert(name.len() != "Set::Add"@.len());
        assert(name.len() != "Set::Remove"@.len());
        assert(name.len() != "Set::Contains"@.len());
        assert(name.len() != "Dict::Keys"@.len());
        assert(name.len() != "Dict::Values"@.len());
    }
    if name == "Dict::Remove"@ {
        assert(name.len() != "Array::Append"@.len());
        assert(name.len() != "Array::Add"@.len());
        assert(name.len() != "Array::Remove"@.len());
        assert(name.len() != "Array::Get"@.len());
        assert(name[0] != "Set::ToArray"@[0]);
        assert(name.len() != "Set::Add"@.len());
        assert(name.len() != "Set::Remove"@.len());
        assert(name.len() != "Set::Contains"@.len());
        assert(name.len() != "Dict::Keys"@.len());
        assert(name[6] != "Dict::Values"@[6]);
        assert(name.len() != "Dict::Set"@.len());
    }
}

/// `Range::Create` and `Range::CreateExclusive` differ only in whether the end
/// is included: on the same arguments both succeed with the same start, end
/// and step, or both fail with the same error.
pub proof fn law_range_create_inclusive_exclusive(o: Oracle, st: RtState, span: Span, args: Seq<SVal>)
    ensures
        match (
            intrinsic_call(o, st, Intrinsic::RangeCreate, span, args),
            intrinsic_call(o, st, Intrinsic::RangeCreateExclusive, span, args),
        ) {
            (None, None) => true,
            (Some((s1, Ok(SVal::Range(a, b, c, true, k)))), Some((s2, Ok(SVal::Range(a2, b2, c2, false, k2))))) =>
                s1 == st && s2 == st && a == a2 && b == b2 && c == c2 && k == k2,
            (Some((s1, Err(e1))), Some((s2, Err(e2)))) => s1 == st && s2 == st && e1 == e2,
            _ => false,
        },
{
    reveal(intrinsic_call);
}

/// `Range` gives a number between its two arguments, both included.
pub proof fn law_random_range_bounds(o: Oracle, st: RtState, span: Span, from: i32, to: i32)
    requires
        from <= to,
    ensures
        intrinsic_call(
            o,
            st,
            Intrinsic::RandomRange,
            span,
            seq![SVal::Number(Number::Int32(from)), SVal::Number(Number::Int32(to))],
        ) matches Some((_, Ok(SVal::Number(Number::Int32(r))))) && from <= r <= to,
{
    reveal(intrinsic_call);
}

} // verus!

//! Execution of statements, proved against [`crate::semantics`] in the
//! same way as [`crate::eval`].
use vstd::prelude::*;
use crate::describe::{
    attach_error, detach_error, mapping_error, two_values_error, value_error, value_first_error,
};
use crate::eval::{eval_expr, eval_place_exec};
use crate::executor::{ExecFlow, RuntimeError, SErr, SFlow, error, flow_view, result_view};
use crate::model::{
    LocalId, NumKind, Number, ResolvedExpression, ResolvedStatement, SVal, Span, Value, ValueKind,
    map_view,
};
use crate::ops::{char_string, condition_value, div_trunc, expression_kind};
use crate::runtime::{Runtime, st_deref_local, st_deref_locals};
use crate::semantics::{
    stack_kept, lemma_kept_trans,
    Oracle, SwitchEnd, agrees, eval, eval_place, exec_block, exec_stmt, expr_kind, for_items,
    for_loop, lemma_agrees_prefix, lemma_extends_trans, lemma_oracle_of, state_extends, oracle_of,
    range_items, step_count, switch_loop, while_loop,
};
use crate::value::{lemma_array_view, lemma_set_view, trunc_div, values_equal};

verus! {


// ---------------------------------------------------------------------------
// What a `for` loop runs over
// ---------------------------------------------------------------------------
/// The items of a `for` loop, computed one at a time.
pub enum ItemSource {
    /// The elements of an array or a set.
    Values(Vec<Value>),
    /// The bytes of a string, each one as a one-character string.
    Bytes(Vec<u8>),
    /// `start + k * step` for `k < count`, as `u64`.
    Unsigned { start: u64, step: u128, count: u128 },
    /// `start + k * step` for `k < count`, as `i64`.
    Signed { start: i64, step: i128, count: u128 },
}

/// The items a source stands for.
pub open spec fn source_items(src: ItemSource) -> Seq<SVal> {
    match src {
        ItemSource::Values(vs) => map_view(vs@),
        ItemSource::Bytes(bs) => Seq::new(bs@.len(), |i: int| SVal::Str(seq![bs@[i] as char])),
        ItemSource::Unsigned { start, step, count } => Seq::new(
            count as nat,
            |i: int| SVal::Number(Number::UInt64((start + i * step) as u64)),
        ),
        ItemSource::Signed { start, step, count } => Seq::new(
            count as nat,
            |i: int| SVal::Number(Number::Int64((start + i * step) as i64)),
        ),
    }
}

/// Every item of a range source lies in the range of its kind.
pub open spec fn source_wf(src: ItemSource) -> bool {
    match src {
        ItemSource::Unsigned { start, step, count } => count <= 0x2_0000_0000_0000_0000 && forall|
            k: int,
        | 0 <= k < count ==> 0 <= #[trigger] (start + k * step) <= u64::MAX,
        ItemSource::Signed { start, step, count } => count <= 0x2_0000_0000_0000_0000 && forall|
            k: int,
        | 0 <= k < count ==> i64::MIN <= #[trigger] (start + k * step) <= i64::MAX,
        _ => true,
    }
}

/// How many items a source has.
fn source_len(src: &ItemSource) -> (n: u128)
    ensures
        n == source_items(*src).len(),
{
    match src {
        ItemSource::Values(vs) => vs.len() as u128,
        ItemSource::Bytes(bs) => bs.len() as u128,
        ItemSource::Unsigned { count, .. } => *count,
        ItemSource::Signed { count, .. } => *count,
    }
}

/// Item `k` of a source.
fn source_item(src: &ItemSource, k: u128) -> (v: Value)
    requires
        source_wf(*src),
        k < source_items(*src).len(),
    ensures
        v@ == source_items(*src)[k as int],
{
    match src {
        ItemSource::Values(vs) => {
            let n = vs.len();
            assert(k < n);
            let i = k as usize;
            assert(i as int == k);
            vs[i].duplicate()
        },
        ItemSource::Bytes(bs) => {
            let n = bs.len();
            assert(k < n);
            let i = k as usize;
            assert(i as int == k);
            Value::String(char_string(bs[i] as char))
        },
        ItemSource::Unsigned { start, step, count } => {
            assert(0 <= *start + k * *step <= u64::MAX);
            let x = *start as u128 + k * *step;
            Value::Number(Number::UInt64(x as u64))
        },
        ItemSource::Signed { start, step, count } => {
            assert(i64::MIN <= *start + k * *step <= i64::MAX);
            let x = *start as i128 + (k as i128) * *step;
            Value::Number(Number::Int64(x as i64))
        },
    }
}

proof fn lemma_div_le(x: int, d: int)
    requires
        x >= 0,
        d >= 1,
    ensures
        0 <= x / d <= x,
{
    assert(0 <= x / d <= x) by (nonlinear_arith)
        requires
            x >= 0,
            d >= 1,
    ;
}

proof fn lemma_up_items(a: int, b: int, step: int, inclusive: bool, k: int)
    requires
        step >= 1,
        0 <= k < step_count(a, b, step, inclusive),
    ensures
        a <= a + k * step <= b,
{
    let d = if inclusive {
        b - a
    } else {
        b - a - 1
    };
    assert(d >= 0);
    assert(k <= d / step);
    assert(k * step <= (d / step) * step) by (nonlinear_arith)
        requires
            k <= d / step,
            step > 0,
            k >= 0,
    ;
    assert((d / step) * step <= d) by (nonlinear_arith)
        requires
            step > 0,
            d >= 0,
    ;
    assert(0 <= k * step) by (nonlinear_arith)
        requires
            k >= 0,
            step > 0,
    ;
}

proof fn lemma_down_items(a: int, b: int, c: int, q: int, k: int)
    requires
        a > b,
        c != 0,
        q == trunc_div(a - b, -c),
        0 <= k <= q,
    ensures
        b <= a + k * c <= a,
{
    if c < 0 {
        let m = -c;
        assert(q == (a - b) / m);
        assert(k * m <= q * m) by (nonlinear_arith)
            requires
                k <= q,
                m > 0,
                k >= 0,
        ;
        assert(q * m <= a - b) by (nonlinear_arith)
            requires
                q == (a - b) / m,
                m > 0,
                a - b > 0,
        ;
        assert(k * c == -(k * m)) by (nonlinear_arith)
            requires
                m == -c,
        ;
        assert(0 <= k * m) by (nonlinear_arith)
            requires
                k >= 0,
                m > 0,
        ;
    } else {
        assert((a - b) / c >= 0) by (nonlinear_arith)
            requires
                a - b > 0,
                c > 0,
        ;
        assert(q == -((a - b) / c));
        assert(k == 0);
    }
}

/// The source of the numbers a range runs through.
fn range_source(start: Number, end: Number, by: Number, inclusive: bool, kind: NumKind) -> (src:
    ItemSource)
    requires
        range_items(start, end, by, inclusive, kind) is Some,
    ensures
        source_wf(src),
        source_items(src) == range_items(start, end, by, inclusive, kind)->Some_0,
{
    let a = start.int_value();
    let b = end.int_value();
    let c = by.int_value();
    if kind == NumKind::UInt8 || kind == NumKind::UInt16 || kind == NumKind::UInt32 || kind
        == NumKind::UInt64 {
        let step: u128 = ((c as u64) as usize) as u128;
        let n: u128 = if inclusive {
            if a > b {
                0
            } else {
                ((b - a) as u128) / step + 1
            }
        } else if a >= b {
            0
        } else {
            ((b - a - 1) as u128) / step + 1
        };
        assert(n == step_count(a as int, b as int, step as int, inclusive));
        proof {
            if a <= b {
                lemma_div_le(b - a, step as int);
            }
            if a < b {
                lemma_div_le(b - a - 1, step as int);
            }
        }
        let src = ItemSource::Unsigned { start: a as u64, step, count: n };
        assert forall|k: int| 0 <= k < n implies 0 <= #[trigger] ((a as u64) + k * step) <= u64::MAX by {
            lemma_up_items(a as int, b as int, step as int, inclusive, k);
        }
        assert(source_items(src) =~= range_items(start, end, by, inclusive, kind)->Some_0);
        src
    } else if a <= b {
        let step: u128 = ((c as i64) as usize) as u128;
        let n: u128 = if inclusive {
            ((b - a) as u128) / step + 1
        } else if a == b {
            0
        } else {
            ((b - a - 1) as u128) / step + 1
        };
        assert(n == step_count(a as int, b as int, step as int, inclusive));
        proof {
            if a <= b {
                lemma_div_le(b - a, step as int);
            }
            if a < b {
                lemma_div_le(b - a - 1, step as int);
            }
        }
        let src = ItemSource::Signed { start: a as i64, step: step as i128, count: n };
        assert forall|k: int| 0 <= k < n implies i64::MIN <= #[trigger] ((a as i64) + k * (
        step as i128)) <= i64::MAX by {
            lemma_up_items(a as int, b as int, step as int, inclusive, k);
        }
        assert(source_items(src) =~= range_items(start, end, by, inclusive, kind)->Some_0);
        src
    } else {
        let q = div_trunc(a - b, -c);
        let n: u128 = if q < 0 {
            0
        } else if inclusive {
            (q + 1) as u128
        } else {
            q as u128
        };
        let src = ItemSource::Signed { start: a as i64, step: c, count: n };
        assert forall|k: int| 0 <= k < n implies i64::MIN <= #[trigger] ((a as i64) + k * c)
            <= i64::MAX by {
            lemma_down_items(a as int, b as int, c as int, q as int, k);
        }
        assert(source_items(src) =~= range_items(start, end, by, inclusive, kind)->Some_0);
        src
    }
}

/// The items a `for` loop runs over.
fn items_of(span: Span, v: Value) -> (r: Result<ItemSource, RuntimeError>)
    requires
        for_items(span, v@) is Some,
    ensures
        match r {
            Ok(src) => source_wf(src) && for_items(span, v@) == Some(
                Ok::<Seq<SVal>, SErr>(source_items(src)),
            ),
            Err(x) => for_items(span, v@) == Some(Err::<Seq<SVal>, SErr>(x@)),
        },
{
    let ghost vv = v@;
    match v {
        Value::SetOf(xs, k) => {
            proof {
                lemma_set_view(xs, k);
            }
            Ok(ItemSource::Values(xs))
        },
        Value::Array(xs, k) => {
            proof {
                lemma_array_view(xs, k);
            }
            Ok(ItemSource::Values(xs))
        },
        Value::String(s) => {
            let bytes = s.as_str().as_bytes_vec();
            assert(source_items(ItemSource::Bytes(bytes)) =~= for_items(span, vv)->Some_0->Ok_0);
            Ok(ItemSource::Bytes(bytes))
        },
        Value::Range(start, end, by, inclusive, kind) => Ok(
            range_source(start, end, by, inclusive, kind),
        ),
        other => Err(value_first_error(span, &other, " is not iterable")),
    }
}

// ---------------------------------------------------------------------------
// Statements
// ---------------------------------------------------------------------------
/// Runs a statement.
pub fn exec_stmt_exec(rt: &mut Runtime, s: &ResolvedStatement, Ghost(fuel): Ghost<nat>) -> (r: Result<
    ExecFlow,
    RuntimeError,
>)
    requires
        forall|o: Oracle| agrees(o, old(rt)@) ==> #[trigger] exec_stmt(fuel, o, old(rt)@, *s) is Some,
    ensures
        state_extends(old(rt)@, final(rt)@),
        r is Ok ==> stack_kept(old(rt)@, final(rt)@),
        forall|o: Oracle|
            agrees(o, final(rt)@) ==> #[trigger] exec_stmt(fuel, o, old(rt)@, *s) == Some(
                (final(rt)@, flow_view(r)),
            ),
    decreases fuel, s, 2nat,
{
    let ghost st = rt@;
    match s {
        ResolvedStatement::Expression { .. } | ResolvedStatement::Print { .. }
        | ResolvedStatement::DeclareLocal { .. } | ResolvedStatement::Seal { .. }
        | ResolvedStatement::Return { .. } | ResolvedStatement::Throw { .. } => exec_eval_stmt(
            rt,
            s,
            Ghost(fuel),
        ),
        ResolvedStatement::Detach { .. } | ResolvedStatement::AddMapping { .. }
        | ResolvedStatement::Attach { .. } => exec_object_stmt(rt, s, Ghost(fuel)),
        ResolvedStatement::Assign { .. } => exec_assign(rt, s, Ghost(fuel)),
        ResolvedStatement::If { .. } => exec_if(rt, s, Ghost(fuel)),
        ResolvedStatement::Switch { .. } => exec_switch(rt, s, Ghost(fuel)),
        ResolvedStatement::Try { .. } => exec_try(rt, s, Ghost(fuel)),
        ResolvedStatement::While { .. } => {
            assert forall|o: Oracle| agrees(o, st) implies #[trigger] while_loop(fuel, o, st, *s)
                is Some by {
                assert(exec_stmt(fuel, o, st, *s) is Some);
            }
            let r = exec_while(rt, s, Ghost(fuel));
            assert forall|o: Oracle| agrees(o, rt@) implies #[trigger] exec_stmt(fuel, o, st, *s)
                == Some((rt@, flow_view(r))) by {
                assert(while_loop(fuel, o, st, *s) == Some((rt@, flow_view(r))));
            }
            r
        },
        ResolvedStatement::For { .. } => exec_for(rt, s, Ghost(fuel)),
        ResolvedStatement::Block(ss) => {
            assert forall|o: Oracle| agrees(o, st) implies #[trigger] exec_block(
                fuel,
                o,
                st,
                ss@,
                seq![],
                Span { start: 0, end: 0, label: "" },
            ) is Some by {
                assert(exec_stmt(fuel, o, st, *s) is Some);
            }
            let r = exec_block_exec(rt, ss, Ghost(fuel));
            assert forall|o: Oracle| agrees(o, rt@) implies #[trigger] exec_stmt(fuel, o, st, *s)
                == Some((rt@, flow_view(r))) by {
                assert(exec_block(fuel, o, st, ss@, seq![], Span { start: 0, end: 0, label: "" }) == Some(
                    (rt@, flow_view(r)),
                ));
            }
            r
        },
        ResolvedStatement::Break { span } => Ok(ExecFlow::Break(*span)),
        ResolvedStatement::Continue { span } => Ok(ExecFlow::Continue(*span)),
        ResolvedStatement::Declaration { .. } => Err(error(Span::empty(), "Invalid statement: Declaration")),
    }
}

/// The expression a statement of one of the kinds that evaluate one
/// expression and then act on its value evaluates.
pub open spec fn stmt_expr(s: ResolvedStatement) -> ResolvedExpression {
    match s {
        ResolvedStatement::Expression { expr, .. } => expr,
        ResolvedStatement::Print { expr, .. } => expr,
        ResolvedStatement::DeclareLocal { value, .. } => value,
        ResolvedStatement::Seal { target, .. } => target,
        ResolvedStatement::Return { value, .. } => value,
        ResolvedStatement::Throw { message, .. } => message,
        ResolvedStatement::Detach { object, .. } => object,
        ResolvedStatement::AddMapping { object, .. } => object,
        ResolvedStatement::Attach { object, .. } => object,
        _ => ResolvedExpression::Value(Span { start: 0, end: 0, label: "" }, Value::Nil),
    }
}

/// Runs an expression, print, declaration, seal, return or throw statement.
fn exec_eval_stmt(rt: &mut Runtime, s: &ResolvedStatement, Ghost(fuel): Ghost<nat>) -> (r: Result<
    ExecFlow,
    RuntimeError,
>)
    requires
        s is Expression || s is Print || s is DeclareLocal || s is Seal || s is Return || s is Throw,
        forall|o: Oracle| agrees(o, old(rt)@) ==> #[trigger] exec_stmt(fuel, o, old(rt)@, *s) is Some,
    ensures
        state_extends(old(rt)@, final(rt)@),
        r is Ok ==> stack_kept(old(rt)@, final(rt)@),
        forall|o: Oracle|
            agrees(o, final(rt)@) ==> #[trigger] exec_stmt(fuel, o, old(rt)@, *s) == Some(
                (final(rt)@, flow_view(r)),
            ),
    decreases fuel, s, 1nat,
{
    let ghost st = rt@;
    let expr: &ResolvedExpression = match s {
        ResolvedStatement::Expression { expr, .. } => expr,
        ResolvedStatement::Print { expr, .. } => expr,
        ResolvedStatement::DeclareLocal { value, .. } => value,
        ResolvedStatement::Seal { target, .. } => target,
        ResolvedStatement::Return { value, .. } => value,
        ResolvedStatement::Throw { message, .. } => message,
        _ => vstd::pervasive::unreached(),
    };
    assert(*expr == stmt_expr(*s));
    assert forall|o: Oracle| agrees(o, st) implies #[trigger] eval(fuel, o, st, *expr) is Some by {
        assert(exec_stmt(fuel, o, st, *s) is Some);
    }
    let vr = eval_expr(rt, expr, Ghost(fuel));
    let ghost s1 = rt@;
    let ghost vrv = result_view(vr);
    let v = match vr {
        Err(x) => {
            let r = Err(x);
            assert forall|o: Oracle| agrees(o, s1) implies #[trigger] exec_stmt(fuel, o, st, *s)
                == Some((s1, flow_view(r))) by {
                assert(eval(fuel, o, st, *expr) == Some((s1, vrv)));
            }
            return r;
        },
        Ok(v) => v,
    };
    let ghost vv = v@;
    let r = match s {
        ResolvedStatement::Expression { span, .. } => Ok(ExecFlow::Normal(*span)),
        ResolvedStatement::Print { span, .. } => {
            match v {
                Value::String(k) => rt.print(k),
                Value::Object(id, _) => rt.print_object(id),
                other => rt.print(other.to_display_string()),
            }
            Ok(ExecFlow::Normal(*span))
        },
        ResolvedStatement::DeclareLocal { span, info, .. } => {
            rt.reserve_local(info.id, v);
            Ok(ExecFlow::Declare(*span, info.id))
        },
        ResolvedStatement::Seal { span, .. } => match v {
            Value::Object(id, _) => {
                rt.seal(id);
                Ok(ExecFlow::Normal(*span))
            },
            other => Err(value_first_error(*span, &other, " is not sealable")),
        },
        ResolvedStatement::Return { span, .. } => Ok(ExecFlow::Return(*span, v)),
        ResolvedStatement::Throw { span, .. } => match v {
            Value::String(m) => Ok(ExecFlow::Error { span: *span, message: m }),
            other => Err(
                RuntimeError::TypeMismatch { span: *span, found: other, expected: ValueKind::String },
            ),
        },
        _ => vstd::pervasive::unreached(),
    };
    assert(state_extends(s1, rt@));
    proof {
        lemma_extends_trans(st, s1, rt@);
    }
    assert forall|o: Oracle| agrees(o, rt@) implies #[trigger] exec_stmt(fuel, o, st, *s) == Some(
        (rt@, flow_view(r)),
    ) by {
        lemma_agrees_prefix(o, s1, rt@);
        assert(eval(fuel, o, st, *expr) == Some((s1, Ok::<SVal, SErr>(vv))));
    }
    r
}

/// Runs a detach, mapping or attach statement.
fn exec_object_stmt(rt: &mut Runtime, s: &ResolvedStatement, Ghost(fuel): Ghost<nat>) -> (r: Result<
    ExecFlow,
    RuntimeError,
>)
    requires
        s is Detach || s is AddMapping || s is Attach,
        forall|o: Oracle| agrees(o, old(rt)@) ==> #[trigger] exec_stmt(fuel, o, old(rt)@, *s) is Some,
    ensures
        state_extends(old(rt)@, final(rt)@),
        r is Ok ==> stack_kept(old(rt)@, final(rt)@),
        forall|o: Oracle|
            agrees(o, final(rt)@) ==> #[trigger] exec_stmt(fuel, o, old(rt)@, *s) == Some(
                (final(rt)@, flow_view(r)),
            ),
    decreases fuel, s, 1nat,
{
    let ghost st = rt@;
    let expr: &ResolvedExpression = match s {
        ResolvedStatement::Detach { object, .. } => object,
        ResolvedStatement::AddMapping { object, .. } => object,
        ResolvedStatement::Attach { object, .. } => object,
        _ => vstd::pervasive::unreached(),
    };
    assert(*expr == stmt_expr(*s));
    assert forall|o: Oracle| agrees(o, st) implies #[trigger] eval(fuel, o, st, *expr) is Some by {
        assert(exec_stmt(fuel, o, st, *s) is Some);
    }
    let vr = eval_expr(rt, expr, Ghost(fuel));
    let ghost s1 = rt@;
    let ghost vrv = result_view(vr);
    let v = match vr {
        Err(x) => {
            let r = Err(x);
            assert forall|o: Oracle| agrees(o, s1) implies #[trigger] exec_stmt(fuel, o, st, *s)
                == Some((s1, flow_view(r))) by {
                assert(eval(fuel, o, st, *expr) == Some((s1, vrv)));
            }
            return r;
        },
        Ok(v) => v,
    };
    let ghost vv = v@;
    proof {
        lemma_oracle_of(s1);
        lemma_agrees_prefix(oracle_of(s1), st, s1);
        assert(exec_stmt(fuel, oracle_of(s1), st, *s) is Some);
        assert(eval(fuel, oracle_of(s1), st, *expr) == Some((s1, Ok::<SVal, SErr>(vv))));
    }
    let span = match s {
        ResolvedStatement::Detach { span, .. } => *span,
        ResolvedStatement::AddMapping { span, .. } => *span,
        ResolvedStatement::Attach { span, .. } => *span,
        _ => vstd::pervasive::unreached(),
    };
    let bad_shape = match s {
        ResolvedStatement::Detach { shape, .. } => match &shape.kind {
            ValueKind::Shape(_) => false,
            _ => true,
        },
        _ => false,
    };
    let r = if bad_shape {
        match s {
            ResolvedStatement::Detach { shape, .. } => Err(detach_error(span, &shape.kind, &v)),
            _ => vstd::pervasive::unreached(),
        }
    } else {
        match v {
            Value::Object(id, _) => {
                if id >= rt.objects.len() {
                    vstd::pervasive::unreached()
                } else if rt.objects[id].sealed {
                    Ok(ExecFlow::Normal(span))
                } else {
                    let res = match s {
                        ResolvedStatement::Detach { shape, .. } => match &shape.kind {
                            ValueKind::Shape(inst) => rt.detach_shape(id, inst.id),
                            _ => vstd::pervasive::unreached(),
                        },
                        ResolvedStatement::AddMapping { from, to, .. } => rt.remap_slot(
                            id,
                            *to,
                            *from,
                        ),
                        ResolvedStatement::Attach { attachment, .. } => rt.attach_shape(
                            id,
                            attachment.base.id,
                            &attachment.defaults,
                            &attachment.mappings,
                        ),
                        _ => vstd::pervasive::unreached(),
                    };
                    match res {
                        Ok(()) => Ok(ExecFlow::Normal(span)),
                        Err(m) => Err(RuntimeError::Error { span, message: m }),
                    }
                }
            },
            _ => match s {
                ResolvedStatement::Detach { shape, .. } => Err(detach_error(span, &shape.kind, &v)),
                ResolvedStatement::AddMapping { from, to, .. } => Err(mapping_error(span, &v, *from, *to)),
                ResolvedStatement::Attach { attachment, .. } => Err(attach_error(span, &attachment.base, &v)),
                _ => vstd::pervasive::unreached(),
            },
        }
    };
    assert(state_extends(s1, rt@));
    proof {
        lemma_extends_trans(st, s1, rt@);
    }
    assert forall|o: Oracle| agrees(o, rt@) implies #[trigger] exec_stmt(fuel, o, st, *s) == Some(
        (rt@, flow_view(r)),
    ) by {
        lemma_agrees_prefix(o, s1, rt@);
        assert(eval(fuel, o, st, *expr) == Some((s1, Ok::<SVal, SErr>(vv))));
    }
    r
}

/// Runs an assignment.
fn exec_assign(rt: &mut Runtime, s: &ResolvedStatement, Ghost(fuel): Ghost<nat>) -> (r: Result<
    ExecFlow,
    RuntimeError,
>)
    requires
        s is Assign,
        forall|o: Oracle| agrees(o, old(rt)@) ==> #[trigger] exec_stmt(fuel, o, old(rt)@, *s) is Some,
    ensures
        state_extends(old(rt)@, final(rt)@),
        r is Ok ==> stack_kept(old(rt)@, final(rt)@),
        forall|o: Oracle|
            agrees(o, final(rt)@) ==> #[trigger] exec_stmt(fuel, o, old(rt)@, *s) == Some(
                (final(rt)@, flow_view(r)),
            ),
    decreases fuel, s, 1nat,
{
    let ghost st = rt@;
    match s {
        ResolvedStatement::Assign { span, target, value } => {
            assert forall|o: Oracle| agrees(o, st) implies #[trigger] eval(fuel, o, st, *value)
                is Some by {
                assert(exec_stmt(fuel, o, st, *s) is Some);
            }
            let vr = eval_expr(rt, value, Ghost(fuel));
            let ghost s1 = rt@;
            let ghost vrv = result_view(vr);
            let val = match vr {
                Err(x) => {
                    let r = Err(x);
                    assert forall|o: Oracle| agrees(o, s1) implies #[trigger] exec_stmt(
                        fuel,
                        o,
                        st,
                        *s,
                    ) == Some((s1, flow_view(r))) by {
                        assert(eval(fuel, o, st, *value) == Some((s1, vrv)));
                    }
                    return r;
                },
                Ok(v) => v,
            };
            let ghost vv = val@;
            assert forall|o: Oracle| agrees(o, s1) implies #[trigger] eval_place(
                fuel,
                o,
                s1,
                *target,
            ) is Some by {
                lemma_agrees_prefix(o, st, s1);
                assert(exec_stmt(fuel, o, st, *s) is Some);
                assert(eval(fuel, o, st, *value) == Some((s1, Ok::<SVal, SErr>(vv))));
            }
            let pr = eval_place_exec(rt, target, Ghost(fuel));
            let ghost s2 = rt@;
            let ghost prv = result_view(pr);
            proof {
                lemma_extends_trans(st, s1, s2);
            }
            let r = match pr {
                Err(x) => Err(x),
                Ok(Value::Pointer(obj, az, _)) => match rt.set_slot_value(obj, az, val) {
                    Ok(()) => Ok(ExecFlow::Normal(*span)),
                    Err(m) => Err(RuntimeError::Error { span: *span, message: m }),
                },
                Ok(Value::Element(_, _, _)) => Ok(ExecFlow::Normal(*span)),
                Ok(Value::Local(loc, _)) => {
                    rt.reserve_local(loc, val);
                    Ok(ExecFlow::Normal(*span))
                },
                Ok(other) => Err(two_values_error(*span, "Could not assign ", &val, " to ", &other)),
            };
            assert(state_extends(s2, rt@));
            proof {
                lemma_extends_trans(st, s2, rt@);
            }
            assert forall|o: Oracle| agrees(o, rt@) implies #[trigger] exec_stmt(fuel, o, st, *s)
                == Some((rt@, flow_view(r))) by {
                lemma_agrees_prefix(o, s2, rt@);
                lemma_agrees_prefix(o, s1, s2);
                assert(eval(fuel, o, st, *value) == Some((s1, Ok::<SVal, SErr>(vv))));
                assert(eval_place(fuel, o, s1, *target) == Some((s2, prv)));
            }
            r
        },
        _ => vstd::pervasive::unreached(),
    }
}

/// Runs an `if` statement.
fn exec_if(rt: &mut Runtime, s: &ResolvedStatement, Ghost(fuel): Ghost<nat>) -> (r: Result<
    ExecFlow,
    RuntimeError,
>)
    requires
        s is If,
        forall|o: Oracle| agrees(o, old(rt)@) ==> #[trigger] exec_stmt(fuel, o, old(rt)@, *s) is Some,
    ensures
        state_extends(old(rt)@, final(rt)@),
        r is Ok ==> stack_kept(old(rt)@, final(rt)@),
        forall|o: Oracle|
            agrees(o, final(rt)@) ==> #[trigger] exec_stmt(fuel, o, old(rt)@, *s) == Some(
                (final(rt)@, flow_view(r)),
            ),
    decreases fuel, s, 1nat,
{
    let ghost st = rt@;
    match s {
        ResolvedStatement::If { span, condition, true_statement, else_statement } => {
            let kind = expression_kind(condition);
            assert forall|o: Oracle| agrees(o, st) implies #[trigger] eval(fuel, o, st, *condition)
                is Some by {
                assert(exec_stmt(fuel, o, st, *s) is Some);
            }
            let cr = eval_expr(rt, condition, Ghost(fuel));
            let ghost s1 = rt@;
            let ghost crv = result_view(cr);
            let c = match cr {
                Err(x) => {
                    let r = Err(x);
                    assert forall|o: Oracle| agrees(o, s1) implies #[trigger] exec_stmt(
                        fuel,
                        o,
                        st,
                        *s,
                    ) == Some((s1, flow_view(r))) by {
                        assert(eval(fuel, o, st, *condition) == Some((s1, crv)));
                    }
                    return r;
                },
                Ok(c) => c,
            };
            let ghost cv = c@;
            let holds = condition_value(&kind, &c);
            let branch: Option<&ResolvedStatement> = match holds {
                None => {
                    let r = Err(value_error(*span, "If condition was not true or false: ", &c));
                    assert forall|o: Oracle| agrees(o, s1) implies #[trigger] exec_stmt(
                        fuel,
                        o,
                        st,
                        *s,
                    ) == Some((s1, flow_view(r))) by {
                        assert(eval(fuel, o, st, *condition) == Some((s1, Ok::<SVal, SErr>(cv))));
                    }
                    return r;
                },
                Some(true) => Some(&**true_statement),
                Some(false) => match else_statement {
                    Some(e) => Some(&**e),
                    None => None,
                },
            };
            match branch {
                None => {
                    let r = Ok(ExecFlow::Normal(*span));
                    assert forall|o: Oracle| agrees(o, s1) implies #[trigger] exec_stmt(
                        fuel,
                        o,
                        st,
                        *s,
                    ) == Some((s1, flow_view(r))) by {
                        assert(eval(fuel, o, st, *condition) == Some((s1, Ok::<SVal, SErr>(cv))));
                    }
                    r
                },
                Some(b) => {
                    assert forall|o: Oracle| agrees(o, s1) implies #[trigger] exec_stmt(
                        fuel,
                        o,
                        s1,
                        *b,
                    ) is Some by {
                        lemma_agrees_prefix(o, st, s1);
                        assert(exec_stmt(fuel, o, st, *s) is Some);
                        assert(eval(fuel, o, st, *condition) == Some((s1, Ok::<SVal, SErr>(cv))));
                    }
                    let r = exec_stmt_exec(rt, b, Ghost(fuel));
                    let ghost s2 = rt@;
                    proof {
                        lemma_extends_trans(st, s1, s2);
                    }
                    assert forall|o: Oracle| agrees(o, s2) implies #[trigger] exec_stmt(
                        fuel,
                        o,
                        st,
                        *s,
                    ) == Some((s2, flow_view(r))) by {
                        lemma_agrees_prefix(o, s1, s2);
                        assert(eval(fuel, o, st, *condition) == Some((s1, Ok::<SVal, SErr>(cv))));
                        assert(exec_stmt(fuel, o, s1, *b) == Some((s2, flow_view(r))));
                    }
                    r
                },
            }
        },
        _ => vstd::pervasive::unreached(),
    }
}

/// Runs a `try` statement.
#[verifier::rlimit(40)]
fn exec_try(rt: &mut Runtime, s: &ResolvedStatement, Ghost(fuel): Ghost<nat>) -> (r: Result<
    ExecFlow,
    RuntimeError,
>)
    requires
        s is Try,
        forall|o: Oracle| agrees(o, old(rt)@) ==> #[trigger] exec_stmt(fuel, o, old(rt)@, *s) is Some,
    ensures
        state_extends(old(rt)@, final(rt)@),
        r is Ok ==> stack_kept(old(rt)@, final(rt)@),
        forall|o: Oracle|
            agrees(o, final(rt)@) ==> #[trigger] exec_stmt(fuel, o, old(rt)@, *s) == Some(
                (final(rt)@, flow_view(r)),
            ),
    decreases fuel, s, 1nat,
{
    let ghost st = rt@;
    match s {
        ResolvedStatement::Try { span, try_statement, catch_statement } => {
            assert forall|o: Oracle| agrees(o, st) implies #[trigger] exec_stmt(
                fuel,
                o,
                st,
                **try_statement,
            ) is Some by {
                assert(exec_stmt(fuel, o, st, *s) is Some);
            }
            let tr = exec_stmt_exec(rt, try_statement, Ghost(fuel));
            let ghost s1 = rt@;
            let ghost trv = flow_view(tr);
            match tr {
                Ok(flow) => {
                    let r = Ok(flow);
                    assert forall|o: Oracle| agrees(o, s1) implies #[trigger] exec_stmt(
                        fuel,
                        o,
                        st,
                        *s,
                    ) == Some((s1, flow_view(r))) by {
                        assert(exec_stmt(fuel, o, st, **try_statement) == Some((s1, trv)));
                    }
                    r
                },
                Err(_) => {
                proof {
                    rt.caught@ = rt.caught@ + 1;
                }
                let ghost s1c = rt@;
                assert(state_extends(s1, s1c));
                match catch_statement {
                    None => {
                        let r = Ok(ExecFlow::Normal(*span));
                        assert forall|o: Oracle| agrees(o, s1c) implies #[trigger] exec_stmt(
                            fuel,
                            o,
                            st,
                            *s,
                        ) == Some((s1c, flow_view(r))) by {
                            lemma_agrees_prefix(o, s1, s1c);
                            assert(exec_stmt(fuel, o, st, **try_statement) == Some((s1, trv)));
                        }
                        r
                    },
                    Some(c) => {
                        assert forall|o: Oracle| agrees(o, s1c) implies #[trigger] exec_stmt(
                            fuel,
                            o,
                            s1c,
                            **c,
                        ) is Some by {
                            lemma_extends_trans(st, s1, s1c);
                            lemma_agrees_prefix(o, st, s1c);
                            lemma_agrees_prefix(o, s1, s1c);
                            assert(exec_stmt(fuel, o, st, *s) is Some);
                            assert(exec_stmt(fuel, o, st, **try_statement) == Some((s1, trv)));
                        }
                        let r = exec_stmt_exec(rt, c, Ghost(fuel));
                        let ghost s2 = rt@;
                        proof {
                            lemma_extends_trans(st, s1, s1c);
                            lemma_extends_trans(st, s1c, s2);
                        }
                        assert forall|o: Oracle| agrees(o, s2) implies #[trigger] exec_stmt(
                            fuel,
                            o,
                            st,
                            *s,
                        ) == Some((s2, flow_view(r))) by {
                            lemma_agrees_prefix(o, s1c, s2);
                            lemma_agrees_prefix(o, s1, s1c);
                            assert(exec_stmt(fuel, o, st, **try_statement) == Some((s1, trv)));
                            assert(exec_stmt(fuel, o, s1c, **c) == Some((s2, flow_view(r))));
                        }
                        r
                    },
                }
                },
            }
        },
        _ => vstd::pervasive::unreached(),
    }
}

/// Runs the statements of a block in order.
fn exec_block_exec(rt: &mut Runtime, ss: &Vec<ResolvedStatement>, Ghost(fuel): Ghost<nat>) -> (r:
    Result<ExecFlow, RuntimeError>)
    requires
        forall|o: Oracle|
            agrees(o, old(rt)@) ==> #[trigger] exec_block(
                fuel,
                o,
                old(rt)@,
                ss@,
                seq![],
                Span { start: 0, end: 0, label: "" },
            ) is Some,
    ensures
        state_extends(old(rt)@, final(rt)@),
        r is Ok ==> stack_kept(old(rt)@, final(rt)@),
        forall|o: Oracle|
            agrees(o, final(rt)@) ==> #[trigger] exec_block(
                fuel,
                o,
                old(rt)@,
                ss@,
                seq![],
                Span { start: 0, end: 0, label: "" },
            ) == Some((final(rt)@, flow_view(r))),
    decreases fuel, ss@, 0nat,
{
    let ghost st0 = rt@;
    let mut locals: Vec<LocalId> = Vec::new();
    let mut last = Span::empty();
    let mut i: usize = 0;
    assert(ss@.skip(0) =~= ss@);
    assert(locals@ =~= Seq::<LocalId>::empty());
    while i < ss.len()
        invariant
            i <= ss@.len(),
            st0 == old(rt)@,
            state_extends(st0, rt@),
            stack_kept(st0, rt@),
            forall|o: Oracle|
                agrees(o, st0) ==> #[trigger] exec_block(
                    fuel,
                    o,
                    st0,
                    ss@,
                    seq![],
                    Span { start: 0, end: 0, label: "" },
                ) is Some,
            forall|o: Oracle|
                agrees(o, rt@) ==> #[trigger] exec_block(
                    fuel,
                    o,
                    st0,
                    ss@,
                    seq![],
                    Span { start: 0, end: 0, label: "" },
                ) == exec_block(fuel, o, rt@, ss@.skip(i as int), locals@, last),
        decreases ss@.len() - i,
    {
        let ghost cur = rt@;
        let ghost rest = ss@.skip(i as int);
        assert(rest[0] == ss@[i as int]);
        assert(rest.drop_first() =~= ss@.skip(i + 1));
        assert forall|o: Oracle| agrees(o, cur) implies #[trigger] exec_stmt(
            fuel,
            o,
            cur,
            ss@[i as int],
        ) is Some by {
            lemma_agrees_prefix(o, st0, cur);
            assert(exec_block(fuel, o, st0, ss@, seq![], Span { start: 0, end: 0, label: "" }) is Some);
            assert(exec_block(fuel, o, st0, ss@, seq![], Span { start: 0, end: 0, label: "" }) == exec_block(
                fuel,
                o,
                cur,
                rest,
                locals@,
                last,
            ));
        }
        let fr = exec_stmt_exec(rt, &ss[i], Ghost(fuel));
        let ghost nxt = rt@;
        let ghost frv = flow_view(fr);
        proof {
            lemma_extends_trans(st0, cur, nxt);
        }
        assert forall|o: Oracle| agrees(o, nxt) implies #[trigger] exec_block(
            fuel,
            o,
            st0,
            ss@,
            seq![],
            Span { start: 0, end: 0, label: "" },
        ) == match frv {
            Err(x) => Some((nxt, Err(x))),
            Ok(flow) => match flow {
                SFlow::Normal(sp) => exec_block(fuel, o, nxt, ss@.skip(i + 1), locals@, sp),
                SFlow::Declare(_, l) => exec_block(
                    fuel,
                    o,
                    nxt,
                    ss@.skip(i + 1),
                    locals@.push(l),
                    last,
                ),
                other => Some((st_deref_locals(nxt, locals@), Ok(other))),
            },
        } by {
            lemma_agrees_prefix(o, cur, nxt);
            assert(exec_stmt(fuel, o, cur, rest[0]) == Some((nxt, frv)));
        }
        match fr {
            Err(x) => {
                return Err(x);
            },
            Ok(ExecFlow::Normal(sp)) => {
                last = sp;
            },
            Ok(ExecFlow::Declare(_, l)) => {
                locals.push(l);
            },
            Ok(other) => {
                let ghost ov = other@;
                rt.deref_locals(locals);
                let r = Ok(other);
                assert(state_extends(nxt, rt@));
                proof {
                    lemma_extends_trans(st0, nxt, rt@);
                }
                assert forall|o: Oracle| agrees(o, rt@) implies #[trigger] exec_block(
                    fuel,
                    o,
                    st0,
                    ss@,
                    seq![],
                    Span { start: 0, end: 0, label: "" },
                ) == Some((rt@, flow_view(r))) by {
                    lemma_agrees_prefix(o, nxt, rt@);
                }
                return r;
            },
        }
        i = i + 1;
    }
    assert(ss@.skip(i as int) =~= Seq::<ResolvedStatement>::empty());
    let ghost cur = rt@;
    rt.deref_locals(locals);
    assert(state_extends(cur, rt@));
    proof {
        lemma_extends_trans(st0, cur, rt@);
    }
    let r = Ok(ExecFlow::Normal(last));
    assert forall|o: Oracle| agrees(o, rt@) implies #[trigger] exec_block(
        fuel,
        o,
        st0,
        ss@,
        seq![],
        Span { start: 0, end: 0, label: "" },
    ) == Some((rt@, flow_view(r))) by {
        lemma_agrees_prefix(o, cur, rt@);
    }
    r
}

/// How the branches of a `switch` ended.
pub enum SwitchOutcome {
    /// All branches were tried; whether one fell through.
    Done(bool),
    /// A branch left with this flow.
    Exit(ExecFlow),
}

/// The view of the result of trying the branches of a `switch`.
pub open spec fn switch_view(r: Result<SwitchOutcome, RuntimeError>) -> Result<SwitchEnd, SErr> {
    match r {
        Ok(SwitchOutcome::Done(b)) => Ok(SwitchEnd::Done(b)),
        Ok(SwitchOutcome::Exit(f)) => Ok(SwitchEnd::Exit(f@)),
        Err(e) => Err(e@),
    }
}

/// Tries the branches of a `switch` in order against `target`.
fn exec_switch_branches(
    rt: &mut Runtime,
    bs: &Vec<(ResolvedExpression, bool, ResolvedStatement)>,
    target: &Value,
    Ghost(fuel): Ghost<nat>,
) -> (r: Result<SwitchOutcome, RuntimeError>)
    requires
        forall|o: Oracle|
            agrees(o, old(rt)@) ==> #[trigger] switch_loop(fuel, o, old(rt)@, bs@, target@, false)
                is Some,
    ensures
        state_extends(old(rt)@, final(rt)@),
        r is Ok ==> stack_kept(old(rt)@, final(rt)@),
        forall|o: Oracle|
            agrees(o, final(rt)@) ==> #[trigger] switch_loop(
                fuel,
                o,
                old(rt)@,
                bs@,
                target@,
                false,
            ) == Some((final(rt)@, switch_view(r))),
    decreases fuel, bs@, 0nat,
{
    let ghost st0 = rt@;
    let ghost tv = target@;
    let mut fell = false;
    let mut i: usize = 0;
    assert(bs@.skip(0) =~= bs@);
    while i < bs.len()
        invariant
            i <= bs@.len(),
            st0 == old(rt)@,
            tv == target@,
            state_extends(st0, rt@),
            stack_kept(st0, rt@),
            forall|o: Oracle|
                agrees(o, st0) ==> #[trigger] switch_loop(fuel, o, st0, bs@, tv, false) is Some,
            forall|o: Oracle|
                agrees(o, rt@) ==> #[trigger] switch_loop(fuel, o, st0, bs@, tv, false)
                    == switch_loop(fuel, o, rt@, bs@.skip(i as int), tv, fell),
        decreases bs@.len() - i,
    {
        let ghost cur = rt@;
        let ghost rest = bs@.skip(i as int);
        assert(rest[0] == bs@[i as int]);
        assert(rest.drop_first() =~= bs@.skip(i + 1));
        assert forall|o: Oracle| agrees(o, cur) implies #[trigger] eval(
            fuel,
            o,
            cur,
            bs@[i as int].0,
        ) is Some by {
            lemma_agrees_prefix(o, st0, cur);
            assert(switch_loop(fuel, o, st0, bs@, tv, false) is Some);
            assert(switch_loop(fuel, o, st0, bs@, tv, false) == switch_loop(
                fuel,
                o,
                cur,
                rest,
                tv,
                fell,
            ));
        }
        let cr = eval_expr(rt, &bs[i].0, Ghost(fuel));
        let ghost s1 = rt@;
        let ghost crv = result_view(cr);
        proof {
            lemma_extends_trans(st0, cur, s1);
        }
        let c = match cr {
            Err(x) => {
                let r = Err(x);
                assert forall|o: Oracle| agrees(o, s1) implies #[trigger] switch_loop(
                    fuel,
                    o,
                    st0,
                    bs@,
                    tv,
                    false,
                ) == Some((s1, switch_view(r))) by {
                    lemma_agrees_prefix(o, cur, s1);
                    assert(eval(fuel, o, cur, rest[0].0) == Some((s1, crv)));
                }
                return r;
            },
            Ok(c) => c,
        };
        let ghost cv = c@;
        if !values_equal(target, &c) {
            assert forall|o: Oracle| agrees(o, s1) implies #[trigger] switch_loop(
                fuel,
                o,
                st0,
                bs@,
                tv,
                false,
            ) == switch_loop(fuel, o, s1, bs@.skip(i + 1), tv, fell) by {
                lemma_agrees_prefix(o, cur, s1);
                assert(eval(fuel, o, cur, rest[0].0) == Some((s1, Ok::<SVal, SErr>(cv))));
            }
        } else {
            assert forall|o: Oracle| agrees(o, s1) implies #[trigger] exec_stmt(
                fuel,
                o,
                s1,
                bs@[i as int].2,
            ) is Some by {
                lemma_agrees_prefix(o, cur, s1);
                lemma_agrees_prefix(o, st0, s1);
                assert(switch_loop(fuel, o, st0, bs@, tv, false) is Some);
                assert(eval(fuel, o, cur, rest[0].0) == Some((s1, Ok::<SVal, SErr>(cv))));
            }
            let fr = exec_stmt_exec(rt, &bs[i].2, Ghost(fuel));
            let ghost s2 = rt@;
            let ghost frv = flow_view(fr);
            proof {
                lemma_extends_trans(st0, s1, s2);
            }
            let cont = bs[i].1;
            assert forall|o: Oracle| agrees(o, s2) implies #[trigger] switch_loop(
                fuel,
                o,
                st0,
                bs@,
                tv,
                false,
            ) == match frv {
                Err(x) => Some((s2, Err(x))),
                Ok(flow) => match flow {
                    SFlow::Normal(_) if cont => switch_loop(fuel, o, s2, bs@.skip(i + 1), tv, true),
                    SFlow::Declare(_, l) if cont => switch_loop(
                        fuel,
                        o,
                        st_deref_local(s2, l),
                        bs@.skip(i + 1),
                        tv,
                        true,
                    ),
                    other => Some((s2, Ok(SwitchEnd::Exit(other)))),
                },
            } by {
                lemma_agrees_prefix(o, s1, s2);
                lemma_agrees_prefix(o, cur, s1);
                assert(eval(fuel, o, cur, rest[0].0) == Some((s1, Ok::<SVal, SErr>(cv))));
                assert(exec_stmt(fuel, o, s1, rest[0].2) == Some((s2, frv)));
            }
            match fr {
                Err(x) => {
                    return Err(x);
                },
                Ok(flow) => {
                    let goes_on = match &flow {
                        ExecFlow::Normal(_) | ExecFlow::Declare(_, _) => cont,
                        _ => false,
                    };
                    if !goes_on {
                        return Ok(SwitchOutcome::Exit(flow));
                    }
                    match flow {
                        ExecFlow::Declare(_, l) => {
                            rt.deref_local(l);
                        },
                        _ => {},
                    }
                    fell = true;
                    assert(state_extends(s2, rt@));
                    proof {
                        lemma_extends_trans(st0, s2, rt@);
                    }
                    assert forall|o: Oracle| agrees(o, rt@) implies #[trigger] switch_loop(
                        fuel,
                        o,
                        st0,
                        bs@,
                        tv,
                        false,
                    ) == switch_loop(fuel, o, rt@, bs@.skip(i + 1), tv, fell) by {
                        lemma_agrees_prefix(o, s2, rt@);
                    }
                },
            }
        }
        i = i + 1;
    }
    assert(bs@.skip(i as int) =~= Seq::<(ResolvedExpression, bool, ResolvedStatement)>::empty());
    Ok(SwitchOutcome::Done(fell))
}

/// Runs a `switch` statement.
fn exec_switch(rt: &mut Runtime, s: &ResolvedStatement, Ghost(fuel): Ghost<nat>) -> (r: Result<
    ExecFlow,
    RuntimeError,
>)
    requires
        s is Switch,
        forall|o: Oracle| agrees(o, old(rt)@) ==> #[trigger] exec_stmt(fuel, o, old(rt)@, *s) is Some,
    ensures
        state_extends(old(rt)@, final(rt)@),
        r is Ok ==> stack_kept(old(rt)@, final(rt)@),
        forall|o: Oracle|
            agrees(o, final(rt)@) ==> #[trigger] exec_stmt(fuel, o, old(rt)@, *s) == Some(
                (final(rt)@, flow_view(r)),
            ),
    decreases fuel, s, 1nat,
{
    let ghost st = rt@;
    match s {
        ResolvedStatement::Switch { span, target, branch_statements, else_statement } => {
            assert forall|o: Oracle| agrees(o, st) implies #[trigger] eval(fuel, o, st, *target)
                is Some by {
                assert(exec_stmt(fuel, o, st, *s) is Some);
            }
            let tr = eval_expr(rt, target, Ghost(fuel));
            let ghost s1 = rt@;
            let ghost trv = result_view(tr);
            let t = match tr {
                Err(x) => {
                    let r = Err(x);
                    assert forall|o: Oracle| agrees(o, s1) implies #[trigger] exec_stmt(
                        fuel,
                        o,
                        st,
                        *s,
                    ) == Some((s1, flow_view(r))) by {
                        assert(eval(fuel, o, st, *target) == Some((s1, trv)));
                    }
                    return r;
                },
                Ok(t) => t,
            };
            let ghost tv = t@;
            assert forall|o: Oracle| agrees(o, s1) implies #[trigger] switch_loop(
                fuel,
                o,
                s1,
                branch_statements@,
                tv,
                false,
            ) is Some by {
                lemma_agrees_prefix(o, st, s1);
                assert(exec_stmt(fuel, o, st, *s) is Some);
                assert(eval(fuel, o, st, *target) == Some((s1, Ok::<SVal, SErr>(tv))));
            }
            let br = exec_switch_branches(rt, branch_statements, &t, Ghost(fuel));
            let ghost s2 = rt@;
            let ghost brv = switch_view(br);
            proof {
                lemma_extends_trans(st, s1, s2);
            }
            assert forall|o: Oracle| agrees(o, s2) implies #[trigger] exec_stmt(fuel, o, st, *s)
                == match brv {
                Err(x) => Some((s2, Err(x))),
                Ok(SwitchEnd::Exit(flow)) => Some((s2, Ok(flow))),
                Ok(SwitchEnd::Done(fell)) => match *else_statement {
                    Some(e) => if !fell {
                        exec_stmt(fuel, o, s2, *e)
                    } else {
                        Some((s2, Ok(SFlow::Normal(*span))))
                    },
                    None => Some((s2, Ok(SFlow::Normal(*span)))),
                },
            } by {
                lemma_agrees_prefix(o, s1, s2);
                assert(eval(fuel, o, st, *target) == Some((s1, Ok::<SVal, SErr>(tv))));
                assert(switch_loop(fuel, o, s1, branch_statements@, tv, false) == Some((s2, brv)));
            }
            match br {
                Err(x) => Err(x),
                Ok(SwitchOutcome::Exit(flow)) => Ok(flow),
                Ok(SwitchOutcome::Done(fell)) => match else_statement {
                    Some(e) => {
                        if !fell {
                            assert forall|o: Oracle| agrees(o, s2) implies #[trigger] exec_stmt(
                                fuel,
                                o,
                                s2,
                                **e,
                            ) is Some by {
                                lemma_agrees_prefix(o, s1, s2);
                                lemma_agrees_prefix(o, st, s1);
                                assert(exec_stmt(fuel, o, st, *s) is Some);
                            }
                            let r = exec_stmt_exec(rt, e, Ghost(fuel));
                            let ghost s3 = rt@;
                            proof {
                                lemma_extends_trans(st, s2, s3);
                            }
                            assert forall|o: Oracle| agrees(o, s3) implies #[trigger] exec_stmt(
                                fuel,
                                o,
                                st,
                                *s,
                            ) == Some((s3, flow_view(r))) by {
                                lemma_agrees_prefix(o, s2, s3);
                                assert(exec_stmt(fuel, o, s2, **e) == Some((s3, flow_view(r))));
                            }
                            r
                        } else {
                            Ok(ExecFlow::Normal(*span))
                        }
                    },
                    None => Ok(ExecFlow::Normal(*span)),
                },
            }
        },
        _ => vstd::pervasive::unreached(),
    }
}

/// Runs a `while` statement.
fn exec_while(rt: &mut Runtime, s: &ResolvedStatement, Ghost(fuel): Ghost<nat>) -> (r: Result<
    ExecFlow,
    RuntimeError,
>)
    requires
        s is While,
        forall|o: Oracle| agrees(o, old(rt)@) ==> #[trigger] while_loop(fuel, o, old(rt)@, *s) is Some,
    ensures
        state_extends(old(rt)@, final(rt)@),
        r is Ok ==> stack_kept(old(rt)@, final(rt)@),
        forall|o: Oracle|
            agrees(o, final(rt)@) ==> #[trigger] while_loop(fuel, o, old(rt)@, *s) == Some(
                (final(rt)@, flow_view(r)),
            ),
    decreases fuel, s, 1nat,
{
    let ghost st0 = rt@;
    match s {
        ResolvedStatement::While { span, condition, statement } => {
            let kind = expression_kind(condition);
            let ghost mut f: nat = fuel;
            loop
                invariant
                    f <= fuel,
                    st0 == old(rt)@,
                    state_extends(st0, rt@),
                    stack_kept(st0, rt@),
                    *s == (ResolvedStatement::While {
                        span: *span,
                        condition: *condition,
                        statement: *statement,
                    }),
                    kind@ == expr_kind(*condition),
                    forall|o: Oracle| agrees(o, st0) ==> #[trigger] while_loop(fuel, o, st0, *s) is Some,
                    forall|o: Oracle|
                        agrees(o, rt@) ==> #[trigger] while_loop(fuel, o, st0, *s) == while_loop(
                            f,
                            o,
                            rt@,
                            *s,
                        ),
                decreases f,
            {
                let ghost cur = rt@;
                proof {
                    lemma_oracle_of(cur);
                    lemma_agrees_prefix(oracle_of(cur), st0, cur);
                    assert(while_loop(fuel, oracle_of(cur), st0, *s) is Some);
                    assert(f > 0);
                }
                assert forall|o: Oracle| agrees(o, cur) implies #[trigger] eval(
                    f,
                    o,
                    cur,
                    *condition,
                ) is Some by {
                    lemma_agrees_prefix(o, st0, cur);
                    assert(while_loop(fuel, o, st0, *s) is Some);
                }
                let cr = eval_expr(rt, condition, Ghost(f));
                let ghost s1 = rt@;
                let ghost crv = result_view(cr);
                proof {
                    lemma_extends_trans(st0, cur, s1);
                }
                let c = match cr {
                    Err(x) => {
                        let r = Err(x);
                        assert forall|o: Oracle| agrees(o, s1) implies #[trigger] while_loop(
                            fuel,
                            o,
                            st0,
                            *s,
                        ) == Some((s1, flow_view(r))) by {
                            lemma_agrees_prefix(o, cur, s1);
                            assert(eval(f, o, cur, *condition) == Some((s1, crv)));
                        }
                        return r;
                    },
                    Ok(c) => c,
                };
                let ghost cv = c@;
                let holds = condition_value(&kind, &c);
                if holds.is_none() || holds == Some(false) {
                    let r = if holds.is_none() {
                        Err(value_error(*span, "While condition was not true or false: ", &c))
                    } else {
                        Ok(ExecFlow::Normal(*span))
                    };
                    assert forall|o: Oracle| agrees(o, s1) implies #[trigger] while_loop(
                        fuel,
                        o,
                        st0,
                        *s,
                    ) == Some((s1, flow_view(r))) by {
                        lemma_agrees_prefix(o, cur, s1);
                        assert(eval(f, o, cur, *condition) == Some((s1, Ok::<SVal, SErr>(cv))));
                    }
                    return r;
                }
                assert forall|o: Oracle| agrees(o, s1) implies #[trigger] exec_stmt(
                    f,
                    o,
                    s1,
                    **statement,
                ) is Some by {
                    lemma_agrees_prefix(o, cur, s1);
                    lemma_agrees_prefix(o, st0, s1);
                    assert(while_loop(fuel, o, st0, *s) is Some);
                    assert(eval(f, o, cur, *condition) == Some((s1, Ok::<SVal, SErr>(cv))));
                }
                let fr = exec_stmt_exec(rt, statement, Ghost(f));
                let ghost s2 = rt@;
                let ghost frv = flow_view(fr);
                proof {
                    lemma_extends_trans(st0, s1, s2);
                }
                assert forall|o: Oracle| agrees(o, s2) implies #[trigger] while_loop(
                    fuel,
                    o,
                    st0,
                    *s,
                ) == match frv {
                    Err(x) => Some((s2, Err(x))),
                    Ok(flow) => match flow {
                        SFlow::Normal(_) => while_loop((f - 1) as nat, o, s2, *s),
                        SFlow::Continue(_) => while_loop((f - 1) as nat, o, s2, *s),
                        SFlow::Declare(_, l) => while_loop(
                            (f - 1) as nat,
                            o,
                            st_deref_local(s2, l),
                            *s,
                        ),
                        SFlow::Break(_) => Some((s2, Ok(SFlow::Normal(*span)))),
                        other => Some((s2, Ok(other))),
                    },
                } by {
                    lemma_agrees_prefix(o, s1, s2);
                    lemma_agrees_prefix(o, cur, s1);
                    assert(eval(f, o, cur, *condition) == Some((s1, Ok::<SVal, SErr>(cv))));
                    assert(exec_stmt(f, o, s1, **statement) == Some((s2, frv)));
                }
                match fr {
                    Err(x) => {
                        return Err(x);
                    },
                    Ok(ExecFlow::Normal(_)) | Ok(ExecFlow::Continue(_)) => {},
                    Ok(ExecFlow::Declare(_, l)) => {
                        rt.deref_local(l);
                        assert(state_extends(s2, rt@));
                        proof {
                            lemma_extends_trans(st0, s2, rt@);
                        }
                        assert forall|o: Oracle| agrees(o, rt@) implies #[trigger] while_loop(
                            fuel,
                            o,
                            st0,
                            *s,
                        ) == while_loop((f - 1) as nat, o, rt@, *s) by {
                            lemma_agrees_prefix(o, s2, rt@);
                        }
                    },
                    Ok(ExecFlow::Break(_)) => {
                        return Ok(ExecFlow::Normal(*span));
                    },
                    Ok(other) => {
                        return Ok(other);
                    },
                }
                proof {
                    f = (f - 1) as nat;
                }
            }
        },
        _ => vstd::pervasive::unreached(),
    }
}

/// Runs the body of a `for` statement once per item of `src`.
fn exec_for_items(rt: &mut Runtime, s: &ResolvedStatement, src: &ItemSource, Ghost(fuel): Ghost<nat>) -> (r:
    Result<ExecFlow, RuntimeError>)
    requires
        s is For,
        source_wf(*src),
        forall|o: Oracle|
            agrees(o, old(rt)@) ==> #[trigger] for_loop(fuel, o, old(rt)@, *s, source_items(*src))
                is Some,
    ensures
        state_extends(old(rt)@, final(rt)@),
        r is Ok ==> stack_kept(old(rt)@, final(rt)@),
        forall|o: Oracle|
            agrees(o, final(rt)@) ==> #[trigger] for_loop(
                fuel,
                o,
                old(rt)@,
                *s,
                source_items(*src),
            ) == Some((final(rt)@, flow_view(r))),
    decreases fuel, s, 0nat,
{
    let ghost st0 = rt@;
    let ghost items = source_items(*src);
    match s {
        ResolvedStatement::For { span, local, target, statement } => {
            let n = source_len(src);
            let mut k: u128 = 0;
            let ghost mut f: nat = fuel;
            assert(items.skip(0) =~= items);
            while k < n
                invariant
                    k <= n,
                    n == items.len(),
                    items == source_items(*src),
                    source_wf(*src),
                    f <= fuel,
                    st0 == old(rt)@,
                    state_extends(st0, rt@),
                    stack_kept(st0, rt@),
                    *s == (ResolvedStatement::For {
                        span: *span,
                        local: *local,
                        target: *target,
                        statement: *statement,
                    }),
                    forall|o: Oracle|
                        agrees(o, st0) ==> #[trigger] for_loop(fuel, o, st0, *s, items) is Some,
                    forall|o: Oracle|
                        agrees(o, rt@) ==> #[trigger] for_loop(fuel, o, st0, *s, items) == for_loop(
                            f,
                            o,
                            rt@,
                            *s,
                            items.skip(k as int),
                        ),
                decreases n - k,
            {
                let ghost cur = rt@;
                let ghost rest = items.skip(k as int);
                assert(rest[0] == items[k as int]);
                assert(rest.drop_first() =~= items.skip(k + 1));
                proof {
                    lemma_oracle_of(cur);
                    lemma_agrees_prefix(oracle_of(cur), st0, cur);
                    assert(for_loop(fuel, oracle_of(cur), st0, *s, items) is Some);
                    assert(f > 0);
                }
                let item = source_item(src, k);
                rt.reserve_local(*local, item);
                let ghost s1 = rt@;
                assert(state_extends(cur, s1));
                assert forall|o: Oracle| agrees(o, s1) implies #[trigger] exec_stmt(
                    f,
                    o,
                    s1,
                    **statement,
                ) is Some by {
                    lemma_agrees_prefix(o, cur, s1);
                    lemma_agrees_prefix(o, st0, cur);
                    assert(for_loop(fuel, o, st0, *s, items) is Some);
                }
                let fr = exec_stmt_exec(rt, statement, Ghost(f));
                let ghost s2 = rt@;
                let ghost frv = flow_view(fr);
                proof {
                    lemma_extends_trans(cur, s1, s2);
                    lemma_extends_trans(st0, cur, s2);
                }
                assert forall|o: Oracle| agrees(o, s2) implies #[trigger] for_loop(
                    fuel,
                    o,
                    st0,
                    *s,
                    items,
                ) == match frv {
                    Err(x) => Some((s2, Err(x))),
                    Ok(flow) => match flow {
                        SFlow::Continue(_) => for_loop((f - 1) as nat, o, s2, *s, items.skip(k + 1)),
                        SFlow::Break(_) => Some((s2, Ok(SFlow::Normal(*span)))),
                        SFlow::Normal(_) => for_loop(
                            (f - 1) as nat,
                            o,
                            st_deref_local(s2, *local),
                            *s,
                            items.skip(k + 1),
                        ),
                        SFlow::Declare(_, l) => for_loop(
                            (f - 1) as nat,
                            o,
                            st_deref_local(st_deref_local(s2, l), *local),
                            *s,
                            items.skip(k + 1),
                        ),
                        other => Some((s2, Ok(other))),
                    },
                } by {
                    lemma_agrees_prefix(o, s1, s2);
                    lemma_agrees_prefix(o, cur, s1);
                    assert(exec_stmt(f, o, s1, **statement) == Some((s2, frv)));
                }
                match fr {
                    Err(x) => {
                        return Err(x);
                    },
                    Ok(ExecFlow::Continue(_)) => {},
                    Ok(ExecFlow::Break(_)) => {
                        return Ok(ExecFlow::Normal(*span));
                    },
                    Ok(ExecFlow::Normal(_)) => {
                        rt.deref_local(*local);
                        assert(state_extends(s2, rt@));
                        proof {
                            lemma_extends_trans(st0, s2, rt@);
                        }
                        assert forall|o: Oracle| agrees(o, rt@) implies #[trigger] for_loop(
                            fuel,
                            o,
                            st0,
                            *s,
                            items,
                        ) == for_loop((f - 1) as nat, o, rt@, *s, items.skip(k + 1)) by {
                            lemma_agrees_prefix(o, s2, rt@);
                        }
                    },
                    Ok(ExecFlow::Declare(_, l)) => {
                        rt.deref_local(l);
                        rt.deref_local(*local);
                        assert(state_extends(s2, rt@));
                        proof {
                            lemma_extends_trans(st0, s2, rt@);
                        }
                        assert forall|o: Oracle| agrees(o, rt@) implies #[trigger] for_loop(
                            fuel,
                            o,
                            st0,
                            *s,
                            items,
                        ) == for_loop((f - 1) as nat, o, rt@, *s, items.skip(k + 1)) by {
                            lemma_agrees_prefix(o, s2, rt@);
                        }
                    },
                    Ok(other) => {
                        return Ok(other);
                    },
                }
                proof {
                    f = (f - 1) as nat;
                }
                k = k + 1;
            }
            assert(items.skip(k as int) =~= Seq::<SVal>::empty());
            Ok(ExecFlow::Normal(*span))
        },
        _ => vstd::pervasive::unreached(),
    }
}

/// Runs a `for` statement.
fn exec_for(rt: &mut Runtime, s: &ResolvedStatement, Ghost(fuel): Ghost<nat>) -> (r: Result<
    ExecFlow,
    RuntimeError,
>)
    requires
        s is For,
        forall|o: Oracle| agrees(o, old(rt)@) ==> #[trigger] exec_stmt(fuel, o, old(rt)@, *s) is Some,
    ensures
        state_extends(old(rt)@, final(rt)@),
        r is Ok ==> stack_kept(old(rt)@, final(rt)@),
        forall|o: Oracle|
            agrees(o, final(rt)@) ==> #[trigger] exec_stmt(fuel, o, old(rt)@, *s) == Some(
                (final(rt)@, flow_view(r)),
            ),
    decreases fuel, s, 1nat,
{
    let ghost st = rt@;
    match s {
        ResolvedStatement::For { span, target, .. } => {
            assert forall|o: Oracle| agrees(o, st) implies #[trigger] eval(fuel, o, st, *target)
                is Some by {
                assert(exec_stmt(fuel, o, st, *s) is Some);
            }
            let tr = eval_expr(rt, target, Ghost(fuel));
            let ghost s1 = rt@;
            let ghost trv = result_view(tr);
            let t = match tr {
                Err(x) => {
                    let r = Err(x);
                    assert forall|o: Oracle| agrees(o, s1) implies #[trigger] exec_stmt(
                        fuel,
                        o,
                        st,
                        *s,
                    ) == Some((s1, flow_view(r))) by {
                        assert(eval(fuel, o, st, *target) == Some((s1, trv)));
                    }
                    return r;
                },
                Ok(t) => t,
            };
            let ghost tv = t@;
            proof {
                lemma_oracle_of(s1);
                lemma_agrees_prefix(oracle_of(s1), st, s1);
                assert(exec_stmt(fuel, oracle_of(s1), st, *s) is Some);
                assert(eval(fuel, oracle_of(s1), st, *target) == Some((s1, Ok::<SVal, SErr>(tv))));
            }
            match items_of(*span, t) {
                Err(x) => {
                    let r = Err(x);
                    assert forall|o: Oracle| agrees(o, s1) implies #[trigger] exec_stmt(
                        fuel,
                        o,
                        st,
                        *s,
                    ) == Some((s1, flow_view(r))) by {
                        assert(eval(fuel, o, st, *target) == Some((s1, Ok::<SVal, SErr>(tv))));
                    }
                    r
                },
                Ok(src) => {
                    assert forall|o: Oracle| agrees(o, s1) implies #[trigger] for_loop(
                        fuel,
                        o,
                        s1,
                        *s,
                        source_items(src),
                    ) is Some by {
                        lemma_agrees_prefix(o, st, s1);
                        assert(exec_stmt(fuel, o, st, *s) is Some);
                        assert(eval(fuel, o, st, *target) == Some((s1, Ok::<SVal, SErr>(tv))));
                    }
                    let r = exec_for_items(rt, s, &src, Ghost(fuel));
                    let ghost s2 = rt@;
                    proof {
                        lemma_extends_trans(st, s1, s2);
                    }
                    assert forall|o: Oracle| agrees(o, s2) implies #[trigger] exec_stmt(
                        fuel,
                        o,
                        st,
                        *s,
                    ) == Some((s2, flow_view(r))) by {
                        lemma_agrees_prefix(o, s1, s2);
                        assert(eval(fuel, o, st, *target) == Some((s1, Ok::<SVal, SErr>(tv))));
                        assert(for_loop(fuel, o, s1, *s, source_items(src)) == Some(
                            (s2, flow_view(r)),
                        ));
                    }
                    r
                },
            }
        },
        _ => vstd::pervasive::unreached(),
    }
}

} // verus!

//! The meaning of expressions and statements, as spec functions.
//!
//! `eval(fuel, o, st, e)` is what evaluating `e` in state `st` does: the state
//! after it and the value or error, or `None` when evaluation panics or needs
//! more than `fuel` nested calls and loop iterations. `o` holds the answers of
//! the clock and of the random number generator: the `k`-th reading of the
//! clock is `o.clock(k)`. The executable functions in [`crate::executor`] are
//! proved to meet these functions for every such `o` that agrees with the
//! readings they actually took.
use vstd::prelude::*;
use crate::describe::{
    array_bounds_message, bounds_message, kind_text, member_message, number_text, shape_kind_text,
    value_debug, unary_message, binary_message, local_info_text, member_info_text, instance_text, escaped,
};
use crate::value::{dec_int, dec_nat};
use crate::executor::{SErr, SFlow, err};
use crate::intrinsic::{Intrinsic, intrinsic_call};
use crate::model::{
    AzimuthId, LocalId, MappingTo, NumKind, Number, Operator, ResolvedExpression,
    ResolvedFunctionBody, ResolvedStatement, SFunc, SKind, SParam, SVal, ShapeId, Span, Symbol,
    ValueKind, kind_view, map_view,
};
use crate::runtime::{
    RtState, SFrame, SOpResult, local_value, next_object_name, slot_value, st_attach,
    st_assign_slot, st_create_object, st_deref_local, st_deref_locals, st_detach, st_pop_frame,
    st_print, st_print_object, st_push_frame, st_ref_local, st_ref_obj, st_remap,
    st_reserve_local, st_seal, static_object, has_shape, st_init_statics,
};
use crate::value::{
    assignable, fits, is_int_kind, kind_bits, kind_signed, machine_kind, make_num, num_int,
    num_kind, promote_spec, render, same_value, sval_kind, trunc_div,
};

verus! {

/// The answers of the clock and of the random number generator, by reading number.
pub struct Oracle {
    pub clock: spec_fn(nat) -> Option<u128>,
    pub random: spec_fn(nat) -> i32,
}

/// Whether `o` gave the readings recorded in `st`.
#[verifier::opaque]
pub open spec fn agrees(o: Oracle, st: RtState) -> bool {
    &&& forall|i: int| 0 <= i < st.clock_log.len() ==> (o.clock)(i as nat) == st.clock_log[i]
    &&& forall|i: int| 0 <= i < st.random_log.len() ==> (o.random)(i as nat) == st.random_log[i]
}

/// The oracle that repeats the readings recorded in `st` and answers 0 after them.
pub open spec fn oracle_of(st: RtState) -> Oracle {
    Oracle {
        clock: |i: nat|
            if i < st.clock_log.len() {
                st.clock_log[i as int]
            } else {
                None
            },
        random: |i: nat|
            if i < st.random_log.len() {
                st.random_log[i as int]
            } else {
                0i32
            },
    }
}

pub proof fn lemma_oracle_of(st: RtState)
    ensures
        agrees(oracle_of(st), st),
{
    reveal(agrees);
}

/// Whether `b` can follow `a` in one run: the clock readings and random numbers
/// recorded in `a` are the first ones recorded in `b`, the lines printed in `a`
/// are the first ones printed in `b`, and no object of `a` is gone or unsealed
/// in `b`.
pub open spec fn state_extends(a: RtState, b: RtState) -> bool {
    &&& a.output.len() <= b.output.len()
    &&& forall|i: int| 0 <= i < a.output.len() ==> a.output[i] == b.output[i]
    &&& a.objects.len() <= b.objects.len()
    &&& a.caught <= b.caught
    &&& forall|i: int| 0 <= i < a.objects.len() && a.objects[i].sealed ==> b.objects[i].sealed
    &&& a.clock_log.len() <= b.clock_log.len()
    &&& forall|i: int| 0 <= i < a.clock_log.len() ==> a.clock_log[i] == b.clock_log[i]
    &&& a.random_log.len() <= b.random_log.len()
    &&& forall|i: int| 0 <= i < a.random_log.len() ==> a.random_log[i] == b.random_log[i]
}

pub proof fn lemma_agrees_prefix(o: Oracle, a: RtState, b: RtState)
    requires
        agrees(o, b),
        state_extends(a, b),
    ensures
        agrees(o, a),
{
    reveal(agrees);
}

pub proof fn lemma_extends_trans(a: RtState, b: RtState, c: RtState)
    requires
        state_extends(a, b),
        state_extends(b, c),
    ensures
        state_extends(a, c),
{
}

/// Whether `b` has the call stack of `a` unless a `try` caught an error in
/// between.
pub open spec fn stack_kept(a: RtState, b: RtState) -> bool {
    a.caught == b.caught ==> a.call_stack == b.call_stack
}

pub proof fn lemma_kept_trans(a: RtState, b: RtState, c: RtState)
    requires
        state_extends(a, b),
        state_extends(b, c),
        stack_kept(a, b),
        stack_kept(b, c),
    ensures
        stack_kept(a, c),
{
}

/// The state after a step and its result, or `None` where the step panics or
/// runs out of fuel.
pub type Outcome<T> = Option<(RtState, Result<T, SErr>)>;

/// `vals` put in front of the values of a successful outcome.
pub open spec fn prepend_vals(vals: Seq<SVal>, out: Outcome<Seq<SVal>>) -> Outcome<Seq<SVal>> {
    match out {
        Some((s, Ok(rest))) => Some((s, Ok(vals + rest))),
        other => other,
    }
}

/// `es` put in front of the entries of a successful outcome.
pub open spec fn prepend_entries(es: Seq<(SVal, SVal)>, out: Outcome<Seq<(SVal, SVal)>>) -> Outcome<
    Seq<(SVal, SVal)>,
> {
    match out {
        Some((s, Ok(rest))) => Some((s, Ok(es + rest))),
        other => other,
    }
}

// ---------------------------------------------------------------------------
// Kinds of expressions
// ---------------------------------------------------------------------------
/// Whether an operator yields a `Bool`.
pub open spec fn is_test_operator(op: Operator) -> bool {
    op is Equal || op is NEqual || op is LT || op is GT || op is LTE || op is GTE || op is And
        || op is Or || op is IsShape || op is NIsShape
}

/// The kind an expression was resolved to.
pub open spec fn expr_kind(e: ResolvedExpression) -> SKind
    decreases e,
{
    match e {
        ResolvedExpression::Value(_, v) => sval_kind(v@),
        ResolvedExpression::Array(_, _, k) => SKind::Array(Box::new(k@)),
        ResolvedExpression::SetOf(_, _, k) => SKind::SetOf(Box::new(k@)),
        ResolvedExpression::Dict(_, _, a, b) => SKind::Dict(Box::new(a@), Box::new(b@)),
        ResolvedExpression::Variable(_, Symbol::Local(info)) => info.kind@,
        ResolvedExpression::Variable(_, Symbol::Generic(_)) => SKind::Dyn,
        ResolvedExpression::Default(_, k) => k@,
        ResolvedExpression::StaticSingleton(_, _) => SKind::Object(seq![]),
        ResolvedExpression::ObjectInit(_, att) => SKind::Object(map_view(att.known@)),
        ResolvedExpression::StringFormat(_, _) => SKind::String,
        ResolvedExpression::UnaryOp { operator, .. } => if operator is Not {
            SKind::Bool
        } else if operator is Len {
            SKind::Number(NumKind::UInt64)
        } else {
            SKind::Number(NumKind::Int64)
        },
        ResolvedExpression::BinaryOp { left, operator, right, .. } => if is_test_operator(
            operator,
        ) {
            SKind::Bool
        } else if operator is DQuestion {
            expr_kind(*right)
        } else if operator is Range || operator is RangeLT {
            SKind::Range(NumKind::Any)
        } else {
            expr_kind(*left)
        },
        ResolvedExpression::Ternary { true_expr, .. } => expr_kind(*true_expr),
        ResolvedExpression::MemberAccess { member, .. } => member.kind@,
        ResolvedExpression::ArrayAccess { target, .. } => match expr_kind(*target) {
            SKind::Array(k) => *k,
            SKind::String => SKind::String,
            SKind::Range(_) => SKind::Number(NumKind::Int32),
            SKind::Dict(_, v) => *v,
            _ => SKind::Dyn,
        },
        ResolvedExpression::FunctionCall { target, .. } => match expr_kind(*target) {
            SKind::Function(k) => *k,
            _ => SKind::Dyn,
        },
        ResolvedExpression::Function { output_type, .. } => SKind::Function(
            Box::new(output_type.kind@),
        ),
        ResolvedExpression::Shape(_, shape) => shape.kind@,
        _ => SKind::Dyn,
    }
}

// ---------------------------------------------------------------------------
// Operators
// ---------------------------------------------------------------------------
/// What a unary operator gives for a value; `None` where it panics.
pub open spec fn unary(span: Span, op: Operator, v: SVal) -> Option<Result<SVal, SErr>> {
    match v {
        SVal::Bool(b) => if op is Not {
            Some(Ok(SVal::Bool(!b)))
        } else {
            Some(Err(SErr::InvalidOperator { span, operator: op, operand: SKind::Bool }))
        },
        SVal::Number(n) => {
            let x = num_int(n);
            if !fits(NumKind::Int64, x) {
                None
            } else {
                match op {
                    Operator::Inc => if fits(NumKind::Int64, x + 1) {
                        Some(Ok(SVal::Number(Number::Int64((x + 1) as i64))))
                    } else {
                        None
                    },
                    Operator::Dec => if fits(NumKind::Int64, x - 1) {
                        Some(Ok(SVal::Number(Number::Int64((x - 1) as i64))))
                    } else {
                        None
                    },
                    Operator::BWNot => Some(Ok(SVal::Number(Number::Int64((-1 - x) as i64)))),
                    Operator::Sub => if fits(NumKind::Int64, -x) {
                        Some(Ok(SVal::Number(Number::Int64((-x) as i64))))
                    } else {
                        None
                    },
                    _ => Some(
                        Err(
                            SErr::InvalidOperator {
                                span,
                                operator: op,
                                operand: SKind::Number(NumKind::Int32),
                            },
                        ),
                    ),
                }
            }
        },
        SVal::Str(s) => if op is Len {
            Some(Ok(SVal::Number(Number::UInt64(s.len() as u64))))
        } else {
            Some(Err(SErr::InvalidOperator { span, operator: op, operand: SKind::String }))
        },
        SVal::Array(xs, k) => if op is Len {
            Some(Ok(SVal::Number(Number::UInt64(xs.len() as u64))))
        } else {
            Some(
                Err(
                    SErr::InvalidOperator { span, operator: op, operand: SKind::Array(Box::new(k)) },
                ),
            )
        },
        SVal::SetOf(xs, k) => if op is Len {
            Some(Ok(SVal::Number(Number::UInt64(xs.len() as u64))))
        } else {
            Some(
                Err(
                    SErr::InvalidOperator { span, operator: op, operand: SKind::SetOf(Box::new(k)) },
                ),
            )
        },
        SVal::Dict(es, a, b) => if op is Len {
            Some(Ok(SVal::Number(Number::UInt64(es.len() as u64))))
        } else {
            Some(
                Err(
                    SErr::InvalidOperator {
                        span,
                        operator: op,
                        operand: SKind::Dict(Box::new(a), Box::new(b)),
                    },
                ),
            )
        },
        other => Some(Err(err(span, unary_message(op, other)))),
    }
}

/// `a & b` in the integer kind `k`.
pub open spec fn bit_and(k: NumKind, a: int, b: int) -> int {
    match k {
        NumKind::Int8 => ((a as i8) & (b as i8)) as int,
        NumKind::Int16 => ((a as i16) & (b as i16)) as int,
        NumKind::Int64 => ((a as i64) & (b as i64)) as int,
        NumKind::UInt8 => ((a as u8) & (b as u8)) as int,
        NumKind::UInt16 => ((a as u16) & (b as u16)) as int,
        NumKind::UInt32 => ((a as u32) & (b as u32)) as int,
        NumKind::UInt64 => ((a as u64) & (b as u64)) as int,
        _ => ((a as i32) & (b as i32)) as int,
    }
}

/// `a | b` in the integer kind `k`.
pub open spec fn bit_or(k: NumKind, a: int, b: int) -> int {
    match k {
        NumKind::Int8 => ((a as i8) | (b as i8)) as int,
        NumKind::Int16 => ((a as i16) | (b as i16)) as int,
        NumKind::Int64 => ((a as i64) | (b as i64)) as int,
        NumKind::UInt8 => ((a as u8) | (b as u8)) as int,
        NumKind::UInt16 => ((a as u16) | (b as u16)) as int,
        NumKind::UInt32 => ((a as u32) | (b as u32)) as int,
        NumKind::UInt64 => ((a as u64) | (b as u64)) as int,
        _ => ((a as i32) | (b as i32)) as int,
    }
}

/// `a ^ b` in the integer kind `k`.
pub open spec fn bit_xor(k: NumKind, a: int, b: int) -> int {
    match k {
        NumKind::Int8 => ((a as i8) ^ (b as i8)) as int,
        NumKind::Int16 => ((a as i16) ^ (b as i16)) as int,
        NumKind::Int64 => ((a as i64) ^ (b as i64)) as int,
        NumKind::UInt8 => ((a as u8) ^ (b as u8)) as int,
        NumKind::UInt16 => ((a as u16) ^ (b as u16)) as int,
        NumKind::UInt32 => ((a as u32) ^ (b as u32)) as int,
        NumKind::UInt64 => ((a as u64) ^ (b as u64)) as int,
        _ => ((a as i32) ^ (b as i32)) as int,
    }
}

/// `a << s` in the integer kind `k`, bits shifted out being lost.
pub open spec fn shift_left(k: NumKind, a: int, s: int) -> int {
    match k {
        NumKind::Int8 => ((a as i8) << (s as u32)) as int,
        NumKind::Int16 => ((a as i16) << (s as u32)) as int,
        NumKind::Int64 => ((a as i64) << (s as u32)) as int,
        NumKind::UInt8 => ((a as u8) << (s as u32)) as int,
        NumKind::UInt16 => ((a as u16) << (s as u32)) as int,
        NumKind::UInt32 => ((a as u32) << (s as u32)) as int,
        NumKind::UInt64 => ((a as u64) << (s as u32)) as int,
        _ => ((a as i32) << (s as u32)) as int,
    }
}

/// `a >> s` in the integer kind `k` (arithmetic for signed kinds).
pub open spec fn shift_right(k: NumKind, a: int, s: int) -> int {
    match k {
        NumKind::Int8 => ((a as i8) >> (s as u32)) as int,
        NumKind::Int16 => ((a as i16) >> (s as u32)) as int,
        NumKind::Int64 => ((a as i64) >> (s as u32)) as int,
        NumKind::UInt8 => ((a as u8) >> (s as u32)) as int,
        NumKind::UInt16 => ((a as u16) >> (s as u32)) as int,
        NumKind::UInt32 => ((a as u32) >> (s as u32)) as int,
        NumKind::UInt64 => ((a as u64) >> (s as u32)) as int,
        _ => ((a as i32) >> (s as u32)) as int,
    }
}

/// The range value from `from` to `to`: a signed start steps by 1 towards an
/// end that is not below it and by -1 otherwise; any other start steps by 1.
pub open spec fn create_range_spec(from: Number, to: Number, inclusive: bool) -> SVal {
    let kind = num_kind(from);
    let by: i32 = if kind is Int8 || kind is Int16 || kind is Int32 || kind is Int64 {
        if fits(NumKind::Int64, num_int(to)) && num_int(from) <= num_int(to) {
            1i32
        } else {
            -1i32
        }
    } else {
        1i32
    };
    SVal::Range(from, to, Number::Any(by), inclusive, kind)
}

/// A number of the integer kind `k` holding `v`, or a panic when `v` overflows it.
pub open spec fn num_result(k: NumKind, v: int) -> Option<Result<SVal, SErr>> {
    if fits(k, v) {
        Some(Ok(SVal::Number(make_num(k, v))))
    } else {
        None
    }
}

/// What a binary operator gives for two integers of the machine kind `k`;
/// `None` where Rust's arithmetic panics (overflow, division by zero, a shift
/// by at least the width).
pub open spec fn int_binop(span: Span, op: Operator, k: NumKind, a: int, b: int) -> Option<
    Result<SVal, SErr>,
> {
    match op {
        Operator::Equal => Some(Ok(SVal::Bool(a == b))),
        Operator::NEqual => Some(Ok(SVal::Bool(a != b))),
        Operator::LT => Some(Ok(SVal::Bool(a < b))),
        Operator::GT => Some(Ok(SVal::Bool(a > b))),
        Operator::LTE => Some(Ok(SVal::Bool(a <= b))),
        Operator::GTE => Some(Ok(SVal::Bool(a >= b))),
        Operator::Add => num_result(k, a + b),
        Operator::Sub => num_result(k, a - b),
        Operator::Mul => num_result(k, a * b),
        Operator::Div => if b == 0 {
            None
        } else {
            num_result(k, trunc_div(a, b))
        },
        Operator::Mod => if b == 0 || !fits(k, trunc_div(a, b)) {
            None
        } else {
            num_result(k, a - b * trunc_div(a, b))
        },
        Operator::BWAnd => num_result(k, bit_and(k, a, b)),
        Operator::BWOr => num_result(k, bit_or(k, a, b)),
        Operator::BWXor => num_result(k, bit_xor(k, a, b)),
        Operator::BWShiftL => if 0 <= b < kind_bits(k) {
            num_result(k, shift_left(k, a, b))
        } else {
            None
        },
        Operator::BWShiftR => if 0 <= b < kind_bits(k) {
            num_result(k, shift_right(k, a, b))
        } else {
            None
        },
        Operator::Range => Some(Ok(create_range_spec(make_num(k, a), make_num(k, b), true))),
        Operator::RangeLT => Some(Ok(create_range_spec(make_num(k, a), make_num(k, b), false))),
        _ => Some(
            Err(
                SErr::InvalidOperator { span, operator: op, operand: SKind::Number(NumKind::Any) },
            ),
        ),
    }
}

/// A binary operator on two numbers: both are brought to the promoted kind
/// (a panic when one does not fit it) and combined there.
pub open spec fn number_binop(span: Span, op: Operator, l: Number, r: Number) -> Option<
    Result<SVal, SErr>,
> {
    let kind = promote_spec(num_kind(l), num_kind(r));
    if !is_int_kind(kind) {
        Some(
            Err(
                err(
                    span,
                    "Couldnt do number conversion: "@ + number_text(l) + " to "@ + number_text(r),
                ),
            ),
        )
    } else {
        let k = machine_kind(kind);
        if !fits(k, num_int(l)) || !fits(k, num_int(r)) {
            None
        } else {
            int_binop(span, op, k, num_int(l), num_int(r))
        }
    }
}

/// The value a function returns, converted to its declared kind: a number
/// moves to a declared integer kind (a panic when it does not fit there);
/// anything else is kept.
pub open spec fn convert(v: SVal, k: SKind) -> Option<SVal> {
    match (v, k) {
        (SVal::Number(n), SKind::Number(t)) => if is_int_kind(t) && !(t is Any) {
            if fits(t, num_int(n)) {
                Some(SVal::Number(make_num(t, num_int(n))))
            } else {
                None
            }
        } else {
            Some(v)
        },
        _ => Some(v),
    }
}

// ---------------------------------------------------------------------------
// Collections
// ---------------------------------------------------------------------------
/// The values with later duplicates dropped: each value is kept where it first occurs.
pub open spec fn dedup(vs: Seq<SVal>) -> Seq<SVal>
    decreases vs.len(),
{
    if vs.len() == 0 {
        seq![]
    } else {
        let rest = dedup(vs.drop_last());
        if exists|i: int| 0 <= i < rest.len() && same_value(rest[i], vs.last()) {
            rest
        } else {
            rest.push(vs.last())
        }
    }
}

/// The entries inserted one after another into a map: a key seen before keeps
/// its place and takes the new value.
pub open spec fn dict_insert_all(es: Seq<(SVal, SVal)>) -> Seq<(SVal, SVal)>
    decreases es.len(),
{
    if es.len() == 0 {
        seq![]
    } else {
        let rest = dict_insert_all(es.drop_last());
        let k = es.last().0;
        if exists|i: int| first_key(rest, k, i) {
            let i = choose|i: int| first_key(rest, k, i);
            rest.update(i, (rest[i].0, es.last().1))
        } else {
            rest.push(es.last())
        }
    }
}

/// Whether `i` is the first position of `es` whose key equals `k`.
pub open spec fn first_key(es: Seq<(SVal, SVal)>, k: SVal, i: int) -> bool {
    &&& 0 <= i < es.len()
    &&& same_value(es[i].0, k)
    &&& forall|j: int| 0 <= j < i ==> !same_value(#[trigger] es[j].0, k)
}

/// The text of string-format pieces: strings as they are, other values rendered.
pub open spec fn format_text(vs: Seq<SVal>) -> Seq<char>
    decreases vs.len(),
{
    if vs.len() == 0 {
        seq![]
    } else {
        format_text(vs.drop_last()) + match vs.last() {
            SVal::Str(s) => s,
            other => render(other),
        }
    }
}

// ---------------------------------------------------------------------------
// Objects
// ---------------------------------------------------------------------------
/// Creates an object and attaches shape `base` (whose kind is `base_kind`) to it.
pub open spec fn init_object(
    st: RtState,
    span: Span,
    base: ShapeId,
    base_kind: SKind,
    defaults: Seq<(AzimuthId, SVal)>,
    maps: Seq<(AzimuthId, AzimuthId)>,
) -> Outcome<SVal> {
    if st.objects.len() >= usize::MAX {
        None
    } else {
        let id = st.objects.len() as usize;
        let s1 = st_create_object(st, next_object_name(st));
        if base >= s1.shapes.len() {
            Some((s1, Err(err(span, "Shape not found: "@ + shape_kind_text(base_kind)))))
        } else {
            let known = seq![base_kind] + s1.shapes[base as int].parents;
            match st_attach(s1, id, base, defaults, maps) {
                SOpResult::Done(s2) => Some((s2, Ok(SVal::Object(id, SKind::Object(known))))),
                SOpResult::Failed(s2, m) => Some((s2, Err(err(span, m)))),
            }
        }
    }
}

/// The default value of a kind.
pub open spec fn default_value(st: RtState, span: Span, k: SKind) -> Outcome<SVal> {
    match k {
        SKind::String => Some((st, Ok(SVal::Str(seq![])))),
        SKind::Bool => Some((st, Ok(SVal::Bool(false)))),
        SKind::Nil => Some((st, Ok(SVal::Nil))),
        SKind::Number(nk) => if is_int_kind(nk) && !(nk is Any) {
            Some((st, Ok(SVal::Number(make_num(nk, 0)))))
        } else {
            Some((st, Err(err(span, "Could not determine default for "@ + kind_text(k)))))
        },
        SKind::Array(b) => Some((st, Ok(SVal::Array(seq![], *b)))),
        SKind::SetOf(b) => Some((st, Ok(SVal::SetOf(seq![], *b)))),
        SKind::Dict(a, b) => Some((st, Ok(SVal::Dict(seq![], *a, *b)))),
        SKind::Option(_) => Some((st, Ok(SVal::Nil))),
        SKind::Object(_) => init_object(st, span, 0, SKind::Shape(0, seq![]), seq![], seq![]),
        SKind::Shape(id, gens) => init_object(st, span, id, SKind::Shape(id, gens), seq![], seq![]),
        _ => Some((st, Err(err(span, "Could not determine default for "@ + kind_text(k))))),
    }
}

// ---------------------------------------------------------------------------
// Calls
// ---------------------------------------------------------------------------
/// Binds each parameter that names a local to the argument at its position.
pub open spec fn bind_params(st: RtState, inputs: Seq<SParam>, params: Seq<SVal>) -> RtState
    decreases inputs.len(),
{
    if inputs.len() == 0 || params.len() == 0 {
        st
    } else {
        let s1 = match inputs[0].local {
            Some(id) => st_reserve_local(st, id, params[0]),
            None => st,
        };
        bind_params(s1, inputs.drop_first(), params.drop_first())
    }
}

/// Takes one more reference to each local of `ids`.
pub open spec fn ref_locals(st: RtState, ids: Seq<LocalId>) -> RtState
    decreases ids.len(),
{
    if ids.len() == 0 {
        st
    } else {
        ref_locals(st_ref_local(st, ids[0]), ids.drop_first())
    }
}

/// Drops one reference to each local a parameter names.
pub open spec fn unbind_params(st: RtState, inputs: Seq<SParam>) -> RtState
    decreases inputs.len(),
{
    if inputs.len() == 0 {
        st
    } else {
        let s1 = match inputs[0].local {
            Some(id) => st_deref_local(st, id),
            None => st,
        };
        unbind_params(s1, inputs.drop_first())
    }
}

/// Enters a script function: binds the parameters, references the captures and
/// pushes a frame; a panic when there are fewer arguments than parameters.
pub open spec fn enter_call(st: RtState, f: SFunc, params: Seq<SVal>, span: Span) -> Option<RtState> {
    if f.inputs.len() > params.len() {
        None
    } else {
        Some(
            st_push_frame(
                ref_locals(bind_params(st, f.inputs, params), f.captures),
                SFrame { id: f.id, span, arguments: params },
            ),
        )
    }
}

/// Leaves a script function whose body finished with `flow`.
pub open spec fn finish_call(st: RtState, f: SFunc, span: Span, flow: SFlow) -> Outcome<SVal> {
    match flow {
        SFlow::Error { span: s, message } => Some((st, Err(SErr::Throw { span: s, message }))),
        SFlow::Return(s, v) => if !assignable(sval_kind(v), f.output) {
            Some((st, Err(SErr::TypeMismatch { span: s, found: v, expected: f.output })))
        } else {
            let s1 = match v {
                SVal::Object(id, _) => st_ref_obj(st, id),
                _ => st,
            };
            let s2 = st_pop_frame(st_deref_locals(unbind_params(s1, f.inputs), f.captures));
            match convert(v, f.output) {
                Some(c) => Some((s2, Ok(c))),
                None => None,
            }
        },
        SFlow::Normal(s) => if f.output != SKind::Nil {
            Some((st, Err(err(s, "No value returned, expected "@ + kind_text(f.output)))))
        } else {
            Some((st_pop_frame(unbind_params(st, f.inputs)), Ok(SVal::Nil)))
        },
        _ => Some((st, Err(err(span, "No value returned, expected "@ + kind_text(f.output))))),
    }
}

// ---------------------------------------------------------------------------
// Ranges and iteration
// ---------------------------------------------------------------------------
/// The items a `for` loop runs over; `None` where collecting them panics.
pub open spec fn for_items(span: Span, v: SVal) -> Option<Result<Seq<SVal>, SErr>> {
    match v {
        SVal::SetOf(xs, _) => Some(Ok(xs)),
        SVal::Array(xs, _) => Some(Ok(xs)),
        SVal::Str(s) => {
            let bytes = vstd::utf8::encode_utf8(s);
            Some(Ok(Seq::new(bytes.len(), |i: int| SVal::Str(seq![bytes[i] as char]))))
        },
        SVal::Range(start, end, by, inclusive, kind) => match range_items(
            start,
            end,
            by,
            inclusive,
            kind,
        ) {
            Some(xs) => Some(Ok(xs)),
            None => None,
        },
        other => Some(Err(err(span, value_debug(other) + " is not iterable"@))),
    }
}

/// The numbers a range runs through in a `for` loop: over `u64` for an
/// unsigned range and over `i64` otherwise, stepping by `by as usize` upwards
/// or, for a signed range that runs down, by `by` itself; `None` where a
/// conversion, the step or the count computation panics.
pub open spec fn range_items(start: Number, end: Number, by: Number, inclusive: bool, kind: NumKind) -> Option<
    Seq<SVal>,
> {
    let (a, b, c) = (num_int(start), num_int(end), num_int(by));
    if kind is UInt8 || kind is UInt16 || kind is UInt32 || kind is UInt64 {
        if !fits(NumKind::UInt64, a) || !fits(NumKind::UInt64, b) || !fits(NumKind::UInt64, c) {
            None
        } else {
            let step = ((c as u64) as usize) as int;
            if step == 0 {
                None
            } else {
                let n = step_count(a, b, step, inclusive);
                Some(Seq::new(n as nat, |i: int| SVal::Number(Number::UInt64((a + i * step) as u64))))
            }
        }
    } else if !fits(NumKind::Int64, a) || !fits(NumKind::Int64, b) || !fits(NumKind::Int64, c) {
        None
    } else if a <= b {
        let step = ((c as i64) as usize) as int;
        if step == 0 {
            None
        } else {
            let n = step_count(a, b, step, inclusive);
            Some(Seq::new(n as nat, |i: int| SVal::Number(Number::Int64((a + i * step) as i64))))
        }
    } else if !fits(NumKind::Int64, a - b) || c == 0 || !fits(NumKind::Int64, -c) {
        None
    } else {
        let q = trunc_div(a - b, -c);
        let n: int = if inclusive {
            if q < 0 {
                0
            } else {
                q + 1
            }
        } else if q < 0 {
            0
        } else {
            q
        };
        Some(Seq::new(n as nat, |i: int| SVal::Number(Number::Int64((a + i * c) as i64))))
    }
}

/// How many of `a, a + step, ...` lie up to `b` (inclusive) or below `b`.
pub open spec fn step_count(a: int, b: int, step: int, inclusive: bool) -> int {
    if inclusive {
        if a > b {
            0
        } else {
            (b - a) / step + 1
        }
    } else if a >= b {
        0
    } else {
        (b - a - 1) / step + 1
    }
}

/// Whether a condition of static kind `k` with value `v` holds: `Some(b)` for
/// a `Bool` condition or an option (present or `Nil`), `None` otherwise.
pub open spec fn condition_holds(k: SKind, v: SVal) -> Option<bool> {
    match (k, v) {
        (SKind::Bool, SVal::Bool(b)) => Some(b),
        (SKind::Option(_), SVal::Nil) => Some(false),
        (SKind::Option(_), _) => Some(true),
        _ => None,
    }
}

/// How the branches of a `switch` ended: all were tried (and whether one
/// fell through), or one left with a flow.
pub enum SwitchEnd {
    Done(bool),
    Exit(SFlow),
}

// ---------------------------------------------------------------------------
// Evaluation
// ---------------------------------------------------------------------------
/// Evaluates the expressions left to right; the first error stops.
pub open spec fn eval_list(fuel: nat, o: Oracle, st: RtState, es: Seq<ResolvedExpression>) -> Outcome<
    Seq<SVal>,
>
    decreases fuel, es, 0nat,
{
    if es.len() == 0 {
        Some((st, Ok(seq![])))
    } else {
        match eval(fuel, o, st, es[0]) {
            None => None,
            Some((s1, Err(x))) => Some((s1, Err(x))),
            Some((s1, Ok(v))) => match eval_list(fuel, o, s1, es.drop_first()) {
                None => None,
                Some((s2, Err(x))) => Some((s2, Err(x))),
                Some((s2, Ok(vs))) => Some((s2, Ok(seq![v] + vs))),
            },
        }
    }
}

/// Evaluates the key and value of each entry, left to right.
pub open spec fn eval_entries(
    fuel: nat,
    o: Oracle,
    st: RtState,
    es: Seq<(ResolvedExpression, ResolvedExpression)>,
) -> Outcome<Seq<(SVal, SVal)>>
    decreases fuel, es, 0nat,
{
    if es.len() == 0 {
        Some((st, Ok(seq![])))
    } else {
        match eval(fuel, o, st, es[0].0) {
            None => None,
            Some((s1, Err(x))) => Some((s1, Err(x))),
            Some((s1, Ok(k))) => match eval(fuel, o, s1, es[0].1) {
                None => None,
                Some((s2, Err(x))) => Some((s2, Err(x))),
                Some((s2, Ok(v))) => match eval_entries(fuel, o, s2, es.drop_first()) {
                    None => None,
                    Some((s3, Err(x))) => Some((s3, Err(x))),
                    Some((s3, Ok(rest))) => Some((s3, Ok(seq![(k, v)] + rest))),
                },
            },
        }
    }
}

/// What evaluating `e` does.
pub open spec fn eval(fuel: nat, o: Oracle, st: RtState, e: ResolvedExpression) -> Outcome<SVal>
    decreases fuel, e, 2nat,
{
    match e {
        ResolvedExpression::Value(_, v) => Some((st, Ok(v@))),
        ResolvedExpression::Array(_, items, k) => match eval_list(fuel, o, st, items@) {
            None => None,
            Some((s1, Err(x))) => Some((s1, Err(x))),
            Some((s1, Ok(vs))) => Some((s1, Ok(SVal::Array(vs, k@)))),
        },
        ResolvedExpression::SetOf(_, items, k) => match eval_list(fuel, o, st, items@) {
            None => None,
            Some((s1, Err(x))) => Some((s1, Err(x))),
            Some((s1, Ok(vs))) => Some((s1, Ok(SVal::SetOf(dedup(vs), k@)))),
        },
        ResolvedExpression::Dict(_, entries, kk, vk) => match eval_entries(
            fuel,
            o,
            st,
            entries@,
        ) {
            None => None,
            Some((s1, Err(x))) => Some((s1, Err(x))),
            Some((s1, Ok(es))) => Some((s1, Ok(SVal::Dict(dict_insert_all(es), kk@, vk@)))),
        },
        ResolvedExpression::Variable(span, Symbol::Generic(g)) => Some(
            (st, Err(err(span, "Somehow generic made it through: "@ + dec_nat(g as nat)))),
        ),
        ResolvedExpression::Variable(span, Symbol::Local(info)) => match local_value(st, info.id) {
            Some(v) => Some((st, Ok(v))),
            None => Some((st, Err(err(span, "Missing local: "@ + local_info_text(info.id, info.kind@))))),
        },
        ResolvedExpression::Default(span, k) => default_value(st, span, k@),
        ResolvedExpression::StaticSingleton(span, id) => if id >= st.shapes.len() {
            Some((st, Err(err(span, "No shape found for static id: "@ + dec_nat(id as nat)))))
        } else {
            match st.shapes[id as int].static_id {
                None => Some(
                    (
                        st,
                        Err(
                            err(
                                span,
                                "\""@ + escaped(st.shapes[id as int].name) + "\" does not have static singleton"@,
                            ),
                        ),
                    ),
                ),
                Some(oid) => Some((st, Ok(SVal::Object(oid, SKind::Object(seq![]))))),
            }
        },
        ResolvedExpression::Option(_, _) => None,
        ResolvedExpression::Shape(_, _) => None,
        ResolvedExpression::Reflection(_, _) => None,
        ResolvedExpression::ObjectInit(span, att) => init_object(
            st,
            span,
            att.base.id,
            kind_view(ValueKind::Shape(att.base)),
            map_view(att.defaults@),
            att.mappings@,
        ),
        ResolvedExpression::StringFormat(_, items) => match eval_list(fuel, o, st, items@) {
            None => None,
            Some((s1, Err(x))) => Some((s1, Err(x))),
            Some((s1, Ok(vs))) => Some((s1, Ok(SVal::Str(format_text(vs))))),
        },
        ResolvedExpression::UnaryOp { span, operator, operand } => match eval(
            fuel,
            o,
            st,
            *operand,
        ) {
            None => None,
            Some((s1, Err(x))) => Some((s1, Err(x))),
            Some((s1, Ok(v))) => match unary(span, operator, v) {
                None => None,
                Some(r) => Some((s1, r)),
            },
        },
        ResolvedExpression::BinaryOp { .. } => eval_binary(fuel, o, st, e),
        ResolvedExpression::Ternary { span, condition, true_expr, else_expr } => match eval(
            fuel,
            o,
            st,
            *condition,
        ) {
            None => None,
            Some((s1, Err(x))) => Some((s1, Err(x))),
            Some((s1, Ok(c))) => match c {
                SVal::Bool(b) => if b {
                    eval(fuel, o, s1, *true_expr)
                } else {
                    eval(fuel, o, s1, *else_expr)
                },
                _ => Some((s1, Err(SErr::TypeMismatch { span, found: c, expected: SKind::Bool }))),
            },
        },
        ResolvedExpression::MemberAccess { .. } => eval_member(fuel, o, st, e),
        ResolvedExpression::ArrayAccess { .. } => eval_index(fuel, o, st, e),
        ResolvedExpression::FunctionCall { .. } => eval_call(fuel, o, st, e),
        ResolvedExpression::Function { has_self, input_types, output_type, func, captures, .. } => {
            let f = SFunc {
                id: 0,
                has_self,
                inputs: Seq::new(
                    input_types@.len(),
                    |i: int| SParam { kind: input_types@[i].shape.kind@, local: input_types@[i].local },
                ),
                output: output_type.kind@,
                body: *func,
                captures: captures@,
            };
            Some((st, Ok(SVal::Function(f))))
        },
    }
}

/// Whether a binary operation with left value `lv` and right operand of kind
/// `rk` evaluates its right operand.
pub open spec fn needs_right(op: Operator, lv: SVal, rk: SKind) -> bool {
    if op is DQuestion {
        sval_kind(lv) is Nil
    } else if lv is Bool && rk is Bool {
        let l = lv->Bool_0;
        (op is Equal || op is NEqual || op is And || op is Or) && !((op is And && !l) || (op
            is Or && l))
    } else if lv is Number && assignable(rk, SKind::Number(NumKind::Any)) {
        true
    } else if lv is Str && rk is String {
        true
    } else {
        op is Equal || op is NEqual
    }
}

/// The result of a binary operation that does not evaluate its right operand;
/// `st` is the state after the left operand.
pub open spec fn without_right(st: RtState, span: Span, op: Operator, lv: SVal, rk: SKind) -> Result<
    SVal,
    SErr,
> {
    if op is DQuestion {
        Ok(lv)
    } else if lv is Bool && rk is Bool {
        if op is Equal || op is NEqual || op is And || op is Or {
            Ok(lv)
        } else {
            Err(SErr::InvalidOperator { span, operator: op, operand: SKind::Bool })
        }
    } else if lv is Object && rk is Shape {
        if op is IsShape {
            Ok(SVal::Bool(has_shape(st, lv->Object_0, rk->Shape_0)))
        } else if op is NIsShape {
            Ok(SVal::Bool(!has_shape(st, lv->Object_0, rk->Shape_0)))
        } else {
            Err(SErr::InvalidOperator { span, operator: op, operand: rk })
        }
    } else {
        Err(err(span, binary_message(lv, op, rk)))
    }
}

/// The result of a binary operation from both operand values; `None` where
/// the right value is not of the kind the right operand was resolved to.
pub open spec fn with_right(span: Span, op: Operator, lv: SVal, rk: SKind, rv: SVal) -> Option<
    Result<SVal, SErr>,
> {
    if op is DQuestion {
        Some(Ok(rv))
    } else if lv is Bool && rk is Bool {
        let l = lv->Bool_0;
        match rv {
            SVal::Bool(r) => Some(
                Ok(
                    SVal::Bool(
                        if op is Equal {
                            l == r
                        } else if op is NEqual {
                            l != r
                        } else {
                            r
                        },
                    ),
                ),
            ),
            _ => None,
        }
    } else if lv is Number && assignable(rk, SKind::Number(NumKind::Any)) {
        match rv {
            SVal::Number(r) => number_binop(span, op, lv->Number_0, r),
            _ => None,
        }
    } else if lv is Str && rk is String {
        let l = lv->Str_0;
        match rv {
            SVal::Str(r) => if op is Equal {
                Some(Ok(SVal::Bool(l == r)))
            } else if op is NEqual {
                Some(Ok(SVal::Bool(l != r)))
            } else if op is Add {
                Some(Ok(SVal::Str(l + r)))
            } else {
                Some(Err(SErr::InvalidOperator { span, operator: op, operand: SKind::String }))
            },
            _ => None,
        }
    } else {
        Some(Ok(SVal::Bool(if op is Equal {
            same_value(lv, rv)
        } else {
            !same_value(lv, rv)
        })))
    }
}

/// What evaluating a binary operation does: the left operand, then the right
/// one where the operation needs it (`&&` and `||` short-circuit, `??` only
/// looks right of a `Nil`).
pub open spec fn eval_binary(fuel: nat, o: Oracle, st: RtState, e: ResolvedExpression) -> Outcome<SVal>
    decreases fuel, e, 1nat,
{
    match e {
        ResolvedExpression::BinaryOp { span, left, operator, right } => match eval(
            fuel,
            o,
            st,
            *left,
        ) {
            None => None,
            Some((s1, Err(x))) => Some((s1, Err(x))),
            Some((s1, Ok(lv))) => {
                let rk = expr_kind(*right);
                if needs_right(operator, lv, rk) {
                    match eval(fuel, o, s1, *right) {
                        None => None,
                        Some((s2, Err(x))) => Some((s2, Err(x))),
                        Some((s2, Ok(rv))) => match with_right(span, operator, lv, rk, rv) {
                            None => None,
                            Some(res) => Some((s2, res)),
                        },
                    }
                } else {
                    Some((s1, without_right(s1, span, operator, lv, rk)))
                }
            },
        },
        _ => None,
    }
}

/// What evaluating a member access does.
pub open spec fn eval_member(fuel: nat, o: Oracle, st: RtState, e: ResolvedExpression) -> Outcome<SVal>
    decreases fuel, e, 1nat,
{
    match e {
        ResolvedExpression::MemberAccess { span, target, member, optional, chained } => match eval(
            fuel,
            o,
            st,
            *target,
        ) {
            None => None,
            Some((s1, Err(x))) => Some((s1, Err(x))),
            Some((s1, Ok(t))) => {
                let oid: Option<ObjectIdOrNil> = match t {
                    SVal::Object(id, _) => Some(ObjectIdOrNil::Id(id)),
                    SVal::Nil if chained => Some(ObjectIdOrNil::Nil),
                    other => match static_object(s1, sval_kind(other)) {
                        Some(id) => Some(ObjectIdOrNil::Id(id)),
                        None => None,
                    },
                };
                match oid {
                    None => Some(
                        (
                            s1,
                            Err(
                                err(
                                    span,
                                    "Member access not permitted for "@ + value_debug(t) + "."@
                                        + member_info_text(member.id, member.name@, member.kind@),
                                ),
                            ),
                        ),
                    ),
                    Some(ObjectIdOrNil::Nil) => Some((s1, Ok(SVal::Nil))),
                    Some(ObjectIdOrNil::Id(id)) => match slot_value(s1, id, member.id) {
                        Some(v) => Some((s1, Ok(v))),
                        None => if optional {
                            Some((s1, Ok(SVal::Nil)))
                        } else {
                            Some((s1, Err(err(span, member_message(member.name@, id)))))
                        },
                    },
                }
            },
        },
        _ => None,
    }
}

/// The object a member access reads from, or `Nil` when a chained access
/// reached `Nil`.
pub enum ObjectIdOrNil {
    Id(usize),
    Nil,
}

/// The position an index selects in a sequence of length `len`: a negative
/// index counts from the end.
pub open spec fn array_position(len: nat, idx: int) -> int {
    if idx < 0 {
        len + idx
    } else {
        idx
    }
}

/// What an index access gives for a target value and an index value.
pub open spec fn index_result(span: Span, t: SVal, i: SVal, optional: bool, chained: bool) -> Option<
    Result<SVal, SErr>,
> {
    match (t, i) {
        (SVal::Array(xs, _), SVal::Number(n)) => if !fits(NumKind::Int64, num_int(n)) {
            None
        } else {
            let p = array_position(xs.len(), num_int(n));
            if 0 <= p < xs.len() {
                Some(Ok(xs[p]))
            } else if optional {
                Some(Ok(SVal::Nil))
            } else {
                Some(Err(err(span, array_bounds_message(num_int(n), xs.len()))))
            }
        },
        (SVal::Str(s), SVal::Number(n)) => if !fits(NumKind::UInt64, num_int(n)) {
            None
        } else {
            let p = num_int(n);
            if p < s.len() {
                Some(Ok(SVal::Str(seq![s[p]])))
            } else if optional {
                Some(Ok(SVal::Nil))
            } else if s.len() == 0 {
                None
            } else {
                Some(Err(err(span, bounds_message(number_text(n), s.len() - 1))))
            }
        },
        (SVal::Range(start, end, by, inclusive, _), SVal::Number(n)) => {
            let (a, b, c, x) = (
                num_int(start),
                num_int(end),
                num_int(by),
                num_int(n),
            );
            if !fits(NumKind::Int32, a) || !fits(NumKind::Int32, b)
                || !fits(NumKind::Int32, c) || !fits(NumKind::Int32, x)
                || !fits(NumKind::Int32, c * x) || !fits(
                NumKind::Int32,
                a + c * x,
            ) {
                None
            } else {
                let num = a + c * x;
                if (inclusive && num >= b) || num > b {
                    Some(Err(err(span, bounds_message(dec_int(x), b))))
                } else {
                    Some(Ok(SVal::Number(Number::Int32(num as i32))))
                }
            }
        },
        (SVal::Nil, _) if chained => Some(Ok(SVal::Nil)),
        _ => Some(
            Err(err(span, "Array access not permitted for "@ + value_debug(t) + "."@ + value_debug(i))),
        ),
    }
}

/// What evaluating an index access does.
pub open spec fn eval_index(fuel: nat, o: Oracle, st: RtState, e: ResolvedExpression) -> Outcome<SVal>
    decreases fuel, e, 1nat,
{
    match e {
        ResolvedExpression::ArrayAccess { span, target, index, optional, chained } => match eval(
            fuel,
            o,
            st,
            *target,
        ) {
            None => None,
            Some((s1, Err(x))) => Some((s1, Err(x))),
            Some((s1, Ok(t))) => match eval(fuel, o, s1, *index) {
                None => None,
                Some((s2, Err(x))) => Some((s2, Err(x))),
                Some((s2, Ok(i))) => match index_result(span, t, i, optional, chained) {
                    None => None,
                    Some(r) => Some((s2, r)),
                },
            },
        },
        _ => None,
    }
}

/// Calls function `f` with the evaluated `params`; `w` only measures the call.
pub open spec fn invoke(
    fuel: nat,
    o: Oracle,
    st: RtState,
    span: Span,
    f: SFunc,
    params: Seq<SVal>,
    w: Seq<ResolvedExpression>,
) -> Outcome<SVal>
    decreases fuel, w, 0nat,
{
    match f.body {
        None => Some((st, Err(err(span, "Abstract method run without body"@)))),
        Some(ResolvedFunctionBody::Intrinsic(op)) => intrinsic_call(o, st, op, span, params),
        Some(ResolvedFunctionBody::Script(body)) => match enter_call(st, f, params, span) {
            None => None,
            Some(s1) => if fuel == 0 {
                None
            } else {
                match exec_stmt((fuel - 1) as nat, o, s1, body) {
                    None => None,
                    Some((s2, Err(x))) => Some((s2, Err(x))),
                    Some((s2, Ok(flow))) => finish_call(s2, f, span, flow),
                }
            },
        },
    }
}

/// Evaluates the arguments and calls the value `callee` found in a function chain.
pub open spec fn call_callee(
    fuel: nat,
    o: Oracle,
    st: RtState,
    span: Span,
    callee: SVal,
    args: Seq<ResolvedExpression>,
    chained: bool,
) -> Outcome<SVal>
    decreases fuel, args, 1nat,
{
    match eval_list(fuel, o, st, args) {
        None => None,
        Some((s1, Err(x))) => Some((s1, Err(x))),
        Some((s1, Ok(params))) => match callee {
            SVal::Function(f) => invoke(fuel, o, s1, span, f, params, args),
            SVal::FunctionChain(_, _) => Some(
                (s1, Err(err(span, "FUCK 1"@))),
            ),
            SVal::Nil if chained => Some((s1, Ok(SVal::Nil))),
            other => Some((s1, Err(err(span, value_debug(other) + " is not a function or function chain"@)))),
        },
    }
}

/// Calls the functions of a chain on object `obj` one after another; the
/// value is that of the last call (`last` before any).
pub open spec fn chain_loop(
    fuel: nat,
    o: Oracle,
    st: RtState,
    span: Span,
    obj: usize,
    maps: Seq<MappingTo>,
    kind: SKind,
    args: Seq<ResolvedExpression>,
    chained: bool,
    last: SVal,
) -> Outcome<SVal>
    decreases fuel, maps, 0nat,
{
    if maps.len() == 0 {
        Some((st, Ok(last)))
    } else {
        let found: Outcome<Option<SVal>> = match maps[0] {
            MappingTo::Slot(az) => if obj >= st.objects.len() {
                None
            } else {
                match slot_value(st, obj, az) {
                    Some(v) => Some((st, Ok(Some(v)))),
                    None => None,
                }
            },
            MappingTo::Link(other, az) => Some((st, Ok(slot_value(st, other, az)))),
            MappingTo::Mapped(az) => Some((st, Ok(slot_value(st, obj, az)))),
            MappingTo::Chain(inner, _) => Some((st, Ok(Some(SVal::FunctionChain((*inner)@, kind))))),
            MappingTo::Expression(expr) => match eval_place(fuel, o, st, *expr) {
                None => None,
                Some((s1, Err(x))) => Some((s1, Err(x))),
                Some((s1, Ok(v))) => Some((s1, Ok(Some(v)))),
            },
        };
        match found {
            None => None,
            Some((s1, Err(x))) => Some((s1, Err(x))),
            Some((s1, Ok(None))) => Some((s1, Err(err(span, "FUCK 3"@)))),
            Some((s1, Ok(Some(fv)))) => if fuel == 0 {
                None
            } else {
                match call_callee((fuel - 1) as nat, o, s1, span, fv, args, chained) {
                    None => None,
                    Some((s2, Err(x))) => Some((s2, Err(x))),
                    Some((s2, Ok(v))) => chain_loop(
                        fuel,
                        o,
                        s2,
                        span,
                        obj,
                        maps.drop_first(),
                        kind,
                        args,
                        chained,
                        v,
                    ),
                }
            },
        }
    }
}

/// Calls the function chain `maps` found in member `target` of an object:
/// the object is evaluated again and each function of the chain is called on it.
pub open spec fn chain_call(
    fuel: nat,
    o: Oracle,
    st: RtState,
    span: Span,
    target: ResolvedExpression,
    maps: Seq<MappingTo>,
    kind: SKind,
    args: Seq<ResolvedExpression>,
    chained: bool,
) -> Outcome<SVal>
    decreases fuel, target, 0nat,
{
    match target {
        ResolvedExpression::MemberAccess { target: t, .. } => match eval(fuel, o, st, *t) {
            None => None,
            Some((s1, Err(x))) => Some((s1, Err(x))),
            Some((s1, Ok(SVal::Object(id, _)))) => if fuel == 0 {
                None
            } else {
                chain_loop((fuel - 1) as nat, o, s1, span, id, maps, kind, args, chained, SVal::Nil)
            },
            Some((s1, Ok(_))) => Some(
                (s1, Err(err(span, "FUCK 2"@))),
            ),
        },
        _ => Some((st, Err(err(span, "FUCK 1"@)))),
    }
}

/// What evaluating a function call does: the arguments, then the callee.
pub open spec fn eval_call(fuel: nat, o: Oracle, st: RtState, e: ResolvedExpression) -> Outcome<SVal>
    decreases fuel, e, 1nat,
{
    match e {
        ResolvedExpression::FunctionCall { span, target, args, optional, chained } => match eval_list(
            fuel,
            o,
            st,
            args@,
        ) {
            None => None,
            Some((s1, Err(x))) => Some((s1, Err(x))),
            Some((s1, Ok(params))) => match eval(fuel, o, s1, *target) {
                None => None,
                Some((s2, Err(x))) => Some((s2, Err(x))),
                Some((s2, Ok(tv))) => match tv {
                    SVal::Function(f) => invoke(fuel, o, s2, span, f, params, args@),
                    SVal::FunctionChain(maps, kind) => chain_call(
                        fuel,
                        o,
                        s2,
                        span,
                        *target,
                        maps,
                        kind,
                        args@,
                        chained,
                    ),
                    SVal::Nil if chained => Some((s2, Ok(SVal::Nil))),
                    other => Some(
                        (s2, Err(err(span, value_debug(other) + " is not a function or function chain"@))),
                    ),
                },
            },
        },
        _ => None,
    }
}

/// What evaluating `e` as a place (the target of an assignment) does.
pub open spec fn eval_place(fuel: nat, o: Oracle, st: RtState, e: ResolvedExpression) -> Outcome<SVal>
    decreases fuel, e, 3nat,
{
    match e {
        ResolvedExpression::MemberAccess { span, target, member, chained, .. } => match eval(
            fuel,
            o,
            st,
            *target,
        ) {
            None => None,
            Some((s1, Err(x))) => Some((s1, Err(x))),
            Some((s1, Ok(SVal::Object(id, k)))) => Some((s1, Ok(SVal::Pointer(id, member.id, k)))),
            Some((s1, Ok(SVal::Nil))) if chained => Some((s1, Ok(SVal::Nil))),
            Some((s1, Ok(other))) => Some(
                (
                    s1,
                    Err(
                        err(
                            span,
                            "Member access not permitted for "@ + value_debug(other) + "."@
                                + member_info_text(member.id, member.name@, member.kind@),
                        ),
                    ),
                ),
            ),
        },
        ResolvedExpression::ArrayAccess { span, target, index, chained, .. } => match eval_place(
            fuel,
            o,
            st,
            *target,
        ) {
            None => None,
            Some((s1, Err(x))) => Some((s1, Err(x))),
            Some((s1, Ok(t))) => {
                let kinds: Option<(SKind, SKind)> = match sval_kind(t) {
                    SKind::Array(k) => Some((SKind::Number(NumKind::Any), *k)),
                    SKind::Dict(a, b) => Some((*a, *b)),
                    _ => None,
                };
                if kinds is None && sval_kind(t) is Nil && chained {
                    Some((s1, Ok(SVal::Nil)))
                } else if kinds is None {
                    Some((s1, Err(err(span, "Array access not permitted for "@ + kind_text(sval_kind(t))))))
                } else {
                    let (access_kind, value_kind) = kinds.unwrap();
                    match eval(fuel, o, s1, *index) {
                        None => None,
                        Some((s2, Err(x))) => Some((s2, Err(x))),
                        Some((s2, Ok(a))) => if !assignable(sval_kind(a), access_kind) {
                            Some(
                                (
                                    s2,
                                    Err(
                                        SErr::TypeMismatch { span, found: a, expected: access_kind },
                                    ),
                                ),
                            )
                        } else {
                            Some(
                                (
                                    s2,
                                    Ok(SVal::Element(Box::new(t), Box::new(a), value_kind)),
                                ),
                            )
                        },
                    }
                }
            },
        },
        ResolvedExpression::Variable(_, Symbol::Local(info)) => match local_value(st, info.id) {
            Some(v) => Some((st, Ok(SVal::Local(info.id, sval_kind(v))))),
            None => None,
        },
        _ => eval(fuel, o, st, e),
    }
}

// ---------------------------------------------------------------------------
// Execution
// ---------------------------------------------------------------------------
/// Runs the statements of a block in order; `locals` are the locals declared
/// so far and `last` the span of the last statement that finished normally.
/// A flow other than a normal end or a declaration leaves the block; either
/// way the block's locals are released.
pub open spec fn exec_block(
    fuel: nat,
    o: Oracle,
    st: RtState,
    ss: Seq<ResolvedStatement>,
    locals: Seq<LocalId>,
    last: Span,
) -> Outcome<SFlow>
    decreases fuel, ss, 0nat,
{
    if ss.len() == 0 {
        Some((st_deref_locals(st, locals), Ok(SFlow::Normal(last))))
    } else {
        match exec_stmt(fuel, o, st, ss[0]) {
            None => None,
            Some((s1, Err(x))) => Some((s1, Err(x))),
            Some((s1, Ok(flow))) => match flow {
                SFlow::Normal(sp) => exec_block(fuel, o, s1, ss.drop_first(), locals, sp),
                SFlow::Declare(_, l) => exec_block(
                    fuel,
                    o,
                    s1,
                    ss.drop_first(),
                    locals.push(l),
                    last,
                ),
                other => Some((st_deref_locals(s1, locals), Ok(other))),
            },
        }
    }
}

/// Tries the branches of a `switch` in order against `target`.
pub open spec fn switch_loop(
    fuel: nat,
    o: Oracle,
    st: RtState,
    bs: Seq<(ResolvedExpression, bool, ResolvedStatement)>,
    target: SVal,
    fell: bool,
) -> Outcome<SwitchEnd>
    decreases fuel, bs, 0nat,
{
    if bs.len() == 0 {
        Some((st, Ok(SwitchEnd::Done(fell))))
    } else {
        match eval(fuel, o, st, bs[0].0) {
            None => None,
            Some((s1, Err(x))) => Some((s1, Err(x))),
            Some((s1, Ok(c))) => if !same_value(target, c) {
                switch_loop(fuel, o, s1, bs.drop_first(), target, fell)
            } else {
                match exec_stmt(fuel, o, s1, bs[0].2) {
                    None => None,
                    Some((s2, Err(x))) => Some((s2, Err(x))),
                    Some((s2, Ok(flow))) => match flow {
                        SFlow::Normal(_) if bs[0].1 => switch_loop(
                            fuel,
                            o,
                            s2,
                            bs.drop_first(),
                            target,
                            true,
                        ),
                        SFlow::Declare(_, l) if bs[0].1 => switch_loop(
                            fuel,
                            o,
                            st_deref_local(s2, l),
                            bs.drop_first(),
                            target,
                            true,
                        ),
                        other => Some((s2, Ok(SwitchEnd::Exit(other)))),
                    },
                }
            },
        }
    }
}

/// Runs a `while` statement `s`; each iteration takes one unit of fuel.
pub open spec fn while_loop(fuel: nat, o: Oracle, st: RtState, s: ResolvedStatement) -> Outcome<SFlow>
    decreases fuel, s, 1nat,
{
    match s {
        ResolvedStatement::While { span, condition, statement } => if fuel == 0 {
            None
        } else {
            match eval(fuel, o, st, condition) {
                None => None,
                Some((s1, Err(x))) => Some((s1, Err(x))),
                Some((s1, Ok(c))) => match condition_holds(expr_kind(condition), c) {
                    None => Some(
                        (s1, Err(err(span, "While condition was not true or false: "@ + value_debug(c)))),
                    ),
                    Some(false) => Some((s1, Ok(SFlow::Normal(span)))),
                    Some(true) => match exec_stmt(fuel, o, s1, *statement) {
                        None => None,
                        Some((s2, Err(x))) => Some((s2, Err(x))),
                        Some((s2, Ok(flow))) => match flow {
                            SFlow::Normal(_) => while_loop((fuel - 1) as nat, o, s2, s),
                            SFlow::Continue(_) => while_loop((fuel - 1) as nat, o, s2, s),
                            SFlow::Declare(_, l) => while_loop(
                                (fuel - 1) as nat,
                                o,
                                st_deref_local(s2, l),
                                s,
                            ),
                            SFlow::Break(_) => Some((s2, Ok(SFlow::Normal(span)))),
                            other => Some((s2, Ok(other))),
                        },
                    },
                },
            }
        },
        _ => None,
    }
}

/// Runs the body of a `for` statement `s` once per item; each iteration takes
/// one unit of fuel.
pub open spec fn for_loop(
    fuel: nat,
    o: Oracle,
    st: RtState,
    s: ResolvedStatement,
    items: Seq<SVal>,
) -> Outcome<SFlow>
    decreases fuel, s, 0nat,
{
    match s {
        ResolvedStatement::For { span, local, statement, .. } => if items.len() == 0 {
            Some((st, Ok(SFlow::Normal(span))))
        } else if fuel == 0 {
            None
        } else {
            let s1 = st_reserve_local(st, local, items[0]);
            match exec_stmt(fuel, o, s1, *statement) {
                None => None,
                Some((s2, Err(x))) => Some((s2, Err(x))),
                Some((s2, Ok(flow))) => match flow {
                    SFlow::Continue(_) => for_loop((fuel - 1) as nat, o, s2, s, items.drop_first()),
                    SFlow::Break(_) => Some((s2, Ok(SFlow::Normal(span)))),
                    SFlow::Normal(_) => for_loop(
                        (fuel - 1) as nat,
                        o,
                        st_deref_local(s2, local),
                        s,
                        items.drop_first(),
                    ),
                    SFlow::Declare(_, l) => for_loop(
                        (fuel - 1) as nat,
                        o,
                        st_deref_local(st_deref_local(s2, l), local),
                        s,
                        items.drop_first(),
                    ),
                    other => Some((s2, Ok(other))),
                },
            }
        },
        _ => None,
    }
}

/// Runs `s` when `object` evaluated to an existing, unsealed object: `op`
/// gives the state after the operation on it; a missing object panics, a
/// sealed one is left alone, and any other value is the error `msg`.
pub open spec fn on_object(
    st: RtState,
    span: Span,
    v: SVal,
    op: spec_fn(RtState, usize) -> SOpResult,
    msg: Seq<char>,
) -> Outcome<SFlow> {
    match v {
        SVal::Object(id, _) => if id >= st.objects.len() {
            None
        } else if st.objects[id as int].sealed {
            Some((st, Ok(SFlow::Normal(span))))
        } else {
            match op(st, id) {
                SOpResult::Done(s2) => Some((s2, Ok(SFlow::Normal(span)))),
                SOpResult::Failed(s2, m) => Some((s2, Err(err(span, m)))),
            }
        },
        _ => Some((st, Err(err(span, msg)))),
    }
}

/// What executing statement `s` does.
pub open spec fn exec_stmt(fuel: nat, o: Oracle, st: RtState, s: ResolvedStatement) -> Outcome<SFlow>
    decreases fuel, s, 2nat,
{
    match s {
        ResolvedStatement::Expression { span, expr } => match eval(fuel, o, st, expr) {
            None => None,
            Some((s1, Err(x))) => Some((s1, Err(x))),
            Some((s1, Ok(_))) => Some((s1, Ok(SFlow::Normal(span)))),
        },
        ResolvedStatement::Print { span, expr } => match eval(fuel, o, st, expr) {
            None => None,
            Some((s1, Err(x))) => Some((s1, Err(x))),
            Some((s1, Ok(v))) => {
                let s2 = match v {
                    SVal::Str(k) => st_print(s1, k),
                    SVal::Object(id, _) => st_print_object(s1, id),
                    other => st_print(s1, render(other)),
                };
                Some((s2, Ok(SFlow::Normal(span))))
            },
        },
        ResolvedStatement::DeclareLocal { span, info, value } => match eval(fuel, o, st, value) {
            None => None,
            Some((s1, Err(x))) => Some((s1, Err(x))),
            Some((s1, Ok(v))) => Some(
                (st_reserve_local(s1, info.id, v), Ok(SFlow::Declare(span, info.id))),
            ),
        },
        ResolvedStatement::Detach { span, object, shape } => match eval(fuel, o, st, object) {
            None => None,
            Some((s1, Err(x))) => Some((s1, Err(x))),
            Some((s1, Ok(v))) => match shape.kind@ {
                SKind::Shape(sid, _) => on_object(
                    s1,
                    span,
                    v,
                    |t: RtState, id: usize| st_detach(t, id, sid),
                    "Could not detach "@ + kind_text(shape.kind@) + " from "@ + value_debug(v),
                ),
                _ => Some(
                    (s1, Err(err(span, "Could not detach "@ + kind_text(shape.kind@) + " from "@ + value_debug(v)))),
                ),
            },
        },
        ResolvedStatement::AddMapping { span, object, from, to } => match eval(
            fuel,
            o,
            st,
            object,
        ) {
            None => None,
            Some((s1, Err(x))) => Some((s1, Err(x))),
            Some((s1, Ok(v))) => on_object(
                s1,
                span,
                v,
                |t: RtState, id: usize| st_remap(t, id, to, from),
                "Invalid mapping: "@ + value_debug(v) + ", "@ + dec_nat(from as nat) + " -> "@ + dec_nat(
                    to as nat,
                ),
            ),
        },
        ResolvedStatement::Attach { span, object, attachment } => match eval(fuel, o, st, object) {
            None => None,
            Some((s1, Err(x))) => Some((s1, Err(x))),
            Some((s1, Ok(v))) => on_object(
                s1,
                span,
                v,
                |t: RtState, id: usize|
                    st_attach(
                        t,
                        id,
                        attachment.base.id,
                        map_view(attachment.defaults@),
                        attachment.mappings@,
                    ),
                "Could not attach "@ + instance_text(
                    attachment.base.id,
                    map_view(attachment.base.generics@),
                ) + " to "@ + value_debug(v),
            ),
        },
        ResolvedStatement::Assign { span, target, value } => match eval(fuel, o, st, value) {
            None => None,
            Some((s1, Err(x))) => Some((s1, Err(x))),
            Some((s1, Ok(val))) => match eval_place(fuel, o, s1, target) {
                None => None,
                Some((s2, Err(x))) => Some((s2, Err(x))),
                Some((s2, Ok(p))) => match p {
                    SVal::Pointer(obj, az, _) => match st_assign_slot(s2, obj, az, val) {
                        SOpResult::Done(s3) => Some((s3, Ok(SFlow::Normal(span)))),
                        SOpResult::Failed(s3, m) => Some((s3, Err(err(span, m)))),
                    },
                    SVal::Element(_, _, _) => Some((s2, Ok(SFlow::Normal(span)))),
                    SVal::Local(loc, _) => Some(
                        (st_reserve_local(s2, loc, val), Ok(SFlow::Normal(span))),
                    ),
                    other => Some(
                        (s2, Err(err(span, "Could not assign "@ + value_debug(val) + " to "@ + value_debug(other)))),
                    ),
                },
            },
        },
        ResolvedStatement::Seal { span, target } => match eval(fuel, o, st, target) {
            None => None,
            Some((s1, Err(x))) => Some((s1, Err(x))),
            Some((s1, Ok(SVal::Object(id, _)))) => Some((st_seal(s1, id), Ok(SFlow::Normal(span)))),
            Some((s1, Ok(other))) => Some((s1, Err(err(span, value_debug(other) + " is not sealable"@)))),
        },
        ResolvedStatement::If { span, condition, true_statement, else_statement } => match eval(
            fuel,
            o,
            st,
            condition,
        ) {
            None => None,
            Some((s1, Err(x))) => Some((s1, Err(x))),
            Some((s1, Ok(c))) => match condition_holds(expr_kind(condition), c) {
                None => Some(
                    (s1, Err(err(span, "If condition was not true or false: "@ + value_debug(c)))),
                ),
                Some(true) => exec_stmt(fuel, o, s1, *true_statement),
                Some(false) => match else_statement {
                    Some(e) => exec_stmt(fuel, o, s1, *e),
                    None => Some((s1, Ok(SFlow::Normal(span)))),
                },
            },
        },
        ResolvedStatement::Switch { span, target, branch_statements, else_statement } => match eval(
            fuel,
            o,
            st,
            target,
        ) {
            None => None,
            Some((s1, Err(x))) => Some((s1, Err(x))),
            Some((s1, Ok(t))) => match switch_loop(fuel, o, s1, branch_statements@, t, false) {
                None => None,
                Some((s2, Err(x))) => Some((s2, Err(x))),
                Some((s2, Ok(SwitchEnd::Exit(flow)))) => Some((s2, Ok(flow))),
                Some((s2, Ok(SwitchEnd::Done(fell)))) => match else_statement {
                    Some(e) => if !fell {
                        exec_stmt(fuel, o, s2, *e)
                    } else {
                        Some((s2, Ok(SFlow::Normal(span))))
                    },
                    None => Some((s2, Ok(SFlow::Normal(span)))),
                },
            },
        },
        ResolvedStatement::Try { span, try_statement, catch_statement } => match exec_stmt(
            fuel,
            o,
            st,
            *try_statement,
        ) {
            None => None,
            Some((s1, Err(_))) => {
                let s2 = RtState { caught: s1.caught + 1, ..s1 };
                match catch_statement {
                    Some(c) => exec_stmt(fuel, o, s2, *c),
                    None => Some((s2, Ok(SFlow::Normal(span)))),
                }
            },
            Some((s1, Ok(flow))) => Some((s1, Ok(flow))),
        },
        ResolvedStatement::While { .. } => while_loop(fuel, o, st, s),
        ResolvedStatement::For { span, target, .. } => match eval(fuel, o, st, target) {
            None => None,
            Some((s1, Err(x))) => Some((s1, Err(x))),
            Some((s1, Ok(v))) => match for_items(span, v) {
                None => None,
                Some(Err(x)) => Some((s1, Err(x))),
                Some(Ok(items)) => for_loop(fuel, o, s1, s, items),
            },
        },
        ResolvedStatement::Block(ss) => exec_block(
            fuel,
            o,
            st,
            ss@,
            seq![],
            Span { start: 0, end: 0, label: "" },
        ),
        ResolvedStatement::Break { span } => Some((st, Ok(SFlow::Break(span)))),
        ResolvedStatement::Continue { span } => Some((st, Ok(SFlow::Continue(span)))),
        ResolvedStatement::Return { span, value } => match eval(fuel, o, st, value) {
            None => None,
            Some((s1, Err(x))) => Some((s1, Err(x))),
            Some((s1, Ok(v))) => Some((s1, Ok(SFlow::Return(span, v)))),
        },
        ResolvedStatement::Throw { span, message } => match eval(fuel, o, st, message) {
            None => None,
            Some((s1, Err(x))) => Some((s1, Err(x))),
            Some((s1, Ok(SVal::Str(m)))) => Some((s1, Ok(SFlow::Error { span, message: m }))),
            Some((s1, Ok(other))) => Some(
                (s1, Err(SErr::TypeMismatch { span, found: other, expected: SKind::String })),
            ),
        },
        ResolvedStatement::Declaration { .. } => Some(
            (st, Err(err(Span { start: 0, end: 0, label: "" }, "Invalid statement: Declaration"@))),
        ),
    }
}


// ---------------------------------------------------------------------------
// Programs
// ---------------------------------------------------------------------------
/// Runs the top-level statements of a program in order: a `break`,
/// `continue` or `return` outside any loop or function is an error, and so is
/// an error thrown and not caught.
pub open spec fn run_program(fuel: nat, o: Oracle, st: RtState, ss: Seq<ResolvedStatement>) -> Outcome<SFlow>
    decreases ss.len(),
{
    if ss.len() == 0 {
        Some((st, Ok(SFlow::Normal(Span { start: 0, end: 0, label: "Runtime" }))))
    } else {
        match exec_stmt(fuel, o, st, ss[0]) {
            None => None,
            Some((s1, Err(x))) => Some((s1, Err(x))),
            Some((s1, Ok(flow))) => match flow {
                SFlow::Normal(_) | SFlow::Declare(_, _) => run_program(fuel, o, s1, ss.drop_first()),
                SFlow::Break(sp) | SFlow::Continue(sp) | SFlow::Return(sp, _) => Some(
                    (s1, Err(SErr::UnexpectedBreakout { span: sp })),
                ),
                SFlow::Error { span, message } => Some((s1, Err(SErr::Throw { span, message }))),
            },
        }
    }
}

/// What running a program does: its static singletons are created, then its
/// statements run.
pub open spec fn run(
    fuel: nat,
    o: Oracle,
    st: RtState,
    ss: Seq<ResolvedStatement>,
    statics: Seq<(ShapeId, Seq<AzimuthId>)>,
) -> Outcome<SFlow> {
    match st_init_statics(st, statics) {
        SOpResult::Done(s1) => run_program(fuel, o, s1, ss),
        SOpResult::Failed(s1, m) => Some((s1, Err(err(Span { start: 0, end: 0, label: "" }, m)))),
    }
}

} // verus!

//! The operators of the language on values: unary and binary operations,
//! ranges, conversion of returned values and the conditions of `if` and `while`.
use vstd::prelude::*;
use crate::describe::{binary_error, conversion_error, unary_error};
use crate::executor::{RuntimeError, SErr, ShapeInstance, result_view};
use crate::runtime::Runtime;
use crate::model::{
    NumKind, Number, Operator, ResolvedExpression, SKind, SVal, Span, Symbol, Value, ValueKind,
    kind_view, map_view,
};
use crate::semantics::{
    bit_and, bit_or, bit_xor, condition_holds, convert, create_range_spec, expr_kind, int_binop,
    needs_right, num_result, number_binop, shift_left, shift_right, unary, with_right,
    without_right,
};
use crate::value::{
    clone_kinds, fits, fits_kind, is_int_kind, kind_bits, machine_kind, make_num, num_int, num_kind,
    number_of, trunc_div, values_equal,
};

verus! {

/// What a unary operator gives for a value.
pub fn unary_op(span: Span, op: Operator, v: Value) -> (r: Result<Value, RuntimeError>)
    requires
        unary(span, op, v@) is Some,
    ensures
        unary(span, op, v@) == Some(result_view(r)),
{
    match v {
        Value::Bool(b) => {
            if op == Operator::Not {
                Ok(Value::Bool(!b))
            } else {
                Err(RuntimeError::InvalidOperator { span, operator: op, operand: ValueKind::Bool })
            }
        },
        Value::Number(n) => {
            let x = n.int_value();
            assert(fits(NumKind::Int64, x as int));
            let x = x as i64;
            let r = match op {
                Operator::Inc => Ok(Value::Number(Number::Int64(x + 1))),
                Operator::Dec => Ok(Value::Number(Number::Int64(x - 1))),
                Operator::BWNot => Ok(Value::Number(Number::Int64(-1 - x))),
                Operator::Sub => Ok(Value::Number(Number::Int64(-x))),
                _ => Err(
                    RuntimeError::InvalidOperator {
                        span,
                        operator: op,
                        operand: ValueKind::Number(NumKind::Int32),
                    },
                ),
            };
            r
        },
        Value::String(s) => {
            if op == Operator::Len {
                let n = s.as_str().unicode_len();
                assert(n == s@.len());
                Ok(Value::Number(Number::UInt64(n as u64)))
            } else {
                Err(
                    RuntimeError::InvalidOperator {
                        span,
                        operator: op,
                        operand: ValueKind::String,
                    },
                )
            }
        },
        Value::Array(xs, k) => {
            if op == Operator::Len {
                assert(v@->Array_0.len() == xs@.len());
                Ok(Value::Number(Number::UInt64(xs.len() as u64)))
            } else {
                Err(
                    RuntimeError::InvalidOperator {
                        span,
                        operator: op,
                        operand: ValueKind::Array(Box::new(k)),
                    },
                )
            }
        },
        Value::SetOf(xs, k) => {
            if op == Operator::Len {
                assert(v@->SetOf_0.len() == xs@.len());
                Ok(Value::Number(Number::UInt64(xs.len() as u64)))
            } else {
                Err(
                    RuntimeError::InvalidOperator {
                        span,
                        operator: op,
                        operand: ValueKind::SetOf(Box::new(k)),
                    },
                )
            }
        },
        Value::Dict(es, a, b) => {
            if op == Operator::Len {
                assert(v@->Dict_0.len() == es@.len());
                Ok(Value::Number(Number::UInt64(es.len() as u64)))
            } else {
                Err(
                    RuntimeError::InvalidOperator {
                        span,
                        operator: op,
                        operand: ValueKind::Dict(Box::new(a), Box::new(b)),
                    },
                )
            }
        },
        other => Err(unary_error(span, op, &other)),
    }
}

/// The range value from `from` to `to`, stepping towards `to` for a signed start.
pub fn range_value(from: Number, to: Number, inclusive: bool) -> (v: Value)
    ensures
        v@ == create_range_spec(from, to, inclusive),
{
    let kind = from.num_kind();
    let by: i32 = match kind {
        NumKind::Int8 | NumKind::Int16 | NumKind::Int32 | NumKind::Int64 => {
            let a = from.int_value();
            let b = to.int_value();
            if fits_kind(NumKind::Int64, b) && a <= b {
                1
            } else {
                -1
            }
        },
        _ => 1,
    };
    Value::Range(from, to, Number::Any(by), inclusive, kind)
}

/// `a / b` rounded towards zero.
pub fn div_trunc(a: i128, b: i128) -> (q: i128)
    requires
        b != 0,
        -0x1_0000_0000_0000_0000 <= a <= 0x1_0000_0000_0000_0000,
        -0x1_0000_0000_0000_0000 <= b <= 0x1_0000_0000_0000_0000,
    ensures
        q == trunc_div(a as int, b as int),
        -0x1_0000_0000_0000_0000 <= b * q <= 0x1_0000_0000_0000_0000,
        -0x1_0000_0000_0000_0000 <= q <= 0x1_0000_0000_0000_0000,
{
    let ua: u128 = if a < 0 {
        (-a) as u128
    } else {
        a as u128
    };
    let ub: u128 = if b < 0 {
        (-b) as u128
    } else {
        b as u128
    };
    let q = ua / ub;
    assert(q <= ua && 0 <= ub * q <= ua) by (nonlinear_arith)
        requires
            ub >= 1,
            q == ua / ub,
    ;
    let r: i128 = if (a < 0) != (b < 0) {
        -(q as i128)
    } else {
        q as i128
    };
    assert(b * r == ub * q || b * r == -(ub * q)) by (nonlinear_arith)
        requires
            ub == b || ub == -b,
            r == q || r == -q,
    ;
    r
}

/// The number of kind `k` holding `v`; `v` fits `k`.
fn num_value(k: NumKind, v: i128) -> (r: Result<Value, RuntimeError>)
    requires
        num_result(k, v as int) is Some,
    ensures
        num_result(k, v as int) == Some(result_view(r)),
{
    Ok(Value::Number(number_of(k, v)))
}

/// What a binary operator gives for two integers of the machine kind `k`.
pub fn int_op(span: Span, op: Operator, k: NumKind, a: i128, b: i128) -> (r: Result<
    Value,
    RuntimeError,
>)
    requires
        int_binop(span, op, k, a as int, b as int) is Some,
        !(k is Any),
        is_int_kind(k),
        fits(k, a as int),
        fits(k, b as int),
    ensures
        int_binop(span, op, k, a as int, b as int) == Some(result_view(r)),
{
    match op {
        Operator::Equal => Ok(Value::Bool(a == b)),
        Operator::NEqual => Ok(Value::Bool(a != b)),
        Operator::LT => Ok(Value::Bool(a < b)),
        Operator::GT => Ok(Value::Bool(a > b)),
        Operator::LTE => Ok(Value::Bool(a <= b)),
        Operator::GTE => Ok(Value::Bool(a >= b)),
        Operator::Add => num_value(k, a + b),
        Operator::Sub => num_value(k, a - b),
        Operator::Mul => {
            assert(fits(k, a * b));
            assert(-0x1_0000_0000_0000_0000 <= a * b <= 0x1_0000_0000_0000_0000);
            num_value(k, a * b)
        },
        Operator::Div => num_value(k, div_trunc(a, b)),
        Operator::Mod => {
            let q = div_trunc(a, b);
            num_value(k, a - b * q)
        },
        Operator::BWAnd => num_value(k, bit_and_exec(k, a, b)),
        Operator::BWOr => num_value(k, bit_or_exec(k, a, b)),
        Operator::BWXor => num_value(k, bit_xor_exec(k, a, b)),
        Operator::BWShiftL => num_value(k, shift_left_exec(k, a, b)),
        Operator::BWShiftR => num_value(k, shift_right_exec(k, a, b)),
        Operator::Range => Ok(range_value(number_of(k, a), number_of(k, b), true)),
        Operator::RangeLT => Ok(range_value(number_of(k, a), number_of(k, b), false)),
        _ => Err(
            RuntimeError::InvalidOperator {
                span,
                operator: op,
                operand: ValueKind::Number(NumKind::Any),
            },
        ),
    }
}

fn bit_and_exec(k: NumKind, a: i128, b: i128) -> (r: i128)
    requires
        fits(k, a as int),
        fits(k, b as int),
    ensures
        r == bit_and(k, a as int, b as int),
{
    match k {
        NumKind::Int8 => ((a as i8) & (b as i8)) as i128,
        NumKind::Int16 => ((a as i16) & (b as i16)) as i128,
        NumKind::Int64 => ((a as i64) & (b as i64)) as i128,
        NumKind::UInt8 => ((a as u8) & (b as u8)) as i128,
        NumKind::UInt16 => ((a as u16) & (b as u16)) as i128,
        NumKind::UInt32 => ((a as u32) & (b as u32)) as i128,
        NumKind::UInt64 => ((a as u64) & (b as u64)) as i128,
        _ => ((a as i32) & (b as i32)) as i128,
    }
}

fn bit_or_exec(k: NumKind, a: i128, b: i128) -> (r: i128)
    requires
        fits(k, a as int),
        fits(k, b as int),
    ensures
        r == bit_or(k, a as int, b as int),
{
    match k {
        NumKind::Int8 => ((a as i8) | (b as i8)) as i128,
        NumKind::Int16 => ((a as i16) | (b as i16)) as i128,
        NumKind::Int64 => ((a as i64) | (b as i64)) as i128,
        NumKind::UInt8 => ((a as u8) | (b as u8)) as i128,
        NumKind::UInt16 => ((a as u16) | (b as u16)) as i128,
        NumKind::UInt32 => ((a as u32) | (b as u32)) as i128,
        NumKind::UInt64 => ((a as u64) | (b as u64)) as i128,
        _ => ((a as i32) | (b as i32)) as i128,
    }
}

fn bit_xor_exec(k: NumKind, a: i128, b: i128) -> (r: i128)
    requires
        fits(k, a as int),
        fits(k, b as int),
    ensures
        r == bit_xor(k, a as int, b as int),
{
    match k {
        NumKind::Int8 => ((a as i8) ^ (b as i8)) as i128,
        NumKind::Int16 => ((a as i16) ^ (b as i16)) as i128,
        NumKind::Int64 => ((a as i64) ^ (b as i64)) as i128,
        NumKind::UInt8 => ((a as u8) ^ (b as u8)) as i128,
        NumKind::UInt16 => ((a as u16) ^ (b as u16)) as i128,
        NumKind::UInt32 => ((a as u32) ^ (b as u32)) as i128,
        NumKind::UInt64 => ((a as u64) ^ (b as u64)) as i128,
        _ => ((a as i32) ^ (b as i32)) as i128,
    }
}

fn shift_left_exec(k: NumKind, a: i128, s: i128) -> (r: i128)
    requires
        fits(k, a as int),
        0 <= s < kind_bits(k),
    ensures
        r == shift_left(k, a as int, s as int),
{
    let s = s as u32;
    match k {
        NumKind::Int8 => ((a as i8) << s) as i128,
        NumKind::Int16 => ((a as i16) << s) as i128,
        NumKind::Int64 => ((a as i64) << s) as i128,
        NumKind::UInt8 => ((a as u8) << s) as i128,
        NumKind::UInt16 => ((a as u16) << s) as i128,
        NumKind::UInt32 => ((a as u32) << s) as i128,
        NumKind::UInt64 => ((a as u64) << s) as i128,
        _ => ((a as i32) << s) as i128,
    }
}

fn shift_right_exec(k: NumKind, a: i128, s: i128) -> (r: i128)
    requires
        fits(k, a as int),
        0 <= s < kind_bits(k),
    ensures
        r == shift_right(k, a as int, s as int),
{
    let s = s as u32;
    match k {
        NumKind::Int8 => ((a as i8) >> s) as i128,
        NumKind::Int16 => ((a as i16) >> s) as i128,
        NumKind::Int64 => ((a as i64) >> s) as i128,
        NumKind::UInt8 => ((a as u8) >> s) as i128,
        NumKind::UInt16 => ((a as u16) >> s) as i128,
        NumKind::UInt32 => ((a as u32) >> s) as i128,
        NumKind::UInt64 => ((a as u64) >> s) as i128,
        _ => ((a as i32) >> s) as i128,
    }
}


/// A binary operator on two numbers, computed in the kind they are promoted to.
pub fn number_op(span: Span, op: Operator, l: Number, r: Number) -> (res: Result<Value, RuntimeError>)
    requires
        number_binop(span, op, l, r) is Some,
    ensures
        number_binop(span, op, l, r) == Some(result_view(res)),
{
    let kind = Number::promote_kind(l.num_kind(), r.num_kind());
    if kind == NumKind::Float32 || kind == NumKind::Float64 {
        return Err(conversion_error(span, l, r));
    }
    let k = if kind == NumKind::Any {
        NumKind::Int32
    } else {
        kind
    };
    assert(k == machine_kind(kind));
    int_op(span, op, k, l.int_value(), r.int_value())
}

/// A returned value converted to the declared kind `k`.
pub fn convert_value(v: Value, k: &ValueKind) -> (r: Value)
    requires
        convert(v@, k@) is Some,
    ensures
        convert(v@, k@) == Some(r@),
{
    let target: Option<NumKind> = match (&v, k) {
        (Value::Number(_), ValueKind::Number(t)) => {
            if *t == NumKind::Float32 || *t == NumKind::Float64 || *t == NumKind::Any {
                None
            } else {
                Some(*t)
            }
        },
        _ => None,
    };
    match target {
        Some(t) => match v {
            Value::Number(n) => Value::Number(number_of(t, n.int_value())),
            other => other,
        },
        None => v,
    }
}

/// Whether a condition of static kind `k` with value `v` holds.
pub fn condition_value(k: &ValueKind, v: &Value) -> (r: Option<bool>)
    ensures
        r == condition_holds(k@, v@),
{
    match (k, v) {
        (ValueKind::Bool, Value::Bool(b)) => Some(*b),
        (ValueKind::Option(_), Value::Nil) => Some(false),
        (ValueKind::Option(_), _) => Some(true),
        _ => None,
    }
}

/// The kind an expression was resolved to.
pub fn expression_kind(e: &ResolvedExpression) -> (k: ValueKind)
    ensures
        k@ == expr_kind(*e),
    decreases e,
{
    match e {
        ResolvedExpression::Value(_, v) => v.kind(),
        ResolvedExpression::Array(_, _, k) => ValueKind::Array(Box::new(k.duplicate())),
        ResolvedExpression::SetOf(_, _, k) => ValueKind::SetOf(Box::new(k.duplicate())),
        ResolvedExpression::Dict(_, _, a, b) => ValueKind::Dict(
            Box::new(a.duplicate()),
            Box::new(b.duplicate()),
        ),
        ResolvedExpression::Variable(_, Symbol::Local(info)) => info.kind.duplicate(),
        ResolvedExpression::Variable(_, Symbol::Generic(_)) => ValueKind::Dyn,
        ResolvedExpression::Default(_, k) => k.duplicate(),
        ResolvedExpression::StaticSingleton(_, _) => {
            let k = ValueKind::Object(Vec::new());
            assert(k@->Object_0 =~= seq![]);
            k
        },
        ResolvedExpression::ObjectInit(_, att) => {
            let ks = clone_kinds(&att.known);
            let k = ValueKind::Object(ks);
            assert(k@->Object_0 =~= map_view(att.known@));
            k
        },
        ResolvedExpression::StringFormat(_, _) => ValueKind::String,
        ResolvedExpression::UnaryOp { operator, .. } => {
            if *operator == Operator::Not {
                ValueKind::Bool
            } else if *operator == Operator::Len {
                ValueKind::Number(NumKind::UInt64)
            } else {
                ValueKind::Number(NumKind::Int64)
            }
        },
        ResolvedExpression::BinaryOp { left, operator, right, .. } => {
            let op = *operator;
            if op == Operator::Equal || op == Operator::NEqual || op == Operator::LT || op
                == Operator::GT || op == Operator::LTE || op == Operator::GTE || op == Operator::And
                || op == Operator::Or || op == Operator::IsShape || op == Operator::NIsShape {
                ValueKind::Bool
            } else if op == Operator::DQuestion {
                expression_kind(right)
            } else if op == Operator::Range || op == Operator::RangeLT {
                ValueKind::Range(NumKind::Any)
            } else {
                expression_kind(left)
            }
        },
        ResolvedExpression::Ternary { true_expr, .. } => expression_kind(true_expr),
        ResolvedExpression::MemberAccess { member, .. } => member.kind.duplicate(),
        ResolvedExpression::ArrayAccess { target, .. } => {
            let t = expression_kind(target);
            match t {
                ValueKind::Array(k) => *k,
                ValueKind::String => ValueKind::String,
                ValueKind::Range(_) => ValueKind::Number(NumKind::Int32),
                ValueKind::Dict(_, v) => *v,
                _ => ValueKind::Dyn,
            }
        },
        ResolvedExpression::FunctionCall { target, .. } => {
            let t = expression_kind(target);
            match t {
                ValueKind::Function(k) => *k,
                _ => ValueKind::Dyn,
            }
        },
        ResolvedExpression::Function { output_type, .. } => ValueKind::Function(
            Box::new(output_type.kind.duplicate()),
        ),
        ResolvedExpression::Shape(_, shape) => shape.kind.duplicate(),
        _ => ValueKind::Dyn,
    }
}


/// Calls `char::to_string`, which gives the one-character string of `c`.
#[verifier::external_body]
pub(crate) fn char_string(c: char) -> (s: String)
    ensures
        s@ == seq![c],
{
    c.to_string()
}


/// Whether a binary operation evaluates its right operand.
pub fn needs_right_exec(op: Operator, lv: &Value, rk: &ValueKind) -> (b: bool)
    ensures
        b == needs_right(op, lv@, rk@),
{
    if op == Operator::DQuestion {
        match lv.kind() {
            ValueKind::Nil => true,
            _ => false,
        }
    } else {
        match (lv, rk) {
            (Value::Bool(l), ValueKind::Bool) => {
                (op == Operator::Equal || op == Operator::NEqual || op == Operator::And || op
                    == Operator::Or) && !((op == Operator::And && !*l) || (op == Operator::Or
                    && *l))
            },
            _ => {
                let number_right = match lv {
                    Value::Number(_) => rk.is_assignable_from(&ValueKind::Number(NumKind::Any)),
                    _ => false,
                };
                let string_right = match (lv, rk) {
                    (Value::String(_), ValueKind::String) => true,
                    _ => false,
                };
                number_right || string_right || op == Operator::Equal || op == Operator::NEqual
            },
        }
    }
}

/// The result of a binary operation that does not evaluate its right operand.
pub fn without_right_exec(rt: &Runtime, span: Span, op: Operator, lv: Value, rk: &ValueKind) -> (r:
    Result<Value, RuntimeError>)
    ensures
        result_view(r) == without_right(rt@, span, op, lv@, rk@),
{
    if op == Operator::DQuestion {
        return Ok(lv);
    }
    match (&lv, rk) {
        (Value::Bool(_), ValueKind::Bool) => {
            if op == Operator::Equal || op == Operator::NEqual || op == Operator::And || op
                == Operator::Or {
                Ok(lv)
            } else {
                Err(RuntimeError::InvalidOperator { span, operator: op, operand: ValueKind::Bool })
            }
        },
        (Value::Object(id, _), ValueKind::Shape(inst)) => {
            if op == Operator::IsShape {
                Ok(Value::Bool(rt.is_shape(*id, inst.id)))
            } else if op == Operator::NIsShape {
                Ok(Value::Bool(!rt.is_shape(*id, inst.id)))
            } else {
                Err(
                    RuntimeError::InvalidOperator {
                        span,
                        operator: op,
                        operand: ValueKind::Shape(copy_shape_instance(inst)),
                    },
                )
            }
        },
        _ => Err(binary_error(span, &lv, op, rk)),
    }
}

/// A copy of a shape instance.
pub fn copy_shape_instance(i: &ShapeInstance) -> (r: ShapeInstance)
    ensures
        r.id == i.id,
        kind_view(ValueKind::Shape(r)) == kind_view(ValueKind::Shape(*i)),
{
    let r = ShapeInstance { id: i.id, generics: clone_kinds(&i.generics) };
    assert(kind_view(ValueKind::Shape(r))->Shape_1 =~= kind_view(ValueKind::Shape(*i))->Shape_1);
    r
}

/// The result of a binary operation from both operand values.
pub fn with_right_exec(span: Span, op: Operator, lv: Value, rk: &ValueKind, rv: Value) -> (r: Result<
    Value,
    RuntimeError,
>)
    requires
        with_right(span, op, lv@, rk@, rv@) is Some,
    ensures
        with_right(span, op, lv@, rk@, rv@) == Some(result_view(r)),
{
    if op == Operator::DQuestion {
        return Ok(rv);
    }
    match (&lv, rk) {
        (Value::Bool(l), ValueKind::Bool) => {
            let l = *l;
            match rv {
                Value::Bool(r) => Ok(
                    Value::Bool(
                        if op == Operator::Equal {
                            l == r
                        } else if op == Operator::NEqual {
                            l != r
                        } else {
                            r
                        },
                    ),
                ),
                _ => vstd::pervasive::unreached(),
            }
        },
        _ => {
            let number_right = match &lv {
                Value::Number(_) => rk.is_assignable_from(&ValueKind::Number(NumKind::Any)),
                _ => false,
            };
            if number_right {
                match (lv, rv) {
                    (Value::Number(a), Value::Number(b)) => number_op(span, op, a, b),
                    _ => vstd::pervasive::unreached(),
                }
            } else {
                match (lv, rk) {
                    (Value::String(l), ValueKind::String) => match rv {
                        Value::String(r) => {
                            if op == Operator::Equal {
                                Ok(Value::Bool(l == r))
                            } else if op == Operator::NEqual {
                                Ok(Value::Bool(l != r))
                            } else if op == Operator::Add {
                                let mut s = l;
                                s.append(r.as_str());
                                Ok(Value::String(s))
                            } else {
                                Err(
                                    RuntimeError::InvalidOperator {
                                        span,
                                        operator: op,
                                        operand: ValueKind::String,
                                    },
                                )
                            }
                        },
                        _ => vstd::pervasive::unreached(),
                    },
                    (lv, _) => {
                        let same = values_equal(&lv, &rv);
                        Ok(Value::Bool(if op == Operator::Equal {
                            same
                        } else {
                            !same
                        }))
                    },
                }
            }
        },
    }
}

} // verus!

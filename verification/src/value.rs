//! Operations on kinds and values: copying, comparing, kinds of values,
//! assignability, conversion and the textual form used by printing.
use vstd::prelude::*;
use std::rc::Rc;
use crate::executor::ShapeInstance;
use crate::model::{
    map_view, Function, FunctionParameter, MappingTo, NumKind, Number, SKind, SVal, Value, ValueKind,
    kind_view, value_view,
};

verus! {

broadcast use vstd::std_specs::vec::group_vec_axioms;

// ---------------------------------------------------------------------------
// Numbers
// ---------------------------------------------------------------------------
/// The integer a number stands for.
pub open spec fn num_int(n: Number) -> int {
    match n {
        Number::Int8(v) => v as int,
        Number::Int16(v) => v as int,
        Number::Int32(v) => v as int,
        Number::Int64(v) => v as int,
        Number::UInt8(v) => v as int,
        Number::UInt16(v) => v as int,
        Number::UInt32(v) => v as int,
        Number::UInt64(v) => v as int,
        Number::Any(v) => v as int,
    }
}

/// Division rounding towards zero, as Rust's integer `/` does.
pub open spec fn trunc_div(a: int, b: int) -> int {
    let q = (if a < 0 { -a } else { a }) / (if b < 0 { -b } else { b });
    if (a < 0) != (b < 0) {
        -q
    } else {
        q
    }
}

/// The kind of a number.
pub open spec fn num_kind(n: Number) -> NumKind {
    match n {
        Number::Int8(_) => NumKind::Int8,
        Number::Int16(_) => NumKind::Int16,
        Number::Int32(_) => NumKind::Int32,
        Number::Int64(_) => NumKind::Int64,
        Number::UInt8(_) => NumKind::UInt8,
        Number::UInt16(_) => NumKind::UInt16,
        Number::UInt32(_) => NumKind::UInt32,
        Number::UInt64(_) => NumKind::UInt64,
        Number::Any(_) => NumKind::Any,
    }
}

/// Whether `k` is one of the integer kinds the arithmetic runs in.
pub open spec fn is_int_kind(k: NumKind) -> bool {
    !(k is Float32 || k is Float64)
}

/// The kind arithmetic runs in for an untyped (`Any`) operand: `i32`.
pub open spec fn machine_kind(k: NumKind) -> NumKind {
    if k is Any {
        NumKind::Int32
    } else {
        k
    }
}

/// Whether the integer `v` lies in the range of the integer kind `k` (`Any` is `i32`).
pub open spec fn fits(k: NumKind, v: int) -> bool {
    match k {
        NumKind::Int8 => i8::MIN <= v <= i8::MAX,
        NumKind::Int16 => i16::MIN <= v <= i16::MAX,
        NumKind::Int32 => i32::MIN <= v <= i32::MAX,
        NumKind::Int64 => i64::MIN <= v <= i64::MAX,
        NumKind::UInt8 => 0 <= v <= u8::MAX,
        NumKind::UInt16 => 0 <= v <= u16::MAX,
        NumKind::UInt32 => 0 <= v <= u32::MAX,
        NumKind::UInt64 => 0 <= v <= u64::MAX,
        NumKind::Any => i32::MIN <= v <= i32::MAX,
        _ => false,
    }
}

/// The number of kind `k` holding `v`; meaningful when `fits(k, v)`.
pub open spec fn make_num(k: NumKind, v: int) -> Number {
    match k {
        NumKind::Int8 => Number::Int8(v as i8),
        NumKind::Int16 => Number::Int16(v as i16),
        NumKind::Int32 => Number::Int32(v as i32),
        NumKind::Int64 => Number::Int64(v as i64),
        NumKind::UInt8 => Number::UInt8(v as u8),
        NumKind::UInt16 => Number::UInt16(v as u16),
        NumKind::UInt32 => Number::UInt32(v as u32),
        NumKind::UInt64 => Number::UInt64(v as u64),
        _ => Number::Any(v as i32),
    }
}

/// The bit width of an integer kind.
pub open spec fn kind_bits(k: NumKind) -> int {
    match k {
        NumKind::Int8 | NumKind::UInt8 => 8,
        NumKind::Int16 | NumKind::UInt16 => 16,
        NumKind::Int64 | NumKind::UInt64 => 64,
        _ => 32,
    }
}

/// Whether an integer kind is signed.
pub open spec fn kind_signed(k: NumKind) -> bool {
    k is Int8 || k is Int16 || k is Int32 || k is Int64 || k is Any
}

/// The kind two numeric operands are brought to: equal kinds stay, an untyped
/// operand takes the other's kind, floats win, then the wider kind of equal
/// signedness, and mixed signedness goes to `Int64`.
pub open spec fn promote_spec(a: NumKind, b: NumKind) -> NumKind {
    if a == b {
        a
    } else if a is Any {
        b
    } else if b is Any {
        a
    } else if a is Float64 || b is Float64 {
        NumKind::Float64
    } else if a is Float32 || b is Float32 {
        NumKind::Float32
    } else if kind_signed(a) == kind_signed(b) {
        if kind_bits(a) >= kind_bits(b) {
            a
        } else {
            b
        }
    } else {
        NumKind::Int64
    }
}

impl Number {
    /// The kind of this number.
    pub fn num_kind(&self) -> (k: NumKind)
        ensures
            k == num_kind(*self),
    {
        match self {
            Number::Int8(_) => NumKind::Int8,
            Number::Int16(_) => NumKind::Int16,
            Number::Int32(_) => NumKind::Int32,
            Number::Int64(_) => NumKind::Int64,
            Number::UInt8(_) => NumKind::UInt8,
            Number::UInt16(_) => NumKind::UInt16,
            Number::UInt32(_) => NumKind::UInt32,
            Number::UInt64(_) => NumKind::UInt64,
            Number::Any(_) => NumKind::Any,
        }
    }

    /// The value of this number, widened to `i128`.
    pub fn int_value(&self) -> (v: i128)
        ensures
            v == num_int(*self),
    {
        match self {
            Number::Int8(v) => *v as i128,
            Number::Int16(v) => *v as i128,
            Number::Int32(v) => *v as i128,
            Number::Int64(v) => *v as i128,
            Number::UInt8(v) => *v as i128,
            Number::UInt16(v) => *v as i128,
            Number::UInt32(v) => *v as i128,
            Number::UInt64(v) => *v as i128,
            Number::Any(v) => *v as i128,
        }
    }

    /// The kind two operands are brought to before an arithmetic operation.
    pub fn promote_kind(a: NumKind, b: NumKind) -> (k: NumKind)
        ensures
            k == promote_spec(a, b),
    {
        let signed_a = kind_is_signed(a);
        let signed_b = kind_is_signed(b);
        if a == b {
            a
        } else if a == NumKind::Any {
            b
        } else if b == NumKind::Any {
            a
        } else if a == NumKind::Float64 || b == NumKind::Float64 {
            NumKind::Float64
        } else if a == NumKind::Float32 || b == NumKind::Float32 {
            NumKind::Float32
        } else if signed_a == signed_b {
            if bits_of(a) >= bits_of(b) {
                a
            } else {
                b
            }
        } else {
            NumKind::Int64
        }
    }
}

/// Whether an integer kind is signed.
pub fn kind_is_signed(k: NumKind) -> (b: bool)
    ensures
        b == kind_signed(k),
{
    match k {
        NumKind::Int8 | NumKind::Int16 | NumKind::Int32 | NumKind::Int64 | NumKind::Any => true,
        _ => false,
    }
}

/// The bit width of an integer kind.
pub fn bits_of(k: NumKind) -> (b: u32)
    ensures
        b == kind_bits(k),
{
    match k {
        NumKind::Int8 | NumKind::UInt8 => 8,
        NumKind::Int16 | NumKind::UInt16 => 16,
        NumKind::Int64 | NumKind::UInt64 => 64,
        _ => 32,
    }
}

/// Whether `v` lies in the range of the integer kind `k`.
pub fn fits_kind(k: NumKind, v: i128) -> (b: bool)
    ensures
        b == fits(k, v as int),
{
    match k {
        NumKind::Int8 => i8::MIN as i128 <= v && v <= i8::MAX as i128,
        NumKind::Int16 => i16::MIN as i128 <= v && v <= i16::MAX as i128,
        NumKind::Int32 => i32::MIN as i128 <= v && v <= i32::MAX as i128,
        NumKind::Int64 => i64::MIN as i128 <= v && v <= i64::MAX as i128,
        NumKind::UInt8 => 0 <= v && v <= u8::MAX as i128,
        NumKind::UInt16 => 0 <= v && v <= u16::MAX as i128,
        NumKind::UInt32 => 0 <= v && v <= u32::MAX as i128,
        NumKind::UInt64 => 0 <= v && v <= u64::MAX as i128,
        NumKind::Any => i32::MIN as i128 <= v && v <= i32::MAX as i128,
        _ => false,
    }
}

/// The number of kind `k` holding `v`.
pub fn number_of(k: NumKind, v: i128) -> (n: Number)
    requires
        fits(k, v as int),
    ensures
        n == make_num(k, v as int),
        num_int(n) == v,
{
    match k {
        NumKind::Int8 => Number::Int8(v as i8),
        NumKind::Int16 => Number::Int16(v as i16),
        NumKind::Int32 => Number::Int32(v as i32),
        NumKind::Int64 => Number::Int64(v as i64),
        NumKind::UInt8 => Number::UInt8(v as u8),
        NumKind::UInt16 => Number::UInt16(v as u16),
        NumKind::UInt32 => Number::UInt32(v as u32),
        NumKind::UInt64 => Number::UInt64(v as u64),
        _ => Number::Any(v as i32),
    }
}

// ---------------------------------------------------------------------------
// Kinds
// ---------------------------------------------------------------------------
/// Whether a slot of kind `to` may hold a value of kind `from`: `Dyn` on either
/// side, equal scalar kinds, an untyped number against any number, `Nil` or the
/// inner kind into an option, containers element by element, any object into
/// any object, any range into any range, and equal shape ids.
pub open spec fn assignable(to: SKind, from: SKind) -> bool
    decreases to, from,
{
    match (to, from) {
        (SKind::Dyn, _) => true,
        (_, SKind::Dyn) => true,
        (SKind::String, SKind::String) => true,
        (SKind::Bool, SKind::Bool) => true,
        (SKind::Nil, SKind::Nil) => true,
        (SKind::Number(a), SKind::Number(b)) => a == b || a is Any || b is Any,
        (SKind::Option(t), SKind::Nil) => true,
        (SKind::Option(t), f) => assignable(*t, f),
        (SKind::Array(a), SKind::Array(b)) => assignable(*a, *b),
        (SKind::SetOf(a), SKind::SetOf(b)) => assignable(*a, *b),
        (SKind::Dict(a1, b1), SKind::Dict(a2, b2)) => assignable(*a1, *a2) && assignable(*b1, *b2),
        (SKind::Object(_), SKind::Object(_)) => true,
        (SKind::Shape(a, _), SKind::Shape(b, _)) => a == b,
        (SKind::Range(_), SKind::Range(_)) => true,
        (SKind::Function(a), SKind::Function(b)) => assignable(*a, *b),
        _ => false,
    }
}

/// Copies a list of kinds.
pub fn clone_kinds(v: &Vec<ValueKind>) -> (r: Vec<ValueKind>)
    ensures
        r@.len() == v@.len(),
        forall|i: int| 0 <= i < v@.len() ==> (#[trigger] r@[i])@ == v@[i]@,
    decreases v, 0nat,
{
    let mut r: Vec<ValueKind> = Vec::new();
    let mut i: usize = 0;
    while i < v.len()
        invariant
            i <= v@.len(),
            r@.len() == i,
            forall|j: int| 0 <= j < i ==> (#[trigger] r@[j])@ == v@[j]@,
        decreases v@.len() - i,
    {
        r.push(v[i].duplicate());
        i = i + 1;
    }
    r
}

impl ValueKind {
    /// A copy of this kind.
    pub fn duplicate(&self) -> (r: ValueKind)
        ensures
            r@ == self@,
        decreases self, 1nat,
    {
        match self {
            ValueKind::String => ValueKind::String,
            ValueKind::Bool => ValueKind::Bool,
            ValueKind::Nil => ValueKind::Nil,
            ValueKind::Number(n) => ValueKind::Number(*n),
            ValueKind::Array(b) => ValueKind::Array(Box::new((**b).duplicate())),
            ValueKind::SetOf(b) => ValueKind::SetOf(Box::new((**b).duplicate())),
            ValueKind::Dict(a, b) => ValueKind::Dict(
                Box::new((**a).duplicate()),
                Box::new((**b).duplicate()),
            ),
            ValueKind::Option(b) => ValueKind::Option(Box::new((**b).duplicate())),
            ValueKind::Object(v) => {
                let r = clone_kinds(v);
                assert(kind_view(ValueKind::Object(r))->Object_0 =~= kind_view(
                    ValueKind::Object(*v),
                )->Object_0);
                ValueKind::Object(r)
            },
            ValueKind::Shape(inst) => {
                let g = clone_kinds(&inst.generics);
                let r = ShapeInstance { id: inst.id, generics: g };
                assert(kind_view(ValueKind::Shape(r))->Shape_1 =~= kind_view(
                    ValueKind::Shape(*inst),
                )->Shape_1);
                ValueKind::Shape(r)
            },
            ValueKind::Range(n) => ValueKind::Range(*n),
            ValueKind::Function(b) => ValueKind::Function(Box::new((**b).duplicate())),
            ValueKind::Dyn => ValueKind::Dyn,
        }
    }

    /// Whether a slot of this kind may hold a value of kind `other`.
    pub fn is_assignable_from(&self, other: &ValueKind) -> (b: bool)
        ensures
            b == assignable(self@, other@),
        decreases self, other,
    {
        match (self, other) {
            (ValueKind::Dyn, _) => true,
            (_, ValueKind::Dyn) => true,
            (ValueKind::String, ValueKind::String) => true,
            (ValueKind::Bool, ValueKind::Bool) => true,
            (ValueKind::Nil, ValueKind::Nil) => true,
            (ValueKind::Number(a), ValueKind::Number(b)) => {
                *a == *b || *a == NumKind::Any || *b == NumKind::Any
            },
            (ValueKind::Option(_), ValueKind::Nil) => true,
            (ValueKind::Option(t), f) => (**t).is_assignable_from(f),
            (ValueKind::Array(a), ValueKind::Array(b)) => (**a).is_assignable_from(&**b),
            (ValueKind::SetOf(a), ValueKind::SetOf(b)) => (**a).is_assignable_from(&**b),
            (ValueKind::Dict(a1, b1), ValueKind::Dict(a2, b2)) => {
                (**a1).is_assignable_from(&**a2) && (**b1).is_assignable_from(&**b2)
            },
            (ValueKind::Object(_), ValueKind::Object(_)) => true,
            (ValueKind::Shape(a), ValueKind::Shape(b)) => a.id == b.id,
            (ValueKind::Range(_), ValueKind::Range(_)) => true,
            (ValueKind::Function(a), ValueKind::Function(b)) => (**a).is_assignable_from(&**b),
            _ => false,
        }
    }
}

// ---------------------------------------------------------------------------
// Values
// ---------------------------------------------------------------------------
/// The kind of a value.
pub open spec fn sval_kind(v: SVal) -> SKind {
    match v {
        SVal::Nil => SKind::Nil,
        SVal::Bool(_) => SKind::Bool,
        SVal::Number(n) => SKind::Number(num_kind(n)),
        SVal::Str(_) => SKind::String,
        SVal::Array(_, k) => SKind::Array(Box::new(k)),
        SVal::SetOf(_, k) => SKind::SetOf(Box::new(k)),
        SVal::Dict(_, a, b) => SKind::Dict(Box::new(a), Box::new(b)),
        SVal::Range(_, _, _, _, k) => SKind::Range(k),
        SVal::Object(_, k) => k,
        SVal::Function(f) => SKind::Function(Box::new(f.output)),
        SVal::FunctionChain(_, k) => k,
        SVal::Pointer(_, _, k) => k,
        SVal::Element(_, _, k) => k,
        SVal::Local(_, k) => k,
    }
}

/// Equality of values as the language sees it: structural, with functions
/// compared by their id and function chains never equal.
pub open spec fn same_value(a: SVal, b: SVal) -> bool
    decreases a,
{
    match a {
        SVal::Nil => b is Nil,
        SVal::Bool(x) => b is Bool && b->Bool_0 == x,
        SVal::Number(x) => b is Number && b->Number_0 == x,
        SVal::Str(x) => b is Str && b->Str_0 == x,
        SVal::Array(xs, k) => b is Array && b->Array_1 == k && xs.len() == b->Array_0.len()
            && forall|i: int| 0 <= i < xs.len() ==> same_value(xs[i], #[trigger] b->Array_0[i]),
        SVal::SetOf(xs, k) => b is SetOf && b->SetOf_1 == k && xs.len() == b->SetOf_0.len()
            && forall|i: int| 0 <= i < xs.len() ==> same_value(xs[i], #[trigger] b->SetOf_0[i]),
        SVal::Dict(xs, k1, k2) => b is Dict && b->Dict_1 == k1 && b->Dict_2 == k2 && xs.len()
            == b->Dict_0.len() && forall|i: int|
            0 <= i < xs.len() ==> same_value(xs[i].0, (#[trigger] b->Dict_0[i]).0) && same_value(
                xs[i].1,
                b->Dict_0[i].1,
            ),
        SVal::Range(x1, x2, x3, x4, x5) => b == a,
        SVal::Object(id, k) => b == a,
        SVal::Function(f) => b is Function && b->Function_0.id == f.id,
        SVal::FunctionChain(_, _) => false,
        SVal::Pointer(_, _, _) => b == a,
        SVal::Element(t, i, k) => b is Element && same_value(*t, *b->Element_0) && same_value(
            *i,
            *b->Element_1,
        ) && b->Element_2 == k,
        SVal::Local(_, _) => b == a,
    }
}

/// Whether two kinds are equal.
pub fn kinds_equal(a: &ValueKind, b: &ValueKind) -> (r: bool)
    ensures
        r == (a@ == b@),
    decreases a, 1nat,
{
    match (a, b) {
        (ValueKind::String, ValueKind::String) => true,
        (ValueKind::Bool, ValueKind::Bool) => true,
        (ValueKind::Nil, ValueKind::Nil) => true,
        (ValueKind::Number(x), ValueKind::Number(y)) => *x == *y,
        (ValueKind::Array(x), ValueKind::Array(y)) => kinds_equal(&**x, &**y),
        (ValueKind::SetOf(x), ValueKind::SetOf(y)) => kinds_equal(&**x, &**y),
        (ValueKind::Dict(x1, x2), ValueKind::Dict(y1, y2)) => {
            kinds_equal(&**x1, &**y1) && kinds_equal(&**x2, &**y2)
        },
        (ValueKind::Option(x), ValueKind::Option(y)) => kinds_equal(&**x, &**y),
        (ValueKind::Object(x), ValueKind::Object(y)) => {
            let r = kind_lists_equal(x, y);
            let ghost xs = kind_view(ValueKind::Object(*x))->Object_0;
            let ghost ys = kind_view(ValueKind::Object(*y))->Object_0;
            assert(xs.len() == x@.len() && ys.len() == y@.len());
            assert(forall|i: int| 0 <= i < x@.len() ==> xs[i] == x@[i]@);
            assert(forall|i: int| 0 <= i < y@.len() ==> ys[i] == y@[i]@);
            if r {
                assert(xs =~= ys);
            } else if x.len() == y.len() {
                let ghost i = choose|i: int| 0 <= i < x@.len() && x@[i]@ != y@[i]@;
                assert(xs[i] != ys[i]);
            }
            r
        },
        (ValueKind::Shape(x), ValueKind::Shape(y)) => {
            if x.id != y.id {
                false
            } else {
                let r = kind_lists_equal(&x.generics, &y.generics);
                let ghost xs = kind_view(ValueKind::Shape(*x))->Shape_1;
                let ghost ys = kind_view(ValueKind::Shape(*y))->Shape_1;
                assert(xs.len() == x.generics@.len() && ys.len() == y.generics@.len());
                assert(forall|i: int| 0 <= i < x.generics@.len() ==> xs[i] == x.generics@[i]@);
                assert(forall|i: int| 0 <= i < y.generics@.len() ==> ys[i] == y.generics@[i]@);
                if r {
                    assert(xs =~= ys);
                } else if x.generics.len() == y.generics.len() {
                    let ghost i = choose|i: int|
                        0 <= i < x.generics@.len() && x.generics@[i]@ != y.generics@[i]@;
                    assert(xs[i] != ys[i]);
                }
                r
            }
        },
        (ValueKind::Range(x), ValueKind::Range(y)) => *x == *y,
        (ValueKind::Function(x), ValueKind::Function(y)) => kinds_equal(&**x, &**y),
        (ValueKind::Dyn, ValueKind::Dyn) => true,
        _ => false,
    }
}

/// Whether two lists of kinds are equal element by element.
pub fn kind_lists_equal(a: &Vec<ValueKind>, b: &Vec<ValueKind>) -> (r: bool)
    ensures
        r == (a@.len() == b@.len() && forall|i: int| 0 <= i < a@.len() ==> a@[i]@ == b@[i]@),
    decreases a, 0nat,
{
    if a.len() != b.len() {
        return false;
    }
    let mut i: usize = 0;
    while i < a.len()
        invariant
            i <= a@.len(),
            a@.len() == b@.len(),
            forall|j: int| 0 <= j < i ==> a@[j]@ == b@[j]@,
        decreases a@.len() - i,
    {
        if !kinds_equal(&a[i], &b[i]) {
            return false;
        }
        i = i + 1;
    }
    true
}

/// Copies a list of values.
pub fn clone_values(v: &Vec<Value>) -> (r: Vec<Value>)
    ensures
        r@.len() == v@.len(),
        forall|i: int| 0 <= i < v@.len() ==> (#[trigger] r@[i])@ == v@[i]@,
    decreases v, 0nat,
{
    let mut r: Vec<Value> = Vec::new();
    let mut i: usize = 0;
    while i < v.len()
        invariant
            i <= v@.len(),
            r@.len() == i,
            forall|j: int| 0 <= j < i ==> (#[trigger] r@[j])@ == v@[j]@,
        decreases v@.len() - i,
    {
        r.push(v[i].duplicate());
        i = i + 1;
    }
    r
}

/// Copies a list of dictionary entries.
pub fn clone_entries(v: &Vec<(Value, Value)>) -> (r: Vec<(Value, Value)>)
    ensures
        r@.len() == v@.len(),
        forall|i: int|
            0 <= i < v@.len() ==> (#[trigger] r@[i]).0@ == v@[i].0@ && r@[i].1@ == v@[i].1@,
    decreases v, 0nat,
{
    let mut r: Vec<(Value, Value)> = Vec::new();
    let mut i: usize = 0;
    while i < v.len()
        invariant
            i <= v@.len(),
            r@.len() == i,
            forall|j: int| 0 <= j < i ==> (#[trigger] r@[j]).0@ == v@[j].0@ && r@[j].1@ == v@[j].1@,
        decreases v@.len() - i,
    {
        let k = v[i].0.duplicate();
        let x = v[i].1.duplicate();
        r.push((k, x));
        i = i + 1;
    }
    r
}

impl Value {
    /// A copy of this value.
    pub fn duplicate(&self) -> (r: Value)
        ensures
            r@ == self@,
        decreases self, 1nat,
    {
        match self {
            Value::Nil => Value::Nil,
            Value::Bool(b) => Value::Bool(*b),
            Value::Number(n) => Value::Number(*n),
            Value::String(s) => Value::String(s.clone()),
            Value::Array(items, k) => {
                let r = Value::Array(clone_values(items), k.duplicate());
                assert(value_view(r)->Array_0 =~= value_view(*self)->Array_0);
                r
            },
            Value::SetOf(items, k) => {
                let r = Value::SetOf(clone_values(items), k.duplicate());
                assert(value_view(r)->SetOf_0 =~= value_view(*self)->SetOf_0);
                r
            },
            Value::Dict(entries, a, b) => {
                let r = Value::Dict(clone_entries(entries), a.duplicate(), b.duplicate());
                assert(value_view(r)->Dict_0 =~= value_view(*self)->Dict_0);
                r
            },
            Value::Range(a, b, c, i, k) => Value::Range(*a, *b, *c, *i, *k),
            Value::Object(id, k) => Value::Object(*id, k.duplicate()),
            Value::Function(f) => Value::Function(Rc::clone(f)),
            Value::FunctionChain(m, k) => Value::FunctionChain(Rc::clone(m), k.duplicate()),
            Value::Pointer(o, a, k) => Value::Pointer(*o, *a, k.duplicate()),
            Value::Element(t, i, k) => Value::Element(
                Box::new((**t).duplicate()),
                Box::new((**i).duplicate()),
                k.duplicate(),
            ),
            Value::Local(id, k) => Value::Local(*id, k.duplicate()),
        }
    }

    /// The kind of this value.
    pub fn kind(&self) -> (k: ValueKind)
        ensures
            k@ == sval_kind(self@),
    {
        match self {
            Value::Nil => ValueKind::Nil,
            Value::Bool(_) => ValueKind::Bool,
            Value::Number(n) => ValueKind::Number(n.num_kind()),
            Value::String(_) => ValueKind::String,
            Value::Array(_, k) => ValueKind::Array(Box::new(k.duplicate())),
            Value::SetOf(_, k) => ValueKind::SetOf(Box::new(k.duplicate())),
            Value::Dict(_, a, b) => ValueKind::Dict(Box::new(a.duplicate()), Box::new(b.duplicate())),
            Value::Range(_, _, _, _, k) => ValueKind::Range(*k),
            Value::Object(_, k) => k.duplicate(),
            Value::Function(f) => ValueKind::Function(Box::new(f.output_type.duplicate())),
            Value::FunctionChain(_, k) => k.duplicate(),
            Value::Pointer(_, _, k) => k.duplicate(),
            Value::Element(_, _, k) => k.duplicate(),
            Value::Local(_, k) => k.duplicate(),
        }
    }
}

/// Whether two values are equal as the language sees it.
pub fn values_equal(a: &Value, b: &Value) -> (r: bool)
    ensures
        r == same_value(a@, b@),
    decreases a, 1nat,
{
    match (a, b) {
        (Value::Nil, Value::Nil) => true,
        (Value::Bool(x), Value::Bool(y)) => *x == *y,
        (Value::Number(x), Value::Number(y)) => *x == *y,
        (Value::String(x), Value::String(y)) => *x == *y,
        (Value::Array(xs, k1), Value::Array(ys, k2)) => {
            assert(value_view(*a)->Array_0.len() == xs@.len());
            assert(value_view(*b)->Array_0.len() == ys@.len());
            assert(forall|i: int| 0 <= i < xs@.len() ==> value_view(*a)->Array_0[i] == xs@[i]@);
            assert(forall|i: int| 0 <= i < ys@.len() ==> value_view(*b)->Array_0[i] == ys@[i]@);
            let r1 = kinds_equal(k1, k2);
            let r2 = value_lists_equal(xs, ys);
            proof {
                if !r2 && xs@.len() == ys@.len() {
                    let i = choose|i: int| 0 <= i < xs@.len() && !same_value(xs@[i]@, ys@[i]@);
                    assert(!same_value(a@->Array_0[i], b@->Array_0[i]));
                }
            }
            r1 && r2
        },
        (Value::SetOf(xs, k1), Value::SetOf(ys, k2)) => {
            assert(value_view(*a)->SetOf_0.len() == xs@.len());
            assert(value_view(*b)->SetOf_0.len() == ys@.len());
            assert(forall|i: int| 0 <= i < xs@.len() ==> value_view(*a)->SetOf_0[i] == xs@[i]@);
            assert(forall|i: int| 0 <= i < ys@.len() ==> value_view(*b)->SetOf_0[i] == ys@[i]@);
            let r1 = kinds_equal(k1, k2);
            let r2 = value_lists_equal(xs, ys);
            proof {
                if !r2 && xs@.len() == ys@.len() {
                    let i = choose|i: int| 0 <= i < xs@.len() && !same_value(xs@[i]@, ys@[i]@);
                    assert(!same_value(a@->SetOf_0[i], b@->SetOf_0[i]));
                }
            }
            r1 && r2
        },
        (Value::Dict(xs, a1, a2), Value::Dict(ys, b1, b2)) => {
            assert(value_view(*a)->Dict_0.len() == xs@.len());
            assert(value_view(*b)->Dict_0.len() == ys@.len());
            assert(forall|i: int|
                0 <= i < xs@.len() ==> value_view(*a)->Dict_0[i] == (xs@[i].0@, xs@[i].1@));
            assert(forall|i: int|
                0 <= i < ys@.len() ==> value_view(*b)->Dict_0[i] == (ys@[i].0@, ys@[i].1@));
            let r1 = kinds_equal(a1, b1) && kinds_equal(a2, b2);
            let r2 = entry_lists_equal(xs, ys);
            proof {
                if !r2 && xs@.len() == ys@.len() {
                    let i = choose|i: int|
                        0 <= i < xs@.len() && !(same_value(xs@[i].0@, ys@[i].0@) && same_value(
                            xs@[i].1@,
                            ys@[i].1@,
                        ));
                    assert(!(same_value(a@->Dict_0[i].0, b@->Dict_0[i].0) && same_value(
                        a@->Dict_0[i].1,
                        b@->Dict_0[i].1,
                    )));
                }
            }
            r1 && r2
        },
        (Value::Range(x1, x2, x3, x4, x5), Value::Range(y1, y2, y3, y4, y5)) => {
            *x1 == *y1 && *x2 == *y2 && *x3 == *y3 && *x4 == *y4 && *x5 == *y5
        },
        (Value::Object(x, k1), Value::Object(y, k2)) => *x == *y && kinds_equal(k1, k2),
        (Value::Function(f), Value::Function(g)) => f.id == g.id,
        (Value::Pointer(o1, a1, k1), Value::Pointer(o2, a2, k2)) => {
            *o1 == *o2 && *a1 == *a2 && kinds_equal(k1, k2)
        },
        (Value::Element(t1, i1, k1), Value::Element(t2, i2, k2)) => {
            values_equal(&**t1, &**t2) && values_equal(&**i1, &**i2) && kinds_equal(k1, k2)
        },
        (Value::Local(x, k1), Value::Local(y, k2)) => *x == *y && kinds_equal(k1, k2),
        _ => false,
    }
}

/// Whether two lists of values are equal element by element.
pub fn value_lists_equal(a: &Vec<Value>, b: &Vec<Value>) -> (r: bool)
    ensures
        r == (a@.len() == b@.len() && forall|i: int|
            0 <= i < a@.len() ==> same_value(a@[i]@, b@[i]@)),
    decreases a, 0nat,
{
    if a.len() != b.len() {
        return false;
    }
    let mut i: usize = 0;
    while i < a.len()
        invariant
            i <= a@.len(),
            a@.len() == b@.len(),
            forall|j: int| 0 <= j < i ==> same_value(a@[j]@, b@[j]@),
        decreases a@.len() - i,
    {
        if !values_equal(&a[i], &b[i]) {
            return false;
        }
        i = i + 1;
    }
    true
}

/// Whether two lists of dictionary entries are equal entry by entry.
pub fn entry_lists_equal(a: &Vec<(Value, Value)>, b: &Vec<(Value, Value)>) -> (r: bool)
    ensures
        r == (a@.len() == b@.len() && forall|i: int|
            0 <= i < a@.len() ==> same_value(a@[i].0@, b@[i].0@) && same_value(
                a@[i].1@,
                b@[i].1@,
            )),
    decreases a, 0nat,
{
    if a.len() != b.len() {
        return false;
    }
    let mut i: usize = 0;
    while i < a.len()
        invariant
            i <= a@.len(),
            a@.len() == b@.len(),
            forall|j: int|
                0 <= j < i ==> same_value(a@[j].0@, b@[j].0@) && same_value(a@[j].1@, b@[j].1@),
        decreases a@.len() - i,
    {
        if !values_equal(&a[i].0, &b[i].0) || !values_equal(&a[i].1, &b[i].1) {
            return false;
        }
        i = i + 1;
    }
    true
}

// ---------------------------------------------------------------------------
// Text
// ---------------------------------------------------------------------------
/// The character of a decimal digit.
pub open spec fn digit_char(d: int) -> char {
    if d == 0 {
        '0'
    } else if d == 1 {
        '1'
    } else if d == 2 {
        '2'
    } else if d == 3 {
        '3'
    } else if d == 4 {
        '4'
    } else if d == 5 {
        '5'
    } else if d == 6 {
        '6'
    } else if d == 7 {
        '7'
    } else if d == 8 {
        '8'
    } else {
        '9'
    }
}

/// The decimal digits of a natural number, most significant first.
pub open spec fn dec_nat(n: nat) -> Seq<char>
    decreases n,
{
    if n < 10 {
        seq![digit_char(n as int)]
    } else {
        dec_nat(n / 10) + seq![digit_char((n % 10) as int)]
    }
}

/// The decimal form of an integer, with a leading `-` when negative.
pub open spec fn dec_int(i: int) -> Seq<char> {
    if i < 0 {
        seq!['-'] + dec_nat((-i) as nat)
    } else {
        dec_nat(i as nat)
    }
}

/// The text a value prints as: numbers in decimal, strings as they are,
/// `true`/`false`, `none`, arrays in brackets, sets and dictionaries in braces,
/// ranges as `a..b` or `a..=b`, objects by their name `Obj<id>`.
pub open spec fn render(v: SVal) -> Seq<char>
    decreases v,
{
    match v {
        SVal::Nil => "none"@,
        SVal::Bool(b) => if b {
            "true"@
        } else {
            "false"@
        },
        SVal::Number(n) => dec_int(num_int(n)),
        SVal::Str(s) => s,
        SVal::Array(xs, _) => "["@ + render_list(xs) + "]"@,
        SVal::SetOf(xs, _) => "{"@ + render_list(xs) + "}"@,
        SVal::Dict(es, _, _) => "{"@ + render_entries(es) + "}"@,
        SVal::Range(a, b, _, incl, _) => dec_int(num_int(a)) + (if incl {
            "..="@
        } else {
            ".."@
        }) + dec_int(num_int(b)),
        SVal::Object(id, _) => "Obj"@ + dec_nat(id as nat),
        SVal::Function(_) => "<function>"@,
        SVal::FunctionChain(_, _) => "<function chain>"@,
        _ => "<place>"@,
    }
}

/// The rendered elements joined by `, `.
pub open spec fn render_list(xs: Seq<SVal>) -> Seq<char>
    decreases xs,
{
    if xs.len() == 0 {
        seq![]
    } else if xs.len() == 1 {
        render(xs[0])
    } else {
        render_list(xs.drop_last()) + ", "@ + render(xs.last())
    }
}

/// The rendered entries `key: value` joined by `, `.
pub open spec fn render_entries(es: Seq<(SVal, SVal)>) -> Seq<char>
    decreases es,
{
    if es.len() == 0 {
        seq![]
    } else if es.len() == 1 {
        render(es[0].0) + ": "@ + render(es[0].1)
    } else {
        render_entries(es.drop_last()) + ", "@ + render(es.last().0) + ": "@ + render(es.last().1)
    }
}

fn push_digit(s: &mut String, d: u128)
    requires
        d < 10,
    ensures
        final(s)@ == old(s)@ + seq![digit_char(d as int)],
{
    proof {
        reveal_strlit("0");
        reveal_strlit("1");
        reveal_strlit("2");
        reveal_strlit("3");
        reveal_strlit("4");
        reveal_strlit("5");
        reveal_strlit("6");
        reveal_strlit("7");
        reveal_strlit("8");
        reveal_strlit("9");
    }
    if d == 0 {
        s.append("0");
    } else if d == 1 {
        s.append("1");
    } else if d == 2 {
        s.append("2");
    } else if d == 3 {
        s.append("3");
    } else if d == 4 {
        s.append("4");
    } else if d == 5 {
        s.append("5");
    } else if d == 6 {
        s.append("6");
    } else if d == 7 {
        s.append("7");
    } else if d == 8 {
        s.append("8");
    } else {
        s.append("9");
    }
}

/// Appends the decimal digits of `n`.
pub fn push_decimal(s: &mut String, n: u128)
    ensures
        final(s)@ == old(s)@ + dec_nat(n as nat),
    decreases n,
{
    if n < 10 {
        push_digit(s, n);
    } else {
        push_decimal(s, n / 10);
        push_digit(s, n % 10);
        assert(final(s)@ =~= old(s)@ + dec_nat(n as nat));
    }
}

/// Appends the decimal form of `i`.
pub fn push_int(s: &mut String, i: i128)
    requires
        i > i128::MIN,
    ensures
        final(s)@ == old(s)@ + dec_int(i as int),
{
    proof {
        reveal_strlit("-");
    }
    if i < 0 {
        s.append("-");
        push_decimal(s, (-i) as u128);
        assert(final(s)@ =~= old(s)@ + dec_int(i as int));
    } else {
        push_decimal(s, i as u128);
    }
}

/// Appends the text a value prints as.
pub fn push_render(s: &mut String, v: &Value)
    ensures
        final(s)@ == old(s)@ + render(v@),
    decreases v, 1nat,
{
    let ghost s0 = s@;
    match v {
        Value::Nil => s.append("none"),
        Value::Bool(b) => if *b {
            s.append("true")
        } else {
            s.append("false")
        },
        Value::Number(n) => push_int(s, n.int_value()),
        Value::String(x) => s.append(x.as_str()),
        Value::Array(xs, _) => {
            s.append("[");
            push_render_list(s, xs);
            s.append("]");
            assert(value_view(*v)->Array_0 =~= Seq::new(xs@.len(), |i: int| xs@[i]@));
        },
        Value::SetOf(xs, _) => {
            s.append("{");
            push_render_list(s, xs);
            s.append("}");
            assert(value_view(*v)->SetOf_0 =~= Seq::new(xs@.len(), |i: int| xs@[i]@));
        },
        Value::Dict(es, _, _) => {
            s.append("{");
            push_render_entries(s, es);
            s.append("}");
            assert(value_view(*v)->Dict_0 =~= Seq::new(
                es@.len(),
                |i: int| (es@[i].0@, es@[i].1@),
            ));
        },
        Value::Range(a, b, _, incl, _) => {
            push_int(s, a.int_value());
            if *incl {
                s.append("..=");
            } else {
                s.append("..");
            }
            push_int(s, b.int_value());
        },
        Value::Object(id, _) => {
            s.append("Obj");
            push_decimal(s, *id as u128);
        },
        Value::Function(_) => s.append("<function>"),
        Value::FunctionChain(_, _) => s.append("<function chain>"),
        _ => s.append("<place>"),
    }
    assert(s@ =~= s0 + render(v@));
}

/// Appends the rendered elements joined by `, `.
pub fn push_render_list(s: &mut String, xs: &Vec<Value>)
    ensures
        final(s)@ == old(s)@ + render_list(Seq::new(xs@.len(), |i: int| xs@[i]@)),
    decreases xs, 0nat,
{
    let ghost s0 = s@;
    let ghost all = Seq::new(xs@.len(), |i: int| xs@[i]@);
    let mut i: usize = 0;
    while i < xs.len()
        invariant
            i <= xs@.len(),
            all == Seq::new(xs@.len(), |i: int| xs@[i]@),
            s@ == s0 + render_list(all.take(i as int)),
        decreases xs@.len() - i,
    {
        proof {
            reveal_strlit(", ");
        }
        if i > 0 {
            s.append(", ");
        }
        push_render(s, &xs[i]);
        assert(all.take(i + 1).drop_last() =~= all.take(i as int));
        assert(s@ =~= s0 + render_list(all.take(i + 1)));
        i = i + 1;
    }
    assert(all.take(xs@.len() as int) =~= all);
}

/// Appends the rendered entries joined by `, `.
pub fn push_render_entries(s: &mut String, es: &Vec<(Value, Value)>)
    ensures
        final(s)@ == old(s)@ + render_entries(
            Seq::new(es@.len(), |i: int| (es@[i].0@, es@[i].1@)),
        ),
    decreases es, 0nat,
{
    let ghost s0 = s@;
    let ghost all = Seq::new(es@.len(), |i: int| (es@[i].0@, es@[i].1@));
    let mut i: usize = 0;
    while i < es.len()
        invariant
            i <= es@.len(),
            all == Seq::new(es@.len(), |i: int| (es@[i].0@, es@[i].1@)),
            s@ == s0 + render_entries(all.take(i as int)),
        decreases es@.len() - i,
    {
        proof {
            reveal_strlit(", ");
        }
        if i > 0 {
            s.append(", ");
        }
        push_render(s, &es[i].0);
        s.append(": ");
        push_render(s, &es[i].1);
        assert(all.take(i + 1).drop_last() =~= all.take(i as int));
        assert(s@ =~= s0 + render_entries(all.take(i + 1)));
        i = i + 1;
    }
    assert(all.take(es@.len() as int) =~= all);
}

impl Value {
    /// The text this value prints as.
    pub fn to_display_string(&self) -> (s: String)
        ensures
            s@ == render(self@),
    {
        let mut s = String::new();
        push_render(&mut s, self);
        assert(s@ =~= render(self@));
        s
    }
}

/// The view of an array value, through the views of its elements.
pub proof fn lemma_array_view(items: Vec<Value>, k: ValueKind)
    ensures
        value_view(Value::Array(items, k)) == SVal::Array(map_view(items@), k@),
{
    assert(value_view(Value::Array(items, k))->Array_0 =~= map_view(items@));
}

/// The view of a set value, through the views of its elements.
pub proof fn lemma_set_view(items: Vec<Value>, k: ValueKind)
    ensures
        value_view(Value::SetOf(items, k)) == SVal::SetOf(map_view(items@), k@),
{
    assert(value_view(Value::SetOf(items, k))->SetOf_0 =~= map_view(items@));
}

/// The view of a dictionary value, through the views of its entries.
pub proof fn lemma_dict_view(es: Vec<(Value, Value)>, a: ValueKind, b: ValueKind)
    ensures
        value_view(Value::Dict(es, a, b)) == SVal::Dict(map_view(es@), a@, b@),
{
    assert(value_view(Value::Dict(es, a, b))->Dict_0 =~= map_view(es@));
}

/// A copy of a list of local ids.
pub fn copy_ids(v: &Vec<usize>) -> (r: Vec<usize>)
    ensures
        r@ == v@,
{
    let mut r: Vec<usize> = Vec::new();
    let mut i: usize = 0;
    while i < v.len()
        invariant
            i <= v@.len(),
            r@ == v@.take(i as int),
        decreases v@.len() - i,
    {
        r.push(v[i]);
        assert(r@ =~= v@.take(i + 1));
        i = i + 1;
    }
    assert(v@.take(i as int) =~= v@);
    r
}

} // verus!

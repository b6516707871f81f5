//! The text of a runtime error, as a user sees it: the span, then what went
//! wrong, with kinds and operators written by their names.
use vstd::prelude::*;
use crate::executor::{RuntimeError, SErr, ShapeInstance, err};
use crate::model::{
    LocalInfo, MemberInfo, NumKind, Number, Operator, SKind, SVal, ShapeId, Span, Value, ValueKind,
    kind_view, map_view, value_view,
};
use crate::ops::char_string;
use crate::value::{dec_int, dec_nat, num_int, push_decimal, push_int};

verus! {

broadcast use vstd::std_specs::vec::group_vec_axioms;

/// The name of a number kind.
pub open spec fn num_kind_name(k: NumKind) -> Seq<char> {
    match k {
        NumKind::Int8 => "Int8"@,
        NumKind::Int16 => "Int16"@,
        NumKind::Int32 => "Int32"@,
        NumKind::Int64 => "Int64"@,
        NumKind::UInt8 => "UInt8"@,
        NumKind::UInt16 => "UInt16"@,
        NumKind::UInt32 => "UInt32"@,
        NumKind::UInt64 => "UInt64"@,
        NumKind::Float32 => "Float32"@,
        NumKind::Float64 => "Float64"@,
        NumKind::Any => "Any"@,
    }
}

/// The name of an operator.
pub open spec fn operator_name(op: Operator) -> Seq<char> {
    match op {
        Operator::Equal => "Equal"@,
        Operator::NEqual => "NEqual"@,
        Operator::LT => "LT"@,
        Operator::GT => "GT"@,
        Operator::LTE => "LTE"@,
        Operator::GTE => "GTE"@,
        Operator::Add => "Add"@,
        Operator::Sub => "Sub"@,
        Operator::Mul => "Mul"@,
        Operator::Div => "Div"@,
        Operator::Mod => "Mod"@,
        Operator::BWAnd => "BWAnd"@,
        Operator::BWOr => "BWOr"@,
        Operator::BWXor => "BWXor"@,
        Operator::BWShiftL => "BWShiftL"@,
        Operator::BWShiftR => "BWShiftR"@,
        Operator::BWNot => "BWNot"@,
        Operator::Range => "Range"@,
        Operator::RangeLT => "RangeLT"@,
        Operator::Not => "Not"@,
        Operator::And => "And"@,
        Operator::Or => "Or"@,
        Operator::Inc => "Inc"@,
        Operator::Dec => "Dec"@,
        Operator::Len => "Len"@,
        Operator::DQuestion => "DQuestion"@,
        Operator::IsShape => "IsShape"@,
        Operator::NIsShape => "NIsShape"@,
    }
}

/// The text of a kind: its name, with the kinds it is made of in brackets.
pub open spec fn kind_text(k: SKind) -> Seq<char>
    decreases k, 1nat,
{
    match k {
        SKind::String => "String"@,
        SKind::Bool => "Bool"@,
        SKind::Nil => "None"@,
        SKind::Number(n) => "Number("@ + num_kind_name(n) + ")"@,
        SKind::Array(b) => "Array("@ + kind_text(*b) + ")"@,
        SKind::SetOf(b) => "Set("@ + kind_text(*b) + ")"@,
        SKind::Dict(a, b) => "Dict("@ + kind_text(*a) + ", "@ + kind_text(*b) + ")"@,
        SKind::Option(b) => "Option("@ + kind_text(*b) + ")"@,
        SKind::Object(ks) => "Object(["@ + kind_list_text(ks) + "])"@,
        SKind::Shape(id, gs) => "Shape("@ + instance_text(id, gs) + ")"@,
        SKind::Range(n) => "Range("@ + num_kind_name(n) + ")"@,
        SKind::Function(b) => "Function("@ + kind_text(*b) + ")"@,
        SKind::Dyn => "Dyn"@,
    }
}

/// The text of a shape instance: its shape and the kinds it was given.
pub open spec fn instance_text(id: ShapeId, gs: Seq<SKind>) -> Seq<char>
    decreases gs, 1nat,
{
    "ShapeInstance { id: "@ + dec_nat(id as nat) + ", generics: ["@ + kind_list_text(gs) + "] }"@
}

/// The text of the shape instance a kind stands for, or of the kind itself
/// when it is not a shape.
pub open spec fn shape_kind_text(k: SKind) -> Seq<char> {
    match k {
        SKind::Shape(id, gs) => instance_text(id, gs),
        _ => kind_text(k),
    }
}

/// The texts of kinds joined by `, `.
pub open spec fn kind_list_text(ks: Seq<SKind>) -> Seq<char>
    decreases ks, 0nat,
{
    if ks.len() == 0 {
        seq![]
    } else if ks.len() == 1 {
        kind_text(ks[0])
    } else {
        kind_list_text(ks.drop_last()) + ", "@ + kind_text(ks.last())
    }
}

/// The text of a number: its kind's name and its value in parentheses.
pub open spec fn number_text(n: Number) -> Seq<char> {
    let name = match n {
        Number::Int8(_) => "Int8"@,
        Number::Int16(_) => "Int16"@,
        Number::Int32(_) => "Int32"@,
        Number::Int64(_) => "Int64"@,
        Number::UInt8(_) => "UInt8"@,
        Number::UInt16(_) => "UInt16"@,
        Number::UInt32(_) => "UInt32"@,
        Number::UInt64(_) => "UInt64"@,
        Number::Any(_) => "Any"@,
    };
    name + "("@ + dec_int(num_int(n)) + ")"@
}

/// The message of an index out of bounds: the index, then the bound.
pub open spec fn bounds_message(index: Seq<char>, bound: int) -> Seq<char> {
    "Index "@ + index + " out of bounds ("@ + dec_int(bound) + ")"@
}

/// The message of an array index out of bounds: the index, then the length.
pub open spec fn array_bounds_message(index: int, len: nat) -> Seq<char> {
    "Index "@ + dec_int(index) + " out of bounds (len of "@ + dec_nat(len) + ")"@
}

/// The message of a member missing from object `id`.
pub open spec fn member_message(name: Seq<char>, id: usize) -> Seq<char> {
    "Member \""@ + escaped(name) + "\" not found for "@ + dec_nat(id as nat)
}

/// A character as it stands inside a quoted string: a quote, a backslash, a
/// newline, a carriage return and a tab are written with a backslash.
pub open spec fn char_escape(c: char) -> Seq<char> {
    if c == '"' {
        seq!['\\', '"']
    } else if c == '\\' {
        seq!['\\', '\\']
    } else if c == '\n' {
        seq!['\\', 'n']
    } else if c == '\r' {
        seq!['\\', 'r']
    } else if c == '\t' {
        seq!['\\', 't']
    } else {
        seq![c]
    }
}

/// The characters of `s`, each as it stands inside a quoted string.
pub open spec fn escaped(s: Seq<char>) -> Seq<char>
    decreases s.len(),
{
    if s.len() == 0 {
        seq![]
    } else {
        escaped(s.drop_last()) + char_escape(s.last())
    }
}

/// `true` or `false`.
pub open spec fn bool_text(b: bool) -> Seq<char> {
    if b {
        "true"@
    } else {
        "false"@
    }
}

/// The structural form of a value, as in error messages: the variant's name
/// with its fields in parentheses; strings quoted, a function by its id.
pub open spec fn value_debug(v: SVal) -> Seq<char>
    decreases v, 1nat,
{
    match v {
        SVal::Nil => "None"@,
        SVal::Bool(b) => "Bool("@ + bool_text(b) + ")"@,
        SVal::Number(n) => "Number("@ + number_text(n) + ")"@,
        SVal::Str(x) => "String(\""@ + escaped(x) + "\")"@,
        SVal::Array(xs, k) => "Array(["@ + debug_list(xs) + "], "@ + kind_text(k) + ")"@,
        SVal::SetOf(xs, k) => "Set(["@ + debug_list(xs) + "], "@ + kind_text(k) + ")"@,
        SVal::Dict(es, a, b) => "Dict(["@ + debug_entries(es) + "], "@ + kind_text(a) + ", "@
            + kind_text(b) + ")"@,
        SVal::Range(a, b, c, incl, k) => "Range("@ + number_text(a) + ", "@ + number_text(b)
            + ", "@ + number_text(c) + ", "@ + bool_text(incl) + ", "@ + num_kind_name(k) + ")"@,
        SVal::Object(id, k) => "Object("@ + dec_nat(id as nat) + ", "@ + kind_text(k) + ")"@,
        SVal::Function(f) => "Function("@ + dec_nat(f.id as nat) + ")"@,
        SVal::FunctionChain(_, k) => "FunctionChain("@ + kind_text(k) + ")"@,
        SVal::Pointer(o, a, k) => "Pointer("@ + dec_nat(o as nat) + ", "@ + dec_nat(a as nat)
            + ", "@ + kind_text(k) + ")"@,
        SVal::Element(t, i, k) => "Element("@ + value_debug(*t) + ", "@ + value_debug(*i) + ", "@
            + kind_text(k) + ")"@,
        SVal::Local(id, k) => "Local("@ + dec_nat(id as nat) + ", "@ + kind_text(k) + ")"@,
    }
}

/// The structural forms of values joined by `, `.
pub open spec fn debug_list(xs: Seq<SVal>) -> Seq<char>
    decreases xs, 0nat,
{
    if xs.len() == 0 {
        seq![]
    } else if xs.len() == 1 {
        value_debug(xs[0])
    } else {
        debug_list(xs.drop_last()) + ", "@ + value_debug(xs.last())
    }
}

/// The structural forms of entries `(key, value)` joined by `, `.
pub open spec fn debug_entries(es: Seq<(SVal, SVal)>) -> Seq<char>
    decreases es, 0nat,
{
    if es.len() == 0 {
        seq![]
    } else if es.len() == 1 {
        "("@ + value_debug(es[0].0) + ", "@ + value_debug(es[0].1) + ")"@
    } else {
        debug_entries(es.drop_last()) + ", ("@ + value_debug(es.last().0) + ", "@ + value_debug(
            es.last().1,
        ) + ")"@
    }
}

/// The message of a unary operator that does not apply to a value.
pub open spec fn unary_message(op: Operator, v: SVal) -> Seq<char> {
    "Invalid operation: "@ + operator_name(op) + " "@ + value_debug(v)
}

/// The message of a binary operator that does not apply to a left value and
/// the kind of the right operand.
pub open spec fn binary_message(lv: SVal, op: Operator, rk: SKind) -> Seq<char> {
    "Invalid operation: "@ + value_debug(lv) + " "@ + operator_name(op) + " "@ + kind_text(rk)
}

/// The structural form of the information on a local.
pub open spec fn local_info_text(id: usize, k: SKind) -> Seq<char> {
    "LocalInfo { id: "@ + dec_nat(id as nat) + ", kind: "@ + kind_text(k) + " }"@
}

/// The structural form of the information on a member.
pub open spec fn member_info_text(id: usize, name: Seq<char>, k: SKind) -> Seq<char> {
    "MemberInfo { id: "@ + dec_nat(id as nat) + ", name: \""@ + escaped(name) + "\", kind: "@
        + kind_text(k) + " }"@
}

/// The text of a span: its start and end offsets.
pub open spec fn span_text(s: Span) -> Seq<char> {
    dec_nat(s.start as nat) + ".."@ + dec_nat(s.end as nat)
}

/// The text of an error: where it happened, then what happened.
pub open spec fn error_text(e: SErr) -> Seq<char> {
    match e {
        SErr::Error { span, message } => span_text(span) + ": "@ + message,
        SErr::Throw { span, message } => span_text(span) + ": Throw: \""@ + message + "\""@,
        SErr::TypeMismatch { span, found, expected } => span_text(span) + ": "@ + value_debug(found)
            + " does not match expected type "@ + kind_text(expected),
        SErr::UnexpectedBreakout { span } => span_text(span) + ": Unexpected breakout"@,
        SErr::InvalidOperator { span, operator, operand } => span_text(span) + ": "@
            + operator_name(operator) + " is invalid operator for "@ + kind_text(operand),
    }
}

/// Appends the name of a number kind.
pub fn push_num_kind_name(s: &mut String, k: NumKind)
    ensures
        final(s)@ == old(s)@ + num_kind_name(k),
{
    match k {
        NumKind::Int8 => s.append("Int8"),
        NumKind::Int16 => s.append("Int16"),
        NumKind::Int32 => s.append("Int32"),
        NumKind::Int64 => s.append("Int64"),
        NumKind::UInt8 => s.append("UInt8"),
        NumKind::UInt16 => s.append("UInt16"),
        NumKind::UInt32 => s.append("UInt32"),
        NumKind::UInt64 => s.append("UInt64"),
        NumKind::Float32 => s.append("Float32"),
        NumKind::Float64 => s.append("Float64"),
        NumKind::Any => s.append("Any"),
    }
}

/// Appends the name of an operator.
pub fn push_operator_name(s: &mut String, op: Operator)
    ensures
        final(s)@ == old(s)@ + operator_name(op),
{
    match op {
        Operator::Equal => s.append("Equal"),
        Operator::NEqual => s.append("NEqual"),
        Operator::LT => s.append("LT"),
        Operator::GT => s.append("GT"),
        Operator::LTE => s.append("LTE"),
        Operator::GTE => s.append("GTE"),
        Operator::Add => s.append("Add"),
        Operator::Sub => s.append("Sub"),
        Operator::Mul => s.append("Mul"),
        Operator::Div => s.append("Div"),
        Operator::Mod => s.append("Mod"),
        Operator::BWAnd => s.append("BWAnd"),
        Operator::BWOr => s.append("BWOr"),
        Operator::BWXor => s.append("BWXor"),
        Operator::BWShiftL => s.append("BWShiftL"),
        Operator::BWShiftR => s.append("BWShiftR"),
        Operator::BWNot => s.append("BWNot"),
        Operator::Range => s.append("Range"),
        Operator::RangeLT => s.append("RangeLT"),
        Operator::Not => s.append("Not"),
        Operator::And => s.append("And"),
        Operator::Or => s.append("Or"),
        Operator::Inc => s.append("Inc"),
        Operator::Dec => s.append("Dec"),
        Operator::Len => s.append("Len"),
        Operator::DQuestion => s.append("DQuestion"),
        Operator::IsShape => s.append("IsShape"),
        Operator::NIsShape => s.append("NIsShape"),
    }
}

/// Appends the text of a kind.
pub fn push_kind_text(s: &mut String, k: &ValueKind)
    ensures
        final(s)@ == old(s)@ + kind_text(k@),
    decreases k, 1nat,
{
    let ghost s0 = s@;
    match k {
        ValueKind::String => s.append("String"),
        ValueKind::Bool => s.append("Bool"),
        ValueKind::Nil => s.append("None"),
        ValueKind::Number(n) => {
            s.append("Number(");
            push_num_kind_name(s, *n);
            s.append(")");
        },
        ValueKind::Array(b) => {
            s.append("Array(");
            push_kind_text(s, b);
            s.append(")");
        },
        ValueKind::SetOf(b) => {
            s.append("Set(");
            push_kind_text(s, b);
            s.append(")");
        },
        ValueKind::Dict(a, b) => {
            s.append("Dict(");
            push_kind_text(s, a);
            s.append(", ");
            push_kind_text(s, b);
            s.append(")");
        },
        ValueKind::Option(b) => {
            s.append("Option(");
            push_kind_text(s, b);
            s.append(")");
        },
        ValueKind::Object(ks) => {
            s.append("Object([");
            push_kind_list(s, ks);
            s.append("])");
            assert(kind_view(*k)->Object_0 =~= map_view(ks@));
        },
        ValueKind::Shape(inst) => {
            s.append("Shape(");
            push_instance_text(s, inst);
            s.append(")");
            assert(kind_view(*k)->Shape_1 =~= map_view(inst.generics@));
        },
        ValueKind::Range(n) => {
            s.append("Range(");
            push_num_kind_name(s, *n);
            s.append(")");
        },
        ValueKind::Function(b) => {
            s.append("Function(");
            push_kind_text(s, b);
            s.append(")");
        },
        ValueKind::Dyn => s.append("Dyn"),
    }
    assert(s@ =~= s0 + kind_text(k@));
}

/// Appends the text of a shape instance.
pub fn push_instance_text(s: &mut String, inst: &ShapeInstance)
    ensures
        final(s)@ == old(s)@ + instance_text(inst.id, map_view(inst.generics@)),
    decreases inst, 1nat,
{
    let ghost s0 = s@;
    s.append("ShapeInstance { id: ");
    push_decimal(s, inst.id as u128);
    s.append(", generics: [");
    push_kind_list(s, &inst.generics);
    s.append("] }");
    assert(s@ =~= s0 + instance_text(inst.id, map_view(inst.generics@)));
}

/// Appends the texts of kinds joined by `, `.
pub fn push_kind_list(s: &mut String, ks: &Vec<ValueKind>)
    ensures
        final(s)@ == old(s)@ + kind_list_text(map_view(ks@)),
    decreases ks, 0nat,
{
    let ghost s0 = s@;
    let ghost all = map_view(ks@);
    let mut i: usize = 0;
    while i < ks.len()
        invariant
            i <= ks@.len(),
            all == map_view(ks@),
            s@ == s0 + kind_list_text(all.take(i as int)),
        decreases ks@.len() - i,
    {
        proof {
            reveal_strlit(", ");
        }
        if i > 0 {
            s.append(", ");
        }
        push_kind_text(s, &ks[i]);
        assert(all.take(i + 1).drop_last() =~= all.take(i as int));
        assert(s@ =~= s0 + kind_list_text(all.take(i + 1)));
        i = i + 1;
    }
    assert(all.take(ks@.len() as int) =~= all);
}

/// Appends the text of a span.
pub fn push_span(s: &mut String, sp: Span)
    ensures
        final(s)@ == old(s)@ + span_text(sp),
{
    push_decimal(s, sp.start as u128);
    s.append("..");
    push_decimal(s, sp.end as u128);
    assert(s@ =~= old(s)@ + span_text(sp));
}

/// The error `Error { span, message }` whose message is `prefix` followed by
/// the text of kind `k`.
pub fn kind_error(span: Span, prefix: &str, k: &ValueKind) -> (e: RuntimeError)
    ensures
        e@ == err(span, prefix@ + kind_text(k@)),
{
    let mut message = String::new();
    message.append(prefix);
    push_kind_text(&mut message, k);
    assert(message@ =~= prefix@ + kind_text(k@));
    RuntimeError::Error { span, message }
}

/// The error `Error { span, message }` whose message is `prefix` followed by
/// `n` in decimal.
pub fn number_error(span: Span, prefix: &str, n: u128) -> (e: RuntimeError)
    ensures
        e@ == err(span, prefix@ + dec_nat(n as nat)),
{
    let mut message = String::new();
    message.append(prefix);
    push_decimal(&mut message, n);
    assert(message@ =~= prefix@ + dec_nat(n as nat));
    RuntimeError::Error { span, message }
}

/// The error `Error { span, message }` whose message is `name`, escaped as
/// inside a quoted string, between `prefix` and `suffix`.
pub fn name_error(span: Span, prefix: &str, name: &str, suffix: &str) -> (e: RuntimeError)
    ensures
        e@ == err(span, prefix@ + escaped(name@) + suffix@),
{
    let mut message = String::new();
    message.append(prefix);
    push_escaped(&mut message, name);
    message.append(suffix);
    RuntimeError::Error { span, message }
}

/// Appends the text of a number.
pub fn push_number_text(s: &mut String, n: Number)
    ensures
        final(s)@ == old(s)@ + number_text(n),
{
    let ghost s0 = s@;
    match n {
        Number::Int8(_) => s.append("Int8"),
        Number::Int16(_) => s.append("Int16"),
        Number::Int32(_) => s.append("Int32"),
        Number::Int64(_) => s.append("Int64"),
        Number::UInt8(_) => s.append("UInt8"),
        Number::UInt16(_) => s.append("UInt16"),
        Number::UInt32(_) => s.append("UInt32"),
        Number::UInt64(_) => s.append("UInt64"),
        Number::Any(_) => s.append("Any"),
    }
    s.append("(");
    push_int(s, n.int_value());
    s.append(")");
    assert(s@ =~= s0 + number_text(n));
}

/// The error for an index out of bounds, with the index's text and the bound.
pub fn bounds_error(span: Span, index: String, bound: i128) -> (e: RuntimeError)
    requires
        bound > i128::MIN,
    ensures
        e@ == err(span, bounds_message(index@, bound as int)),
{
    let mut message = String::new();
    message.append("Index ");
    message.append(index.as_str());
    message.append(" out of bounds (");
    push_int(&mut message, bound);
    message.append(")");
    assert(message@ =~= bounds_message(index@, bound as int));
    RuntimeError::Error { span, message }
}

/// The error for an array index out of bounds, with the index and the length.
pub fn array_bounds_error(span: Span, index: i128, len: usize) -> (e: RuntimeError)
    requires
        index > i128::MIN,
    ensures
        e@ == err(span, array_bounds_message(index as int, len as nat)),
{
    let mut message = String::new();
    message.append("Index ");
    push_int(&mut message, index);
    message.append(" out of bounds (len of ");
    push_decimal(&mut message, len as u128);
    message.append(")");
    assert(message@ =~= array_bounds_message(index as int, len as nat));
    RuntimeError::Error { span, message }
}

/// The error `Error { span, message }` whose message is `prefix` followed by
/// the text of the shape instance kind `k` stands for.
pub fn shape_error(span: Span, prefix: &str, k: &ValueKind) -> (e: RuntimeError)
    ensures
        e@ == err(span, prefix@ + shape_kind_text(k@)),
{
    let mut message = String::new();
    message.append(prefix);
    match k {
        ValueKind::Shape(inst) => {
            push_instance_text(&mut message, inst);
            assert(kind_view(*k)->Shape_1 =~= map_view(inst.generics@));
        },
        _ => push_kind_text(&mut message, k),
    }
    assert(message@ =~= prefix@ + shape_kind_text(k@));
    RuntimeError::Error { span, message }
}

/// The error for a member missing from an object: the member's name in
/// quotes, then the object.
pub fn member_error(span: Span, name: &str, id: usize) -> (e: RuntimeError)
    ensures
        e@ == err(span, member_message(name@, id)),
{
    let mut message = String::new();
    message.append("Member \"");
    push_escaped(&mut message, name);
    message.append("\" not found for ");
    push_decimal(&mut message, id as u128);
    assert(message@ =~= member_message(name@, id));
    RuntimeError::Error { span, message }
}

/// The error for two numbers that cannot be brought to a common kind.
pub fn conversion_error(span: Span, l: Number, r: Number) -> (e: RuntimeError)
    ensures
        e@ == err(span, "Couldnt do number conversion: "@ + number_text(l) + " to "@ + number_text(r)),
{
    let mut message = String::new();
    message.append("Couldnt do number conversion: ");
    push_number_text(&mut message, l);
    message.append(" to ");
    push_number_text(&mut message, r);
    RuntimeError::Error { span, message }
}

/// Appends the characters of `x`, each as it stands inside a quoted string.
pub fn push_escaped(s: &mut String, x: &str)
    ensures
        final(s)@ == old(s)@ + escaped(x@),
{
    let ghost s0 = s@;
    let n = x.unicode_len();
    let mut i: usize = 0;
    while i < n
        invariant
            n == x@.len(),
            i <= n,
            s@ == s0 + escaped(x@.take(i as int)),
        decreases n - i,
    {
        proof {
            reveal_strlit("\\\"");
            reveal_strlit("\\\\");
            reveal_strlit("\\n");
            reveal_strlit("\\r");
            reveal_strlit("\\t");
        }
        let c = x.get_char(i);
        assert(x@.take(i + 1).last() == c);
        if c == '"' {
            s.append("\\\"");
        } else if c == '\\' {
            s.append("\\\\");
        } else if c == '\n' {
            s.append("\\n");
        } else if c == '\r' {
            s.append("\\r");
        } else if c == '\t' {
            s.append("\\t");
        } else {
            let cs = char_string(c);
            s.append(cs.as_str());
        }
        assert(x@.take(i + 1).drop_last() =~= x@.take(i as int));
        assert(s@ =~= s0 + escaped(x@.take(i + 1)));
        i = i + 1;
    }
    assert(x@.take(n as int) =~= x@);
}

/// Appends the structural form of a range.
fn push_range_debug(s: &mut String, v: &Value)
    requires
        v is Range,
    ensures
        final(s)@ == old(s)@ + value_debug(v@),
{
    let ghost s0 = s@;
    match v {
        Value::Range(a, b, c, incl, k) => {
            s.append("Range(");
            push_number_text(s, *a);
            s.append(", ");
            push_number_text(s, *b);
            s.append(", ");
            push_number_text(s, *c);
            s.append(", ");
            if *incl {
                s.append("true");
            } else {
                s.append("false");
            }
            s.append(", ");
            push_num_kind_name(s, *k);
            s.append(")");
            assert(s@ =~= s0 + value_debug(v@));
        },
        _ => {},
    }
}

/// Appends the structural form of a value that holds no other values.
#[verifier::rlimit(80)]
fn push_scalar_debug(s: &mut String, v: &Value)
    requires
        !(v is Array || v is SetOf || v is Dict || v is Element),
    ensures
        final(s)@ == old(s)@ + value_debug(v@),
{
    let ghost s0 = s@;
    match v {
        Value::Nil => {
            s.append("None");
            assert(s@ =~= s0 + value_debug(v@));
        },
        Value::Bool(b) => {
            s.append("Bool(");
            if *b {
                s.append("true");
            } else {
                s.append("false");
            }
            s.append(")");
            assert(s@ =~= s0 + value_debug(v@));
        },
        Value::Number(n) => {
            s.append("Number(");
            push_number_text(s, *n);
            s.append(")");
            assert(s@ =~= s0 + value_debug(v@));
        },
        Value::String(x) => {
            s.append("String(\"");
            push_escaped(s, x.as_str());
            s.append("\")");
            assert(s@ =~= s0 + value_debug(v@));
        },
        Value::Range(..) => push_range_debug(s, v),
        Value::Object(id, k) => {
            s.append("Object(");
            push_decimal(s, *id as u128);
            s.append(", ");
            push_kind_text(s, k);
            s.append(")");
            assert(s@ =~= s0 + value_debug(v@));
        },
        Value::Function(f) => {
            s.append("Function(");
            push_decimal(s, f.id as u128);
            s.append(")");
            assert(s@ =~= s0 + value_debug(v@));
        },
        Value::FunctionChain(_, k) => {
            s.append("FunctionChain(");
            push_kind_text(s, k);
            s.append(")");
            assert(s@ =~= s0 + value_debug(v@));
        },
        Value::Pointer(o, a, k) => {
            s.append("Pointer(");
            push_decimal(s, *o as u128);
            s.append(", ");
            push_decimal(s, *a as u128);
            s.append(", ");
            push_kind_text(s, k);
            s.append(")");
            assert(s@ =~= s0 + value_debug(v@));
        },
        Value::Local(id, k) => {
            s.append("Local(");
            push_decimal(s, *id as u128);
            s.append(", ");
            push_kind_text(s, k);
            s.append(")");
            assert(s@ =~= s0 + value_debug(v@));
        },
        _ => {},
    }
}

/// Appends the structural form of a value.
pub fn push_value_debug(s: &mut String, v: &Value)
    ensures
        final(s)@ == old(s)@ + value_debug(v@),
    decreases v, 1nat,
{
    let ghost s0 = s@;
    match v {
        Value::Array(xs, k) => {
            s.append("Array([");
            push_debug_list(s, xs);
            s.append("], ");
            push_kind_text(s, k);
            s.append(")");
            assert(value_view(*v)->Array_0 =~= Seq::new(xs@.len(), |i: int| xs@[i]@));
        },
        Value::SetOf(xs, k) => {
            s.append("Set([");
            push_debug_list(s, xs);
            s.append("], ");
            push_kind_text(s, k);
            s.append(")");
            assert(value_view(*v)->SetOf_0 =~= Seq::new(xs@.len(), |i: int| xs@[i]@));
        },
        Value::Dict(es, a, b) => {
            s.append("Dict([");
            push_debug_entries(s, es);
            s.append("], ");
            push_kind_text(s, a);
            s.append(", ");
            push_kind_text(s, b);
            s.append(")");
            assert(value_view(*v)->Dict_0 =~= Seq::new(
                es@.len(),
                |i: int| (es@[i].0@, es@[i].1@),
            ));
        },
        Value::Element(t, i, k) => {
            s.append("Element(");
            push_value_debug(s, t);
            s.append(", ");
            push_value_debug(s, i);
            s.append(", ");
            push_kind_text(s, k);
            s.append(")");
        },
        _ => push_scalar_debug(s, v),
    }
    assert(s@ =~= s0 + value_debug(v@));
}

/// Appends the structural forms of values joined by `, `.
pub fn push_debug_list(s: &mut String, xs: &Vec<Value>)
    ensures
        final(s)@ == old(s)@ + debug_list(Seq::new(xs@.len(), |i: int| xs@[i]@)),
    decreases xs, 0nat,
{
    let ghost s0 = s@;
    let ghost all = Seq::new(xs@.len(), |i: int| xs@[i]@);
    let mut i: usize = 0;
    while i < xs.len()
        invariant
            i <= xs@.len(),
            all == Seq::new(xs@.len(), |i: int| xs@[i]@),
            s@ == s0 + debug_list(all.take(i as int)),
        decreases xs@.len() - i,
    {
        proof {
            reveal_strlit(", ");
        }
        if i > 0 {
            s.append(", ");
        }
        push_value_debug(s, &xs[i]);
        assert(all.take(i + 1).drop_last() =~= all.take(i as int));
        assert(s@ =~= s0 + debug_list(all.take(i + 1)));
        i = i + 1;
    }
    assert(all.take(xs@.len() as int) =~= all);
}

/// Appends the structural forms of entries joined by `, `.
pub fn push_debug_entries(s: &mut String, es: &Vec<(Value, Value)>)
    ensures
        final(s)@ == old(s)@ + debug_entries(Seq::new(es@.len(), |i: int| (es@[i].0@, es@[i].1@))),
    decreases es, 0nat,
{
    let ghost s0 = s@;
    let ghost all = Seq::new(es@.len(), |i: int| (es@[i].0@, es@[i].1@));
    let mut i: usize = 0;
    while i < es.len()
        invariant
            i <= es@.len(),
            all == Seq::new(es@.len(), |i: int| (es@[i].0@, es@[i].1@)),
            s@ == s0 + debug_entries(all.take(i as int)),
        decreases es@.len() - i,
    {
        proof {
            reveal_strlit(", (");
            reveal_strlit(", ");
            reveal_strlit("(");
        }
        if i > 0 {
            s.append(", (");
        } else {
            s.append("(");
        }
        push_value_debug(s, &es[i].0);
        s.append(", ");
        push_value_debug(s, &es[i].1);
        s.append(")");
        assert(all.take(i + 1).drop_last() =~= all.take(i as int));
        assert(s@ =~= s0 + debug_entries(all.take(i + 1)));
        i = i + 1;
    }
    assert(all.take(es@.len() as int) =~= all);
}

/// The error `Error { span, message }` whose message is `prefix` followed by
/// the structural form of `v`.
pub fn value_error(span: Span, prefix: &str, v: &Value) -> (e: RuntimeError)
    ensures
        e@ == err(span, prefix@ + value_debug(v@)),
{
    let mut message = String::new();
    message.append(prefix);
    push_value_debug(&mut message, v);
    RuntimeError::Error { span, message }
}

/// The error `Error { span, message }` whose message is the structural form of
/// `v` followed by `suffix`.
pub fn value_first_error(span: Span, v: &Value, suffix: &str) -> (e: RuntimeError)
    ensures
        e@ == err(span, value_debug(v@) + suffix@),
{
    let mut message = String::new();
    push_value_debug(&mut message, v);
    message.append(suffix);
    assert(message@ =~= value_debug(v@) + suffix@);
    RuntimeError::Error { span, message }
}

/// The error for a unary operator that does not apply to `v`.
pub fn unary_error(span: Span, op: Operator, v: &Value) -> (e: RuntimeError)
    ensures
        e@ == err(span, unary_message(op, v@)),
{
    let mut message = String::new();
    message.append("Invalid operation: ");
    push_operator_name(&mut message, op);
    message.append(" ");
    push_value_debug(&mut message, v);
    assert(message@ =~= unary_message(op, v@));
    RuntimeError::Error { span, message }
}

/// The error for a binary operator that does not apply to `lv` and a right
/// operand of kind `rk`.
pub fn binary_error(span: Span, lv: &Value, op: Operator, rk: &ValueKind) -> (e: RuntimeError)
    ensures
        e@ == err(span, binary_message(lv@, op, rk@)),
{
    let mut message = String::new();
    message.append("Invalid operation: ");
    push_value_debug(&mut message, lv);
    message.append(" ");
    push_operator_name(&mut message, op);
    message.append(" ");
    push_kind_text(&mut message, rk);
    assert(message@ =~= binary_message(lv@, op, rk@));
    RuntimeError::Error { span, message }
}

/// The error for a local that is missing.
pub fn missing_local_error(span: Span, info: &LocalInfo) -> (e: RuntimeError)
    ensures
        e@ == err(span, "Missing local: "@ + local_info_text(info.id, info.kind@)),
{
    let mut message = String::new();
    message.append("Missing local: LocalInfo { id: ");
    push_decimal(&mut message, info.id as u128);
    message.append(", kind: ");
    push_kind_text(&mut message, &info.kind);
    message.append(" }");
    proof {
        reveal_strlit("Missing local: LocalInfo { id: ");
        reveal_strlit("Missing local: ");
        reveal_strlit("LocalInfo { id: ");
    }
    assert(message@ =~= "Missing local: "@ + local_info_text(info.id, info.kind@));
    RuntimeError::Error { span, message }
}

/// The error for a member of a value that is neither an object nor a value
/// with a static object.
pub fn member_access_error(span: Span, v: &Value, member: &MemberInfo) -> (e: RuntimeError)
    ensures
        e@ == err(
            span,
            "Member access not permitted for "@ + value_debug(v@) + "."@ + member_info_text(
                member.id,
                member.name@,
                member.kind@,
            ),
        ),
{
    let mut message = String::new();
    message.append("Member access not permitted for ");
    push_value_debug(&mut message, v);
    message.append(".");
    let ghost s1 = message@;
    message.append("MemberInfo { id: ");
    push_decimal(&mut message, member.id as u128);
    message.append(", name: \"");
    push_escaped(&mut message, member.name.as_str());
    message.append("\", kind: ");
    push_kind_text(&mut message, &member.kind);
    message.append(" }");
    assert(message@ =~= s1 + member_info_text(member.id, member.name@, member.kind@));
    RuntimeError::Error { span, message }
}

/// The error `Error { span, message }` whose message is the structural forms
/// of `a` and `b` after `prefix` and `middle`.
pub fn two_values_error(span: Span, prefix: &str, a: &Value, middle: &str, b: &Value) -> (e:
    RuntimeError)
    ensures
        e@ == err(span, prefix@ + value_debug(a@) + middle@ + value_debug(b@)),
{
    let mut message = String::new();
    message.append(prefix);
    push_value_debug(&mut message, a);
    message.append(middle);
    push_value_debug(&mut message, b);
    RuntimeError::Error { span, message }
}

/// The error for a detachment that cannot be made.
pub fn detach_error(span: Span, k: &ValueKind, v: &Value) -> (e: RuntimeError)
    ensures
        e@ == err(span, "Could not detach "@ + kind_text(k@) + " from "@ + value_debug(v@)),
{
    let mut message = String::new();
    message.append("Could not detach ");
    push_kind_text(&mut message, k);
    message.append(" from ");
    push_value_debug(&mut message, v);
    RuntimeError::Error { span, message }
}

/// The error for a slot mapping on a value that is not an object.
pub fn mapping_error(span: Span, v: &Value, from: usize, to: usize) -> (e: RuntimeError)
    ensures
        e@ == err(
            span,
            "Invalid mapping: "@ + value_debug(v@) + ", "@ + dec_nat(from as nat) + " -> "@ + dec_nat(
                to as nat,
            ),
        ),
{
    let mut message = String::new();
    message.append("Invalid mapping: ");
    push_value_debug(&mut message, v);
    message.append(", ");
    push_decimal(&mut message, from as u128);
    message.append(" -> ");
    push_decimal(&mut message, to as u128);
    RuntimeError::Error { span, message }
}

/// The error for an attachment to a value that is not an object.
pub fn attach_error(span: Span, inst: &ShapeInstance, v: &Value) -> (e: RuntimeError)
    ensures
        e@ == err(
            span,
            "Could not attach "@ + instance_text(inst.id, map_view(inst.generics@)) + " to "@
                + value_debug(v@),
        ),
{
    let mut message = String::new();
    message.append("Could not attach ");
    push_instance_text(&mut message, inst);
    message.append(" to ");
    push_value_debug(&mut message, v);
    RuntimeError::Error { span, message }
}

impl RuntimeError {
    /// The text this error is shown as.
    pub fn to_text(&self) -> (t: String)
        ensures
            t@ == error_text(self@),
    {
        let mut s = String::new();
        match self {
            RuntimeError::Error { span, message } => {
                push_span(&mut s, *span);
                s.append(": ");
                s.append(message.as_str());
            },
            RuntimeError::Throw { span, message } => {
                push_span(&mut s, *span);
                s.append(": Throw: \"");
                s.append(message.as_str());
                s.append("\"");
            },
            RuntimeError::TypeMismatch { span, found, expected } => {
                push_span(&mut s, *span);
                s.append(": ");
                push_value_debug(&mut s, found);
                s.append(" does not match expected type ");
                push_kind_text(&mut s, expected);
            },
            RuntimeError::UnexpectedBreakout { span } => {
                push_span(&mut s, *span);
                s.append(": Unexpected breakout");
            },
            RuntimeError::InvalidOperator { span, operator, operand } => {
                push_span(&mut s, *span);
                s.append(": ");
                push_operator_name(&mut s, *operator);
                s.append(" is invalid operator for ");
                push_kind_text(&mut s, operand);
            },
        }
        assert(s@ =~= error_text(self@));
        s
    }
}

} // verus!

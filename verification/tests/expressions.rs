use azimuth::executor::{create_range, evaluate, evaluate_shape, RuntimeError, ShapeInstance};
use azimuth::model::{
    LocalInfo, MemberInfo, NumKind, Number, Operator, ResolvedAttachment, ResolvedExpression,
    ResolvedShapeExpression, Span, Symbol, Value, ValueKind,
};
use azimuth::runtime::{Runtime, ShapeInfo};

fn sp() -> Span {
    Span::new(1, 2, "")
}

fn empty_runtime() -> Runtime {
    Runtime::new(Vec::new(), Vec::new(), Vec::new(), Vec::new())
}

fn object_runtime() -> Runtime {
    let shapes = vec![ShapeInfo { name: String::from("Object"), parents: Vec::new(), static_id: None }];
    Runtime::new(shapes, Vec::new(), Vec::new(), Vec::new())
}

fn num32(n: i32) -> ResolvedExpression {
    ResolvedExpression::Value(sp(), Value::Number(Number::Int32(n)))
}

fn num(n: Number) -> ResolvedExpression {
    ResolvedExpression::Value(sp(), Value::Number(n))
}

fn text(s: &str) -> ResolvedExpression {
    ResolvedExpression::Value(sp(), Value::String(String::from(s)))
}

fn boolean(b: bool) -> ResolvedExpression {
    ResolvedExpression::Value(sp(), Value::Bool(b))
}

fn binary(l: ResolvedExpression, op: Operator, r: ResolvedExpression) -> ResolvedExpression {
    ResolvedExpression::BinaryOp { span: sp(), left: Box::new(l), operator: op, right: Box::new(r) }
}

fn unary(op: Operator, e: ResolvedExpression) -> ResolvedExpression {
    ResolvedExpression::UnaryOp { span: sp(), operator: op, operand: Box::new(e) }
}

fn index(t: ResolvedExpression, i: ResolvedExpression, optional: bool) -> ResolvedExpression {
    ResolvedExpression::ArrayAccess {
        span: sp(),
        target: Box::new(t),
        index: Box::new(i),
        optional,
        chained: false,
    }
}

fn eval(e: ResolvedExpression) -> Result<Value, RuntimeError> {
    let mut rt = empty_runtime();
    evaluate(&mut rt, e)
}

fn as_i32(v: &Value) -> i32 {
    match v {
        Value::Number(Number::Int32(n)) => *n,
        other => panic!("not an Int32: {:?}", other),
    }
}

fn error_message(r: Result<Value, RuntimeError>) -> String {
    match r {
        Err(RuntimeError::Error { message, .. }) => message,
        other => panic!("not an error: {:?}", other),
    }
}

#[test]
fn literal_value_is_returned_unchanged() {
    let r = eval(num32(7)).unwrap();
    assert_eq!(as_i32(&r), 7);
}

#[test]
fn array_literal_keeps_order() {
    let e = ResolvedExpression::Array(sp(), vec![num32(3), num32(1), num32(2)], ValueKind::Number(NumKind::Int32));
    match eval(e).unwrap() {
        Value::Array(items, ValueKind::Number(NumKind::Int32)) => {
            let ns: Vec<i32> = items.iter().map(as_i32).collect();
            assert_eq!(ns, vec![3, 1, 2]);
        },
        other => panic!("{:?}", other),
    }
}

#[test]
fn set_literal_drops_duplicates() {
    let e = ResolvedExpression::SetOf(
        sp(),
        vec![num32(1), num32(2), num32(1), num32(3), num32(2)],
        ValueKind::Number(NumKind::Int32),
    );
    match eval(e).unwrap() {
        Value::SetOf(items, _) => {
            let ns: Vec<i32> = items.iter().map(as_i32).collect();
            assert_eq!(ns, vec![1, 2, 3]);
        },
        other => panic!("{:?}", other),
    }
}

#[test]
fn dict_literal_later_value_wins() {
    let e = ResolvedExpression::Dict(
        sp(),
        vec![(text("a"), num32(1)), (text("b"), num32(2)), (text("a"), num32(3))],
        ValueKind::String,
        ValueKind::Number(NumKind::Int32),
    );
    match eval(e).unwrap() {
        Value::Dict(entries, _, _) => {
            assert_eq!(entries.len(), 2);
            match (&entries[0].0, &entries[1].0) {
                (Value::String(a), Value::String(b)) => {
                    assert_eq!(a, "a");
                    assert_eq!(b, "b");
                },
                other => panic!("{:?}", other),
            }
            assert_eq!(as_i32(&entries[0].1), 3);
            assert_eq!(as_i32(&entries[1].1), 2);
        },
        other => panic!("{:?}", other),
    }
}

#[test]
fn missing_local_is_an_error() {
    let e = ResolvedExpression::Variable(
        sp(),
        Symbol::Local(LocalInfo { id: 4, kind: ValueKind::Number(NumKind::Int32) }),
    );
    assert_eq!(error_message(eval(e)), "Missing local: LocalInfo { id: 4, kind: Number(Int32) }");
}

#[test]
fn local_variable_reads_bound_value() {
    let mut rt = empty_runtime();
    rt.reserve_local(4, Value::Number(Number::Int32(11)));
    let e = ResolvedExpression::Variable(
        sp(),
        Symbol::Local(LocalInfo { id: 4, kind: ValueKind::Number(NumKind::Int32) }),
    );
    assert_eq!(as_i32(&evaluate(&mut rt, e).unwrap()), 11);
}

#[test]
fn generic_symbol_is_an_error() {
    let e = ResolvedExpression::Variable(sp(), Symbol::Generic(0));
    assert_eq!(error_message(eval(e)), "Somehow generic made it through: 0");
}

#[test]
fn defaults_of_primitive_kinds() {
    match eval(ResolvedExpression::Default(sp(), ValueKind::Number(NumKind::UInt16))).unwrap() {
        Value::Number(Number::UInt16(0)) => {},
        other => panic!("{:?}", other),
    }
    match eval(ResolvedExpression::Default(sp(), ValueKind::String)).unwrap() {
        Value::String(s) => assert_eq!(s, ""),
        other => panic!("{:?}", other),
    }
    match eval(ResolvedExpression::Default(sp(), ValueKind::Bool)).unwrap() {
        Value::Bool(false) => {},
        other => panic!("{:?}", other),
    }
    match eval(ResolvedExpression::Default(sp(), ValueKind::Option(Box::new(ValueKind::Bool)))).unwrap() {
        Value::Nil => {},
        other => panic!("{:?}", other),
    }
    let r = eval(ResolvedExpression::Default(sp(), ValueKind::Dyn));
    assert_eq!(error_message(r), "Could not determine default for Dyn");
}

#[test]
fn string_format_concatenates_renderings() {
    let e = ResolvedExpression::StringFormat(sp(), vec![text("x = "), num32(-12), text(", "), boolean(true)]);
    match eval(e).unwrap() {
        Value::String(s) => assert_eq!(s, "x = -12, true"),
        other => panic!("{:?}", other),
    }
}

#[test]
fn unary_operators_on_numbers_give_int64() {
    match eval(unary(Operator::Inc, num32(5))).unwrap() {
        Value::Number(Number::Int64(6)) => {},
        other => panic!("{:?}", other),
    }
    match eval(unary(Operator::Sub, num32(5))).unwrap() {
        Value::Number(Number::Int64(-5)) => {},
        other => panic!("{:?}", other),
    }
    match eval(unary(Operator::BWNot, num32(5))).unwrap() {
        Value::Number(Number::Int64(-6)) => {},
        other => panic!("{:?}", other),
    }
    match eval(unary(Operator::Not, boolean(true))).unwrap() {
        Value::Bool(false) => {},
        other => panic!("{:?}", other),
    }
}

#[test]
fn length_counts_characters() {
    match eval(unary(Operator::Len, text("héllo"))).unwrap() {
        Value::Number(Number::UInt64(5)) => {},
        other => panic!("{:?}", other),
    }
    let arr = ResolvedExpression::Array(sp(), vec![num32(1), num32(2)], ValueKind::Number(NumKind::Int32));
    match eval(unary(Operator::Len, arr)).unwrap() {
        Value::Number(Number::UInt64(2)) => {},
        other => panic!("{:?}", other),
    }
}

#[test]
fn invalid_unary_operator_is_reported() {
    match eval(unary(Operator::Not, num32(1))) {
        Err(RuntimeError::InvalidOperator { operator: Operator::Not, operand: ValueKind::Number(NumKind::Int32), .. }) => {},
        other => panic!("{:?}", other),
    }
    match eval(unary(Operator::Inc, boolean(true))) {
        Err(RuntimeError::InvalidOperator { operator: Operator::Inc, operand: ValueKind::Bool, .. }) => {},
        other => panic!("{:?}", other),
    }
}

#[test]
fn integer_division_truncates_toward_zero() {
    assert_eq!(as_i32(&eval(binary(num32(7), Operator::Div, num32(-2))).unwrap()), -3);
    assert_eq!(as_i32(&eval(binary(num32(-7), Operator::Div, num32(2))).unwrap()), -3);
    assert_eq!(as_i32(&eval(binary(num32(7), Operator::Mod, num32(-2))).unwrap()), 1);
    assert_eq!(as_i32(&eval(binary(num32(-7), Operator::Mod, num32(2))).unwrap()), -1);
}

#[test]
fn arithmetic_promotes_to_wider_kind() {
    match eval(binary(num(Number::Int8(3)), Operator::Add, num(Number::Int64(4)))).unwrap() {
        Value::Number(Number::Int64(7)) => {},
        other => panic!("{:?}", other),
    }
    match eval(binary(num(Number::UInt8(200)), Operator::Mul, num(Number::UInt32(3)))).unwrap() {
        Value::Number(Number::UInt32(600)) => {},
        other => panic!("{:?}", other),
    }
}

#[test]
fn bitwise_and_shift_operators() {
    assert_eq!(as_i32(&eval(binary(num32(12), Operator::BWAnd, num32(10))).unwrap()), 8);
    assert_eq!(as_i32(&eval(binary(num32(12), Operator::BWOr, num32(10))).unwrap()), 14);
    assert_eq!(as_i32(&eval(binary(num32(12), Operator::BWXor, num32(10))).unwrap()), 6);
    assert_eq!(as_i32(&eval(binary(num32(3), Operator::BWShiftL, num32(4))).unwrap()), 48);
    assert_eq!(as_i32(&eval(binary(num32(-16), Operator::BWShiftR, num32(2))).unwrap()), -4);
}

#[test]
fn comparisons_give_booleans() {
    match eval(binary(num32(2), Operator::LT, num32(3))).unwrap() {
        Value::Bool(true) => {},
        other => panic!("{:?}", other),
    }
    match eval(binary(num32(2), Operator::GTE, num32(3))).unwrap() {
        Value::Bool(false) => {},
        other => panic!("{:?}", other),
    }
}

#[test]
fn numeric_range_operator_builds_range() {
    match eval(binary(num32(5), Operator::RangeLT, num32(1))).unwrap() {
        Value::Range(Number::Int32(5), Number::Int32(1), Number::Any(-1), false, NumKind::Int32) => {},
        other => panic!("{:?}", other),
    }
}

#[test]
fn invalid_numeric_operator_is_reported() {
    match eval(binary(num32(1), Operator::And, num32(2))) {
        Err(RuntimeError::InvalidOperator { operator: Operator::And, operand: ValueKind::Number(NumKind::Any), .. }) => {},
        other => panic!("{:?}", other),
    }
}

#[test]
fn strings_concatenate_and_compare() {
    match eval(binary(text("ab"), Operator::Add, text("cd"))).unwrap() {
        Value::String(s) => assert_eq!(s, "abcd"),
        other => panic!("{:?}", other),
    }
    match eval(binary(text("ab"), Operator::Equal, text("ab"))).unwrap() {
        Value::Bool(true) => {},
        other => panic!("{:?}", other),
    }
    match eval(binary(text("ab"), Operator::Sub, text("a"))) {
        Err(RuntimeError::InvalidOperator { operator: Operator::Sub, operand: ValueKind::String, .. }) => {},
        other => panic!("{:?}", other),
    }
}

#[test]
fn boolean_operators() {
    match eval(binary(boolean(true), Operator::And, boolean(false))).unwrap() {
        Value::Bool(false) => {},
        other => panic!("{:?}", other),
    }
    match eval(binary(boolean(false), Operator::Or, boolean(true))).unwrap() {
        Value::Bool(true) => {},
        other => panic!("{:?}", other),
    }
}

#[test]
fn nil_coalescing_takes_right_only_for_nil() {
    let nil = ResolvedExpression::Value(sp(), Value::Nil);
    assert_eq!(as_i32(&eval(binary(nil, Operator::DQuestion, num32(5))).unwrap()), 5);
    assert_eq!(as_i32(&eval(binary(num32(3), Operator::DQuestion, num32(5))).unwrap()), 3);
}

#[test]
fn equality_of_different_kinds_is_false() {
    match eval(binary(boolean(true), Operator::Equal, num32(1))).unwrap() {
        Value::Bool(false) => {},
        other => panic!("{:?}", other),
    }
}

#[test]
fn ternary_requires_a_boolean_condition() {
    let t = ResolvedExpression::Ternary {
        span: sp(),
        condition: Box::new(boolean(false)),
        true_expr: Box::new(num32(1)),
        else_expr: Box::new(num32(2)),
    };
    assert_eq!(as_i32(&eval(t).unwrap()), 2);
    let bad = ResolvedExpression::Ternary {
        span: sp(),
        condition: Box::new(num32(0)),
        true_expr: Box::new(num32(1)),
        else_expr: Box::new(num32(2)),
    };
    match eval(bad) {
        Err(RuntimeError::TypeMismatch { found: Value::Number(Number::Int32(0)), expected: ValueKind::Bool, .. }) => {},
        other => panic!("{:?}", other),
    }
}

#[test]
fn negative_index_counts_from_the_end() {
    let arr = || ResolvedExpression::Array(sp(), vec![num32(10), num32(20), num32(30)], ValueKind::Number(NumKind::Int32));
    assert_eq!(as_i32(&eval(index(arr(), num32(-1), false)).unwrap()), 30);
    assert_eq!(as_i32(&eval(index(arr(), num32(0), false)).unwrap()), 10);
    assert_eq!(error_message(eval(index(arr(), num32(3), false))), "Index 3 out of bounds (len of 3)");
    assert_eq!(error_message(eval(index(arr(), num32(-4), false))), "Index -4 out of bounds (len of 3)");
    match eval(index(arr(), num32(5), true)).unwrap() {
        Value::Nil => {},
        other => panic!("{:?}", other),
    }
}

#[test]
fn string_index_gives_one_character() {
    match eval(index(text("héllo"), num32(1), false)).unwrap() {
        Value::String(s) => assert_eq!(s, "é"),
        other => panic!("{:?}", other),
    }
    assert_eq!(error_message(eval(index(text("ab"), num32(2), false))), "Index Int32(2) out of bounds (1)");
}

#[test]
fn range_index_steps_from_start() {
    let r = || ResolvedExpression::Value(sp(), create_range(Number::Int32(2), Number::Int32(10), false));
    assert_eq!(as_i32(&eval(index(r(), num32(3), false)).unwrap()), 5);
    assert_eq!(error_message(eval(index(r(), num32(9), false))), "Index 9 out of bounds (10)");
}

#[test]
fn indexing_a_boolean_is_not_permitted() {
    assert_eq!(error_message(eval(index(boolean(true), num32(0), false))), "Array access not permitted for Bool(true).Number(Int32(0))");
}

#[test]
fn create_range_picks_step_direction() {
    match create_range(Number::Int64(5), Number::Int64(1), true) {
        Value::Range(Number::Int64(5), Number::Int64(1), Number::Any(-1), true, NumKind::Int64) => {},
        other => panic!("{:?}", other),
    }
    match create_range(Number::Int8(1), Number::Int8(5), false) {
        Value::Range(_, _, Number::Any(1), false, NumKind::Int8) => {},
        other => panic!("{:?}", other),
    }
    match create_range(Number::UInt8(9), Number::UInt8(1), true) {
        Value::Range(_, _, Number::Any(1), true, NumKind::UInt8) => {},
        other => panic!("{:?}", other),
    }
}

#[test]
fn evaluate_shape_gives_its_kind() {
    let rt = empty_runtime();
    let k = evaluate_shape(&rt, ResolvedShapeExpression { span: sp(), kind: ValueKind::Bool });
    assert!(matches!(k, ValueKind::Bool));
}

fn new_object(defaults: Vec<(usize, Value)>) -> ResolvedExpression {
    ResolvedExpression::ObjectInit(
        sp(),
        ResolvedAttachment {
            defaults,
            mappings: Vec::new(),
            base: ShapeInstance { id: 0, generics: Vec::new() },
            known: Vec::new(),
        },
    )
}

fn member(t: ResolvedExpression, id: usize, optional: bool, chained: bool) -> ResolvedExpression {
    ResolvedExpression::MemberAccess {
        span: sp(),
        target: Box::new(t),
        member: MemberInfo { id, name: String::from("m"), kind: ValueKind::Dyn },
        optional,
        chained,
    }
}

#[test]
fn object_init_creates_named_object_with_slots() {
    let mut rt = object_runtime();
    let v = evaluate(&mut rt, new_object(vec![(3, Value::Number(Number::Int32(9)))])).unwrap();
    match v {
        Value::Object(0, ValueKind::Object(_)) => {},
        other => panic!("{:?}", other),
    }
    assert_eq!(rt.objects.len(), 1);
    assert_eq!(rt.objects[0].name, "Obj0");
    assert_eq!(as_i32(&rt.get_slot_value(0, 3).unwrap()), 9);
}

#[test]
fn object_init_without_shape_fails() {
    let mut rt = empty_runtime();
    assert_eq!(
        error_message(evaluate(&mut rt, new_object(Vec::new()))),
        "Shape not found: ShapeInstance { id: 0, generics: [] }"
    );
}

#[test]
fn member_access_reads_slot() {
    let mut rt = object_runtime();
    let e = member(new_object(vec![(3, Value::Number(Number::Int32(9)))]), 3, false, false);
    assert_eq!(as_i32(&evaluate(&mut rt, e).unwrap()), 9);
}

#[test]
fn missing_member_is_error_or_nil_when_optional() {
    let mut rt = object_runtime();
    let e = member(new_object(Vec::new()), 3, false, false);
    assert_eq!(error_message(evaluate(&mut rt, e)), "Member \"m\" not found for 0");
    let e = member(new_object(Vec::new()), 3, true, false);
    assert!(matches!(evaluate(&mut rt, e).unwrap(), Value::Nil));
}

#[test]
fn chained_member_access_on_nil_gives_nil() {
    let mut rt = empty_runtime();
    let nil = ResolvedExpression::Value(sp(), Value::Nil);
    assert!(matches!(evaluate(&mut rt, member(nil, 0, false, true)).unwrap(), Value::Nil));
    let nil = ResolvedExpression::Value(sp(), Value::Nil);
    assert_eq!(
        error_message(evaluate(&mut rt, member(nil, 0, false, false))),
        "Member access not permitted for None.MemberInfo { id: 0, name: \"m\", kind: Dyn }"
    );
}

#[test]
fn is_shape_checks_attached_shapes() {
    let mut rt = object_runtime();
    let shape = ResolvedExpression::Shape(
        sp(),
        ResolvedShapeExpression { span: sp(), kind: ValueKind::Shape(ShapeInstance { id: 0, generics: Vec::new() }) },
    );
    match evaluate(&mut rt, binary(new_object(Vec::new()), Operator::IsShape, shape)).unwrap() {
        Value::Bool(true) => {},
        other => panic!("{:?}", other),
    }
}

#[test]
fn static_singleton_needs_a_static_object() {
    let mut rt = object_runtime();
    let e = ResolvedExpression::StaticSingleton(sp(), 0);
    assert_eq!(error_message(evaluate(&mut rt, e)), "\"Object\" does not have static singleton");
    let e = ResolvedExpression::StaticSingleton(sp(), 7);
    assert_eq!(error_message(evaluate(&mut rt, e)), "No shape found for static id: 7");
}

#[test]
fn error_texts_name_span_and_cause() {
    let e = RuntimeError::Error { span: Span::new(1, 2, ""), message: String::from("x") };
    assert_eq!(e.to_text(), "1..2: x");
    let e = RuntimeError::Throw { span: Span::new(3, 9, ""), message: String::from("boom") };
    assert_eq!(e.to_text(), "3..9: Throw: \"boom\"");
    let e = RuntimeError::UnexpectedBreakout { span: Span::new(0, 0, "") };
    assert_eq!(e.to_text(), "0..0: Unexpected breakout");
    let e = RuntimeError::InvalidOperator {
        span: Span::new(1, 2, ""),
        operator: Operator::BWShiftL,
        operand: ValueKind::Dict(Box::new(ValueKind::String), Box::new(ValueKind::Number(NumKind::UInt8))),
    };
    assert_eq!(e.to_text(), "1..2: BWShiftL is invalid operator for Dict(String, Number(UInt8))");
    let e = RuntimeError::TypeMismatch {
        span: Span::new(1, 2, ""),
        found: Value::Array(vec![Value::Number(Number::Int32(-4)), Value::Bool(true)], ValueKind::Dyn),
        expected: ValueKind::Shape(ShapeInstance { id: 2, generics: vec![ValueKind::Bool, ValueKind::Nil] }),
    };
    assert_eq!(
        e.to_text(),
        "1..2: Array([Number(Int32(-4)), Bool(true)], Dyn) does not match expected type Shape(ShapeInstance { id: 2, generics: [Bool, None] })"
    );
}

#[test]
fn invalid_operations_show_operands() {
    match eval(unary(Operator::Len, num32(3))) {
        Err(RuntimeError::InvalidOperator { .. }) => {},
        other => panic!("{:?}", other),
    }
    let nil = ResolvedExpression::Value(sp(), Value::Nil);
    assert_eq!(error_message(eval(unary(Operator::Not, nil))), "Invalid operation: Not None");
    let obj = ResolvedExpression::Value(sp(), Value::Object(3, ValueKind::Dyn));
    assert_eq!(
        error_message(eval(binary(obj, Operator::Add, text("x")))),
        "Invalid operation: Object(3, Dyn) Add String"
    );
}

#[test]
fn structural_form_escapes_strings() {
    let e = RuntimeError::TypeMismatch {
        span: Span::new(0, 1, ""),
        found: Value::String(String::from("a\"b\\c\nd")),
        expected: ValueKind::Bool,
    };
    assert_eq!(e.to_text(), "0..1: String(\"a\\\"b\\\\c\\nd\") does not match expected type Bool");
}

#[test]
fn place_of_a_literal_is_the_literal() {
    let mut rt = empty_runtime();
    assert_eq!(as_i32(&azimuth::executor::evaluate_place(&mut rt, num32(5)).unwrap()), 5);
}

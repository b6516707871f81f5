use azimuth::executor::RuntimeError;
use azimuth::intrinsic::{call_intrinsic, lookup, Intrinsic, IntrinsicParameters, ParseError};
use azimuth::model::{NumKind, Number, Span, Value, ValueKind};
use azimuth::runtime::{Runtime, ShapeInfo};

fn sp() -> Span {
    Span::new(5, 9, "")
}

fn runtime_with(args: Vec<&str>, input: Vec<&str>) -> Runtime {
    let shapes = vec![ShapeInfo { name: String::from("Object"), parents: Vec::new(), static_id: None }];
    Runtime::new(
        shapes,
        Vec::new(),
        args.into_iter().map(String::from).collect(),
        input.into_iter().map(String::from).collect(),
    )
}

fn call(rt: &mut Runtime, op: Intrinsic, args: Vec<Value>) -> Result<Value, RuntimeError> {
    call_intrinsic(rt, op, IntrinsicParameters { span: sp(), args, azimuth: None })
}

fn s(x: &str) -> Value {
    Value::String(String::from(x))
}

fn i(n: i32) -> Value {
    Value::Number(Number::Int32(n))
}

fn string_of(v: Value) -> String {
    match v {
        Value::String(x) => x,
        other => panic!("not a string: {:?}", other),
    }
}

fn int_of(v: &Value) -> i32 {
    match v {
        Value::Number(Number::Int32(n)) => *n,
        other => panic!("not an Int32: {:?}", other),
    }
}

#[test]
fn lookup_known_names() {
    assert_eq!(lookup(sp(), String::from("String::Upper")).unwrap(), Intrinsic::StringUpper);
    assert_eq!(lookup(sp(), String::from("Array::Add")).unwrap(), Intrinsic::ArrayInsert);
    assert_eq!(lookup(sp(), String::from("Range")).unwrap(), Intrinsic::RandomRange);
    assert_eq!(lookup(sp(), String::from("Dict::Set")).unwrap(), Intrinsic::Todo);
    assert_eq!(lookup(sp(), String::from("Benchmarking::GetTime")).unwrap(), Intrinsic::GetTime);
}

#[test]
fn lookup_unknown_name_is_parse_error() {
    match lookup(sp(), String::from("Nope::Nothing")) {
        Err(ParseError::Error { span, message }) => {
            assert_eq!(span, sp());
            assert_eq!(message, "No intrinsic operation defined for Nope::Nothing");
        },
        other => panic!("{:?}", other),
    }
}

#[test]
fn string_case_and_trim() {
    let mut rt = runtime_with(Vec::new(), Vec::new());
    assert_eq!(string_of(call(&mut rt, Intrinsic::StringUpper, vec![s("MiXed ß")]).unwrap()), "MIXED SS");
    assert_eq!(string_of(call(&mut rt, Intrinsic::StringLower, vec![s("MiXed")]).unwrap()), "mixed");
    assert_eq!(string_of(call(&mut rt, Intrinsic::StringTrim, vec![s("  pad \n")]).unwrap()), "pad");
}

#[test]
fn string_intrinsics_need_strings() {
    let mut rt = runtime_with(Vec::new(), Vec::new());
    match call(&mut rt, Intrinsic::StringUpper, vec![i(1)]) {
        Err(RuntimeError::TypeMismatch { expected: ValueKind::String, .. }) => {},
        other => panic!("{:?}", other),
    }
}

#[test]
fn random_range_stays_within_bounds() {
    let mut rt = runtime_with(Vec::new(), Vec::new());
    for _ in 0..50 {
        let r = int_of(&call(&mut rt, Intrinsic::RandomRange, vec![i(-3), i(4)]).unwrap());
        assert!(-3 <= r && r <= 4);
    }
    assert_eq!(int_of(&call(&mut rt, Intrinsic::RandomRange, vec![i(7), i(7)]).unwrap()), 7);
}

#[test]
fn random_int_gives_int32() {
    let mut rt = runtime_with(Vec::new(), Vec::new());
    assert!(matches!(call(&mut rt, Intrinsic::RandomInt, Vec::new()).unwrap(), Value::Number(Number::Int32(_))));
}

#[test]
fn get_time_gives_milliseconds() {
    let mut rt = runtime_with(Vec::new(), Vec::new());
    match call(&mut rt, Intrinsic::GetTime, Vec::new()).unwrap() {
        Value::Number(Number::UInt64(ms)) => assert!(ms > 1_500_000_000_000),
        other => panic!("{:?}", other),
    }
}

#[test]
fn args_come_from_the_runtime() {
    let mut rt = runtime_with(vec!["prog", "x"], Vec::new());
    match call(&mut rt, Intrinsic::Args, Vec::new()).unwrap() {
        Value::Array(items, _) => {
            let got: Vec<String> = items.into_iter().map(string_of).collect();
            assert_eq!(got, vec![String::from("prog"), String::from("x")]);
        },
        other => panic!("{:?}", other),
    }
}

#[test]
fn read_line_trims_and_ends_with_empty() {
    let mut rt = runtime_with(Vec::new(), vec!["  first \n", "second"]);
    assert_eq!(string_of(call(&mut rt, Intrinsic::ReadLine, Vec::new()).unwrap()), "first");
    assert_eq!(string_of(call(&mut rt, Intrinsic::ReadLine, Vec::new()).unwrap()), "second");
    assert_eq!(string_of(call(&mut rt, Intrinsic::ReadLine, Vec::new()).unwrap()), "");
    assert_eq!(rt.input_pos, 2);
}

#[test]
fn todo_is_an_error() {
    let mut rt = runtime_with(Vec::new(), Vec::new());
    match call(&mut rt, Intrinsic::Todo, Vec::new()) {
        Err(RuntimeError::Error { message, span }) => {
            assert_eq!(message, "TODO");
            assert_eq!(span, sp());
        },
        other => panic!("{:?}", other),
    }
}

#[test]
fn sqrt_rejects_every_operand() {
    let mut rt = runtime_with(Vec::new(), Vec::new());
    match call(&mut rt, Intrinsic::Sqrt, vec![i(4)]) {
        Err(RuntimeError::TypeMismatch { expected: ValueKind::Number(NumKind::Any), .. }) => {},
        other => panic!("{:?}", other),
    }
}

fn int_set(ns: Vec<i32>) -> Value {
    Value::SetOf(ns.into_iter().map(i).collect(), ValueKind::Number(NumKind::Int32))
}

#[test]
fn set_contains_and_to_array() {
    let mut rt = runtime_with(Vec::new(), Vec::new());
    assert!(matches!(call(&mut rt, Intrinsic::SetContains, vec![int_set(vec![1, 2]), i(2)]).unwrap(), Value::Bool(true)));
    assert!(matches!(call(&mut rt, Intrinsic::SetContains, vec![int_set(vec![1, 2]), i(5)]).unwrap(), Value::Bool(false)));
    match call(&mut rt, Intrinsic::SetToArray, vec![int_set(vec![4, 3])]).unwrap() {
        Value::Array(items, _) => assert_eq!(items.iter().map(int_of).collect::<Vec<_>>(), vec![4, 3]),
        other => panic!("{:?}", other),
    }
}

fn dict() -> Value {
    Value::Dict(vec![(s("a"), i(1)), (s("b"), i(2))], ValueKind::String, ValueKind::Number(NumKind::Int32))
}

#[test]
fn dict_get_keys_values() {
    let mut rt = runtime_with(Vec::new(), Vec::new());
    assert_eq!(int_of(&call(&mut rt, Intrinsic::DictGet, vec![dict(), s("b")]).unwrap()), 2);
    assert!(matches!(call(&mut rt, Intrinsic::DictGet, vec![dict(), s("z")]).unwrap(), Value::Nil));
    match call(&mut rt, Intrinsic::DictKeys, vec![dict()]).unwrap() {
        Value::SetOf(keys, ValueKind::String) => {
            assert_eq!(keys.into_iter().map(string_of).collect::<Vec<_>>(), vec!["a", "b"]);
        },
        other => panic!("{:?}", other),
    }
    match call(&mut rt, Intrinsic::DictValues, vec![dict()]).unwrap() {
        Value::Array(vals, _) => assert_eq!(vals.iter().map(int_of).collect::<Vec<_>>(), vec![1, 2]),
        other => panic!("{:?}", other),
    }
}

#[test]
fn range_to_array_both_directions() {
    let mut rt = runtime_with(Vec::new(), Vec::new());
    let up = Value::Range(Number::Int32(1), Number::Int32(7), Number::Int32(2), true, NumKind::Int32);
    match call(&mut rt, Intrinsic::RangeToArray, vec![up]).unwrap() {
        Value::Array(xs, ValueKind::Number(NumKind::Int32)) => {
            assert_eq!(xs.iter().map(int_of).collect::<Vec<_>>(), vec![1, 3, 5, 7]);
        },
        other => panic!("{:?}", other),
    }
    let down = Value::Range(Number::Int32(5), Number::Int32(1), Number::Int32(-2), false, NumKind::Int32);
    match call(&mut rt, Intrinsic::RangeToArray, vec![down]).unwrap() {
        Value::Array(xs, _) => assert_eq!(xs.iter().map(int_of).collect::<Vec<_>>(), vec![4, 2]),
        other => panic!("{:?}", other),
    }
}

#[test]
fn range_create_keeps_step() {
    let mut rt = runtime_with(Vec::new(), Vec::new());
    match call(&mut rt, Intrinsic::RangeCreate, vec![i(0), i(9), i(3)]).unwrap() {
        Value::Range(Number::Int32(0), Number::Int32(9), Number::Int32(3), true, NumKind::Int32) => {},
        other => panic!("{:?}", other),
    }
    match call(&mut rt, Intrinsic::RangeCreateExclusive, vec![i(0), i(9), i(3)]).unwrap() {
        Value::Range(_, _, _, false, NumKind::Int32) => {},
        other => panic!("{:?}", other),
    }
}

#[test]
fn array_append_on_local_array() {
    let mut rt = runtime_with(Vec::new(), Vec::new());
    rt.reserve_local(0, Value::Array(vec![i(1)], ValueKind::Number(NumKind::Int32)));
    let place = Value::Local(0, ValueKind::Array(Box::new(ValueKind::Number(NumKind::Int32))));
    assert!(matches!(call(&mut rt, Intrinsic::ArrayAppend, vec![place, i(2)]).unwrap(), Value::Bool(true)));
    match rt.get_local(0).unwrap() {
        Value::Array(xs, _) => assert_eq!(xs.iter().map(int_of).collect::<Vec<_>>(), vec![1, 2]),
        other => panic!("{:?}", other),
    }
}

#[test]
fn array_append_needs_a_place() {
    let mut rt = runtime_with(Vec::new(), Vec::new());
    match call(&mut rt, Intrinsic::ArrayAppend, vec![i(1), i(2)]) {
        Err(RuntimeError::TypeMismatch { expected: ValueKind::Array(_), .. }) => {},
        other => panic!("{:?}", other),
    }
}

#[test]
fn print_stack_writes_frames() {
    let mut rt = runtime_with(Vec::new(), Vec::new());
    assert!(matches!(call(&mut rt, Intrinsic::PrintStack, Vec::new()).unwrap(), Value::Nil));
    assert!(rt.output.is_empty());
}

#[test]
fn random_range_draws_more_than_one_value() {
    let mut rt = runtime_with(Vec::new(), Vec::new());
    let mut seen = std::collections::BTreeSet::new();
    for _ in 0..200 {
        seen.insert(int_of(&call(&mut rt, Intrinsic::RandomRange, vec![i(0), i(7)]).unwrap()));
    }
    assert!(seen.len() > 1);
    assert!(seen.iter().all(|r| (0..=7).contains(r)));
}

#[test]
fn stub_names_fail_with_todo() {
    let mut rt = runtime_with(Vec::new(), Vec::new());
    for name in ["Array::Get", "Set::Add", "Set::Remove", "Dict::Set", "Dict::Remove"] {
        let op = lookup(sp(), String::from(name)).unwrap();
        assert_eq!(op, Intrinsic::Todo);
        match call(&mut rt, op, vec![i(1)]) {
            Err(RuntimeError::Error { message, .. }) => assert_eq!(message, "TODO"),
            other => panic!("{:?}", other),
        }
    }
    assert!(rt.output.is_empty());
}

#[test]
fn range_create_variants_fail_alike() {
    let mut rt = runtime_with(Vec::new(), Vec::new());
    let a = call(&mut rt, Intrinsic::RangeCreate, vec![s("x"), i(1), i(1)]);
    let b = call(&mut rt, Intrinsic::RangeCreateExclusive, vec![s("x"), i(1), i(1)]);
    match (a, b) {
        (Err(RuntimeError::TypeMismatch { found: Value::String(x), .. }), Err(RuntimeError::TypeMismatch { found: Value::String(y), .. })) => {
            assert_eq!(x, y)
        },
        other => panic!("{:?}", other),
    }
}

#[test]
fn trim_removes_unicode_white_space() {
    let mut rt = runtime_with(Vec::new(), Vec::new());
    assert_eq!(string_of(call(&mut rt, Intrinsic::StringTrim, vec![s("\u{3000}\t a b\u{a0}\u{2028}")]).unwrap()), "a b");
    assert_eq!(string_of(call(&mut rt, Intrinsic::StringTrim, vec![s(" \n ")]).unwrap()), "");
}

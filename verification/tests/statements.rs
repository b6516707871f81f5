use std::rc::Rc;

use azimuth::executor::{
    evaluate, evaluate_place, execute, execute_statement, ExecFlow, RuntimeError, ShapeInstance,
};
use azimuth::intrinsic::Intrinsic;
use azimuth::model::{
    FunctionInput, LocalInfo, MemberInfo, NumKind, Number, Operator, ResolvedAttachment,
    ResolvedExpression, ResolvedFunctionBody, ResolvedShapeExpression, ResolvedStatement, Span,
    Symbol, Value, ValueKind,
};
use azimuth::runtime::{Runtime, ShapeInfo};

fn sp() -> Span {
    Span::new(3, 4, "")
}

fn runtime() -> Runtime {
    let shapes = vec![ShapeInfo { name: String::from("Object"), parents: Vec::new(), static_id: None }];
    Runtime::new(shapes, Vec::new(), Vec::new(), Vec::new())
}

fn num32(n: i32) -> ResolvedExpression {
    ResolvedExpression::Value(sp(), Value::Number(Number::Int32(n)))
}

fn text(s: &str) -> ResolvedExpression {
    ResolvedExpression::Value(sp(), Value::String(String::from(s)))
}

fn var(id: usize) -> ResolvedExpression {
    ResolvedExpression::Variable(
        sp(),
        Symbol::Local(LocalInfo { id, kind: ValueKind::Number(NumKind::Int32) }),
    )
}

fn binary(l: ResolvedExpression, op: Operator, r: ResolvedExpression) -> ResolvedExpression {
    ResolvedExpression::BinaryOp { span: sp(), left: Box::new(l), operator: op, right: Box::new(r) }
}

fn declare(id: usize, value: ResolvedExpression) -> ResolvedStatement {
    ResolvedStatement::DeclareLocal {
        span: sp(),
        info: LocalInfo { id, kind: ValueKind::Number(NumKind::Int32) },
        value,
    }
}

fn assign(id: usize, value: ResolvedExpression) -> ResolvedStatement {
    ResolvedStatement::Assign { span: sp(), target: var(id), value }
}

fn print(e: ResolvedExpression) -> ResolvedStatement {
    ResolvedStatement::Print { span: sp(), expr: e }
}

fn as_i32(v: &Value) -> i32 {
    match v {
        Value::Number(Number::Int32(n)) => *n,
        other => panic!("not an Int32: {:?}", other),
    }
}

fn run(stmts: Vec<ResolvedStatement>) -> (Runtime, Result<ExecFlow, RuntimeError>) {
    let mut rt = runtime();
    let r = execute(&mut rt, stmts, Vec::new());
    (rt, r)
}

#[test]
fn declare_then_print() {
    let (rt, r) = run(vec![declare(0, num32(41)), print(binary(var(0), Operator::Add, num32(1)))]);
    assert!(matches!(r, Ok(ExecFlow::Normal(_))));
    assert_eq!(rt.output, vec![String::from("42")]);
}

#[test]
fn declare_returns_declare_flow() {
    let mut rt = runtime();
    match execute_statement(&mut rt, declare(5, num32(1))) {
        Ok(ExecFlow::Declare(_, 5)) => {},
        other => panic!("{:?}", other),
    }
    assert_eq!(as_i32(rt.get_local(5).unwrap()), 1);
}

#[test]
fn while_loop_counts_up() {
    let body = ResolvedStatement::Block(vec![assign(0, binary(var(0), Operator::Add, num32(1)))]);
    let w = ResolvedStatement::While {
        span: sp(),
        condition: binary(var(0), Operator::LT, num32(3)),
        statement: Box::new(body),
    };
    let (rt, r) = run(vec![declare(0, num32(0)), w, print(var(0))]);
    assert!(r.is_ok());
    assert_eq!(rt.output, vec![String::from("3")]);
}

#[test]
fn while_condition_must_be_boolean() {
    let w = ResolvedStatement::While {
        span: sp(),
        condition: num32(1),
        statement: Box::new(ResolvedStatement::Block(Vec::new())),
    };
    match run(vec![w]).1 {
        Err(RuntimeError::Error { message, .. }) => assert_eq!(message, "While condition was not true or false: Number(Int32(1))"),
        other => panic!("{:?}", other),
    }
}

#[test]
fn while_loop_stops_at_break() {
    let body = ResolvedStatement::Block(vec![
        assign(0, binary(var(0), Operator::Add, num32(1))),
        ResolvedStatement::If {
            span: sp(),
            condition: binary(var(0), Operator::Equal, num32(5)),
            true_statement: Box::new(ResolvedStatement::Break { span: sp() }),
            else_statement: None,
        },
    ]);
    let w = ResolvedStatement::While {
        span: sp(),
        condition: ResolvedExpression::Value(sp(), Value::Bool(true)),
        statement: Box::new(body),
    };
    let (rt, r) = run(vec![declare(0, num32(0)), w, print(var(0))]);
    assert!(r.is_ok());
    assert_eq!(rt.output, vec![String::from("5")]);
}

#[test]
fn for_over_descending_range() {
    let range = binary(num32(3), Operator::Range, num32(1));
    let f = ResolvedStatement::For {
        span: sp(),
        local: 1,
        target: range,
        statement: Box::new(print(var(1))),
    };
    let (rt, r) = run(vec![f]);
    assert!(r.is_ok());
    assert_eq!(rt.output, vec![String::from("3"), String::from("2"), String::from("1")]);
    assert!(rt.get_local(1).is_none());
}

#[test]
fn for_over_exclusive_range_sums() {
    let f = ResolvedStatement::For {
        span: sp(),
        local: 1,
        target: binary(num32(0), Operator::RangeLT, num32(4)),
        statement: Box::new(assign(0, binary(var(0), Operator::Add, var(1)))),
    };
    let (rt, r) = run(vec![declare(0, num32(0)), f, print(var(0))]);
    assert!(r.is_ok());
    assert_eq!(rt.output, vec![String::from("6")]);
}

#[test]
fn for_over_string_gives_bytes_as_strings() {
    let f = ResolvedStatement::For {
        span: sp(),
        local: 1,
        target: text("ab"),
        statement: Box::new(print(ResolvedExpression::Variable(
            sp(),
            Symbol::Local(LocalInfo { id: 1, kind: ValueKind::String }),
        ))),
    };
    let (rt, _) = run(vec![f]);
    assert_eq!(rt.output, vec![String::from("a"), String::from("b")]);
}

#[test]
fn for_over_array_with_continue() {
    let arr = ResolvedExpression::Array(sp(), vec![num32(1), num32(2), num32(3)], ValueKind::Number(NumKind::Int32));
    let body = ResolvedStatement::Block(vec![
        ResolvedStatement::If {
            span: sp(),
            condition: binary(var(1), Operator::Equal, num32(2)),
            true_statement: Box::new(ResolvedStatement::Continue { span: sp() }),
            else_statement: None,
        },
        print(var(1)),
    ]);
    let f = ResolvedStatement::For { span: sp(), local: 1, target: arr, statement: Box::new(body) };
    let (rt, _) = run(vec![f]);
    assert_eq!(rt.output, vec![String::from("1"), String::from("3")]);
}

#[test]
fn for_over_boolean_is_not_iterable() {
    let f = ResolvedStatement::For {
        span: sp(),
        local: 1,
        target: ResolvedExpression::Value(sp(), Value::Bool(true)),
        statement: Box::new(ResolvedStatement::Block(Vec::new())),
    };
    match run(vec![f]).1 {
        Err(RuntimeError::Error { message, .. }) => assert_eq!(message, "Bool(true) is not iterable"),
        other => panic!("{:?}", other),
    }
}

#[test]
fn if_else_picks_branch() {
    let s = ResolvedStatement::If {
        span: sp(),
        condition: binary(num32(1), Operator::GT, num32(2)),
        true_statement: Box::new(print(text("yes"))),
        else_statement: Some(Box::new(print(text("no")))),
    };
    let (rt, _) = run(vec![s]);
    assert_eq!(rt.output, vec![String::from("no")]);
}

#[test]
fn if_on_option_treats_nil_as_false() {
    let nil = ResolvedExpression::Default(sp(), ValueKind::Option(Box::new(ValueKind::Bool)));
    let s = ResolvedStatement::If {
        span: sp(),
        condition: nil,
        true_statement: Box::new(print(text("some"))),
        else_statement: Some(Box::new(print(text("none")))),
    };
    let (rt, _) = run(vec![s]);
    assert_eq!(rt.output, vec![String::from("none")]);
}

#[test]
fn if_condition_must_be_boolean() {
    let s = ResolvedStatement::If {
        span: sp(),
        condition: num32(0),
        true_statement: Box::new(print(text("x"))),
        else_statement: None,
    };
    match run(vec![s]).1 {
        Err(RuntimeError::Error { message, .. }) => assert_eq!(message, "If condition was not true or false: Number(Int32(0))"),
        other => panic!("{:?}", other),
    }
}

#[test]
fn switch_falls_through_and_skips_else() {
    let s = ResolvedStatement::Switch {
        span: sp(),
        target: num32(2),
        branch_statements: vec![
            (num32(1), false, print(text("one"))),
            (num32(2), true, print(text("two"))),
            (num32(2), false, print(text("two again"))),
            (num32(3), false, print(text("three"))),
        ],
        else_statement: Some(Box::new(print(text("other")))),
    };
    let (rt, _) = run(vec![s]);
    assert_eq!(rt.output, vec![String::from("two"), String::from("two again")]);
}

#[test]
fn switch_without_match_runs_else() {
    let s = ResolvedStatement::Switch {
        span: sp(),
        target: num32(9),
        branch_statements: vec![(num32(1), false, print(text("one")))],
        else_statement: Some(Box::new(print(text("other")))),
    };
    let (rt, _) = run(vec![s]);
    assert_eq!(rt.output, vec![String::from("other")]);
}

#[test]
fn try_catches_runtime_errors() {
    let failing = print(ResolvedExpression::Variable(sp(), Symbol::Local(LocalInfo { id: 9, kind: ValueKind::Dyn })));
    let s = ResolvedStatement::Try {
        span: sp(),
        try_statement: Box::new(failing),
        catch_statement: Some(Box::new(print(text("caught")))),
    };
    let (rt, r) = run(vec![s]);
    assert!(r.is_ok());
    assert_eq!(rt.output, vec![String::from("caught")]);
}

#[test]
fn thrown_message_is_not_caught_and_ends_program() {
    let s = ResolvedStatement::Try {
        span: sp(),
        try_statement: Box::new(ResolvedStatement::Throw { span: sp(), message: text("boom") }),
        catch_statement: Some(Box::new(print(text("caught")))),
    };
    let (rt, r) = run(vec![s, print(text("after"))]);
    match r {
        Err(RuntimeError::Throw { message, .. }) => assert_eq!(message, "boom"),
        other => panic!("{:?}", other),
    }
    assert!(rt.output.is_empty());
}

#[test]
fn throw_needs_a_string() {
    let mut rt = runtime();
    match execute_statement(&mut rt, ResolvedStatement::Throw { span: sp(), message: num32(1) }) {
        Err(RuntimeError::TypeMismatch { expected: ValueKind::String, .. }) => {},
        other => panic!("{:?}", other),
    }
}

#[test]
fn top_level_break_is_unexpected() {
    let (_, r) = run(vec![ResolvedStatement::Break { span: Span::new(7, 8, "") }]);
    match r {
        Err(RuntimeError::UnexpectedBreakout { span }) => assert_eq!(span, Span::new(7, 8, "")),
        other => panic!("{:?}", other),
    }
    let (_, r) = run(vec![ResolvedStatement::Return { span: sp(), value: num32(1) }]);
    assert!(matches!(r, Err(RuntimeError::UnexpectedBreakout { .. })));
}

#[test]
fn program_stops_at_first_error() {
    let bad = print(ResolvedExpression::Variable(sp(), Symbol::Local(LocalInfo { id: 9, kind: ValueKind::Dyn })));
    let (rt, r) = run(vec![print(text("first")), bad, print(text("never"))]);
    match r {
        Err(RuntimeError::Error { message, .. }) => assert_eq!(message, "Missing local: LocalInfo { id: 9, kind: Dyn }"),
        other => panic!("{:?}", other),
    }
    assert_eq!(rt.output, vec![String::from("first")]);
}

#[test]
fn block_releases_its_locals() {
    let mut rt = runtime();
    let b = ResolvedStatement::Block(vec![declare(2, num32(1)), declare(3, num32(2))]);
    assert!(matches!(execute_statement(&mut rt, b), Ok(ExecFlow::Normal(_))));
    assert!(rt.get_local(2).is_none());
    assert!(rt.get_local(3).is_none());
}

#[test]
fn declaration_statement_is_invalid_at_run_time() {
    let mut rt = runtime();
    match execute_statement(&mut rt, ResolvedStatement::Declaration { span: sp() }) {
        Err(RuntimeError::Error { message, .. }) => assert_eq!(message, "Invalid statement: Declaration"),
        other => panic!("{:?}", other),
    }
}

fn new_object(defaults: Vec<(usize, Value)>) -> ResolvedExpression {
    ResolvedExpression::ObjectInit(
        sp(),
        ResolvedAttachment {
            defaults,
            mappings: Vec::new(),
            base: ShapeInstance { id: 0, generics: Vec::new() },
            known: Vec::new(),
        },
    )
}

fn obj_var(id: usize) -> ResolvedExpression {
    ResolvedExpression::Variable(sp(), Symbol::Local(LocalInfo { id, kind: ValueKind::Object(Vec::new()) }))
}

fn slot(id: usize, az: usize) -> ResolvedExpression {
    ResolvedExpression::MemberAccess {
        span: sp(),
        target: Box::new(obj_var(id)),
        member: MemberInfo { id: az, name: String::from("field"), kind: ValueKind::Number(NumKind::Int32) },
        optional: false,
        chained: false,
    }
}

#[test]
fn assigning_a_slot_changes_the_object() {
    let mut rt = runtime();
    execute_statement(&mut rt, declare(0, new_object(vec![(1, Value::Number(Number::Int32(5)))]))).unwrap();
    execute_statement(&mut rt, ResolvedStatement::Assign { span: sp(), target: slot(0, 1), value: num32(8) }).unwrap();
    assert_eq!(as_i32(&rt.get_slot_value(0, 1).unwrap()), 8);
    match evaluate_place(&mut rt, slot(0, 1)).unwrap() {
        Value::Pointer(0, 1, _) => {},
        other => panic!("{:?}", other),
    }
}

#[test]
fn print_object_lists_slots() {
    let mut rt = runtime();
    execute_statement(&mut rt, declare(0, new_object(vec![(1, Value::Number(Number::Int32(5)))]))).unwrap();
    execute_statement(&mut rt, print(obj_var(0))).unwrap();
    assert_eq!(rt.output, vec![String::from("Obj0 {1: 5}")]);
}

#[test]
fn sealed_object_ignores_attach_and_detach() {
    let mut rt = runtime();
    execute_statement(&mut rt, declare(0, new_object(Vec::new()))).unwrap();
    execute_statement(&mut rt, ResolvedStatement::Seal { span: sp(), target: obj_var(0) }).unwrap();
    assert!(rt.objects[0].sealed);
    let shapes_before = rt.objects[0].shapes.clone();
    let attach = ResolvedStatement::Attach {
        span: sp(),
        object: obj_var(0),
        attachment: ResolvedAttachment {
            defaults: vec![(4, Value::Bool(true))],
            mappings: Vec::new(),
            base: ShapeInstance { id: 0, generics: Vec::new() },
            known: Vec::new(),
        },
    };
    assert!(matches!(execute_statement(&mut rt, attach), Ok(ExecFlow::Normal(_))));
    let detach = ResolvedStatement::Detach {
        span: sp(),
        object: obj_var(0),
        shape: ResolvedShapeExpression { span: sp(), kind: ValueKind::Shape(ShapeInstance { id: 0, generics: Vec::new() }) },
    };
    assert!(matches!(execute_statement(&mut rt, detach), Ok(ExecFlow::Normal(_))));
    assert_eq!(rt.objects[0].shapes, shapes_before);
    assert!(rt.get_slot_value(0, 4).is_none());
}

#[test]
fn detach_removes_attached_shape() {
    let mut rt = runtime();
    execute_statement(&mut rt, declare(0, new_object(Vec::new()))).unwrap();
    assert_eq!(rt.objects[0].shapes, vec![0]);
    let detach = ResolvedStatement::Detach {
        span: sp(),
        object: obj_var(0),
        shape: ResolvedShapeExpression { span: sp(), kind: ValueKind::Shape(ShapeInstance { id: 0, generics: Vec::new() }) },
    };
    execute_statement(&mut rt, detach).unwrap();
    assert!(rt.objects[0].shapes.is_empty());
}

#[test]
fn seal_needs_an_object() {
    let mut rt = runtime();
    match execute_statement(&mut rt, ResolvedStatement::Seal { span: sp(), target: num32(1) }) {
        Err(RuntimeError::Error { message, .. }) => assert_eq!(message, "Number(Int32(1)) is not sealable"),
        other => panic!("{:?}", other),
    }
}

fn function_expr(
    inputs: Vec<FunctionInput>,
    output: ValueKind,
    body: ResolvedFunctionBody,
) -> ResolvedExpression {
    ResolvedExpression::Function {
        span: sp(),
        has_self: false,
        input_types: inputs,
        output_type: ResolvedShapeExpression { span: sp(), kind: output },
        func: Rc::new(Some(body)),
        captures: Vec::new(),
    }
}

fn call(target: ResolvedExpression, args: Vec<ResolvedExpression>) -> ResolvedExpression {
    ResolvedExpression::FunctionCall { span: sp(), target: Box::new(target), args, optional: false, chained: false }
}

fn int_input(local: usize) -> FunctionInput {
    FunctionInput {
        shape: ResolvedShapeExpression { span: sp(), kind: ValueKind::Number(NumKind::Int32) },
        local: Some(local),
    }
}

#[test]
fn script_function_returns_value_and_frees_locals() {
    let body = ResolvedStatement::Return { span: sp(), value: binary(var(7), Operator::Mul, num32(2)) };
    let f = function_expr(vec![int_input(7)], ValueKind::Number(NumKind::Int32), ResolvedFunctionBody::Script(body));
    let mut rt = runtime();
    let r = evaluate(&mut rt, call(f, vec![num32(21)])).unwrap();
    assert_eq!(as_i32(&r), 42);
    assert!(rt.get_local(7).is_none());
    assert!(rt.call_stack.is_empty());
}

#[test]
fn returning_wrong_kind_is_a_mismatch() {
    let body = ResolvedStatement::Return { span: sp(), value: text("nope") };
    let f = function_expr(Vec::new(), ValueKind::Number(NumKind::Int32), ResolvedFunctionBody::Script(body));
    let mut rt = runtime();
    match evaluate(&mut rt, call(f, Vec::new())) {
        Err(RuntimeError::TypeMismatch { expected: ValueKind::Number(NumKind::Int32), .. }) => {},
        other => panic!("{:?}", other),
    }
}

#[test]
fn missing_return_value_is_an_error() {
    let body = ResolvedStatement::Block(Vec::new());
    let f = function_expr(Vec::new(), ValueKind::Number(NumKind::Int32), ResolvedFunctionBody::Script(body));
    let mut rt = runtime();
    match evaluate(&mut rt, call(f, Vec::new())) {
        Err(RuntimeError::Error { message, .. }) => assert_eq!(message, "No value returned, expected Number(Int32)"),
        other => panic!("{:?}", other),
    }
}

#[test]
fn function_without_result_gives_nil() {
    let body = print(text("called"));
    let f = function_expr(Vec::new(), ValueKind::Nil, ResolvedFunctionBody::Script(body));
    let mut rt = runtime();
    assert!(matches!(evaluate(&mut rt, call(f, Vec::new())).unwrap(), Value::Nil));
    assert_eq!(rt.output, vec![String::from("called")]);
}

#[test]
fn thrown_error_in_function_becomes_throw() {
    let body = ResolvedStatement::Throw { span: sp(), message: text("bad") };
    let f = function_expr(Vec::new(), ValueKind::Nil, ResolvedFunctionBody::Script(body));
    let mut rt = runtime();
    match evaluate(&mut rt, call(f, Vec::new())) {
        Err(RuntimeError::Throw { message, .. }) => assert_eq!(message, "bad"),
        other => panic!("{:?}", other),
    }
}

#[test]
fn intrinsic_function_is_called_with_arguments() {
    let f = function_expr(Vec::new(), ValueKind::String, ResolvedFunctionBody::Intrinsic(Intrinsic::StringUpper));
    let mut rt = runtime();
    match evaluate(&mut rt, call(f, vec![text("abc")])).unwrap() {
        Value::String(s) => assert_eq!(s, "ABC"),
        other => panic!("{:?}", other),
    }
}

#[test]
fn calling_a_number_is_an_error() {
    let mut rt = runtime();
    match evaluate(&mut rt, call(num32(3), Vec::new())) {
        Err(RuntimeError::Error { message, .. }) => assert_eq!(message, "Number(Int32(3)) is not a function or function chain"),
        other => panic!("{:?}", other),
    }
}

#[test]
fn abstract_function_has_no_body() {
    let f = ResolvedExpression::Function {
        span: sp(),
        has_self: false,
        input_types: Vec::new(),
        output_type: ResolvedShapeExpression { span: sp(), kind: ValueKind::Nil },
        func: Rc::new(None),
        captures: Vec::new(),
    };
    let mut rt = runtime();
    match evaluate(&mut rt, call(f, Vec::new())) {
        Err(RuntimeError::Error { message, .. }) => assert_eq!(message, "Abstract method run without body"),
        other => panic!("{:?}", other),
    }
}

#[test]
fn statics_are_created_before_the_program() {
    let shapes = vec![
        ShapeInfo { name: String::from("Object"), parents: Vec::new(), static_id: None },
        ShapeInfo { name: String::from("Math"), parents: Vec::new(), static_id: None },
    ];
    let mut rt = Runtime::new(shapes, Vec::new(), Vec::new(), Vec::new());
    let program = vec![print(ResolvedExpression::StaticSingleton(sp(), 1))];
    let r = execute(&mut rt, program, vec![(1, vec![5])]);
    assert!(r.is_ok());
    assert_eq!(rt.objects.len(), 1);
    assert!(rt.shapes[1].static_id.is_some());
    assert_eq!(rt.output, vec![String::from("Obj0 {5: none}")]);
}

#[test]
fn try_without_catch_swallows_errors() {
    let failing = print(ResolvedExpression::Variable(sp(), Symbol::Local(LocalInfo { id: 9, kind: ValueKind::Dyn })));
    let s = ResolvedStatement::Try { span: Span::new(6, 7, ""), try_statement: Box::new(failing), catch_statement: None };
    let mut rt = runtime();
    match execute_statement(&mut rt, s) {
        Ok(ExecFlow::Normal(span)) => assert_eq!(span, Span::new(6, 7, "")),
        other => panic!("{:?}", other),
    }
}

#[test]
fn binding_a_local_leaves_others() {
    let mut rt = runtime();
    execute_statement(&mut rt, declare(0, num32(1))).unwrap();
    execute_statement(&mut rt, declare(1, num32(2))).unwrap();
    execute_statement(&mut rt, assign(1, num32(3))).unwrap();
    assert_eq!(as_i32(rt.get_local(0).unwrap()), 1);
    assert_eq!(as_i32(rt.get_local(1).unwrap()), 3);
}

#[test]
fn setting_a_slot_leaves_other_slots() {
    let mut rt = runtime();
    let defaults = vec![(1, Value::Number(Number::Int32(5))), (2, Value::Number(Number::Int32(6)))];
    execute_statement(&mut rt, declare(0, new_object(defaults))).unwrap();
    execute_statement(&mut rt, ResolvedStatement::Assign { span: sp(), target: slot(0, 2), value: num32(9) }).unwrap();
    assert_eq!(as_i32(&rt.get_slot_value(0, 1).unwrap()), 5);
    assert_eq!(as_i32(&rt.get_slot_value(0, 2).unwrap()), 9);
}

#[test]
fn indexing_a_boolean_place_is_not_permitted() {
    let mut rt = runtime();
    rt.reserve_local(0, Value::Bool(true));
    let target = ResolvedExpression::ArrayAccess {
        span: sp(),
        target: Box::new(ResolvedExpression::Variable(sp(), Symbol::Local(LocalInfo { id: 0, kind: ValueKind::Bool }))),
        index: Box::new(num32(0)),
        optional: false,
        chained: false,
    };
    match evaluate_place(&mut rt, target) {
        Err(RuntimeError::Error { message, .. }) => assert_eq!(message, "Array access not permitted for Bool"),
        other => panic!("{:?}", other),
    }
}

#[test]
fn mapping_and_attach_need_objects() {
    let mut rt = runtime();
    let m = ResolvedStatement::AddMapping { span: sp(), object: num32(1), from: 2, to: 3 };
    match execute_statement(&mut rt, m) {
        Err(RuntimeError::Error { message, .. }) => assert_eq!(message, "Invalid mapping: Number(Int32(1)), 2 -> 3"),
        other => panic!("{:?}", other),
    }
    let a = ResolvedStatement::Attach {
        span: sp(),
        object: num32(1),
        attachment: ResolvedAttachment {
            defaults: Vec::new(),
            mappings: Vec::new(),
            base: ShapeInstance { id: 0, generics: Vec::new() },
            known: Vec::new(),
        },
    };
    match execute_statement(&mut rt, a) {
        Err(RuntimeError::Error { message, .. }) => {
            assert_eq!(message, "Could not attach ShapeInstance { id: 0, generics: [] } to Number(Int32(1))")
        },
        other => panic!("{:?}", other),
    }
    let d = ResolvedStatement::Detach {
        span: sp(),
        object: num32(1),
        shape: ResolvedShapeExpression { span: sp(), kind: ValueKind::Bool },
    };
    match execute_statement(&mut rt, d) {
        Err(RuntimeError::Error { message, .. }) => assert_eq!(message, "Could not detach Bool from Number(Int32(1))"),
        other => panic!("{:?}", other),
    }
}

#[test]
fn seal_lasts_for_later_statements() {
    let mut rt = runtime();
    execute_statement(&mut rt, declare(0, new_object(Vec::new()))).unwrap();
    execute_statement(&mut rt, ResolvedStatement::Seal { span: sp(), target: obj_var(0) }).unwrap();
    execute_statement(&mut rt, print(text("between"))).unwrap();
    execute_statement(&mut rt, declare(1, num32(4))).unwrap();
    let m = ResolvedStatement::AddMapping { span: sp(), object: obj_var(0), from: 8, to: 9 };
    assert!(matches!(execute_statement(&mut rt, m), Ok(ExecFlow::Normal(_))));
    assert!(rt.objects[0].sealed);
    assert!(rt.get_slot_value(0, 9).is_none());
}

#[test]
fn empty_program_ends_normally_at_runtime_span() {
    let (_, r) = run(Vec::new());
    match r {
        Ok(ExecFlow::Normal(span)) => assert_eq!(span, Span::new(0, 0, "Runtime")),
        other => panic!("{:?}", other),
    }
}

#[test]
fn call_without_caught_error_restores_stack() {
    let body = ResolvedStatement::Return { span: sp(), value: num32(1) };
    let f = function_expr(Vec::new(), ValueKind::Number(NumKind::Int32), ResolvedFunctionBody::Script(body));
    let mut rt = runtime();
    let inner = call(f, Vec::new());
    let outer = function_expr(
        Vec::new(),
        ValueKind::Number(NumKind::Int32),
        ResolvedFunctionBody::Script(ResolvedStatement::Return { span: sp(), value: inner }),
    );
    assert_eq!(as_i32(&evaluate(&mut rt, call(outer, Vec::new())).unwrap()), 1);
    assert!(rt.call_stack.is_empty());
}

#[test]
fn caught_error_inside_call_leaves_its_frame() {
    let body = ResolvedStatement::Return { span: sp(), value: text("wrong kind") };
    let f = function_expr(Vec::new(), ValueKind::Number(NumKind::Int32), ResolvedFunctionBody::Script(body));
    let s = ResolvedStatement::Try {
        span: sp(),
        try_statement: Box::new(ResolvedStatement::Expression { span: sp(), expr: call(f, Vec::new()) }),
        catch_statement: None,
    };
    let mut rt = runtime();
    assert!(matches!(execute_statement(&mut rt, s), Ok(ExecFlow::Normal(_))));
    assert_eq!(rt.call_stack.len(), 1);
}

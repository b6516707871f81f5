//! The data the interpreter works on: source spans, numbers, value kinds,
//! runtime values, functions and the resolved syntax tree, each with the
//! mathematical view that contracts are written over.
use vstd::prelude::*;
use std::rc::Rc;
use crate::executor::ShapeInstance;
use crate::intrinsic::Intrinsic;

verus! {

pub type ObjectId = usize;

pub type ShapeId = usize;

pub type AzimuthId = usize;

pub type LocalId = usize;

/// A region of the source text, with a label naming where it comes from.
#[derive(Clone, Copy, Debug, PartialEq, Eq)]
pub struct Span {
    pub start: usize,
    pub end: usize,
    pub label: &'static str,
}

impl Span {
    pub fn new(start: usize, end: usize, label: &'static str) -> (s: Span)
        ensures
            s == (Span { start, end, label }),
    {
        Span { start, end, label }
    }

    /// The empty span at the start of the source, with an empty label.
    pub fn empty() -> (s: Span)
        ensures
            s == (Span { start: 0, end: 0, label: "" }),
    {
        Span { start: 0, end: 0, label: "" }
    }
}

/// The numeric kinds of the language.
#[derive(Clone, Copy, Debug, PartialEq, Eq, Structural)]
pub enum NumKind {
    Int8,
    Int16,
    Int32,
    Int64,
    UInt8,
    UInt16,
    UInt32,
    UInt64,
    Float32,
    Float64,
    Any,
}

/// A number of one of the integer kinds; `Any` is an untyped literal held as `i32`.
#[derive(Clone, Copy, Debug, PartialEq, Eq, Structural)]
pub enum Number {
    Int8(i8),
    Int16(i16),
    Int32(i32),
    Int64(i64),
    UInt8(u8),
    UInt16(u16),
    UInt32(u32),
    UInt64(u64),
    Any(i32),
}

/// The operators of the language.
#[derive(Clone, Copy, Debug, PartialEq, Eq, Structural)]
pub enum Operator {
    Equal,
    NEqual,
    LT,
    GT,
    LTE,
    GTE,
    Add,
    Sub,
    Mul,
    Div,
    Mod,
    BWAnd,
    BWOr,
    BWXor,
    BWShiftL,
    BWShiftR,
    BWNot,
    Range,
    RangeLT,
    Not,
    And,
    Or,
    Inc,
    Dec,
    Len,
    DQuestion,
    IsShape,
    NIsShape,
}

/// The static kind of a value.
#[derive(Debug)]
pub enum ValueKind {
    String,
    Bool,
    Nil,
    Number(NumKind),
    Array(Box<ValueKind>),
    SetOf(Box<ValueKind>),
    Dict(Box<ValueKind>, Box<ValueKind>),
    Option(Box<ValueKind>),
    Object(Vec<ValueKind>),
    Shape(ShapeInstance),
    Range(NumKind),
    Function(Box<ValueKind>),
    Dyn,
}

/// The mathematical form of a [`ValueKind`].
pub enum SKind {
    String,
    Bool,
    Nil,
    Number(NumKind),
    Array(Box<SKind>),
    SetOf(Box<SKind>),
    Dict(Box<SKind>, Box<SKind>),
    Option(Box<SKind>),
    Object(Seq<SKind>),
    Shape(ShapeId, Seq<SKind>),
    Range(NumKind),
    Function(Box<SKind>),
    Dyn,
}

pub open spec fn kind_view(k: ValueKind) -> SKind
    decreases k,
{
    match k {
        ValueKind::String => SKind::String,
        ValueKind::Bool => SKind::Bool,
        ValueKind::Nil => SKind::Nil,
        ValueKind::Number(n) => SKind::Number(n),
        ValueKind::Array(b) => SKind::Array(Box::new(kind_view(*b))),
        ValueKind::SetOf(b) => SKind::SetOf(Box::new(kind_view(*b))),
        ValueKind::Dict(a, b) => SKind::Dict(Box::new(kind_view(*a)), Box::new(kind_view(*b))),
        ValueKind::Option(b) => SKind::Option(Box::new(kind_view(*b))),
        ValueKind::Object(v) => SKind::Object(
            Seq::new(
                v@.len(),
                |i: int|
                    if 0 <= i < v@.len() {
                        kind_view(v@[i])
                    } else {
                        SKind::Dyn
                    },
            ),
        ),
        ValueKind::Shape(inst) => SKind::Shape(
            inst.id,
            Seq::new(
                inst.generics@.len(),
                |i: int|
                    if 0 <= i < inst.generics@.len() {
                        kind_view(inst.generics@[i])
                    } else {
                        SKind::Dyn
                    },
            ),
        ),
        ValueKind::Range(n) => SKind::Range(n),
        ValueKind::Function(b) => SKind::Function(Box::new(kind_view(*b))),
        ValueKind::Dyn => SKind::Dyn,
    }
}

impl View for ValueKind {
    type V = SKind;

    open spec fn view(&self) -> SKind {
        kind_view(*self)
    }
}

/// A value at run time.
#[derive(Debug)]
pub enum Value {
    Nil,
    Bool(bool),
    Number(Number),
    String(String),
    /// Elements and the element kind.
    Array(Vec<Value>, ValueKind),
    /// Elements (no two alike) and the element kind.
    SetOf(Vec<Value>, ValueKind),
    /// Entries (no two keys alike), the key kind and the value kind.
    Dict(Vec<(Value, Value)>, ValueKind, ValueKind),
    /// Start, end, step, whether the end is included, and the numeric kind.
    Range(Number, Number, Number, bool, NumKind),
    Object(ObjectId, ValueKind),
    Function(Rc<Function>),
    FunctionChain(Rc<Vec<MappingTo>>, ValueKind),
    /// A place: a slot of an object.
    Pointer(ObjectId, AzimuthId, ValueKind),
    /// A place: an element of a container.
    Element(Box<Value>, Box<Value>, ValueKind),
    /// A place: a local variable.
    Local(LocalId, ValueKind),
}

/// The mathematical form of a [`Value`].
pub enum SVal {
    Nil,
    Bool(bool),
    Number(Number),
    Str(Seq<char>),
    Array(Seq<SVal>, SKind),
    SetOf(Seq<SVal>, SKind),
    Dict(Seq<(SVal, SVal)>, SKind, SKind),
    Range(Number, Number, Number, bool, NumKind),
    Object(ObjectId, SKind),
    Function(SFunc),
    FunctionChain(Seq<MappingTo>, SKind),
    Pointer(ObjectId, AzimuthId, SKind),
    Element(Box<SVal>, Box<SVal>, SKind),
    Local(LocalId, SKind),
}

/// The mathematical form of a [`Function`].
pub struct SFunc {
    pub id: usize,
    pub has_self: bool,
    pub inputs: Seq<SParam>,
    pub output: SKind,
    pub body: Option<ResolvedFunctionBody>,
    pub captures: Seq<LocalId>,
}

/// The mathematical form of a [`FunctionParameter`].
pub struct SParam {
    pub kind: SKind,
    pub local: Option<LocalId>,
}

pub open spec fn value_view(v: Value) -> SVal
    decreases v,
{
    match v {
        Value::Nil => SVal::Nil,
        Value::Bool(b) => SVal::Bool(b),
        Value::Number(n) => SVal::Number(n),
        Value::String(s) => SVal::Str(s@),
        Value::Array(items, k) => SVal::Array(
            Seq::new(
                items@.len(),
                |i: int|
                    if 0 <= i < items@.len() {
                        value_view(items@[i])
                    } else {
                        SVal::Nil
                    },
            ),
            k@,
        ),
        Value::SetOf(items, k) => SVal::SetOf(
            Seq::new(
                items@.len(),
                |i: int|
                    if 0 <= i < items@.len() {
                        value_view(items@[i])
                    } else {
                        SVal::Nil
                    },
            ),
            k@,
        ),
        Value::Dict(entries, kk, vk) => SVal::Dict(
            Seq::new(
                entries@.len(),
                |i: int|
                    if 0 <= i < entries@.len() {
                        (value_view(entries@[i].0), value_view(entries@[i].1))
                    } else {
                        (SVal::Nil, SVal::Nil)
                    },
            ),
            kk@,
            vk@,
        ),
        Value::Range(a, b, c, incl, k) => SVal::Range(a, b, c, incl, k),
        Value::Object(id, k) => SVal::Object(id, k@),
        Value::Function(f) => SVal::Function((*f)@),
        Value::FunctionChain(maps, k) => SVal::FunctionChain((*maps)@, k@),
        Value::Pointer(o, a, k) => SVal::Pointer(o, a, k@),
        Value::Element(t, i, k) => SVal::Element(
            Box::new(value_view(*t)),
            Box::new(value_view(*i)),
            k@,
        ),
        Value::Local(id, k) => SVal::Local(id, k@),
    }
}

impl View for Value {
    type V = SVal;

    open spec fn view(&self) -> SVal {
        value_view(*self)
    }
}

/// A parameter of a function: its kind and the local it binds.
#[derive(Debug)]
pub struct FunctionParameter {
    pub kind: ValueKind,
    pub local: Option<LocalId>,
}

impl View for FunctionParameter {
    type V = SParam;

    open spec fn view(&self) -> SParam {
        SParam { kind: self.kind@, local: self.local }
    }
}

/// A function value: a script body or an intrinsic, with its signature.
#[derive(Debug)]
pub struct Function {
    pub id: usize,
    pub has_self: bool,
    pub input_types: Vec<FunctionParameter>,
    pub output_type: ValueKind,
    pub func: Rc<Option<ResolvedFunctionBody>>,
    pub captures: Vec<LocalId>,
}

impl View for Function {
    type V = SFunc;

    open spec fn view(&self) -> SFunc {
        SFunc {
            id: self.id,
            has_self: self.has_self,
            inputs: Seq::new(self.input_types@.len(), |i: int| self.input_types@[i]@),
            output: self.output_type@,
            body: *self.func,
            captures: self.captures@,
        }
    }
}

/// The body of a function.
#[derive(Debug)]
pub enum ResolvedFunctionBody {
    Script(ResolvedStatement),
    Intrinsic(Intrinsic),
}

/// Where one function of a chain is found.
#[derive(Debug)]
pub enum MappingTo {
    Slot(AzimuthId),
    Link(ObjectId, AzimuthId),
    Mapped(AzimuthId),
    Chain(Rc<Vec<MappingTo>>, ValueKind),
    Expression(Box<ResolvedExpression>),
}

/// A local variable as the analyzer resolved it.
#[derive(Debug)]
pub struct LocalInfo {
    pub id: LocalId,
    pub kind: ValueKind,
}

/// A name in an expression.
#[derive(Debug)]
pub enum Symbol {
    Local(LocalInfo),
    Generic(usize),
}

/// A member (slot) of a shape.
#[derive(Debug)]
pub struct MemberInfo {
    pub id: AzimuthId,
    pub name: String,
    pub kind: ValueKind,
}

/// A shape expression resolved to its kind.
#[derive(Debug)]
pub struct ResolvedShapeExpression {
    pub span: Span,
    pub kind: ValueKind,
}

/// A shape to attach to an object: slot defaults, slot mappings and the base shape.
#[derive(Debug)]
pub struct ResolvedAttachment {
    pub defaults: Vec<(AzimuthId, Value)>,
    pub mappings: Vec<(AzimuthId, AzimuthId)>,
    pub base: ShapeInstance,
    pub known: Vec<ValueKind>,
}

/// A parameter of a function expression.
#[derive(Debug)]
pub struct FunctionInput {
    pub shape: ResolvedShapeExpression,
    pub local: Option<LocalId>,
}

/// An expression after name resolution.
#[derive(Debug)]
pub enum ResolvedExpression {
    Value(Span, Value),
    Array(Span, Vec<ResolvedExpression>, ValueKind),
    SetOf(Span, Vec<ResolvedExpression>, ValueKind),
    Dict(Span, Vec<(ResolvedExpression, ResolvedExpression)>, ValueKind, ValueKind),
    Variable(Span, Symbol),
    Default(Span, ValueKind),
    StaticSingleton(Span, ShapeId),
    Option(Span, Box<ResolvedExpression>),
    Shape(Span, ResolvedShapeExpression),
    Reflection(Span, Box<ResolvedExpression>),
    ObjectInit(Span, ResolvedAttachment),
    StringFormat(Span, Vec<ResolvedExpression>),
    UnaryOp { span: Span, operator: Operator, operand: Box<ResolvedExpression> },
    BinaryOp {
        span: Span,
        left: Box<ResolvedExpression>,
        operator: Operator,
        right: Box<ResolvedExpression>,
    },
    Ternary {
        span: Span,
        condition: Box<ResolvedExpression>,
        true_expr: Box<ResolvedExpression>,
        else_expr: Box<ResolvedExpression>,
    },
    MemberAccess {
        span: Span,
        target: Box<ResolvedExpression>,
        member: MemberInfo,
        optional: bool,
        chained: bool,
    },
    ArrayAccess {
        span: Span,
        target: Box<ResolvedExpression>,
        index: Box<ResolvedExpression>,
        optional: bool,
        chained: bool,
    },
    FunctionCall {
        span: Span,
        target: Box<ResolvedExpression>,
        args: Vec<ResolvedExpression>,
        optional: bool,
        chained: bool,
    },
    Function {
        span: Span,
        has_self: bool,
        input_types: Vec<FunctionInput>,
        output_type: ResolvedShapeExpression,
        func: Rc<Option<ResolvedFunctionBody>>,
        captures: Vec<LocalId>,
    },
}

/// A statement after name resolution.
#[derive(Debug)]
pub enum ResolvedStatement {
    Expression { span: Span, expr: ResolvedExpression },
    Print { span: Span, expr: ResolvedExpression },
    DeclareLocal { span: Span, info: LocalInfo, value: ResolvedExpression },
    Detach { span: Span, object: ResolvedExpression, shape: ResolvedShapeExpression },
    AddMapping { span: Span, object: ResolvedExpression, from: AzimuthId, to: AzimuthId },
    Attach { span: Span, object: ResolvedExpression, attachment: ResolvedAttachment },
    Assign { span: Span, target: ResolvedExpression, value: ResolvedExpression },
    Seal { span: Span, target: ResolvedExpression },
    If {
        span: Span,
        condition: ResolvedExpression,
        true_statement: Box<ResolvedStatement>,
        else_statement: Option<Box<ResolvedStatement>>,
    },
    Switch {
        span: Span,
        target: ResolvedExpression,
        branch_statements: Vec<(ResolvedExpression, bool, ResolvedStatement)>,
        else_statement: Option<Box<ResolvedStatement>>,
    },
    Try {
        span: Span,
        try_statement: Box<ResolvedStatement>,
        catch_statement: Option<Box<ResolvedStatement>>,
    },
    While { span: Span, condition: ResolvedExpression, statement: Box<ResolvedStatement> },
    For {
        span: Span,
        local: LocalId,
        target: ResolvedExpression,
        statement: Box<ResolvedStatement>,
    },
    Block(Vec<ResolvedStatement>),
    Break { span: Span },
    Continue { span: Span },
    Return { span: Span, value: ResolvedExpression },
    Throw { span: Span, message: ResolvedExpression },
    /// A declaration that only the analyzer acts on; it has no meaning at run time.
    Declaration { span: Span },
}


/// The views of the elements of a sequence.
pub open spec fn map_view<T: View>(s: Seq<T>) -> Seq<T::V> {
    Seq::new(s.len(), |i: int| s[i]@)
}

pub broadcast proof fn lemma_map_view_update<T: View>(s: Seq<T>, i: int, x: T)
    requires
        0 <= i < s.len(),
    ensures
        #[trigger] map_view(s.update(i, x)) == map_view(s).update(i, x@),
{
    assert(map_view(s.update(i, x)) =~= map_view(s).update(i, x@));
}

pub broadcast proof fn lemma_map_view_push<T: View>(s: Seq<T>, x: T)
    ensures
        #[trigger] map_view(s.push(x)) == map_view(s).push(x@),
{
    assert(map_view(s.push(x)) =~= map_view(s).push(x@));
}

pub broadcast proof fn lemma_map_view_remove<T: View>(s: Seq<T>, i: int)
    requires
        0 <= i < s.len(),
    ensures
        #[trigger] map_view(s.remove(i)) == map_view(s).remove(i),
{
    assert(map_view(s.remove(i)) =~= map_view(s).remove(i));
}

pub broadcast proof fn lemma_map_view_insert<T: View>(s: Seq<T>, i: int, x: T)
    requires
        0 <= i <= s.len(),
    ensures
        #[trigger] map_view(s.insert(i, x)) == map_view(s).insert(i, x@),
{
    assert(map_view(s.insert(i, x)) =~= map_view(s).insert(i, x@));
}

pub broadcast proof fn lemma_map_view_drop_last<T: View>(s: Seq<T>)
    requires
        s.len() > 0,
    ensures
        #[trigger] map_view(s.drop_last()) == map_view(s).drop_last(),
{
    assert(map_view(s.drop_last()) =~= map_view(s).drop_last());
}

pub broadcast group group_map_view {
    lemma_map_view_update,
    lemma_map_view_push,
    lemma_map_view_remove,
    lemma_map_view_insert,
    lemma_map_view_drop_last,
}

} // verus!

//! The operations the runtime provides natively, looked up by name.
use vstd::prelude::*;
use rand::Rng;
use crate::executor::{err, error, SErr, RuntimeError, result_view};
use crate::describe::number_error;
use crate::model::{
    AzimuthId, LocalId, NumKind, Number, ObjectId, SKind, SVal, Span, Value, ValueKind, map_view,
    kind_view,
};
use crate::runtime::{
    LocalEntry, Runtime, RtState, SLocal, SObject, local_index, object_line, render_object, slot_index, st_set_object,
};
use crate::semantics::{Oracle, Outcome, agrees, state_extends, lemma_oracle_of, oracle_of};
use crate::value::{
    assignable, dec_nat, fits, num_int, render, same_value, trunc_div, lemma_array_view,
    lemma_set_view, lemma_dict_view, clone_values, values_equal, push_decimal, push_render,
};

verus! {

broadcast use vstd::std_specs::vec::group_vec_axioms, crate::model::group_map_view;

/// The operations the runtime provides natively.
#[derive(Clone, Copy, Debug, PartialEq, Eq, Structural)]
pub enum Intrinsic {
    ArrayAppend,
    ArrayInsert,
    ArrayRemove,
    SetToArray,
    SetContains,
    DictKeys,
    DictValues,
    DictGet,
    Sqrt,
    Args,
    ReadLine,
    RandomInt,
    RandomRange,
    StringUpper,
    StringLower,
    StringTrim,
    GetTime,
    RangeToArray,
    RangeCreate,
    RangeCreateExclusive,
    PrintObjects,
    PrintStack,
    PrintLocals,
    Todo,
}

/// What an intrinsic receives besides the runtime: where it was called and its arguments.
#[derive(Debug)]
pub struct IntrinsicParameters {
    pub span: Span,
    pub args: Vec<Value>,
    pub azimuth: Option<AzimuthId>,
}

/// The error of parsing and resolving a program.
#[derive(Debug)]
pub enum ParseError {
    Error { span: Span, message: String },
}

// ---------------------------------------------------------------------------
// Names for what the standard library's string functions return
// ---------------------------------------------------------------------------
/// The string `str::to_uppercase` returns for `s`.
pub uninterp spec fn uppercase_of(s: Seq<char>) -> Seq<char>;

/// The string `str::to_lowercase` returns for `s`.
pub uninterp spec fn lowercase_of(s: Seq<char>) -> Seq<char>;

/// Whether `c` has the Unicode property White_Space, which is what
/// `char::is_whitespace` tests.
pub open spec fn is_white_space(c: char) -> bool {
    let u = c as u32;
    ||| 0x9 <= u <= 0xd
    ||| u == 0x20
    ||| u == 0x85
    ||| u == 0xa0
    ||| u == 0x1680
    ||| 0x2000 <= u <= 0x200a
    ||| u == 0x2028
    ||| u == 0x2029
    ||| u == 0x202f
    ||| u == 0x205f
    ||| u == 0x3000
}

/// `s` without its leading white space.
pub open spec fn trim_start(s: Seq<char>) -> Seq<char>
    decreases s.len(),
{
    if s.len() > 0 && is_white_space(s[0]) {
        trim_start(s.drop_first())
    } else {
        s
    }
}

/// `s` without its trailing white space.
pub open spec fn trim_end(s: Seq<char>) -> Seq<char>
    decreases s.len(),
{
    if s.len() > 0 && is_white_space(s.last()) {
        trim_end(s.drop_last())
    } else {
        s
    }
}

/// `s` without its leading and trailing white space, as `str::trim` gives it.
pub open spec fn trimmed(s: Seq<char>) -> Seq<char> {
    trim_end(trim_start(s))
}

/// Calls `str::to_uppercase`; its result is named, not described.
#[verifier::external_body]
fn to_upper(s: &str) -> (r: String)
    ensures
        r@ == uppercase_of(s@),
{
    s.to_uppercase()
}

/// Calls `str::to_lowercase`; its result is named, not described.
#[verifier::external_body]
fn to_lower(s: &str) -> (r: String)
    ensures
        r@ == lowercase_of(s@),
{
    s.to_lowercase()
}

/// Whether `c` is white space.
fn is_white_space_exec(c: char) -> (b: bool)
    ensures
        b == is_white_space(c),
{
    let u = c as u32;
    (0x9 <= u && u <= 0xd) || u == 0x20 || u == 0x85 || u == 0xa0 || u == 0x1680 || (0x2000 <= u
        && u <= 0x200a) || u == 0x2028 || u == 0x2029 || u == 0x202f || u == 0x205f || u == 0x3000
}

/// `s` without its leading and trailing white space.
fn trim_str(s: &str) -> (r: String)
    ensures
        r@ == trimmed(s@),
{
    let n = s.unicode_len();
    let mut i: usize = 0;
    assert(s@.skip(0) =~= s@);
    while i < n && is_white_space_exec(s.get_char(i))
        invariant
            n == s@.len(),
            i <= n,
            trim_start(s@) == trim_start(s@.skip(i as int)),
        decreases n - i,
    {
        assert(s@.skip(i as int).drop_first() =~= s@.skip(i + 1));
        i = i + 1;
    }
    let ghost rest = s@.skip(i as int);
    assert(trim_start(s@) == rest) by {
        if i < n {
            assert(rest[0] == s@[i as int]);
        }
    }
    let mut j: usize = n;
    assert(rest =~= s@.subrange(i as int, n as int));
    while j > i && is_white_space_exec(s.get_char(j - 1))
        invariant
            n == s@.len(),
            i <= j <= n,
            trim_end(rest) == trim_end(s@.subrange(i as int, j as int)),
        decreases j - i,
    {
        assert(s@.subrange(i as int, j as int).drop_last() =~= s@.subrange(i as int, j - 1));
        j = j - 1;
    }
    assert(trim_end(rest) == s@.subrange(i as int, j as int)) by {
        if j > i {
            assert(s@.subrange(i as int, j as int).last() == s@[j - 1]);
        }
    }
    String::from_str(s.substring_char(i, j))
}

/// Calls `Rng::gen::<i32>` on `rand::thread_rng()`: any `i32`, nothing more is claimed.
#[verifier::external_body]
fn random_i32() -> i32 {
    rand::thread_rng().gen::<i32>()
}

/// Calls `Rng::gen_range(lo..=hi)` on `rand::thread_rng()`, which panics on an
/// empty range (hence `lo <= hi`) and otherwise returns a number of the range.
#[verifier::external_body]
fn random_i32_in(lo: i32, hi: i32) -> (r: i32)
    requires
        lo <= hi,
    ensures
        lo <= r <= hi,
{
    rand::thread_rng().gen_range(lo..=hi)
}

#[verifier::external_type_specification]
#[verifier::external_body]
pub struct ExSystemTime(std::time::SystemTime);

/// Calls `SystemTime::now()`: the machine's clock, of which nothing is claimed.
#[verifier::external_body]
fn system_time_now() -> std::time::SystemTime {
    std::time::SystemTime::now()
}

/// Calls `SystemTime::duration_since(UNIX_EPOCH)` on `t`: the time since the
/// Unix epoch, or `None` where it reports that `t` lies before the epoch.
/// Nothing is claimed of the duration.
#[verifier::external_body]
fn since_unix_epoch(t: &std::time::SystemTime) -> Option<std::time::Duration> {
    match t.duration_since(std::time::UNIX_EPOCH) {
        Ok(d) => Some(d),
        Err(_) => None,
    }
}

/// Calls `Duration::as_millis` on `d`: its whole milliseconds. Nothing is
/// claimed of the count.
#[verifier::external_body]
fn duration_millis(d: &std::time::Duration) -> u128 {
    d.as_millis()
}

/// The milliseconds since the Unix epoch on the machine's clock, or `None`
/// where the clock lies before the epoch.
fn clock_since_epoch_millis() -> Option<u128> {
    let now = system_time_now();
    match since_unix_epoch(&now) {
        Some(d) => Some(duration_millis(&d)),
        None => None,
    }
}

// ---------------------------------------------------------------------------
// Array slots and locals
// ---------------------------------------------------------------------------
/// A change to an array.
pub enum ArrayEdit {
    Push(SVal),
    Insert(int, SVal),
    Remove(int),
}

/// The array `a` after an edit.
pub open spec fn apply_edit(a: Seq<SVal>, edit: ArrayEdit) -> Seq<SVal> {
    match edit {
        ArrayEdit::Push(v) => a.push(v),
        ArrayEdit::Insert(i, v) => a.insert(i, v),
        ArrayEdit::Remove(i) => a.remove(i),
    }
}

/// The state with the array held in slot `az` of object `id` edited;
/// unchanged when the object, the slot, or an array in it is missing.
pub open spec fn st_update_slot_array(st: RtState, id: ObjectId, az: AzimuthId, edit: ArrayEdit) -> RtState {
    if id < st.objects.len() {
        let o = st.objects[id as int];
        let i = slot_index(o.slots, az);
        if i >= 0 && o.slots[i].1 is Array {
            let a = o.slots[i].1;
            st_set_object(
                st,
                id,
                SObject {
                    slots: o.slots.update(i, (az, SVal::Array(apply_edit(a->Array_0, edit), a->Array_1))),
                    ..o
                },
            )
        } else {
            st
        }
    } else {
        st
    }
}

/// The array held in slot `az` of object `id`, if there is one.
pub open spec fn slot_array(st: RtState, id: ObjectId, az: AzimuthId) -> Option<Seq<SVal>> {
    if id < st.objects.len() {
        let o = st.objects[id as int];
        let i = slot_index(o.slots, az);
        if i >= 0 && o.slots[i].1 is Array {
            Some(o.slots[i].1->Array_0)
        } else {
            None
        }
    } else {
        None
    }
}

// ---------------------------------------------------------------------------
// Ranges
// ---------------------------------------------------------------------------
/// The elements of `Range::ToArray` for `from`, `to`, `by` and whether the end
/// is included; `None` where the standard library's `step_by` or the negation
/// of `by` panics. Ascending ranges step by `by as usize`, descending ones run
/// from `from` down by `-by as usize`.
pub open spec fn range_array(from: i32, to: i32, by: i32, inclusive: bool) -> Option<Seq<int>> {
    if from <= to {
        let step = (by as usize) as int;
        if step == 0 {
            None
        } else {
            let n: int = if inclusive {
                (to - from) / step + 1
            } else if from < to {
                (to - from - 1) / step + 1
            } else {
                0
            };
            Some(Seq::new(n as nat, |k: int| from + k * step))
        }
    } else if by == i32::MIN {
        None
    } else {
        let step = ((-by) as usize) as int;
        if step == 0 {
            None
        } else {
            let n: int = if inclusive {
                (from - to) / step + 1
            } else {
                (from - 1 - to) / step + 1
            };
            Some(
                Seq::new(
                    n as nat,
                    |k: int|
                        if inclusive {
                            from - k * step
                        } else {
                            from - 1 - k * step
                        },
                ),
            )
        }
    }
}

// ---------------------------------------------------------------------------
// Printing the runtime
// ---------------------------------------------------------------------------
/// One line per local: `id = value`.
pub open spec fn locals_lines(ls: Seq<SLocal>) -> Seq<Seq<char>> {
    Seq::new(ls.len(), |i: int| dec_nat(ls[i].id as nat) + " = "@ + render(ls[i].value))
}

/// One line per object.
pub open spec fn objects_lines(os: Seq<SObject>) -> Seq<Seq<char>> {
    Seq::new(os.len(), |i: int| render_object(os[i]))
}

/// One line per frame of the call stack, outermost first: `at <function id>`.
pub open spec fn stack_lines(st: RtState) -> Seq<Seq<char>> {
    Seq::new(st.call_stack.len(), |i: int| "at "@ + dec_nat(st.call_stack[i].id as nat))
}

// ---------------------------------------------------------------------------
// The intrinsics
// ---------------------------------------------------------------------------
/// The error an intrinsic reports for an argument of the wrong kind.
pub open spec fn mismatch(span: Span, found: SVal, expected: SKind) -> SErr {
    SErr::TypeMismatch { span, found, expected }
}

/// What intrinsic `op` does when called at `span` with `args`: the state after
/// it and its result, or `None` where the operation panics (a missing
/// argument, an index out of range, an `unwrap` of an out-of-range number).
#[verifier::opaque]
pub open spec fn intrinsic_call(o: Oracle, st: RtState, op: Intrinsic, span: Span, args: Seq<SVal>) -> Outcome<SVal> {
    let array_nil = SKind::Array(Box::new(SKind::Nil));
    let number_any = SKind::Number(NumKind::Any);
    let set_nil = SKind::SetOf(Box::new(SKind::Nil));
    match op {
        Intrinsic::ArrayAppend => if args.len() < 2 {
            None
        } else {
            match args[0] {
                SVal::Pointer(obj, az, _) => Some(
                    (
                        st_update_slot_array(st, obj, az, ArrayEdit::Push(args[1])),
                        Ok(SVal::Bool(true)),
                    ),
                ),
                SVal::Local(id, kind) => if assignable(kind, SKind::Array(Box::new(SKind::Dyn))) {
                    let i = local_index(st.locals, id);
                    if i < 0 || !(st.locals[i].value is Array) {
                        None
                    } else {
                        let a = st.locals[i].value;
                        Some(
                            (
                                RtState {
                                    locals: st.locals.update(
                                        i,
                                        SLocal {
                                            value: SVal::Array(a->Array_0.push(args[1]), a->Array_1),
                                            ..st.locals[i]
                                        },
                                    ),
                                    ..st
                                },
                                Ok(SVal::Bool(true)),
                            ),
                        )
                    }
                } else {
                    Some((st, Err(mismatch(span, args[0], array_nil))))
                },
                other => Some((st, Err(mismatch(span, other, array_nil)))),
            }
        },
        Intrinsic::ArrayInsert => if args.len() < 3 {
            None
        } else {
            match (args[0], args[2]) {
                (SVal::Pointer(obj, az, _), SVal::Number(n)) => if !fits(
                    NumKind::Int32,
                    num_int(n),
                ) {
                    None
                } else {
                    let idx = ((num_int(n) as i32) as usize) as int;
                    match slot_array(st, obj, az) {
                        Some(a) => if idx > a.len() {
                            None
                        } else {
                            Some(
                                (
                                    st_update_slot_array(st, obj, az, ArrayEdit::Insert(idx, args[1])),
                                    Ok(SVal::Bool(true)),
                                ),
                            )
                        },
                        None => Some((st, Ok(SVal::Bool(true)))),
                    }
                },
                (other, _) => Some((st, Err(mismatch(span, other, array_nil)))),
            }
        },
        Intrinsic::ArrayRemove => if args.len() < 2 {
            None
        } else {
            match (args[0], args[1]) {
                (SVal::Pointer(obj, az, _), SVal::Number(n)) => if !fits(
                    NumKind::Int32,
                    num_int(n),
                ) {
                    None
                } else {
                    let idx = ((num_int(n) as i32) as usize) as int;
                    match slot_array(st, obj, az) {
                        Some(a) => if idx >= a.len() {
                            None
                        } else {
                            Some(
                                (
                                    st_update_slot_array(st, obj, az, ArrayEdit::Remove(idx)),
                                    Ok(SVal::Bool(true)),
                                ),
                            )
                        },
                        None => Some((st, Ok(SVal::Bool(true)))),
                    }
                },
                (other, _) => Some((st, Err(mismatch(span, other, array_nil)))),
            }
        },
        Intrinsic::SetToArray => if args.len() < 1 {
            None
        } else {
            match args[0] {
                SVal::SetOf(xs, k) => Some((st, Ok(SVal::Array(xs, k)))),
                other => Some((st, Err(mismatch(span, other, set_nil)))),
            }
        },
        Intrinsic::SetContains => if args.len() < 2 {
            None
        } else {
            match args[0] {
                SVal::SetOf(xs, _) => Some(
                    (
                        st,
                        Ok(
                            SVal::Bool(
                                exists|i: int| 0 <= i < xs.len() && same_value(xs[i], args[1]),
                            ),
                        ),
                    ),
                ),
                other => Some((st, Err(mismatch(span, other, set_nil)))),
            }
        },
        Intrinsic::DictKeys => if args.len() < 1 {
            None
        } else {
            match args[0] {
                SVal::Dict(es, kk, _) => Some(
                    (st, Ok(SVal::SetOf(Seq::new(es.len(), |i: int| es[i].0), kk))),
                ),
                other => Some((st, Err(mismatch(span, other, set_nil)))),
            }
        },
        Intrinsic::DictValues => if args.len() < 1 {
            None
        } else {
            match args[0] {
                SVal::Dict(es, _, vk) => Some(
                    (st, Ok(SVal::Array(Seq::new(es.len(), |i: int| es[i].1), vk))),
                ),
                other => Some((st, Err(mismatch(span, other, set_nil)))),
            }
        },
        Intrinsic::DictGet => if args.len() < 2 {
            None
        } else {
            match args[0] {
                SVal::Dict(es, _, _) => Some((st, Ok(dict_lookup(es, args[1])))),
                other => Some((st, Err(mismatch(span, other, set_nil)))),
            }
        },
        Intrinsic::Sqrt => if args.len() < 1 {
            None
        } else {
            Some((st, Err(mismatch(span, args[0], number_any))))
        },
        Intrinsic::Args => Some(
            (
                st,
                Ok(
                    SVal::Array(
                        Seq::new(st.args.len(), |i: int| SVal::Str(st.args[i])),
                        SKind::Array(Box::new(SKind::String)),
                    ),
                ),
            ),
        ),
        Intrinsic::ReadLine => if st.input_pos < st.input.len() {
            Some(
                (
                    RtState { input_pos: st.input_pos + 1, ..st },
                    Ok(SVal::Str(trimmed(st.input[st.input_pos as int]))),
                ),
            )
        } else {
            Some((st, Ok(SVal::Str(seq![]))))
        },
        Intrinsic::RandomInt => {
            let r = (o.random)(st.random_log.len());
            Some((RtState { random_log: st.random_log.push(r), ..st }, Ok(SVal::Number(Number::Int32(r)))))
        },
        Intrinsic::RandomRange => if args.len() < 2 {
            None
        } else {
            match (args[1], args[0]) {
                (SVal::Number(to), SVal::Number(from)) => if !fits(NumKind::Int32, num_int(from))
                    || !fits(NumKind::Int32, num_int(to)) || num_int(from) > num_int(to) {
                    None
                } else {
                    let r = (o.random)(st.random_log.len());
                    let v: i32 = if num_int(from) <= r <= num_int(to) {
                        r
                    } else {
                        num_int(from) as i32
                    };
                    Some(
                        (
                            RtState { random_log: st.random_log.push(v), ..st },
                            Ok(SVal::Number(Number::Int32(v))),
                        ),
                    )
                },
                _ => Some((st, Err(mismatch(span, args[1], number_any)))),
            }
        },
        Intrinsic::StringUpper => if args.len() < 1 {
            None
        } else {
            match args[0] {
                SVal::Str(s) => Some((st, Ok(SVal::Str(uppercase_of(s))))),
                other => Some((st, Err(mismatch(span, other, SKind::String)))),
            }
        },
        Intrinsic::StringLower => if args.len() < 1 {
            None
        } else {
            match args[0] {
                SVal::Str(s) => Some((st, Ok(SVal::Str(lowercase_of(s))))),
                other => Some((st, Err(mismatch(span, other, SKind::String)))),
            }
        },
        Intrinsic::StringTrim => if args.len() < 1 {
            None
        } else {
            match args[0] {
                SVal::Str(s) => Some((st, Ok(SVal::Str(trimmed(s))))),
                other => Some((st, Err(mismatch(span, other, SKind::String)))),
            }
        },
        Intrinsic::GetTime => {
            let t = (o.clock)(st.clock_log.len());
            let s1 = RtState { clock_log: st.clock_log.push(t), ..st };
            match t {
                None => Some((s1, Err(err(span, "SystemTime went backwards"@)))),
                Some(ms) => if ms <= u64::MAX {
                    Some((s1, Ok(SVal::Number(Number::UInt64(ms as u64)))))
                } else {
                    Some((s1, Err(err(span, "Millis to big: "@ + dec_nat(ms as nat)))))
                },
            }
        },
        Intrinsic::RangeToArray => if args.len() < 1 {
            None
        } else {
            match args[0] {
                SVal::Range(from, to, by, inclusive, _) => if !fits(NumKind::Int32, num_int(from))
                    || !fits(NumKind::Int32, num_int(to)) || !fits(NumKind::Int32, num_int(by)) {
                    None
                } else {
                    match range_array(
                        num_int(from) as i32,
                        num_int(to) as i32,
                        num_int(by) as i32,
                        inclusive,
                    ) {
                        None => None,
                        Some(xs) => Some(
                            (
                                st,
                                Ok(
                                    SVal::Array(
                                        Seq::new(
                                            xs.len(),
                                            |i: int| SVal::Number(Number::Int32(xs[i] as i32)),
                                        ),
                                        SKind::Number(NumKind::Int32),
                                    ),
                                ),
                            ),
                        ),
                    }
                },
                other => Some((st, Err(mismatch(span, other, SKind::Range(NumKind::Any))))),
            }
        },
        Intrinsic::RangeCreate | Intrinsic::RangeCreateExclusive => if args.len() < 3 {
            None
        } else {
            match (args[0], args[1], args[2]) {
                (SVal::Number(a), SVal::Number(b), SVal::Number(c)) => Some(
                    (
                        st,
                        Ok(SVal::Range(a, b, c, op is RangeCreate, NumKind::Int32)),
                    ),
                ),
                _ => Some((st, Err(mismatch(span, args[0], number_any)))),
            }
        },
        Intrinsic::PrintObjects => Some(
            (RtState { output: st.output + objects_lines(st.objects), ..st }, Ok(SVal::Nil)),
        ),
        Intrinsic::PrintStack => Some(
            (RtState { output: st.output + stack_lines(st), ..st }, Ok(SVal::Nil)),
        ),
        Intrinsic::PrintLocals => Some(
            (RtState { output: st.output + locals_lines(st.locals), ..st }, Ok(SVal::Nil)),
        ),
        Intrinsic::Todo => Some((st, Err(err(span, "TODO"@)))),
    }
}

/// The value of the first entry whose key equals `key`, or `Nil`.
pub open spec fn dict_lookup(es: Seq<(SVal, SVal)>, key: SVal) -> SVal
    decreases es.len(),
{
    if es.len() == 0 {
        SVal::Nil
    } else if same_value(es[0].0, key) {
        es[0].1
    } else {
        dict_lookup(es.drop_first(), key)
    }
}

// ---------------------------------------------------------------------------
// Executable intrinsics
// ---------------------------------------------------------------------------
/// Whether intrinsic `op` completes (does not panic) in state `st`, whatever
/// the clock and the random number generator answer.
pub open spec fn intrinsic_ok(st: RtState, op: Intrinsic, input: IntrinsicParameters) -> bool {
    forall|o: Oracle|
        agrees(o, st) ==> #[trigger] intrinsic_call(o, st, op, input.span, map_view(input.args@))
            is Some
}

/// Whether going from `before` to `after` with result `r` is what intrinsic
/// `op` does, for every answer of the clock and the random number generator
/// that agrees with the readings taken.
pub open spec fn intrinsic_done(
    before: RtState,
    after: RtState,
    op: Intrinsic,
    input: IntrinsicParameters,
    r: Result<SVal, SErr>,
) -> bool {
    &&& state_extends(before, after)
    &&& forall|o: Oracle|
        agrees(o, after) ==> #[trigger] intrinsic_call(o, before, op, input.span, map_view(input.args@))
            == Some((after, r))
}

/// An edit of an array held in a slot.
pub enum SlotEdit {
    Push(Value),
    Insert(usize, Value),
    Remove(usize),
}

pub open spec fn slot_edit_view(e: SlotEdit) -> ArrayEdit {
    match e {
        SlotEdit::Push(v) => ArrayEdit::Push(v@),
        SlotEdit::Insert(i, v) => ArrayEdit::Insert(i as int, v@),
        SlotEdit::Remove(i) => ArrayEdit::Remove(i as int),
    }
}

/// Edits the array held in slot `az` of object `id`, if there is one.
fn edit_slot_array(rt: &mut Runtime, id: ObjectId, az: AzimuthId, edit: SlotEdit)
    requires
        match (slot_array(old(rt)@, id, az), edit) {
            (Some(a), SlotEdit::Insert(i, _)) => i <= a.len(),
            (Some(a), SlotEdit::Remove(i)) => i < a.len(),
            _ => true,
        },
    ensures
        final(rt)@ == st_update_slot_array(old(rt)@, id, az, slot_edit_view(edit)),
{
    let ghost ev = slot_edit_view(edit);
    if id >= rt.objects.len() {
        return;
    }
    let mut o = rt.objects.remove(id);
    match Runtime::find_slot(&o, az) {
        None => {
            rt.objects.insert(id, o);
            assert(rt.objects@ =~= old(rt).objects@);
        },
        Some(i) => {
            let (a0, val) = o.slots.remove(i);
            match val {
                Value::Array(mut items, k) => {
                    let ghost before = items@;
                    proof {
                        lemma_array_view(items, k);
                    }
                    match edit {
                        SlotEdit::Push(v) => items.push(v),
                        SlotEdit::Insert(j, v) => items.insert(j, v),
                        SlotEdit::Remove(j) => {
                            items.remove(j);
                        },
                    }
                    proof {
                        lemma_array_view(items, k);
                    }
                    o.slots.insert(i, (a0, Value::Array(items, k)));
                },
                other => {
                    o.slots.insert(i, (a0, other));
                },
            }
            assert(o.slots@ =~= old(rt).objects@[id as int].slots@.update(i as int, o.slots@[i as int]));
            rt.objects.insert(id, o);
        },
    }
    proof {
        assert(rt.objects@ =~= old(rt).objects@.update(id as int, rt.objects@[id as int]));
        Runtime::lemma_object_update(*old(rt), *rt, id);
        assert(rt@.objects[id as int].slots =~= st_update_slot_array(old(rt)@, id, az, ev).objects[id as int].slots);
        assert(rt@.objects =~= st_update_slot_array(old(rt)@, id, az, ev).objects);
    }
}

fn array_kind_nil() -> (k: ValueKind)
    ensures
        k@ == SKind::Array(Box::new(SKind::Nil)),
{
    assert(kind_view(ValueKind::Nil) == SKind::Nil);
    ValueKind::Array(Box::new(ValueKind::Nil))
}

fn array_kind_dyn() -> (k: ValueKind)
    ensures
        k@ == SKind::Array(Box::new(SKind::Dyn)),
{
    assert(kind_view(ValueKind::Dyn) == SKind::Dyn);
    ValueKind::Array(Box::new(ValueKind::Dyn))
}

fn set_kind_nil() -> (k: ValueKind)
    ensures
        k@ == SKind::SetOf(Box::new(SKind::Nil)),
{
    assert(kind_view(ValueKind::Nil) == SKind::Nil);
    ValueKind::SetOf(Box::new(ValueKind::Nil))
}

fn type_mismatch(span: Span, found: &Value, expected: ValueKind) -> (e: RuntimeError)
    ensures
        e@ == mismatch(span, found@, expected@),
{
    RuntimeError::TypeMismatch { span, found: found.duplicate(), expected }
}

/// `Array::Append`: pushes the second argument onto the array a slot pointer or
/// an array local names.
pub fn array_append(rt: &mut Runtime, input: IntrinsicParameters) -> (r: Result<Value, RuntimeError>)
    requires
        intrinsic_ok(old(rt)@, Intrinsic::ArrayAppend, input),
    ensures
        intrinsic_done(old(rt)@, final(rt)@, Intrinsic::ArrayAppend, input, result_view(r)),
{
    proof {
        reveal(intrinsic_call);
    }
    proof {
        lemma_oracle_of(rt@);
    }
    let ghost args = map_view(input.args@);
    assert(intrinsic_call(oracle_of(rt@), rt@, Intrinsic::ArrayAppend, input.span, args) is Some);
    let r = match &input.args[0] {
        Value::Pointer(obj, az, _) => {
            edit_slot_array(rt, *obj, *az, SlotEdit::Push(input.args[1].duplicate()));
            Ok(Value::Bool(true))
        },
        Value::Local(id, kind) => {
            assert(args[0] == SVal::Local(*id, kind@));
            if kind.is_assignable_from(&array_kind_dyn()) {
                let i = rt.find_local(*id).unwrap();
                let e = rt.locals.remove(i);
                let v = input.args[1].duplicate();
                match e.value {
                    Value::Array(mut items, k) => {
                        proof {
                            lemma_array_view(items, k);
                        }
                        items.push(v);
                        proof {
                            lemma_array_view(items, k);
                        }
                        rt.locals.insert(i, LocalEntry { id: e.id, value: Value::Array(items, k), refs: e.refs });
                    },
                    other => {
                        rt.locals.insert(i, LocalEntry { id: e.id, value: other, refs: e.refs });
                    },
                }
                assert(rt.locals@ =~= old(rt).locals@.update(i as int, rt.locals@[i as int]));
                assert(rt@.locals =~= old(rt)@.locals.update(i as int, rt@.locals[i as int]));
                Ok(Value::Bool(true))
            } else {
                Err(type_mismatch(input.span, &input.args[0], array_kind_nil()))
            }
        },
        other => Err(type_mismatch(input.span, other, array_kind_nil())),
    };
    r
}

/// `Array::Add`: inserts the second argument into the array a slot pointer
/// names, at the position the third argument gives.
pub fn array_insert(rt: &mut Runtime, input: IntrinsicParameters) -> (r: Result<Value, RuntimeError>)
    requires
        intrinsic_ok(old(rt)@, Intrinsic::ArrayInsert, input),
    ensures
        intrinsic_done(old(rt)@, final(rt)@, Intrinsic::ArrayInsert, input, result_view(r)),
{
    proof {
        reveal(intrinsic_call);
    }
    proof {
        lemma_oracle_of(rt@);
    }
    let ghost args = map_view(input.args@);
    assert(intrinsic_call(oracle_of(rt@), rt@, Intrinsic::ArrayInsert, input.span, args) is Some);
    match (&input.args[0], &input.args[2]) {
        (Value::Pointer(obj, az, _), Value::Number(n)) => {
            let idx = (n.int_value() as i32) as usize;
            edit_slot_array(rt, *obj, *az, SlotEdit::Insert(idx, input.args[1].duplicate()));
            Ok(Value::Bool(true))
        },
        (other, _) => Err(type_mismatch(input.span, other, array_kind_nil())),
    }
}

/// `Array::Remove`: removes the element at the position the second argument
/// gives from the array a slot pointer names.
pub fn array_remove(rt: &mut Runtime, input: IntrinsicParameters) -> (r: Result<Value, RuntimeError>)
    requires
        intrinsic_ok(old(rt)@, Intrinsic::ArrayRemove, input),
    ensures
        intrinsic_done(old(rt)@, final(rt)@, Intrinsic::ArrayRemove, input, result_view(r)),
{
    proof {
        reveal(intrinsic_call);
    }
    proof {
        lemma_oracle_of(rt@);
    }
    let ghost args = map_view(input.args@);
    assert(intrinsic_call(oracle_of(rt@), rt@, Intrinsic::ArrayRemove, input.span, args) is Some);
    match (&input.args[0], &input.args[1]) {
        (Value::Pointer(obj, az, _), Value::Number(n)) => {
            let idx = (n.int_value() as i32) as usize;
            edit_slot_array(rt, *obj, *az, SlotEdit::Remove(idx));
            Ok(Value::Bool(true))
        },
        (other, _) => Err(type_mismatch(input.span, other, array_kind_nil())),
    }
}

/// `Sqrt`: not provided for any argument; reports a type mismatch.
pub fn math_sqrt(rt: &mut Runtime, input: IntrinsicParameters) -> (r: Result<Value, RuntimeError>)
    requires
        intrinsic_ok(old(rt)@, Intrinsic::Sqrt, input),
    ensures
        intrinsic_done(old(rt)@, final(rt)@, Intrinsic::Sqrt, input, result_view(r)),
{
    proof {
        reveal(intrinsic_call);
    }
    proof {
        lemma_oracle_of(rt@);
    }
    assert(intrinsic_call(oracle_of(rt@), rt@, Intrinsic::Sqrt, input.span, map_view(input.args@)) is Some);
    Err(type_mismatch(input.span, &input.args[0], ValueKind::Number(NumKind::Any)))
}

/// `Set::ToArray`: the elements of a set as an array.
pub fn set_to_array(rt: &mut Runtime, input: IntrinsicParameters) -> (r: Result<Value, RuntimeError>)
    requires
        intrinsic_ok(old(rt)@, Intrinsic::SetToArray, input),
    ensures
        intrinsic_done(old(rt)@, final(rt)@, Intrinsic::SetToArray, input, result_view(r)),
{
    proof {
        reveal(intrinsic_call);
    }
    proof {
        lemma_oracle_of(rt@);
    }
    assert(intrinsic_call(oracle_of(rt@), rt@, Intrinsic::SetToArray, input.span, map_view(input.args@)) is Some);
    match &input.args[0] {
        Value::SetOf(xs, k) => {
            let items = clone_values(xs);
            let k2 = k.duplicate();
            proof {
                lemma_array_view(items, k2);
                lemma_set_view(*xs, *k);
                assert(map_view(items@) =~= map_view(xs@));
            }
            Ok(Value::Array(items, k2))
        },
        other => Err(type_mismatch(input.span, other, set_kind_nil())),
    }
}

/// `Set::Contains`: whether the set holds a value equal to the second argument.
pub fn set_contains(rt: &mut Runtime, input: IntrinsicParameters) -> (r: Result<Value, RuntimeError>)
    requires
        intrinsic_ok(old(rt)@, Intrinsic::SetContains, input),
    ensures
        intrinsic_done(old(rt)@, final(rt)@, Intrinsic::SetContains, input, result_view(r)),
{
    proof {
        reveal(intrinsic_call);
    }
    proof {
        lemma_oracle_of(rt@);
    }
    let ghost args = map_view(input.args@);
    assert(intrinsic_call(oracle_of(rt@), rt@, Intrinsic::SetContains, input.span, args) is Some);
    let key = &input.args[1];
    match &input.args[0] {
        Value::SetOf(xs, k) => {
            proof {
                lemma_set_view(*xs, *k);
            }
            let mut found = false;
            let mut i: usize = 0;
            while i < xs.len()
                invariant
                    i <= xs@.len(),
                    found == exists|j: int| 0 <= j < i && same_value(xs@[j]@, key@),
                decreases xs@.len() - i,
            {
                if values_equal(&xs[i], key) {
                    found = true;
                }
                i = i + 1;
            }
            let ghost xv = map_view(xs@);
            assert(found == exists|j: int| 0 <= j < xv.len() && same_value(xv[j], args[1])) by {
                if found {
                    let j = choose|j: int| 0 <= j < i && same_value(xs@[j]@, key@);
                    assert(same_value(xv[j], args[1]));
                }
            }
            Ok(Value::Bool(found))
        },
        other => Err(type_mismatch(input.span, other, set_kind_nil())),
    }
}

/// `Dict::Keys`: the keys of a dictionary, as a set.
pub fn dict_keys(rt: &mut Runtime, input: IntrinsicParameters) -> (r: Result<Value, RuntimeError>)
    requires
        intrinsic_ok(old(rt)@, Intrinsic::DictKeys, input),
    ensures
        intrinsic_done(old(rt)@, final(rt)@, Intrinsic::DictKeys, input, result_view(r)),
{
    proof {
        reveal(intrinsic_call);
    }
    proof {
        lemma_oracle_of(rt@);
    }
    assert(intrinsic_call(oracle_of(rt@), rt@, Intrinsic::DictKeys, input.span, map_view(input.args@)) is Some);
    match &input.args[0] {
        Value::Dict(es, kk, vk) => {
            let mut keys: Vec<Value> = Vec::new();
            let mut i: usize = 0;
            while i < es.len()
                invariant
                    i <= es@.len(),
                    keys@.len() == i,
                    forall|j: int| 0 <= j < i ==> (#[trigger] keys@[j])@ == es@[j].0@,
                decreases es@.len() - i,
            {
                keys.push(es[i].0.duplicate());
                i = i + 1;
            }
            let k2 = kk.duplicate();
            proof {
                lemma_dict_view(*es, *kk, *vk);
                lemma_set_view(keys, k2);
                assert(map_view(keys@) =~= Seq::new(map_view(es@).len(), |j: int| map_view(es@)[j].0));
            }
            Ok(Value::SetOf(keys, k2))
        },
        other => Err(type_mismatch(input.span, other, set_kind_nil())),
    }
}

/// `Dict::Values`: the values of a dictionary, as an array.
pub fn dict_values(rt: &mut Runtime, input: IntrinsicParameters) -> (r: Result<Value, RuntimeError>)
    requires
        intrinsic_ok(old(rt)@, Intrinsic::DictValues, input),
    ensures
        intrinsic_done(old(rt)@, final(rt)@, Intrinsic::DictValues, input, result_view(r)),
{
    proof {
        reveal(intrinsic_call);
    }
    proof {
        lemma_oracle_of(rt@);
    }
    assert(intrinsic_call(oracle_of(rt@), rt@, Intrinsic::DictValues, input.span, map_view(input.args@)) is Some);
    match &input.args[0] {
        Value::Dict(es, kk, vk) => {
            let mut vals: Vec<Value> = Vec::new();
            let mut i: usize = 0;
            while i < es.len()
                invariant
                    i <= es@.len(),
                    vals@.len() == i,
                    forall|j: int| 0 <= j < i ==> (#[trigger] vals@[j])@ == es@[j].1@,
                decreases es@.len() - i,
            {
                vals.push(es[i].1.duplicate());
                i = i + 1;
            }
            let k2 = vk.duplicate();
            proof {
                lemma_dict_view(*es, *kk, *vk);
                lemma_array_view(vals, k2);
                assert(map_view(vals@) =~= Seq::new(map_view(es@).len(), |j: int| map_view(es@)[j].1));
            }
            Ok(Value::Array(vals, k2))
        },
        other => Err(type_mismatch(input.span, other, set_kind_nil())),
    }
}

/// `Dict::Get`: the value of the first entry whose key equals the second
/// argument, or `Nil`.
pub fn dict_get(rt: &mut Runtime, input: IntrinsicParameters) -> (r: Result<Value, RuntimeError>)
    requires
        intrinsic_ok(old(rt)@, Intrinsic::DictGet, input),
    ensures
        intrinsic_done(old(rt)@, final(rt)@, Intrinsic::DictGet, input, result_view(r)),
{
    proof {
        reveal(intrinsic_call);
    }
    proof {
        lemma_oracle_of(rt@);
    }
    let ghost args = map_view(input.args@);
    assert(intrinsic_call(oracle_of(rt@), rt@, Intrinsic::DictGet, input.span, args) is Some);
    let key = &input.args[1];
    match &input.args[0] {
        Value::Dict(es, kk, vk) => {
            proof {
                lemma_dict_view(*es, *kk, *vk);
            }
            let ghost ev = map_view(es@);
            let mut i: usize = 0;
            assert(ev.skip(0) =~= ev);
            assert(args[1] == key@);
            assert(args[0] == SVal::Dict(ev, kk@, vk@));
            while i < es.len()
                invariant
                    i <= es@.len(),
                    ev == map_view(es@),
                    args[1] == key@,
                    args[0] == SVal::Dict(ev, kk@, vk@),
                    args == map_view(input.args@),
                    input.args@.len() >= 2,
                    rt@ == old(rt)@,
                    dict_lookup(ev, key@) == dict_lookup(ev.skip(i as int), key@),
                decreases es@.len() - i,
            {
                if values_equal(&es[i].0, key) {
                    assert(ev.skip(i as int)[0] == ev[i as int]);
                    assert(ev[i as int] == (es@[i as int].0@, es@[i as int].1@));
                    assert(dict_lookup(ev.skip(i as int), key@) == ev[i as int].1);
                    proof {
                        reveal(intrinsic_call);
                    }
                    return Ok(es[i].1.duplicate());
                }
                assert(ev.skip(i as int).drop_first() =~= ev.skip(i + 1));
                i = i + 1;
            }
            Ok(Value::Nil)
        },
        other => Err(type_mismatch(input.span, other, set_kind_nil())),
    }
}

/// `Args`: the program's command-line arguments, as an array of strings.
pub fn io_args(rt: &mut Runtime, input: IntrinsicParameters) -> (r: Result<Value, RuntimeError>)
    ensures
        intrinsic_done(old(rt)@, final(rt)@, Intrinsic::Args, input, result_view(r)),
{
    proof {
        reveal(intrinsic_call);
    }
    let mut items: Vec<Value> = Vec::new();
    let mut i: usize = 0;
    while i < rt.args.len()
        invariant
            i <= rt.args@.len(),
            items@.len() == i,
            forall|j: int| 0 <= j < i ==> (#[trigger] items@[j])@ == SVal::Str(rt.args@[j]@),
        decreases rt.args@.len() - i,
    {
        items.push(Value::String(rt.args[i].clone()));
        i = i + 1;
    }
    let k = ValueKind::Array(Box::new(ValueKind::String));
    proof {
        lemma_array_view(items, k);
        assert(kind_view(ValueKind::String) == SKind::String);
        assert(map_view(items@) =~= Seq::new(rt@.args.len(), |j: int| SVal::Str(rt@.args[j])));
    }
    Ok(Value::Array(items, k))
}

/// `ReadLine`: the next line of input with surrounding whitespace trimmed, or
/// the empty string once the input is exhausted.
pub fn io_readline(rt: &mut Runtime, input: IntrinsicParameters) -> (r: Result<Value, RuntimeError>)
    ensures
        intrinsic_done(old(rt)@, final(rt)@, Intrinsic::ReadLine, input, result_view(r)),
{
    proof {
        reveal(intrinsic_call);
    }
    if rt.input_pos < rt.input.len() {
        let line = trim_str(rt.input[rt.input_pos].as_str());
        rt.input_pos = rt.input_pos + 1;
        Ok(Value::String(line))
    } else {
        Ok(Value::String(String::new()))
    }
}

/// `Int`: a random `i32`.
pub fn random_int(rt: &mut Runtime, input: IntrinsicParameters) -> (r: Result<Value, RuntimeError>)
    ensures
        intrinsic_done(old(rt)@, final(rt)@, Intrinsic::RandomInt, input, result_view(r)),
{
    proof {
        reveal(intrinsic_call);
    }
    let x = random_i32();
    rt.random_log = Ghost(rt.random_log@.push(x));
    let r = Ok(Value::Number(Number::Int32(x)));
    assert forall|o: Oracle| agrees(o, rt@) implies #[trigger] intrinsic_call(
        o,
        old(rt)@,
        Intrinsic::RandomInt,
        input.span,
        map_view(input.args@),
    ) == Some((rt@, result_view(r))) by {
        reveal(agrees);
        assert(rt@.random_log[old(rt)@.random_log.len() as int] == x);
    }
    r
}

/// `Range`: a random `i32` between the first and the second argument, both included.
pub fn random_range(rt: &mut Runtime, input: IntrinsicParameters) -> (r: Result<Value, RuntimeError>)
    requires
        intrinsic_ok(old(rt)@, Intrinsic::RandomRange, input),
    ensures
        intrinsic_done(old(rt)@, final(rt)@, Intrinsic::RandomRange, input, result_view(r)),
{
    proof {
        reveal(intrinsic_call);
    }
    proof {
        lemma_oracle_of(rt@);
    }
    assert(intrinsic_call(oracle_of(rt@), rt@, Intrinsic::RandomRange, input.span, map_view(input.args@)) is Some);
    match (&input.args[1], &input.args[0]) {
        (Value::Number(to), Value::Number(from)) => {
            let lo = from.int_value() as i32;
            let hi = to.int_value() as i32;
            let x = random_i32_in(lo, hi);
            rt.random_log = Ghost(rt.random_log@.push(x));
            let r = Ok(Value::Number(Number::Int32(x)));
            assert forall|o: Oracle| agrees(o, rt@) implies #[trigger] intrinsic_call(
                o,
                old(rt)@,
                Intrinsic::RandomRange,
                input.span,
                map_view(input.args@),
            ) == Some((rt@, result_view(r))) by {
                reveal(agrees);
        assert(rt@.random_log[old(rt)@.random_log.len() as int] == x);
            }
            r
        },
        _ => Err(type_mismatch(input.span, &input.args[1], ValueKind::Number(NumKind::Any))),
    }
}

/// `String::Upper`: the string in upper case.
pub fn string_upper(rt: &mut Runtime, input: IntrinsicParameters) -> (r: Result<Value, RuntimeError>)
    requires
        intrinsic_ok(old(rt)@, Intrinsic::StringUpper, input),
    ensures
        intrinsic_done(old(rt)@, final(rt)@, Intrinsic::StringUpper, input, result_view(r)),
{
    proof {
        reveal(intrinsic_call);
    }
    proof {
        lemma_oracle_of(rt@);
    }
    assert(intrinsic_call(oracle_of(rt@), rt@, Intrinsic::StringUpper, input.span, map_view(input.args@)) is Some);
    match &input.args[0] {
        Value::String(x) => Ok(Value::String(to_upper(x.as_str()))),
        other => Err(type_mismatch(input.span, other, ValueKind::String)),
    }
}

/// `String::Lower`: the string in lower case.
pub fn string_lower(rt: &mut Runtime, input: IntrinsicParameters) -> (r: Result<Value, RuntimeError>)
    requires
        intrinsic_ok(old(rt)@, Intrinsic::StringLower, input),
    ensures
        intrinsic_done(old(rt)@, final(rt)@, Intrinsic::StringLower, input, result_view(r)),
{
    proof {
        reveal(intrinsic_call);
    }
    proof {
        lemma_oracle_of(rt@);
    }
    assert(intrinsic_call(oracle_of(rt@), rt@, Intrinsic::StringLower, input.span, map_view(input.args@)) is Some);
    match &input.args[0] {
        Value::String(x) => Ok(Value::String(to_lower(x.as_str()))),
        other => Err(type_mismatch(input.span, other, ValueKind::String)),
    }
}

/// `String::Trim`: the string without surrounding whitespace.
pub fn string_trim(rt: &mut Runtime, input: IntrinsicParameters) -> (r: Result<Value, RuntimeError>)
    requires
        intrinsic_ok(old(rt)@, Intrinsic::StringTrim, input),
    ensures
        intrinsic_done(old(rt)@, final(rt)@, Intrinsic::StringTrim, input, result_view(r)),
{
    proof {
        reveal(intrinsic_call);
    }
    proof {
        lemma_oracle_of(rt@);
    }
    assert(intrinsic_call(oracle_of(rt@), rt@, Intrinsic::StringTrim, input.span, map_view(input.args@)) is Some);
    match &input.args[0] {
        Value::String(x) => Ok(Value::String(trim_str(x.as_str()))),
        other => Err(type_mismatch(input.span, other, ValueKind::String)),
    }
}

/// `Benchmarking::GetTime`: the clock, in milliseconds since the Unix epoch, as
/// a `UInt64`. A clock before the epoch gives the error "SystemTime went
/// backwards", and a count above `u64::MAX` the error "Millis to big: <count>".
pub fn benchmarking_get_time(rt: &mut Runtime, input: IntrinsicParameters) -> (r: Result<Value, RuntimeError>)
    ensures
        intrinsic_done(old(rt)@, final(rt)@, Intrinsic::GetTime, input, result_view(r)),
{
    proof {
        reveal(intrinsic_call);
    }
    let t = clock_since_epoch_millis();
    rt.clock_log = Ghost(rt.clock_log@.push(t));
    let r = match t {
        None => Err(error(input.span, "SystemTime went backwards")),
        Some(ms) => if ms <= u64::MAX as u128 {
            Ok(Value::Number(Number::UInt64(ms as u64)))
        } else {
            Err(number_error(input.span, "Millis to big: ", ms))
        },
    };
    assert forall|o: Oracle| agrees(o, rt@) implies #[trigger] intrinsic_call(
        o,
        old(rt)@,
        Intrinsic::GetTime,
        input.span,
        map_view(input.args@),
    ) == Some((rt@, result_view(r))) by {
        reveal(agrees);
        assert(rt@.clock_log[old(rt)@.clock_log.len() as int] == t);
    }
    r
}

/// `Range::Create`: an inclusive `Int32` range from three numbers.
pub fn range_create_inclusive(rt: &mut Runtime, input: IntrinsicParameters) -> (r: Result<Value, RuntimeError>)
    requires
        intrinsic_ok(old(rt)@, Intrinsic::RangeCreate, input),
    ensures
        intrinsic_done(old(rt)@, final(rt)@, Intrinsic::RangeCreate, input, result_view(r)),
{
    proof {
        reveal(intrinsic_call);
    }
    proof {
        lemma_oracle_of(rt@);
    }
    assert(intrinsic_call(oracle_of(rt@), rt@, Intrinsic::RangeCreate, input.span, map_view(input.args@)) is Some);
    match (&input.args[0], &input.args[1], &input.args[2]) {
        (Value::Number(a), Value::Number(b), Value::Number(c)) => Ok(
            Value::Range(*a, *b, *c, true, NumKind::Int32),
        ),
        _ => Err(type_mismatch(input.span, &input.args[0], ValueKind::Number(NumKind::Any))),
    }
}

/// `Range::CreateExclusive`: an exclusive `Int32` range from three numbers.
pub fn range_create_exclusive(rt: &mut Runtime, input: IntrinsicParameters) -> (r: Result<Value, RuntimeError>)
    requires
        intrinsic_ok(old(rt)@, Intrinsic::RangeCreateExclusive, input),
    ensures
        intrinsic_done(old(rt)@, final(rt)@, Intrinsic::RangeCreateExclusive, input, result_view(r)),
{
    proof {
        reveal(intrinsic_call);
    }
    proof {
        lemma_oracle_of(rt@);
    }
    assert(intrinsic_call(oracle_of(rt@), rt@, Intrinsic::RangeCreateExclusive, input.span, map_view(input.args@)) is Some);
    match (&input.args[0], &input.args[1], &input.args[2]) {
        (Value::Number(a), Value::Number(b), Value::Number(c)) => Ok(
            Value::Range(*a, *b, *c, false, NumKind::Int32),
        ),
        _ => Err(type_mismatch(input.span, &input.args[0], ValueKind::Number(NumKind::Any))),
    }
}

/// The operations `Array::Get`, `Set::Add`, `Set::Remove`, `Dict::Set` and
/// `Dict::Remove`, which are not provided: an error.
pub fn todo(rt: &mut Runtime, input: IntrinsicParameters) -> (r: Result<Value, RuntimeError>)
    ensures
        intrinsic_done(old(rt)@, final(rt)@, Intrinsic::Todo, input, result_view(r)),
{
    proof {
        reveal(intrinsic_call);
    }
    Err(error(input.span, "TODO"))
}

proof fn lemma_step_bound(k: int, d: int, step: int)
    requires
        0 <= k < d / step + 1,
        step > 0,
        d >= 0,
    ensures
        0 <= k * step <= d,
{
    assert(k <= d / step);
    assert(k * step <= (d / step) * step) by (nonlinear_arith)
        requires
            k <= d / step,
            step > 0,
            k >= 0,
    ;
    assert((d / step) * step <= d) by (nonlinear_arith)
        requires
            step > 0,
            d >= 0,
    ;
    assert(0 <= k * step) by (nonlinear_arith)
        requires
            k >= 0,
            step > 0,
    ;
}

/// `Range::ToArray`: the numbers of a range, as an array of `Int32`.
pub fn range_to_array(rt: &mut Runtime, input: IntrinsicParameters) -> (r: Result<Value, RuntimeError>)
    requires
        intrinsic_ok(old(rt)@, Intrinsic::RangeToArray, input),
    ensures
        intrinsic_done(old(rt)@, final(rt)@, Intrinsic::RangeToArray, input, result_view(r)),
{
    proof {
        reveal(intrinsic_call);
    }
    proof {
        lemma_oracle_of(rt@);
    }
    assert(intrinsic_call(oracle_of(rt@), rt@, Intrinsic::RangeToArray, input.span, map_view(input.args@)) is Some);
    match &input.args[0] {
        Value::Range(from, to, by, inclusive, _) => {
            let f = from.int_value() as i32;
            let t = to.int_value() as i32;
            let b = by.int_value() as i32;
            let incl = *inclusive;
            let ghost xs = range_array(f, t, b, incl).unwrap();
            let ascending = f <= t;
            let step: i128 = if ascending {
                (b as usize) as i128
            } else {
                ((-b) as usize) as i128
            };
            let d: i128 = if ascending {
                if incl {
                    t as i128 - f as i128
                } else {
                    t as i128 - f as i128 - 1
                }
            } else if incl {
                f as i128 - t as i128
            } else {
                f as i128 - 1 - t as i128
            };
            let n: i128 = if ascending && !incl && f >= t {
                0
            } else {
                d / step + 1
            };
            assert(n == xs.len());
            let start: i128 = if ascending || incl {
                f as i128
            } else {
                f as i128 - 1
            };
            let mut values: Vec<Value> = Vec::new();
            let mut k: i128 = 0;
            while k < n
                invariant
                    0 <= k <= n,
                    n == xs.len(),
                    xs == range_array(f, t, b, incl).unwrap(),
                    range_array(f, t, b, incl) is Some,
                    step > 0,
                    n > 0 ==> d >= 0 && n == d / step + 1,
                    ascending == (f <= t),
                    ascending ==> start == f && step == (b as usize) as int,
                    !ascending ==> b != i32::MIN && step == ((-b) as usize) as int && start == (
                        if incl {
                            f as int
                        } else {
                            f - 1
                        }),
                    ascending ==> d == (if incl { t - f } else { t - f - 1 }),
                    !ascending ==> d == (if incl { f - t } else { f - 1 - t }),
                    values@.len() == k,
                    forall|j: int| 0 <= j < k ==> (#[trigger] values@[j])@ == SVal::Number(Number::Int32(xs[j] as i32)),
                decreases n - k,
            {
                proof {
                    lemma_step_bound(k as int, d as int, step as int);
                }
                let x: i128 = if ascending {
                    start + k * step
                } else {
                    start - k * step
                };
                assert(x == xs[k as int]);
                values.push(Value::Number(Number::Int32(x as i32)));
                k = k + 1;
            }
            let kind = ValueKind::Number(NumKind::Int32);
            proof {
                lemma_array_view(values, kind);
                assert(map_view(values@) =~= Seq::new(xs.len(), |i: int| SVal::Number(Number::Int32(xs[i] as i32))));
            }
            Ok(Value::Array(values, kind))
        },
        other => Err(type_mismatch(input.span, other, ValueKind::Range(NumKind::Any))),
    }
}

fn push_lines(rt: &mut Runtime, lines: Vec<String>)
    ensures
        final(rt)@ == (RtState { output: old(rt)@.output + map_view(lines@), ..old(rt)@ }),
{
    let mut i: usize = 0;
    while i < lines.len()
        invariant
            i <= lines@.len(),
            rt@ == (RtState { output: old(rt)@.output + map_view(lines@.take(i as int)), ..old(rt)@ }),
        decreases lines@.len() - i,
    {
        rt.print(lines[i].clone());
        assert(map_view(lines@.take(i + 1)) =~= map_view(lines@.take(i as int)).push(lines@[i as int]@));
        assert(old(rt)@.output + map_view(lines@.take(i + 1)) =~= (old(rt)@.output + map_view(lines@.take(i as int))).push(lines@[i as int]@));
        i = i + 1;
    }
    assert(lines@.take(lines@.len() as int) =~= lines@);
}

/// `PrintLocals`: prints one line per local variable.
pub fn runtime_print_locals(rt: &mut Runtime, input: IntrinsicParameters) -> (r: Result<Value, RuntimeError>)
    ensures
        intrinsic_done(old(rt)@, final(rt)@, Intrinsic::PrintLocals, input, result_view(r)),
{
    proof {
        reveal(intrinsic_call);
    }
    let mut lines: Vec<String> = Vec::new();
    let mut i: usize = 0;
    while i < rt.locals.len()
        invariant
            i <= rt.locals@.len(),
            lines@.len() == i,
            forall|j: int| 0 <= j < i ==> (#[trigger] lines@[j])@ == locals_lines(rt@.locals)[j],
        decreases rt.locals@.len() - i,
    {
        let mut line = String::new();
        push_decimal(&mut line, rt.locals[i].id as u128);
        line.append(" = ");
        push_render(&mut line, &rt.locals[i].value);
        assert(line@ =~= locals_lines(rt@.locals)[i as int]);
        lines.push(line);
        i = i + 1;
    }
    assert(map_view(lines@) =~= locals_lines(rt@.locals));
    push_lines(rt, lines);
    Ok(Value::Nil)
}

/// `PrintObjects`: prints one line per object.
pub fn runtime_print_objects(rt: &mut Runtime, input: IntrinsicParameters) -> (r: Result<Value, RuntimeError>)
    ensures
        intrinsic_done(old(rt)@, final(rt)@, Intrinsic::PrintObjects, input, result_view(r)),
{
    proof {
        reveal(intrinsic_call);
    }
    let mut lines: Vec<String> = Vec::new();
    let mut i: usize = 0;
    while i < rt.objects.len()
        invariant
            i <= rt.objects@.len(),
            lines@.len() == i,
            forall|j: int| 0 <= j < i ==> (#[trigger] lines@[j])@ == objects_lines(rt@.objects)[j],
        decreases rt.objects@.len() - i,
    {
        let line = object_line(&rt.objects[i]);
        lines.push(line);
        i = i + 1;
    }
    assert(map_view(lines@) =~= objects_lines(rt@.objects));
    push_lines(rt, lines);
    Ok(Value::Nil)
}

/// `PrintStack`: prints one line per frame of the call stack.
pub fn runtime_print_stack(rt: &mut Runtime, input: IntrinsicParameters) -> (r: Result<Value, RuntimeError>)
    ensures
        intrinsic_done(old(rt)@, final(rt)@, Intrinsic::PrintStack, input, result_view(r)),
{
    proof {
        reveal(intrinsic_call);
    }
    let mut lines: Vec<String> = Vec::new();
    let mut i: usize = 0;
    while i < rt.call_stack.len()
        invariant
            i <= rt.call_stack@.len(),
            lines@.len() == i,
            forall|j: int| 0 <= j < i ==> (#[trigger] lines@[j])@ == stack_lines(rt@)[j],
        decreases rt.call_stack@.len() - i,
    {
        let mut line = String::new();
        line.append("at ");
        push_decimal(&mut line, rt.call_stack[i].id as u128);
        assert(line@ =~= stack_lines(rt@)[i as int]);
        lines.push(line);
        i = i + 1;
    }
    assert(map_view(lines@) =~= stack_lines(rt@));
    push_lines(rt, lines);
    Ok(Value::Nil)
}

/// The intrinsic a name stands for, if any.
pub open spec fn intrinsic_named(name: Seq<char>) -> Option<Intrinsic> {
    if name == "Array::Append"@ {
        Some(Intrinsic::ArrayAppend)
    } else if name == "Array::Add"@ {
        Some(Intrinsic::ArrayInsert)
    } else if name == "Array::Remove"@ {
        Some(Intrinsic::ArrayRemove)
    } else if name == "Array::Get"@ {
        Some(Intrinsic::Todo)
    } else if name == "Set::ToArray"@ {
        Some(Intrinsic::SetToArray)
    } else if name == "Set::Add"@ {
        Some(Intrinsic::Todo)
    } else if name == "Set::Remove"@ {
        Some(Intrinsic::Todo)
    } else if name == "Set::Contains"@ {
        Some(Intrinsic::SetContains)
    } else if name == "Dict::Keys"@ {
        Some(Intrinsic::DictKeys)
    } else if name == "Dict::Values"@ {
        Some(Intrinsic::DictValues)
    } else if name == "Dict::Set"@ {
        Some(Intrinsic::Todo)
    } else if name == "Dict::Remove"@ {
        Some(Intrinsic::Todo)
    } else if name == "Dict::Get"@ {
        Some(Intrinsic::DictGet)
    } else if name == "Sqrt"@ {
        Some(Intrinsic::Sqrt)
    } else if name == "Args"@ {
        Some(Intrinsic::Args)
    } else if name == "ReadLine"@ {
        Some(Intrinsic::ReadLine)
    } else if name == "Int"@ {
        Some(Intrinsic::RandomInt)
    } else if name == "Range"@ {
        Some(Intrinsic::RandomRange)
    } else if name == "String::Upper"@ {
        Some(Intrinsic::StringUpper)
    } else if name == "String::Lower"@ {
        Some(Intrinsic::StringLower)
    } else if name == "String::Trim"@ {
        Some(Intrinsic::StringTrim)
    } else if name == "Benchmarking::GetTime"@ {
        Some(Intrinsic::GetTime)
    } else if name == "Range::ToArray"@ {
        Some(Intrinsic::RangeToArray)
    } else if name == "Range::Create"@ {
        Some(Intrinsic::RangeCreate)
    } else if name == "Range::CreateExclusive"@ {
        Some(Intrinsic::RangeCreateExclusive)
    } else if name == "PrintObjects"@ {
        Some(Intrinsic::PrintObjects)
    } else if name == "PrintStack"@ {
        Some(Intrinsic::PrintStack)
    } else if name == "PrintLocals"@ {
        Some(Intrinsic::PrintLocals)
    } else {
        None
    }
}

/// Finds the intrinsic named `name`; an unknown name is an error.
pub fn lookup(span: Span, name: String) -> (r: Result<Intrinsic, ParseError>)
    ensures
        match r {
            Ok(op) => intrinsic_named(name@) == Some(op),
            Err(ParseError::Error { span: s, message }) => intrinsic_named(name@) is None && s == span
                && message@ == "No intrinsic operation defined for "@ + name@,
        },
{
    if name == String::from_str("Array::Append") {
        return Ok(Intrinsic::ArrayAppend);
    }
    if name == String::from_str("Array::Add") {
        return Ok(Intrinsic::ArrayInsert);
    }
    if name == String::from_str("Array::Remove") {
        return Ok(Intrinsic::ArrayRemove);
    }
    if name == String::from_str("Array::Get") {
        return Ok(Intrinsic::Todo);
    }
    if name == String::from_str("Set::ToArray") {
        return Ok(Intrinsic::SetToArray);
    }
    if name == String::from_str("Set::Add") {
        return Ok(Intrinsic::Todo);
    }
    if name == String::from_str("Set::Remove") {
        return Ok(Intrinsic::Todo);
    }
    if name == String::from_str("Set::Contains") {
        return Ok(Intrinsic::SetContains);
    }
    if name == String::from_str("Dict::Keys") {
        return Ok(Intrinsic::DictKeys);
    }
    if name == String::from_str("Dict::Values") {
        return Ok(Intrinsic::DictValues);
    }
    if name == String::from_str("Dict::Set") {
        return Ok(Intrinsic::Todo);
    }
    if name == String::from_str("Dict::Remove") {
        return Ok(Intrinsic::Todo);
    }
    if name == String::from_str("Dict::Get") {
        return Ok(Intrinsic::DictGet);
    }
    if name == String::from_str("Sqrt") {
        return Ok(Intrinsic::Sqrt);
    }
    if name == String::from_str("Args") {
        return Ok(Intrinsic::Args);
    }
    if name == String::from_str("ReadLine") {
        return Ok(Intrinsic::ReadLine);
    }
    if name == String::from_str("Int") {
        return Ok(Intrinsic::RandomInt);
    }
    if name == String::from_str("Range") {
        return Ok(Intrinsic::RandomRange);
    }
    if name == String::from_str("String::Upper") {
        return Ok(Intrinsic::StringUpper);
    }
    if name == String::from_str("String::Lower") {
        return Ok(Intrinsic::StringLower);
    }
    if name == String::from_str("String::Trim") {
        return Ok(Intrinsic::StringTrim);
    }
    if name == String::from_str("Benchmarking::GetTime") {
        return Ok(Intrinsic::GetTime);
    }
    if name == String::from_str("Range::ToArray") {
        return Ok(Intrinsic::RangeToArray);
    }
    if name == String::from_str("Range::Create") {
        return Ok(Intrinsic::RangeCreate);
    }
    if name == String::from_str("Range::CreateExclusive") {
        return Ok(Intrinsic::RangeCreateExclusive);
    }
    if name == String::from_str("PrintObjects") {
        return Ok(Intrinsic::PrintObjects);
    }
    if name == String::from_str("PrintStack") {
        return Ok(Intrinsic::PrintStack);
    }
    if name == String::from_str("PrintLocals") {
        return Ok(Intrinsic::PrintLocals);
    }
    let mut message = String::from_str("No intrinsic operation defined for ");
    message.append(name.as_str());
    Err(ParseError::Error { span, message })
}

/// An intrinsic leaves the call stack, and the count of caught errors, as
/// they were.
proof fn lemma_intrinsic_keeps_stack(o: Oracle, st: RtState, op: Intrinsic, span: Span, args: Seq<SVal>)
    ensures
        intrinsic_call(o, st, op, span, args) matches Some((s1, _)) ==> s1.call_stack == st.call_stack
            && s1.caught == st.caught,
{
    reveal(intrinsic_call);
}

/// Runs intrinsic `op`.
pub fn call_intrinsic(rt: &mut Runtime, op: Intrinsic, input: IntrinsicParameters) -> (r: Result<Value, RuntimeError>)
    requires
        intrinsic_ok(old(rt)@, op, input),
    ensures
        intrinsic_done(old(rt)@, final(rt)@, op, input, result_view(r)),
        final(rt)@.call_stack == old(rt)@.call_stack,
        final(rt)@.caught == old(rt)@.caught,
{
    let ghost st = rt@;
    let ghost span = input.span;
    let ghost args = map_view(input.args@);
    let r = match op {
        Intrinsic::ArrayAppend => array_append(rt, input),
        Intrinsic::ArrayInsert => array_insert(rt, input),
        Intrinsic::ArrayRemove => array_remove(rt, input),
        Intrinsic::SetToArray => set_to_array(rt, input),
        Intrinsic::SetContains => set_contains(rt, input),
        Intrinsic::DictKeys => dict_keys(rt, input),
        Intrinsic::DictValues => dict_values(rt, input),
        Intrinsic::DictGet => dict_get(rt, input),
        Intrinsic::Sqrt => math_sqrt(rt, input),
        Intrinsic::Args => io_args(rt, input),
        Intrinsic::ReadLine => io_readline(rt, input),
        Intrinsic::RandomInt => random_int(rt, input),
        Intrinsic::RandomRange => random_range(rt, input),
        Intrinsic::StringUpper => string_upper(rt, input),
        Intrinsic::StringLower => string_lower(rt, input),
        Intrinsic::StringTrim => string_trim(rt, input),
        Intrinsic::GetTime => benchmarking_get_time(rt, input),
        Intrinsic::RangeToArray => range_to_array(rt, input),
        Intrinsic::RangeCreate => range_create_inclusive(rt, input),
        Intrinsic::RangeCreateExclusive => range_create_exclusive(rt, input),
        Intrinsic::PrintObjects => runtime_print_objects(rt, input),
        Intrinsic::PrintStack => runtime_print_stack(rt, input),
        Intrinsic::PrintLocals => runtime_print_locals(rt, input),
        Intrinsic::Todo => todo(rt, input),
    };
    proof {
        lemma_oracle_of(rt@);
        lemma_intrinsic_keeps_stack(oracle_of(rt@), st, op, span, args);
    }
    r
}

} // verus!

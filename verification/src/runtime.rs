//! The runtime: local variables with reference counts, objects with shapes and
//! slots, the shape table, the call stack, the printed output and the host
//! inputs. Each operation is stated as a function on [`RtState`].
use vstd::prelude::*;
use crate::executor::ShapeInstance;
use crate::model::{
    AzimuthId, LocalId, ObjectId, SKind, SVal, ShapeId, Span, Value, ValueKind, kind_view,
};
use crate::model::{map_view, group_map_view};
use crate::value::{kinds_equal, render, dec_nat, push_decimal, push_render};

verus! {

broadcast use vstd::std_specs::vec::group_vec_axioms, group_map_view;

/// A local variable: its value and how many scopes hold it.
#[derive(Debug)]
pub struct LocalEntry {
    pub id: LocalId,
    pub value: Value,
    pub refs: usize,
}

/// An object: its name, the shapes attached to it, its slots, whether it is
/// sealed, and how many references were taken to it.
#[derive(Debug)]
pub struct Object {
    pub name: String,
    pub shapes: Vec<ShapeId>,
    pub slots: Vec<(AzimuthId, Value)>,
    pub sealed: bool,
    pub refs: usize,
}

/// The static singleton of a shape.
#[derive(Clone, Copy, Debug)]
pub struct StaticInfo {
    pub id: ObjectId,
}

/// A shape declared by the program.
#[derive(Debug)]
pub struct ShapeInfo {
    pub name: String,
    pub parents: Vec<ShapeInstance>,
    pub static_id: Option<StaticInfo>,
}

/// A frame of the call stack.
#[derive(Debug)]
pub struct CallStackFunction {
    pub id: usize,
    pub span: Span,
    pub arguments: Vec<Value>,
}

/// The state of a running program.
pub struct Runtime {
    pub locals: Vec<LocalEntry>,
    pub objects: Vec<Object>,
    pub shapes: Vec<ShapeInfo>,
    /// The static object that holds the methods of values of a kind.
    pub intrinsic_statics: Vec<(ValueKind, ObjectId)>,
    pub call_stack: Vec<CallStackFunction>,
    /// The lines printed so far.
    pub output: Vec<String>,
    /// The program's command-line arguments.
    pub args: Vec<String>,
    /// The lines of standard input, and how many were read.
    pub input: Vec<String>,
    pub input_pos: usize,
    /// The clock readings taken so far.
    pub clock_log: Ghost<Seq<Option<u128>>>,
    /// The random numbers drawn so far.
    pub random_log: Ghost<Seq<i32>>,
    /// How many errors a `try` has caught so far.
    pub caught: Ghost<nat>,
}

pub struct SLocal {
    pub id: LocalId,
    pub value: SVal,
    pub refs: nat,
}

pub struct SObject {
    pub name: Seq<char>,
    pub shapes: Seq<ShapeId>,
    pub slots: Seq<(AzimuthId, SVal)>,
    pub sealed: bool,
    pub refs: nat,
}

pub struct SShapeInfo {
    pub name: Seq<char>,
    /// The parents, each as the kind `Shape(..)` it stands for.
    pub parents: Seq<SKind>,
    pub static_id: Option<ObjectId>,
}

pub struct SFrame {
    pub id: usize,
    pub span: Span,
    pub arguments: Seq<SVal>,
}

/// The mathematical form of a [`Runtime`].
pub struct RtState {
    pub locals: Seq<SLocal>,
    pub objects: Seq<SObject>,
    pub shapes: Seq<SShapeInfo>,
    pub statics: Seq<(SKind, ObjectId)>,
    pub call_stack: Seq<SFrame>,
    pub output: Seq<Seq<char>>,
    pub args: Seq<Seq<char>>,
    pub input: Seq<Seq<char>>,
    pub input_pos: nat,
    pub clock_log: Seq<Option<u128>>,
    pub random_log: Seq<i32>,
    pub caught: nat,
}

impl View for LocalEntry {
    type V = SLocal;

    open spec fn view(&self) -> SLocal {
        SLocal { id: self.id, value: self.value@, refs: self.refs as nat }
    }
}


impl View for Object {
    type V = SObject;

    open spec fn view(&self) -> SObject {
        SObject {
            name: self.name@,
            shapes: self.shapes@,
            slots: map_view(self.slots@),
            sealed: self.sealed,
            refs: self.refs as nat,
        }
    }
}

impl View for ShapeInfo {
    type V = SShapeInfo;

    open spec fn view(&self) -> SShapeInfo {
        SShapeInfo {
            name: self.name@,
            parents: Seq::new(
                self.parents@.len(),
                |i: int| kind_view(ValueKind::Shape(self.parents@[i])),
            ),
            static_id: match self.static_id {
                Some(s) => Some(s.id),
                None => None,
            },
        }
    }
}

impl View for CallStackFunction {
    type V = SFrame;

    open spec fn view(&self) -> SFrame {
        SFrame {
            id: self.id,
            span: self.span,
            arguments: Seq::new(self.arguments@.len(), |i: int| self.arguments@[i]@),
        }
    }
}


impl View for Runtime {
    type V = RtState;

    open spec fn view(&self) -> RtState {
        RtState {
            locals: map_view(self.locals@),
            objects: map_view(self.objects@),
            shapes: map_view(self.shapes@),
            statics: map_view(self.intrinsic_statics@),
            call_stack: map_view(self.call_stack@),
            output: map_view(self.output@),
            args: map_view(self.args@),
            input: map_view(self.input@),
            input_pos: self.input_pos as nat,
            clock_log: self.clock_log@,
            random_log: self.random_log@,
            caught: self.caught@,
        }
    }
}

// ---------------------------------------------------------------------------
// Lookups
// ---------------------------------------------------------------------------
/// The position of the last local with id `id`, or -1.
pub open spec fn local_index(ls: Seq<SLocal>, id: LocalId) -> int
    decreases ls.len(),
{
    if ls.len() == 0 {
        -1
    } else if ls.last().id == id {
        ls.len() - 1
    } else {
        local_index(ls.drop_last(), id)
    }
}

/// The position of the last slot for azimuth `az`, or -1.
pub open spec fn slot_index(ss: Seq<(AzimuthId, SVal)>, az: AzimuthId) -> int
    decreases ss.len(),
{
    if ss.len() == 0 {
        -1
    } else if ss.last().0 == az {
        ss.len() - 1
    } else {
        slot_index(ss.drop_last(), az)
    }
}

/// The position of the first entry equal to `x`, or -1.
pub open spec fn index_of(s: Seq<usize>, x: usize) -> int
    decreases s.len(),
{
    if s.len() == 0 {
        -1
    } else if s[0] == x {
        0
    } else {
        let r = index_of(s.drop_first(), x);
        if r < 0 {
            -1
        } else {
            r + 1
        }
    }
}

/// The position of the first static registered for kind `k`, or -1.
pub open spec fn static_index(s: Seq<(SKind, ObjectId)>, k: SKind) -> int
    decreases s.len(),
{
    if s.len() == 0 {
        -1
    } else if s[0].0 == k {
        0
    } else {
        let r = static_index(s.drop_first(), k);
        if r < 0 {
            -1
        } else {
            r + 1
        }
    }
}

proof fn lemma_local_index(ls: Seq<SLocal>, id: LocalId)
    ensures
        -1 <= local_index(ls, id) < ls.len(),
        local_index(ls, id) >= 0 ==> ls[local_index(ls, id)].id == id,
        local_index(ls, id) < 0 ==> forall|j: int| 0 <= j < ls.len() ==> ls[j].id != id,
        local_index(ls, id) >= 0 ==> forall|j: int|
            local_index(ls, id) < j < ls.len() ==> ls[j].id != id,
    decreases ls.len(),
{
    if ls.len() > 0 {
        lemma_local_index(ls.drop_last(), id);
        assert(forall|j: int| 0 <= j < ls.len() - 1 ==> ls.drop_last()[j] == ls[j]);
    }
}

proof fn lemma_slot_index(ss: Seq<(AzimuthId, SVal)>, az: AzimuthId)
    ensures
        -1 <= slot_index(ss, az) < ss.len(),
        slot_index(ss, az) >= 0 ==> ss[slot_index(ss, az)].0 == az,
        slot_index(ss, az) < 0 ==> forall|j: int| 0 <= j < ss.len() ==> ss[j].0 != az,
        slot_index(ss, az) >= 0 ==> forall|j: int|
            slot_index(ss, az) < j < ss.len() ==> ss[j].0 != az,
    decreases ss.len(),
{
    if ss.len() > 0 {
        lemma_slot_index(ss.drop_last(), az);
        assert(forall|j: int| 0 <= j < ss.len() - 1 ==> ss.drop_last()[j] == ss[j]);
    }
}

proof fn lemma_index_of(s: Seq<usize>, x: usize)
    ensures
        -1 <= index_of(s, x) < s.len(),
        index_of(s, x) >= 0 ==> s[index_of(s, x)] == x,
        index_of(s, x) < 0 ==> forall|j: int| 0 <= j < s.len() ==> s[j] != x,
        index_of(s, x) >= 0 ==> forall|j: int| 0 <= j < index_of(s, x) ==> s[j] != x,
    decreases s.len(),
{
    if s.len() > 0 {
        lemma_index_of(s.drop_first(), x);
        assert(forall|j: int| 1 <= j < s.len() ==> s.drop_first()[j - 1] == s[j]);
        if s[0] != x {
            assert forall|j: int| 0 <= j < s.len() && (index_of(s, x) < 0 || j < index_of(s, x)) implies s[j] != x by {
                if j > 0 {
                    assert(s.drop_first()[j - 1] == s[j]);
                }
            }
        }
    }
}

proof fn lemma_static_index(s: Seq<(SKind, ObjectId)>, k: SKind)
    ensures
        -1 <= static_index(s, k) < s.len(),
        static_index(s, k) >= 0 ==> s[static_index(s, k)].0 == k,
        static_index(s, k) < 0 ==> forall|j: int| 0 <= j < s.len() ==> s[j].0 != k,
        static_index(s, k) >= 0 ==> forall|j: int| 0 <= j < static_index(s, k) ==> s[j].0 != k,
    decreases s.len(),
{
    if s.len() > 0 {
        lemma_static_index(s.drop_first(), k);
        assert(forall|j: int| 1 <= j < s.len() ==> s.drop_first()[j - 1] == s[j]);
        if s[0].0 != k {
            assert forall|j: int| 0 <= j < s.len() && (static_index(s, k) < 0 || j < static_index(s, k)) implies s[j].0 != k by {
                if j > 0 {
                    assert(s.drop_first()[j - 1] == s[j]);
                }
            }
        }
    }
}

/// The value of local `id`, if it exists.
pub open spec fn local_value(st: RtState, id: LocalId) -> Option<SVal> {
    let i = local_index(st.locals, id);
    if i >= 0 {
        Some(st.locals[i].value)
    } else {
        None
    }
}

/// The value of slot `az` of object `id`, if both exist.
pub open spec fn slot_value(st: RtState, id: ObjectId, az: AzimuthId) -> Option<SVal> {
    if id < st.objects.len() {
        let i = slot_index(st.objects[id as int].slots, az);
        if i >= 0 {
            Some(st.objects[id as int].slots[i].1)
        } else {
            None
        }
    } else {
        None
    }
}

/// The static object registered for kind `k`, if any.
pub open spec fn static_object(st: RtState, k: SKind) -> Option<ObjectId> {
    let i = static_index(st.statics, k);
    if i >= 0 {
        Some(st.statics[i].1)
    } else {
        None
    }
}

/// Whether object `id` exists and has shape `shape` attached.
pub open spec fn has_shape(st: RtState, id: ObjectId, shape: ShapeId) -> bool {
    id < st.objects.len() && st.objects[id as int].shapes.contains(shape)
}

// ---------------------------------------------------------------------------
// Updates
// ---------------------------------------------------------------------------
/// A reference count one higher, staying at the largest count a `usize` holds.
pub open spec fn inc_refs(r: nat) -> nat {
    if r < usize::MAX {
        r + 1
    } else {
        r
    }
}

/// Binds local `id` to `v`: an existing local keeps its count, a new one starts at one.
pub open spec fn st_reserve_local(st: RtState, id: LocalId, v: SVal) -> RtState {
    let i = local_index(st.locals, id);
    if i >= 0 {
        RtState {
            locals: st.locals.update(i, SLocal { id, value: v, refs: st.locals[i].refs }),
            ..st
        }
    } else {
        RtState { locals: st.locals.push(SLocal { id, value: v, refs: 1 }), ..st }
    }
}

/// Takes one more reference to local `id`, if it exists.
pub open spec fn st_ref_local(st: RtState, id: LocalId) -> RtState {
    let i = local_index(st.locals, id);
    if i >= 0 {
        RtState {
            locals: st.locals.update(
                i,
                SLocal { refs: inc_refs(st.locals[i].refs), ..st.locals[i] },
            ),
            ..st
        }
    } else {
        st
    }
}

/// Drops one reference to local `id`; the last reference removes it.
pub open spec fn st_deref_local(st: RtState, id: LocalId) -> RtState {
    let i = local_index(st.locals, id);
    if i >= 0 {
        if st.locals[i].refs <= 1 {
            RtState { locals: st.locals.remove(i), ..st }
        } else {
            RtState {
                locals: st.locals.update(
                    i,
                    SLocal { refs: (st.locals[i].refs - 1) as nat, ..st.locals[i] },
                ),
                ..st
            }
        }
    } else {
        st
    }
}

/// Drops one reference to each local of `ids`, in order.
pub open spec fn st_deref_locals(st: RtState, ids: Seq<LocalId>) -> RtState
    decreases ids.len(),
{
    if ids.len() == 0 {
        st
    } else {
        st_deref_locals(st_deref_local(st, ids[0]), ids.drop_first())
    }
}

/// The slots `ss` with slot `az` set to `v`.
pub open spec fn set_slot(ss: Seq<(AzimuthId, SVal)>, az: AzimuthId, v: SVal) -> Seq<(AzimuthId, SVal)> {
    let i = slot_index(ss, az);
    if i >= 0 {
        ss.update(i, (az, v))
    } else {
        ss.push((az, v))
    }
}

/// The state with object `id` replaced by `o`.
pub open spec fn st_set_object(st: RtState, id: ObjectId, o: SObject) -> RtState {
    RtState { objects: st.objects.update(id as int, o), ..st }
}

/// A new object named `name`, with no shapes, no slots, unsealed and unreferenced.
pub open spec fn st_create_object(st: RtState, name: Seq<char>) -> RtState {
    RtState {
        objects: st.objects.push(
            SObject { name, shapes: seq![], slots: seq![], sealed: false, refs: 0 },
        ),
        ..st
    }
}

/// The name given to the object created next.
pub open spec fn next_object_name(st: RtState) -> Seq<char> {
    "Obj"@ + dec_nat(st.objects.len())
}

/// Sets slot `az` of object `id` to `v`; the object must exist.
pub open spec fn st_set_slot(st: RtState, id: ObjectId, az: AzimuthId, v: SVal) -> RtState {
    st_set_object(
        st,
        id,
        SObject { slots: set_slot(st.objects[id as int].slots, az, v), ..st.objects[id as int] },
    )
}

/// Takes one more reference to object `id`, if it exists.
pub open spec fn st_ref_obj(st: RtState, id: ObjectId) -> RtState {
    if id < st.objects.len() {
        st_set_object(
            st,
            id,
            SObject { refs: inc_refs(st.objects[id as int].refs), ..st.objects[id as int] },
        )
    } else {
        st
    }
}

/// Seals object `id`, if it exists.
pub open spec fn st_seal(st: RtState, id: ObjectId) -> RtState {
    if id < st.objects.len() {
        st_set_object(st, id, SObject { sealed: true, ..st.objects[id as int] })
    } else {
        st
    }
}

/// Appends a line to the output.
pub open spec fn st_print(st: RtState, line: Seq<char>) -> RtState {
    RtState { output: st.output.push(line), ..st }
}

/// Pushes a frame on the call stack.
pub open spec fn st_push_frame(st: RtState, f: SFrame) -> RtState {
    RtState { call_stack: st.call_stack.push(f), ..st }
}

/// Pops the top frame of the call stack, if any.
pub open spec fn st_pop_frame(st: RtState) -> RtState {
    if st.call_stack.len() > 0 {
        RtState { call_stack: st.call_stack.drop_last(), ..st }
    } else {
        st
    }
}

/// The line an object prints as: its name and its slots.
pub open spec fn render_object(o: SObject) -> Seq<char> {
    o.name + " {"@ + render_slots(o.slots) + "}"@
}

/// The slots `az: value` joined by `, `.
pub open spec fn render_slots(ss: Seq<(AzimuthId, SVal)>) -> Seq<char>
    decreases ss.len(),
{
    if ss.len() == 0 {
        seq![]
    } else if ss.len() == 1 {
        dec_nat(ss[0].0 as nat) + ": "@ + render(ss[0].1)
    } else {
        render_slots(ss.drop_last()) + ", "@ + dec_nat(ss.last().0 as nat) + ": "@ + render(
            ss.last().1,
        )
    }
}

/// Prints object `id`, if it exists.
pub open spec fn st_print_object(st: RtState, id: ObjectId) -> RtState {
    if id < st.objects.len() {
        st_print(st, render_object(st.objects[id as int]))
    } else {
        st
    }
}

/// The result of an operation of the runtime that may fail.
pub enum SOpResult {
    Done(RtState),
    Failed(RtState, Seq<char>),
}

/// The shape ids an attachment of `base` brings: the base, then its parents.
pub open spec fn attached_ids(st: RtState, base: ShapeId) -> Seq<ShapeId> {
    seq![base] + Seq::new(
        st.shapes[base as int].parents.len(),
        |i: int| st.shapes[base as int].parents[i]->Shape_0,
    )
}

/// The slots `ss` with each `(az, value)` of `defaults` set in order.
pub open spec fn set_slots(ss: Seq<(AzimuthId, SVal)>, defaults: Seq<(AzimuthId, SVal)>) -> Seq<
    (AzimuthId, SVal),
>
    decreases defaults.len(),
{
    if defaults.len() == 0 {
        ss
    } else {
        set_slots(set_slot(ss, defaults[0].0, defaults[0].1), defaults.drop_first())
    }
}

/// The slots `ss` with each mapping `(to, from)` copying slot `from` into slot
/// `to`, in order; a mapping whose source slot is absent is skipped.
pub open spec fn map_slots(ss: Seq<(AzimuthId, SVal)>, maps: Seq<(AzimuthId, AzimuthId)>) -> Seq<
    (AzimuthId, SVal),
>
    decreases maps.len(),
{
    if maps.len() == 0 {
        ss
    } else {
        let i = slot_index(ss, maps[0].1);
        let next = if i >= 0 {
            set_slot(ss, maps[0].0, ss[i].1)
        } else {
            ss
        };
        map_slots(next, maps.drop_first())
    }
}

/// Attaches shape `base` to object `id`: the object records the base and its
/// parents, takes the default slot values, then applies the slot mappings.
/// Fails when the object or the shape does not exist.
pub open spec fn st_attach(
    st: RtState,
    id: ObjectId,
    base: ShapeId,
    defaults: Seq<(AzimuthId, SVal)>,
    maps: Seq<(AzimuthId, AzimuthId)>,
) -> SOpResult {
    if id >= st.objects.len() {
        SOpResult::Failed(st, "Object not found"@)
    } else if base >= st.shapes.len() {
        SOpResult::Failed(st, "Shape not found"@)
    } else {
        let o = st.objects[id as int];
        SOpResult::Done(
            st_set_object(
                st,
                id,
                SObject {
                    shapes: o.shapes + attached_ids(st, base),
                    slots: map_slots(set_slots(o.slots, defaults), maps),
                    ..o
                },
            ),
        )
    }
}

/// Removes shape `shape` from object `id`. Fails when the object does not
/// exist or does not have the shape.
pub open spec fn st_detach(st: RtState, id: ObjectId, shape: ShapeId) -> SOpResult {
    if id >= st.objects.len() {
        SOpResult::Failed(st, "Object not found"@)
    } else {
        let o = st.objects[id as int];
        let i = index_of(o.shapes, shape);
        if i < 0 {
            SOpResult::Failed(st, "Shape not attached"@)
        } else {
            SOpResult::Done(st_set_object(st, id, SObject { shapes: o.shapes.remove(i), ..o }))
        }
    }
}

/// Copies slot `from` of object `id` into slot `to`. Fails when the object or
/// the source slot does not exist.
pub open spec fn st_remap(st: RtState, id: ObjectId, to: AzimuthId, from: AzimuthId) -> SOpResult {
    if id >= st.objects.len() {
        SOpResult::Failed(st, "Object not found"@)
    } else {
        match slot_value(st, id, from) {
            Some(v) => SOpResult::Done(st_set_slot(st, id, to, v)),
            None => SOpResult::Failed(st, "Member not found"@),
        }
    }
}

/// Sets slot `az` of object `id`. Fails when the object does not exist.
pub open spec fn st_assign_slot(st: RtState, id: ObjectId, az: AzimuthId, v: SVal) -> SOpResult {
    if id >= st.objects.len() {
        SOpResult::Failed(st, "Object not found"@)
    } else {
        SOpResult::Done(st_set_slot(st, id, az, v))
    }
}


/// Creates the static singleton of shape `shape`: a new object with the shape
/// attached and each slot of `members` set to `Nil`, recorded as the shape's
/// static object. Fails when the shape does not exist.
pub open spec fn st_init_static(st: RtState, shape: ShapeId, members: Seq<AzimuthId>) -> SOpResult {
    if shape >= st.shapes.len() {
        SOpResult::Failed(st, "Shape not found"@)
    } else if st.objects.len() >= usize::MAX {
        SOpResult::Failed(st, "Too many objects"@)
    } else {
        let id = st.objects.len() as usize;
        let s1 = st_create_object(st, next_object_name(st));
        match st_attach(s1, id, shape, Seq::new(members.len(), |i: int| (members[i], SVal::Nil)), seq![]) {
            SOpResult::Done(s2) => SOpResult::Done(
                RtState {
                    shapes: s2.shapes.update(
                        shape as int,
                        SShapeInfo { static_id: Some(id), ..s2.shapes[shape as int] },
                    ),
                    ..s2
                },
            ),
            SOpResult::Failed(s2, m) => SOpResult::Failed(s2, m),
        }
    }
}

/// Creates the static singletons of the shapes of `statics` in order; the
/// first failure stops.
pub open spec fn st_init_statics(st: RtState, statics: Seq<(ShapeId, Seq<AzimuthId>)>) -> SOpResult
    decreases statics.len(),
{
    if statics.len() == 0 {
        SOpResult::Done(st)
    } else {
        match st_init_static(st, statics[0].0, statics[0].1) {
            SOpResult::Done(s1) => st_init_statics(s1, statics.drop_first()),
            SOpResult::Failed(s1, m) => SOpResult::Failed(s1, m),
        }
    }
}

// ---------------------------------------------------------------------------
// Executable operations
// ---------------------------------------------------------------------------
impl Runtime {
    /// A runtime with the given shapes, statics and host inputs, and nothing else.
    pub fn new(
        shapes: Vec<ShapeInfo>,
        intrinsic_statics: Vec<(ValueKind, ObjectId)>,
        args: Vec<String>,
        input: Vec<String>,
    ) -> (rt: Runtime)
        ensures
            rt@.locals.len() == 0,
            rt@.objects.len() == 0,
            rt@.shapes == map_view(shapes@),
            rt@.statics == map_view(intrinsic_statics@),
            rt@.call_stack.len() == 0,
            rt@.output.len() == 0,
            rt@.args == map_view(args@),
            rt@.input == map_view(input@),
            rt@.input_pos == 0,
            rt@.clock_log.len() == 0,
            rt@.random_log.len() == 0,
            rt@.caught == 0,
    {
        Runtime {
            locals: Vec::new(),
            objects: Vec::new(),
            shapes,
            intrinsic_statics,
            call_stack: Vec::new(),
            output: Vec::new(),
            args,
            input,
            input_pos: 0,
            clock_log: Ghost(Seq::empty()),
            random_log: Ghost(Seq::empty()),
            caught: Ghost(0),
        }
    }

    pub fn find_local(&self, id: LocalId) -> (r: Option<usize>)
        ensures
            self@.locals.len() == self.locals@.len(),
            match r {
                Some(i) => i as int == local_index(self@.locals, id) && i < self.locals@.len()
                    && self.locals@[i as int].id == id,
                None => local_index(self@.locals, id) < 0,
            },
    {
        proof {
            lemma_local_index(self@.locals, id);
        }
        let mut i = self.locals.len();
        while i > 0
            invariant
                i <= self.locals@.len(),
                self@.locals.len() == self.locals@.len(),
                forall|j: int| i <= j < self.locals@.len() ==> self.locals@[j].id != id,
                -1 <= local_index(self@.locals, id) < self@.locals.len(),
                local_index(self@.locals, id) >= 0 ==> self@.locals[local_index(self@.locals, id)].id
                    == id,
                local_index(self@.locals, id) < 0 ==> forall|j: int|
                    0 <= j < self@.locals.len() ==> self@.locals[j].id != id,
                local_index(self@.locals, id) >= 0 ==> forall|j: int|
                    local_index(self@.locals, id) < j < self@.locals.len() ==> self@.locals[j].id
                        != id,
                local_index(self@.locals, id) < i,
            decreases i,
        {
            if self.locals[i - 1].id == id {
                assert(self@.locals[i - 1].id == id);
                return Some(i - 1);
            }
            i = i - 1;
        }
        None
    }

    /// The value of local `id`, if it exists.
    pub fn get_local(&self, id: LocalId) -> (r: Option<&Value>)
        ensures
            match r {
                Some(v) => local_value(self@, id) == Some(v@),
                None => local_value(self@, id) is None,
            },
    {
        match self.find_local(id) {
            Some(i) => Some(&self.locals[i].value),
            None => None,
        }
    }

    /// Binds local `id` to `v`.
    pub fn reserve_local(&mut self, id: LocalId, v: Value)
        ensures
            final(self)@ == st_reserve_local(old(self)@, id, v@),
    {
        let ghost v0 = v@;
        match self.find_local(id) {
            Some(i) => {
                self.locals[i].value = v;
                assert(self@.locals =~= st_reserve_local(old(self)@, id, v0).locals);
            },
            None => {
                self.locals.push(LocalEntry { id, value: v, refs: 1 });
                assert(self@.locals =~= st_reserve_local(old(self)@, id, v0).locals);
            },
        }
    }

    /// Takes one more reference to local `id`.
    pub fn ref_local(&mut self, id: LocalId)
        ensures
            final(self)@ == st_ref_local(old(self)@, id),
    {
        match self.find_local(id) {
            Some(i) => {
                let r = self.locals[i].refs;
                if r < usize::MAX {
                    self.locals[i].refs = r + 1;
                }
                assert(self@.locals =~= st_ref_local(old(self)@, id).locals);
            },
            None => {},
        }
    }

    /// Drops one reference to local `id`.
    pub fn deref_local(&mut self, id: LocalId)
        ensures
            final(self)@ == st_deref_local(old(self)@, id),
    {
        match self.find_local(id) {
            Some(i) => {
                let r = self.locals[i].refs;
                if r <= 1 {
                    self.locals.remove(i);
                } else {
                    self.locals[i].refs = r - 1;
                }
                assert(self@.locals =~= st_deref_local(old(self)@, id).locals);
            },
            None => {},
        }
    }

    /// Drops one reference to each local of `ids`, in order.
    pub fn deref_locals(&mut self, ids: Vec<LocalId>)
        ensures
            final(self)@ == st_deref_locals(old(self)@, ids@),
            final(self)@.clock_log == old(self)@.clock_log,
            final(self)@.random_log == old(self)@.random_log,
            final(self)@.call_stack == old(self)@.call_stack,
            final(self)@.output == old(self)@.output,
            final(self)@.objects == old(self)@.objects,
            final(self)@.caught == old(self)@.caught,
    {
        let mut i: usize = 0;
        assert(ids@.skip(0) =~= ids@);
        while i < ids.len()
            invariant
                i <= ids@.len(),
                st_deref_locals(old(self)@, ids@) == st_deref_locals(self@, ids@.skip(i as int)),
                self@.clock_log == old(self)@.clock_log,
                self@.random_log == old(self)@.random_log,
                self@.call_stack == old(self)@.call_stack,
                self@.output == old(self)@.output,
                self@.objects == old(self)@.objects,
                self@.caught == old(self)@.caught,
            decreases ids@.len() - i,
        {
            assert(ids@.skip(i as int).drop_first() =~= ids@.skip(i + 1));
            self.deref_local(ids[i]);
            i = i + 1;
        }
        assert(ids@.skip(i as int) =~= Seq::<LocalId>::empty());
    }

    pub fn find_slot(o: &Object, az: AzimuthId) -> (r: Option<usize>)
        ensures
            o@.slots.len() == o.slots@.len(),
            match r {
                Some(i) => i as int == slot_index(o@.slots, az) && i < o.slots@.len()
                    && o.slots@[i as int].0 == az,
                None => slot_index(o@.slots, az) < 0,
            },
    {
        proof {
            lemma_slot_index(o@.slots, az);
        }
        let mut i = o.slots.len();
        while i > 0
            invariant
                i <= o.slots@.len(),
                o@.slots.len() == o.slots@.len(),
                forall|j: int| i <= j < o.slots@.len() ==> o.slots@[j].0 != az,
                -1 <= slot_index(o@.slots, az) < o@.slots.len(),
                slot_index(o@.slots, az) >= 0 ==> o@.slots[slot_index(o@.slots, az)].0 == az,
                slot_index(o@.slots, az) >= 0 ==> forall|j: int|
                    slot_index(o@.slots, az) < j < o@.slots.len() ==> o@.slots[j].0 != az,
                slot_index(o@.slots, az) < 0 ==> forall|j: int|
                    0 <= j < o@.slots.len() ==> o@.slots[j].0 != az,
                slot_index(o@.slots, az) < i,
            decreases i,
        {
            if o.slots[i - 1].0 == az {
                assert(o@.slots[i - 1].0 == az);
                return Some(i - 1);
            }
            i = i - 1;
        }
        None
    }

    /// Object `id`, if it exists.
    pub fn get_object(&self, id: ObjectId) -> (r: Option<&Object>)
        ensures
            match r {
                Some(o) => id < self@.objects.len() && o@ == self@.objects[id as int],
                None => id >= self@.objects.len(),
            },
    {
        if id < self.objects.len() {
            Some(&self.objects[id])
        } else {
            None
        }
    }

    /// Shape `id`, if it exists.
    pub fn get_shape(&self, id: ShapeId) -> (r: Option<&ShapeInfo>)
        ensures
            match r {
                Some(s) => id < self@.shapes.len() && s@ == self@.shapes[id as int],
                None => id >= self@.shapes.len(),
            },
    {
        if id < self.shapes.len() {
            Some(&self.shapes[id])
        } else {
            None
        }
    }

    /// A copy of slot `az` of object `id`, if both exist.
    pub fn get_slot_value(&self, id: ObjectId, az: AzimuthId) -> (r: Option<Value>)
        ensures
            match r {
                Some(v) => slot_value(self@, id, az) == Some(v@),
                None => slot_value(self@, id, az) is None,
            },
    {
        if id < self.objects.len() {
            match Self::find_slot(&self.objects[id], az) {
                Some(i) => Some(self.objects[id].slots[i].1.duplicate()),
                None => None,
            }
        } else {
            None
        }
    }

    /// The static object registered for `kind`, if any.
    pub fn get_intrinsic_static_id(&self, kind: &ValueKind) -> (r: Option<ObjectId>)
        ensures
            r == static_object(self@, kind@),
    {
        proof {
            lemma_static_index(self@.statics, kind@);
        }
        let mut i: usize = 0;
        while i < self.intrinsic_statics.len()
            invariant
                i <= self.intrinsic_statics@.len(),
                self@.statics.len() == self.intrinsic_statics@.len(),
                forall|j: int| 0 <= j < i ==> self@.statics[j].0 != kind@,
                -1 <= static_index(self@.statics, kind@) < self@.statics.len(),
                static_index(self@.statics, kind@) >= 0 ==> self@.statics[static_index(
                    self@.statics,
                    kind@,
                )].0 == kind@,
                static_index(self@.statics, kind@) >= 0 ==> forall|j: int|
                    0 <= j < static_index(self@.statics, kind@) ==> self@.statics[j].0 != kind@,
                static_index(self@.statics, kind@) < 0 ==> forall|j: int|
                    0 <= j < self@.statics.len() ==> self@.statics[j].0 != kind@,
            decreases self.intrinsic_statics@.len() - i,
        {
            if kinds_equal(&self.intrinsic_statics[i].0, kind) {
                assert(self@.statics[i as int].0 == kind@);
                return Some(self.intrinsic_statics[i].1);
            }
            i = i + 1;
        }
        None
    }

    /// Whether object `id` exists and has shape `shape` attached.
    pub fn is_shape(&self, id: ObjectId, shape: ShapeId) -> (r: bool)
        ensures
            r == has_shape(self@, id, shape),
    {
        if id >= self.objects.len() {
            return false;
        }
        let o = &self.objects[id];
        let mut i: usize = 0;
        while i < o.shapes.len()
            invariant
                i <= o.shapes@.len(),
                id < self@.objects.len(),
                o@ == self@.objects[id as int],
                forall|j: int| 0 <= j < i ==> o.shapes@[j] != shape,
            decreases o.shapes@.len() - i,
        {
            if o.shapes[i] == shape {
                assert(self@.objects[id as int].shapes[i as int] == shape);
                return true;
            }
            i = i + 1;
        }
        false
    }

    pub proof fn lemma_object_update(old_rt: Runtime, new_rt: Runtime, id: ObjectId)
        requires
            id < old_rt.objects@.len(),
            new_rt.objects@ == old_rt.objects@.update(id as int, new_rt.objects@[id as int]),
            new_rt.locals == old_rt.locals,
            new_rt.shapes == old_rt.shapes,
            new_rt.intrinsic_statics == old_rt.intrinsic_statics,
            new_rt.call_stack == old_rt.call_stack,
            new_rt.output == old_rt.output,
            new_rt.args == old_rt.args,
            new_rt.input == old_rt.input,
            new_rt.input_pos == old_rt.input_pos,
            new_rt.clock_log == old_rt.clock_log,
            new_rt.random_log == old_rt.random_log,
            new_rt.caught == old_rt.caught,
        ensures
            new_rt@ == st_set_object(old_rt@, id, new_rt.objects@[id as int]@),
    {
        assert(new_rt@.objects =~= st_set_object(old_rt@, id, new_rt.objects@[id as int]@).objects);
    }

    /// Creates an object named after the next object id and returns its id.
    pub fn create_object(&mut self) -> (id: ObjectId)
        requires
            old(self).objects@.len() < usize::MAX,
        ensures
            id == old(self)@.objects.len(),
            final(self)@ == st_create_object(old(self)@, next_object_name(old(self)@)),
    {
        let id = self.objects.len();
        let mut name = String::new();
        name.append("Obj");
        push_decimal(&mut name, id as u128);
        assert(name@ =~= "Obj"@ + dec_nat(id as nat));
        let o = Object { name, shapes: Vec::new(), slots: Vec::new(), sealed: false, refs: 0 };
        assert(o@.slots =~= seq![]);
        assert(o@.shapes =~= seq![]);
        self.objects.push(o);
        assert(self@.objects =~= st_create_object(
            old(self)@,
            next_object_name(old(self)@),
        ).objects);
        id
    }

    /// Takes one more reference to object `id`.
    pub fn ref_obj(&mut self, id: ObjectId)
        ensures
            final(self)@ == st_ref_obj(old(self)@, id),
    {
        if id < self.objects.len() {
            let r = self.objects[id].refs;
            let n = if r < usize::MAX {
                r + 1
            } else {
                r
            };
            self.objects[id].refs = n;
            proof {
                Self::lemma_object_update(*old(self), *self, id);
            }
        }
    }

    /// Seals object `id`.
    pub fn seal(&mut self, id: ObjectId)
        ensures
            final(self)@ == st_seal(old(self)@, id),
    {
        if id < self.objects.len() {
            self.objects[id].sealed = true;
            proof {
                Self::lemma_object_update(*old(self), *self, id);
            }
        }
    }

    fn set_slot_in(o: &mut Object, az: AzimuthId, v: Value)
        ensures
            final(o)@ == (SObject { slots: set_slot(old(o)@.slots, az, v@), ..old(o)@ }),
    {
        match Self::find_slot(o, az) {
            Some(i) => {
                o.slots[i] = (az, v);
            },
            None => {
                o.slots.push((az, v));
            },
        }
        assert(o@.slots =~= set_slot(old(o)@.slots, az, v@));
    }

    /// Sets slot `az` of object `id`; fails when the object does not exist.
    pub fn set_slot_value(&mut self, id: ObjectId, az: AzimuthId, v: Value) -> (r: Result<
        (),
        String,
    >)
        ensures
            match st_assign_slot(old(self)@, id, az, v@) {
                SOpResult::Done(st) => r is Ok && final(self)@ == st,
                SOpResult::Failed(st, m) => r matches Err(e) && e@ == m && final(self)@ == st,
            },
    {
        if id >= self.objects.len() {
            return Err(String::from_str("Object not found"));
        }
        let ghost v0 = v@;
        let mut o = self.objects.remove(id);
        Self::set_slot_in(&mut o, az, v);
        self.objects.insert(id, o);
        proof {
            assert(self.objects@ =~= old(self).objects@.update(id as int, self.objects@[id as int]));
            Self::lemma_object_update(*old(self), *self, id);
        }
        Ok(())
    }

    /// Appends a line to the output.
    pub fn print(&mut self, line: String)
        ensures
            final(self)@ == st_print(old(self)@, line@),
    {
        self.output.push(line);
        assert(self@.output =~= st_print(old(self)@, line@).output);
    }

    /// Pushes a frame on the call stack.
    pub fn push_frame(&mut self, f: CallStackFunction)
        ensures
            final(self)@ == st_push_frame(old(self)@, f@),
    {
        self.call_stack.push(f);
        assert(self@.call_stack =~= st_push_frame(old(self)@, f@).call_stack);
    }

    /// Pops the top frame of the call stack.
    pub fn pop_frame(&mut self)
        ensures
            final(self)@ == st_pop_frame(old(self)@),
    {
        if self.call_stack.len() > 0 {
            self.call_stack.pop();
            assert(self@.call_stack =~= st_pop_frame(old(self)@).call_stack);
        }
    }
}

/// The line an object prints as.
pub fn object_line(o: &Object) -> (line: String)
    ensures
        line@ == render_object(o@),
{
    let mut line = o.name.clone();
    line.append(" {");
    let ghost s0 = line@;
    let ghost all = o@.slots;
    let mut i: usize = 0;
    while i < o.slots.len()
        invariant
            i <= o.slots@.len(),
            all == o@.slots,
            line@ == s0 + render_slots(all.take(i as int)),
        decreases o.slots@.len() - i,
    {
        if i > 0 {
            line.append(", ");
        }
        push_decimal(&mut line, o.slots[i].0 as u128);
        line.append(": ");
        push_render(&mut line, &o.slots[i].1);
        assert(all.take(i + 1).drop_last() =~= all.take(i as int));
        assert(line@ =~= s0 + render_slots(all.take(i + 1)));
        i = i + 1;
    }
    assert(all.take(o.slots@.len() as int) =~= all);
    line.append("}");
    assert(line@ =~= render_object(o@));
    line
}


impl Runtime {
    /// Prints object `id`, if it exists.
    pub fn print_object(&mut self, id: ObjectId)
        ensures
            final(self)@ == st_print_object(old(self)@, id),
    {
        if id < self.objects.len() {
            let line = object_line(&self.objects[id]);
            self.print(line);
        }
    }

    /// Removes the first occurrence of shape `shape` from object `id`.
    pub fn detach_shape(&mut self, id: ObjectId, shape: ShapeId) -> (r: Result<(), String>)
        ensures
            match st_detach(old(self)@, id, shape) {
                SOpResult::Done(st) => r is Ok && final(self)@ == st,
                SOpResult::Failed(st, m) => r matches Err(e) && e@ == m && final(self)@ == st,
            },
    {
        if id >= self.objects.len() {
            return Err(String::from_str("Object not found"));
        }
        let ghost shapes0 = self@.objects[id as int].shapes;
        proof {
            lemma_index_of(shapes0, shape);
        }
        let mut i: usize = 0;
        while i < self.objects[id].shapes.len() && self.objects[id].shapes[i] != shape
            invariant
                id < self.objects@.len(),
                self@ == old(self)@,
                shapes0 == self@.objects[id as int].shapes,
                i <= shapes0.len(),
                forall|j: int| 0 <= j < i ==> shapes0[j] != shape,
            decreases shapes0.len() - i,
        {
            i = i + 1;
        }
        if i == self.objects[id].shapes.len() {
            assert(index_of(shapes0, shape) < 0);
            return Err(String::from_str("Shape not attached"));
        }
        assert(index_of(shapes0, shape) == i as int);
        let mut o = self.objects.remove(id);
        o.shapes.remove(i);
        self.objects.insert(id, o);
        proof {
            assert(self.objects@ =~= old(self).objects@.update(id as int, self.objects@[id as int]));
            Self::lemma_object_update(*old(self), *self, id);
            assert(self@.objects[id as int] =~= (SObject {
                shapes: shapes0.remove(i as int),
                ..old(self)@.objects[id as int]
            }));
        }
        Ok(())
    }

    /// Copies slot `from` of object `id` into slot `to`.
    pub fn remap_slot(&mut self, id: ObjectId, to: AzimuthId, from: AzimuthId) -> (r: Result<(), String>)
        ensures
            match st_remap(old(self)@, id, to, from) {
                SOpResult::Done(st) => r is Ok && final(self)@ == st,
                SOpResult::Failed(st, m) => r matches Err(e) && e@ == m && final(self)@ == st,
            },
    {
        if id >= self.objects.len() {
            return Err(String::from_str("Object not found"));
        }
        match self.get_slot_value(id, from) {
            None => Err(String::from_str("Member not found")),
            Some(v) => self.set_slot_value(id, to, v),
        }
    }

    /// Attaches shape `base` to object `id`: records the base and its parents,
    /// sets the default slot values and applies the slot mappings.
    pub fn attach_shape(
        &mut self,
        id: ObjectId,
        base: ShapeId,
        defaults: &Vec<(AzimuthId, Value)>,
        mappings: &Vec<(AzimuthId, AzimuthId)>,
    ) -> (r: Result<(), String>)
        ensures
            match st_attach(old(self)@, id, base, map_view(defaults@), mappings@) {
                SOpResult::Done(st) => r is Ok && final(self)@ == st,
                SOpResult::Failed(st, m) => r matches Err(e) && e@ == m && final(self)@ == st,
            },
    {
        if id >= self.objects.len() {
            return Err(String::from_str("Object not found"));
        }
        if base >= self.shapes.len() {
            return Err(String::from_str("Shape not found"));
        }
        let ghost ids = attached_ids(self@, base);
        let mut o = self.objects.remove(id);
        let ghost o0 = o@;
        o.shapes.push(base);
        assert(o@.shapes =~= o0.shapes + ids.take(1));
        let mut k: usize = 0;
        while k < self.shapes[base].parents.len()
            invariant
                base < self.shapes@.len(),
                ids == attached_ids(old(self)@, base),
                self@.shapes == old(self)@.shapes,
                k <= self.shapes@[base as int].parents@.len(),
                o@ == (SObject { shapes: o0.shapes + ids.take(k + 1), ..o0 }),
            decreases self.shapes@[base as int].parents@.len() - k,
        {
            let p = self.shapes[base].parents[k].id;
            assert(ids[k + 1] == p);
            o.shapes.push(p);
            assert(o@.shapes =~= o0.shapes + ids.take(k + 2));
            k = k + 1;
        }
        assert(ids.take(k + 1) =~= ids);
        let ghost dv = map_view(defaults@);
        let mut i: usize = 0;
        assert(dv.skip(0) =~= dv);
        while i < defaults.len()
            invariant
                i <= defaults@.len(),
                dv == map_view(defaults@),
                o@.shapes == o0.shapes + ids,
                o@.name == o0.name,
                o@.sealed == o0.sealed,
                o@.refs == o0.refs,
                set_slots(o0.slots, dv) == set_slots(o@.slots, dv.skip(i as int)),
            decreases defaults@.len() - i,
        {
            assert(dv.skip(i as int).drop_first() =~= dv.skip(i + 1));
            let v = defaults[i].1.duplicate();
            Self::set_slot_in(&mut o, defaults[i].0, v);
            i = i + 1;
        }
        assert(dv.skip(i as int) =~= Seq::<(AzimuthId, SVal)>::empty());
        let ghost mv = mappings@;
        let ghost slots1 = o@.slots;
        let mut j: usize = 0;
        assert(mv.skip(0) =~= mv);
        while j < mappings.len()
            invariant
                j <= mappings@.len(),
                mv == mappings@,
                o@.shapes == o0.shapes + ids,
                o@.name == o0.name,
                o@.sealed == o0.sealed,
                o@.refs == o0.refs,
                map_slots(slots1, mv) == map_slots(o@.slots, mv.skip(j as int)),
            decreases mappings@.len() - j,
        {
            assert(mv.skip(j as int).drop_first() =~= mv.skip(j + 1));
            let (to, from) = mappings[j];
            proof {
                lemma_slot_index(o@.slots, from);
            }
            match Self::find_slot(&o, from) {
                Some(x) => {
                    let v = o.slots[x].1.duplicate();
                    Self::set_slot_in(&mut o, to, v);
                },
                None => {},
            }
            j = j + 1;
        }
        assert(mv.skip(j as int) =~= Seq::<(AzimuthId, AzimuthId)>::empty());
        self.objects.insert(id, o);
        proof {
            assert(self.objects@ =~= old(self).objects@.update(id as int, self.objects@[id as int]));
            Self::lemma_object_update(*old(self), *self, id);
            assert(self@.objects[id as int] =~= (SObject {
                shapes: o0.shapes + attached_ids(old(self)@, base),
                slots: map_slots(set_slots(o0.slots, map_view(defaults@)), mappings@),
                ..o0
            }));
        }
        Ok(())
    }
}


impl Runtime {
    /// Creates the static singleton of shape `shape`.
    pub fn init_static(&mut self, shape: ShapeId, members: &Vec<AzimuthId>) -> (r: Result<(), String>)
        ensures
            match st_init_static(old(self)@, shape, members@) {
                SOpResult::Done(st) => r is Ok && final(self)@ == st,
                SOpResult::Failed(st, m) => r matches Err(e) && e@ == m && final(self)@ == st,
            },
            final(self)@.clock_log == old(self)@.clock_log,
            final(self)@.random_log == old(self)@.random_log,
            final(self)@.output == old(self)@.output,
            old(self)@.objects.len() <= final(self)@.objects.len(),
            final(self)@.caught == old(self)@.caught,
            final(self)@.call_stack == old(self)@.call_stack,
            forall|i: int|
                0 <= i < old(self)@.objects.len() && (#[trigger] old(self)@.objects[i]).sealed
                    ==> final(self)@.objects[i].sealed,
    {
        if shape >= self.shapes.len() {
            return Err(String::from_str("Shape not found"));
        }
        if self.objects.len() == usize::MAX {
            return Err(String::from_str("Too many objects"));
        }
        let id = self.create_object();
        let mut defaults: Vec<(AzimuthId, Value)> = Vec::new();
        let mut i: usize = 0;
        while i < members.len()
            invariant
                i <= members@.len(),
                map_view(defaults@) == Seq::new(i as nat, |j: int| (members@[j], SVal::Nil)),
            decreases members@.len() - i,
        {
            defaults.push((members[i], Value::Nil));
            assert(map_view(defaults@) =~= Seq::new((i + 1) as nat, |j: int| (members@[j], SVal::Nil)));
            i = i + 1;
        }
        let mappings: Vec<(AzimuthId, AzimuthId)> = Vec::new();
        assert(mappings@ =~= seq![]);
        match self.attach_shape(id, shape, &defaults, &mappings) {
            Ok(()) => {},
            Err(m) => {
                return Err(m);
            },
        }
        let ghost s2 = self@;
        let mut info = self.shapes.remove(shape);
        info.static_id = Some(StaticInfo { id });
        self.shapes.insert(shape, info);
        assert(self@.shapes =~= s2.shapes.update(
            shape as int,
            SShapeInfo { static_id: Some(id), ..s2.shapes[shape as int] },
        ));
        Ok(())
    }

    /// Creates the static singletons of the shapes of `statics` in order.
    pub fn init_static_instances(&mut self, statics: &Vec<(ShapeId, Vec<AzimuthId>)>) -> (r: Result<
        (),
        String,
    >)
        ensures
            match st_init_statics(old(self)@, map_view(statics@)) {
                SOpResult::Done(st) => r is Ok && final(self)@ == st,
                SOpResult::Failed(st, m) => r matches Err(e) && e@ == m && final(self)@ == st,
            },
            final(self)@.clock_log == old(self)@.clock_log,
            final(self)@.random_log == old(self)@.random_log,
            final(self)@.output == old(self)@.output,
            old(self)@.objects.len() <= final(self)@.objects.len(),
            final(self)@.caught == old(self)@.caught,
            final(self)@.call_stack == old(self)@.call_stack,
            forall|i: int|
                0 <= i < old(self)@.objects.len() && (#[trigger] old(self)@.objects[i]).sealed
                    ==> final(self)@.objects[i].sealed,
    {
        let ghost all = map_view(statics@);
        let mut i: usize = 0;
        assert(all.skip(0) =~= all);
        while i < statics.len()
            invariant
                i <= statics@.len(),
                all == map_view(statics@),
                st_init_statics(old(self)@, all) == st_init_statics(self@, all.skip(i as int)),
                self@.clock_log == old(self)@.clock_log,
                self@.random_log == old(self)@.random_log,
                self@.output == old(self)@.output,
                old(self)@.objects.len() <= self@.objects.len(),
                self@.caught == old(self)@.caught,
                self@.call_stack == old(self)@.call_stack,
                forall|i: int|
                    0 <= i < old(self)@.objects.len() && (#[trigger] old(self)@.objects[i]).sealed
                        ==> self@.objects[i].sealed,
            decreases statics@.len() - i,
        {
            assert(all.skip(i as int).drop_first() =~= all.skip(i + 1));
            assert(all.skip(i as int)[0] == (statics@[i as int].0, statics@[i as int].1@));
            match self.init_static(statics[i].0, &statics[i].1) {
                Ok(()) => {},
                Err(m) => {
                    return Err(m);
                },
            }
            i = i + 1;
        }
        assert(all.skip(i as int) =~= Seq::<(ShapeId, Seq<AzimuthId>)>::empty());
        Ok(())
    }
}

} // verus!

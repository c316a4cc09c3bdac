use vstd::prelude::*;
use crate::reference::{RefSlot, Reference, ReferenceValue};
use crate::reflection::{Primitive, PrimitiveValue, PrimitiveValueKind, ReflectionError, mismatch};
use crate::object::{FieldView, is_object_like};
use crate::schema::{FieldSlot, JsonValue, Node, Record, Schema, Shape, replace_at};

verus! {

/// One event of a token stream.
#[derive(Debug, PartialEq, Eq)]
pub enum Event {
    StartObject,
    Key(String),
    EndObject,
    StartArray,
    EndArray,
    Str(String),
    Bool(bool),
    Null,
    /// A number, as the text the token source read.
    Number(String),
}

/// Why a deserialization stopped. The root keeps what was written before.
#[derive(Debug, PartialEq, Eq)]
pub enum DeserializeError {
    /// A reflection operation failed: a field that no binding takes
    /// (`UnknownField`), a scalar of the wrong kind (`ValueMismatch`), or a
    /// pointer that the inline record cannot take (`InvalidField`).
    Reflection(ReflectionError),
    /// The event at this position does not fit where it stands.
    UnexpectedEvent { position: usize },
    /// The stream ended inside a value.
    UnexpectedEnd,
    /// The container opened at this position nests deeper than allowed.
    TooDeep { position: usize },
    /// Events remain after the root object, from this position on.
    TrailingEvents { position: usize },
}

/// The deserializer's settings.
#[derive(Debug, Clone, Copy, PartialEq, Eq, Structural)]
pub struct Options {
    /// How many containers may be open at once.
    pub max_depth: usize,
    /// Whether the value of a field that no binding takes is skipped (`true`)
    /// or fails the whole deserialization (`false`).
    pub skip_unknown: bool,
}

impl Options {
    /// Unknown fields are skipped; up to 128 containers may be open at once.
    pub fn new() -> (r: Options)
        ensures
            r.max_depth == 128,
            r.skip_unknown,
    {
        Options { max_depth: 128, skip_unknown: true }
    }
}

/// Where the well-formed value that starts at `pos` ends, with at most
/// `depth` containers open at once; `None` where no such value starts there.
pub open spec fn value_end(events: Seq<Event>, pos: int, depth: nat) -> Option<int>
    decreases depth, events.len() - pos, 0nat,
{
    if pos < 0 || pos >= events.len() {
        None
    } else {
        match events[pos] {
            Event::Null | Event::Bool(_) | Event::Str(_) | Event::Number(_) => Some(pos + 1),
            Event::StartArray => if depth == 0 {
                None
            } else {
                items_end(events, pos + 1, (depth - 1) as nat)
            },
            Event::StartObject => if depth == 0 {
                None
            } else {
                entries_end(events, pos + 1, (depth - 1) as nat)
            },
            _ => None,
        }
    }
}

/// Where the rest of an array that continues at `pos` ends, after its `EndArray`.
pub open spec fn items_end(events: Seq<Event>, pos: int, depth: nat) -> Option<int>
    decreases depth, events.len() - pos, 1nat,
{
    if pos < 0 || pos >= events.len() {
        None
    } else if events[pos] is EndArray {
        Some(pos + 1)
    } else {
        match value_end(events, pos, depth) {
            Some(q) => if pos < q <= events.len() {
                items_end(events, q, depth)
            } else {
                None
            },
            None => None,
        }
    }
}

/// Where the rest of an object that continues at `pos` ends, after its `EndObject`.
pub open spec fn entries_end(events: Seq<Event>, pos: int, depth: nat) -> Option<int>
    decreases depth, events.len() - pos, 1nat,
{
    if pos < 0 || pos >= events.len() {
        None
    } else {
        match events[pos] {
            Event::EndObject => Some(pos + 1),
            Event::Key(_) => match value_end(events, pos + 1, depth) {
                Some(q) => if pos < q <= events.len() {
                    entries_end(events, q, depth)
                } else {
                    None
                },
                None => None,
            },
            _ => None,
        }
    }
}

/// `v` is the value tree that the events from `pos` up to `end` spell, with at
/// most `depth` containers open at once.
pub open spec fn tree_rel(events: Seq<Event>, pos: int, depth: nat, v: JsonValue, end: int) -> bool
    decreases depth, 0nat,
{
    if 0 <= pos < events.len() {
        match events[pos] {
            Event::Null => v == JsonValue::Null && end == pos + 1,
            Event::Bool(b) => v == JsonValue::Bool(b) && end == pos + 1,
            Event::Str(s) => v == JsonValue::String(s) && end == pos + 1,
            Event::Number(s) => v == JsonValue::Number(s) && end == pos + 1,
            Event::StartArray => {
                &&& depth > 0
                &&& v is Array
                &&& pos < end - 1 < events.len()
                &&& events[end - 1] is EndArray
                &&& arr_rel(events, pos + 1, (depth - 1) as nat, v->Array_0@, end - 1)
            },
            Event::StartObject => {
                &&& depth > 0
                &&& v is Object
                &&& pos < end - 1 < events.len()
                &&& events[end - 1] is EndObject
                &&& obj_rel(events, pos + 1, (depth - 1) as nat, v->Object_0@, end - 1)
            },
            _ => false,
        }
    } else {
        false
    }
}

/// The items `acc` are the values read one after another from `start`,
/// which brought the reader to `p`.
pub open spec fn arr_rel(events: Seq<Event>, start: int, depth: nat, acc: Seq<JsonValue>, p: int) -> bool
    decreases depth, acc.len() + 1,
{
    if acc.len() == 0 {
        p == start
    } else {
        exists|q: int|
            {
                &&& start <= q < p
                &&& arr_rel(events, start, depth, acc.drop_last(), q)
                &&& q < events.len()
                &&& !(#[trigger] events[q] is EndArray)
                &&& tree_rel(events, q, depth, acc.last(), p)
            }
    }
}

/// The entries `acc` are the keys and values read one after another from
/// `start`, which brought the reader to `p`.
pub open spec fn obj_rel(events: Seq<Event>, start: int, depth: nat, acc: Seq<(String, JsonValue)>, p: int) -> bool
    decreases depth, acc.len() + 1,
{
    if acc.len() == 0 {
        p == start
    } else {
        exists|q: int|
            {
                &&& start <= q < p
                &&& obj_rel(events, start, depth, acc.drop_last(), q)
                &&& q < events.len()
                &&& #[trigger] events[q] is Key
                &&& events[q]->Key_0 == acc.last().0
                &&& tree_rel(events, q + 1, depth, acc.last().1, p)
            }
    }
}

/// How many values the rest of an array that continues at `pos` holds.
pub open spec fn items_count(events: Seq<Event>, pos: int, depth: nat) -> nat
    decreases depth, events.len() - pos, 1nat,
{
    if pos < 0 || pos >= events.len() || events[pos] is EndArray {
        0
    } else {
        match value_end(events, pos, depth) {
            Some(q) => if pos < q <= events.len() {
                1 + items_count(events, q, depth)
            } else {
                0
            },
            None => 0,
        }
    }
}

/// A successful read consumed exactly one well-formed value.
pub open spec fn consumed(r: Result<usize, DeserializeError>, events: Seq<Event>, pos: int, depth: nat) -> bool {
    r matches Ok(p) ==> value_end(events, pos, depth) == Some(p as int)
}

/// Where the reader stands after `k` entries of an array that continues at `start`.
pub open spec fn items_pos(events: Seq<Event>, start: int, depth: nat, k: nat) -> Option<int>
    decreases k,
{
    if k == 0 {
        Some(start)
    } else {
        match items_pos(events, start, depth, (k - 1) as nat) {
            Some(q) => if 0 <= q < events.len() && !(events[q] is EndArray) {
                value_end(events, q, depth)
            } else {
                None
            },
            None => None,
        }
    }
}

/// Where the reader stands after `k` keys and values of an object that continues at `start`.
pub open spec fn keys_pos(events: Seq<Event>, start: int, depth: nat, k: nat) -> Option<int>
    decreases k,
{
    if k == 0 {
        Some(start)
    } else {
        match keys_pos(events, start, depth, (k - 1) as nat) {
            Some(q) => if 0 <= q < events.len() && events[q] is Key {
                value_end(events, q + 1, depth)
            } else {
                None
            },
            None => None,
        }
    }
}

/// What a finished read answers: the position after the root, unless events remain.
pub open spec fn finish(rr: Result<usize, DeserializeError>, len: int) -> Result<(), DeserializeError> {
    match rr {
        Ok(p) => if p < len {
            Err(DeserializeError::TrailingEvents { position: p })
        } else {
            Ok(())
        },
        Err(e) => Err(e),
    }
}

impl Schema {
    /// `after` and `r` are what reading the value at `pos` into `before` gives,
    /// with at most `depth` containers open and unknown fields skipped when
    /// `skip` holds. A scalar goes into a primitive of its kind; a value tree
    /// into an opaque field; an array into a list, one new default entry per
    /// element, in order; an object into a record, reference union or keyed
    /// map, key by key through `Node::create`. What was written before an
    /// error stays written.
    pub open spec fn reads(
        &self,
        before: Node,
        after: Node,
        events: Seq<Event>,
        pos: int,
        depth: nat,
        skip: bool,
        r: Result<usize, DeserializeError>,
    ) -> bool
        decreases depth, 0nat, 0nat,
    {
        if pos < 0 || pos >= events.len() {
            r == Err::<usize, DeserializeError>(DeserializeError::UnexpectedEnd) && after == before
        } else {
            match before {
                Node::Primitive(p) => {
                    &&& r == scalar_result(events, pos, p.spec_kind())
                    &&& r is Ok ==> after == Node::Primitive(scalar_of(events[pos]))
                    &&& r is Err ==> after == before
                },
                Node::Any(_) => match r {
                    Ok(q) => after is Any && tree_rel(events, pos, depth, after->Any_0, q as int),
                    Err(_) => after == before && value_end(events, pos, depth) is None,
                },
                Node::List(s, items) => if !(events[pos] is StartArray) {
                    r == Err::<usize, DeserializeError>(DeserializeError::UnexpectedEvent { position: pos as usize })
                        && after == before
                } else if depth == 0 {
                    r == Err::<usize, DeserializeError>(DeserializeError::TooDeep { position: pos as usize })
                        && after == before
                } else {
                    &&& after is List
                    &&& after->List_0 == s
                    &&& self.list_outcome(s, items@, after->List_1@, events, pos + 1, (depth - 1) as nat, skip, r)
                },
                _ => if !(events[pos] is StartObject) {
                    r == Err::<usize, DeserializeError>(DeserializeError::UnexpectedEvent { position: pos as usize })
                        && after == before
                } else if depth == 0 {
                    r == Err::<usize, DeserializeError>(DeserializeError::TooDeep { position: pos as usize })
                        && after == before
                } else {
                    self.object_outcome(before, after, events, pos + 1, (depth - 1) as nat, skip, r)
                },
            }
        }
    }

    /// The entries of `acc` after those of `base` were each read, in order,
    /// from the elements of an array continuing at `start`, into a new default
    /// entry of shape `s`.
    pub open spec fn list_rel(
        &self,
        s: Shape,
        base: Seq<Node>,
        acc: Seq<Node>,
        events: Seq<Event>,
        start: int,
        depth: nat,
        skip: bool,
    ) -> bool
        decreases depth, 3nat, acc.len(),
    {
        if acc.len() <= base.len() {
            acc == base
        } else {
            let k = (acc.len() - base.len() - 1) as nat;
            let q = items_pos(events, start, depth, k);
            let p = items_pos(events, start, depth, k + 1);
            &&& self.list_rel(s, base, acc.drop_last(), events, start, depth, skip)
            &&& q is Some && 0 <= q->Some_0 < events.len() && !(events[q->Some_0] is EndArray)
            &&& p is Some
            &&& exists|d: Node|
                #[trigger] self.is_default(s, d) && self.reads(
                    d,
                    acc.last(),
                    events,
                    q->Some_0,
                    depth,
                    skip,
                    Ok(p->Some_0 as usize),
                )
        }
    }

    /// Reading the rest of an array from `start` into the list entries `base`
    /// left `fin` and answered `r`.
    pub open spec fn list_outcome(
        &self,
        s: Shape,
        base: Seq<Node>,
        fin: Seq<Node>,
        events: Seq<Event>,
        start: int,
        depth: nat,
        skip: bool,
        r: Result<usize, DeserializeError>,
    ) -> bool
        decreases depth, 4nat, 0nat,
    {
        let n = (fin.len() - base.len()) as nat;
        let p = items_pos(events, start, depth, n)->Some_0;
        let q = items_pos(events, start, depth, (n - 1) as nat)->Some_0;
        ||| {
            &&& self.list_rel(s, base, fin, events, start, depth, skip)
            &&& items_pos(events, start, depth, n) is Some && 0 <= p <= events.len()
            &&& p == events.len() ==> r == Err::<usize, DeserializeError>(DeserializeError::UnexpectedEnd)
            &&& p < events.len() ==> events[p] is EndArray && r == Ok::<usize, DeserializeError>((p + 1) as usize)
        }
        ||| {
            &&& fin.len() > base.len()
            &&& self.list_rel(s, base, fin.drop_last(), events, start, depth, skip)
            &&& r is Err
            &&& items_pos(events, start, depth, (n - 1) as nat) is Some && 0 <= q < events.len()
            &&& !(events[q] is EndArray)
            &&& exists|d: Node| #[trigger] self.is_default(s, d) && self.reads(d, fin.last(), events, q, depth, skip, r)
        }
    }

    /// Addressing `name` in `before` and reading the value at `pos` into the
    /// view it gave left `after` and answered `r`. A name that no binding
    /// takes has its value skipped when `skip` holds.
    pub open spec fn field_rel(
        &self,
        before: Node,
        after: Node,
        name: Seq<char>,
        events: Seq<Event>,
        pos: int,
        depth: nat,
        skip: bool,
        r: Result<usize, DeserializeError>,
    ) -> bool
        decreases depth, 2nat, 0nat,
    {
        exists|mid: Node, c: Result<FieldView, ReflectionError>|
            #[trigger] self.node_create_post(before, mid, name, c) && match c {
                Ok(view) => self.view_rel(mid, view, after, events, pos, depth, skip, r),
                Err(e) => after == mid && if skip && e is UnknownField {
                    &&& value_end(events, pos, depth) matches Some(q) ==> r == Ok::<usize, DeserializeError>(
                        q as usize,
                    )
                    &&& value_end(events, pos, depth) is None ==> r is Err
                } else {
                    r == Err::<usize, DeserializeError>(DeserializeError::Reflection(e))
                },
            }
    }

    /// Reading the value at `pos` into the place of `mid` that `view` points to.
    pub open spec fn view_rel(
        &self,
        mid: Node,
        view: FieldView,
        after: Node,
        events: Seq<Event>,
        pos: int,
        depth: nat,
        skip: bool,
        r: Result<usize, DeserializeError>,
    ) -> bool
        decreases depth, 1nat, 0nat,
    {
        match mid {
            Node::Record(rec) => view is Slot && after is Record && self.slot_rel(
                rec,
                view->Slot_0,
                after->Record_0,
                events,
                pos,
                depth,
                skip,
                r,
            ),
            Node::Reference(t, Reference::Other(rec)) => {
                &&& view is Slot
                &&& after is Reference && after->Reference_0 == t && after->Reference_1 is Other
                &&& self.slot_rel(rec, view->Slot_0, after->Reference_1->Other_0, events, pos, depth, skip, r)
            },
            Node::Reference(t, Reference::Reference(_)) => {
                &&& view is Marker
                &&& r == scalar_result(events, pos, PrimitiveValueKind::String)
                &&& r is Ok ==> after == Node::Reference(
                    t,
                    Reference::Reference(ReferenceValue { reference: events[pos]->Str_0 }),
                )
                &&& r is Err ==> after == mid
            },
            Node::Dict(s, es) => {
                &&& view matches FieldView::Entry(j) && j < es@.len()
                &&& after is Dict && after->Dict_0 == s
                &&& after->Dict_1@ == es@.update(view->Entry_0 as int, after->Dict_1@[view->Entry_0 as int])
                &&& after->Dict_1@[view->Entry_0 as int].0 == es@[view->Entry_0 as int].0
                &&& self.reads(
                    es@[view->Entry_0 as int].1,
                    after->Dict_1@[view->Entry_0 as int].1,
                    events,
                    pos,
                    depth,
                    skip,
                    r,
                )
            },
            _ => false,
        }
    }

    /// Reading the value at `pos` into the field or catch-all entry `slot` of `rec`.
    pub open spec fn slot_rel(
        &self,
        rec: Record,
        slot: FieldSlot,
        after: Record,
        events: Seq<Event>,
        pos: int,
        depth: nat,
        skip: bool,
        r: Result<usize, DeserializeError>,
    ) -> bool
        decreases depth, 0nat, 1nat,
    {
        match slot {
            FieldSlot::Field(i) => {
                &&& i < rec.fields@.len() && rec.fields@[i as int] is Some
                &&& after.ty == rec.ty && after.extensions == rec.extensions
                &&& after.fields@.len() == rec.fields@.len() && after.fields@[i as int] is Some
                &&& after.fields@ == rec.fields@.update(i as int, after.fields@[i as int])
                &&& self.reads(
                    rec.fields@[i as int]->Some_0,
                    after.fields@[i as int]->Some_0,
                    events,
                    pos,
                    depth,
                    skip,
                    r,
                )
            },
            FieldSlot::Extension(j) => {
                &&& j < rec.extensions@.len()
                &&& after.ty == rec.ty && after.fields == rec.fields
                &&& after.extensions@ == rec.extensions@.update(j as int, after.extensions@[j as int])
                &&& after.extensions@[j as int].0 == rec.extensions@[j as int].0
                &&& self.reads(rec.extensions@[j as int].1, after.extensions@[j as int].1, events, pos, depth, skip, r)
            },
        }
    }

    /// The `k`-th key of an object continuing at `start` took `a` to `b`.
    pub open spec fn field_step(
        &self,
        a: Node,
        b: Node,
        events: Seq<Event>,
        start: int,
        depth: nat,
        skip: bool,
        k: nat,
    ) -> bool
        decreases depth, 3nat, 0nat,
    {
        let q = keys_pos(events, start, depth, k);
        let p = keys_pos(events, start, depth, k + 1);
        &&& q is Some && 0 <= q->Some_0 < events.len() && events[q->Some_0] is Key
        &&& p is Some
        &&& self.field_rel(a, b, events[q->Some_0]->Key_0@, events, q->Some_0 + 1, depth, skip, Ok(p->Some_0 as usize))
    }

    /// `states` are the node before each key of an object continuing at
    /// `start`, and after the last one.
    pub open spec fn keys_chain(
        &self,
        before: Node,
        states: Seq<Node>,
        events: Seq<Event>,
        start: int,
        depth: nat,
        skip: bool,
    ) -> bool
        decreases depth, 4nat, 0nat,
    {
        &&& states.len() >= 1
        &&& states[0] == before
        &&& forall|k: int|
            0 <= k < states.len() - 1 ==> self.field_step(#[trigger] states[k], states[k + 1], events, start, depth, skip, k as nat)
    }

    /// Reading the rest of an object from `start` into `before` left `fin`
    /// and answered `r`.
    pub open spec fn object_outcome(
        &self,
        before: Node,
        fin: Node,
        events: Seq<Event>,
        start: int,
        depth: nat,
        skip: bool,
        r: Result<usize, DeserializeError>,
    ) -> bool
        decreases depth, 5nat, 0nat,
    {
        exists|states: Seq<Node>|
            {
                &&& self.keys_chain(before, states, events, start, depth, skip)
                &&& keys_pos(events, start, depth, (#[trigger] states.len() - 1) as nat) is Some
                &&& 0 <= keys_pos(events, start, depth, (states.len() - 1) as nat)->Some_0 <= events.len()
                &&& {
                    let p = keys_pos(events, start, depth, (states.len() - 1) as nat)->Some_0;
                    ||| p == events.len() && r == Err::<usize, DeserializeError>(DeserializeError::UnexpectedEnd)
                        && fin == states.last()
                    ||| p < events.len() && events[p] is EndObject && r == Ok::<usize, DeserializeError>(
                        (p + 1) as usize,
                    ) && fin == states.last()
                    ||| p < events.len() && events[p] is Key && r is Err && self.field_rel(
                        states.last(),
                        fin,
                        events[p]->Key_0@,
                        events,
                        p + 1,
                        depth,
                        skip,
                        r,
                    )
                    ||| p < events.len() && !(events[p] is EndObject) && !(events[p] is Key) && r
                        == Err::<usize, DeserializeError>(DeserializeError::UnexpectedEvent { position: p as usize })
                        && fin == states.last()
                }
            }
    }
}

/// `b` has the same tag as `a`: the same kind, record type or entry shape.
pub open spec fn same_shape(a: Node, b: Node) -> bool {
    match a {
        Node::Primitive(p) => b is Primitive && b->Primitive_0.spec_kind() == p.spec_kind(),
        Node::Any(_) => b is Any,
        Node::Record(r) => b is Record && b->Record_0.ty == r.ty && b->Record_0.fields@.len()
            == r.fields@.len(),
        Node::Reference(t, _) => b is Reference && b->Reference_0 == t,
        Node::List(s, _) => b is List && b->List_0 == s,
        Node::Dict(s, _) => b is Dict && b->Dict_0 == s,
    }
}

/// The result of reading one value that starts at `pos`: on success, the
/// position after it.
pub open spec fn progress(r: Result<usize, DeserializeError>, pos: int, len: int) -> bool {
    r matches Ok(p) ==> pos < p <= len
}

/// What reading the scalar at `pos` into a primitive of kind `k` answers.
pub open spec fn scalar_result(events: Seq<Event>, pos: int, k: PrimitiveValueKind) -> Result<usize, DeserializeError> {
    if pos >= events.len() {
        Err(DeserializeError::UnexpectedEnd)
    } else {
        match events[pos] {
            Event::Str(_) => if k == PrimitiveValueKind::String {
                Ok((pos + 1) as usize)
            } else {
                Err(DeserializeError::Reflection(mismatch(k, PrimitiveValueKind::String)))
            },
            Event::Bool(_) => if k == PrimitiveValueKind::Bool {
                Ok((pos + 1) as usize)
            } else {
                Err(DeserializeError::Reflection(mismatch(k, PrimitiveValueKind::Bool)))
            },
            _ => Err(DeserializeError::UnexpectedEvent { position: pos as usize }),
        }
    }
}

/// The scalar that a scalar event carries.
pub open spec fn scalar_of(e: Event) -> PrimitiveValue {
    match e {
        Event::Bool(b) => PrimitiveValue::Bool(b),
        Event::Str(s) => PrimitiveValue::String(s),
        _ => PrimitiveValue::Bool(false),
    }
}

/// Reads one scalar event into `prim`. A scalar of the wrong kind fails with
/// `ValueMismatch`; any other event fails; on failure `prim` is unchanged.
pub fn read_scalar<P: Primitive>(prim: &mut P, events: &Vec<Event>, pos: usize) -> (r: Result<usize, DeserializeError>)
    ensures
        r == scalar_result(events@, pos as int, old(prim).accepted_kind()),
        progress(r, pos as int, events@.len() as int),
        forall|d: nat| consumed(r, events@, pos as int, d),
        r is Ok ==> final(prim).holds(scalar_of(events@[pos as int])),
        r is Err ==> *final(prim) == *old(prim),
{
    if pos >= events.len() {
        return Err(DeserializeError::UnexpectedEnd);
    }
    let v = match &events[pos] {
        Event::Str(s) => PrimitiveValue::String(s.clone()),
        Event::Bool(b) => PrimitiveValue::Bool(*b),
        _ => {
            return Err(DeserializeError::UnexpectedEvent { position: pos });
        },
    };
    match prim.set(v) {
        Ok(()) => Ok(pos + 1),
        Err(e) => Err(DeserializeError::Reflection(e)),
    }
}

/// Reads one value tree verbatim, the event at `pos` first.
pub fn read_any(events: &Vec<Event>, pos: usize, depth: usize) -> (r: Result<(JsonValue, usize), DeserializeError>)
    ensures
        r matches Ok((_, p)) ==> pos < p <= events@.len(),
        r is Ok <==> value_end(events@, pos as int, depth as nat) is Some,
        r matches Ok((_, p)) ==> value_end(events@, pos as int, depth as nat) == Some(p as int),
        r matches Ok((v, p)) ==> tree_rel(events@, pos as int, depth as nat, v, p as int),
        pos >= events@.len() ==> r == Err::<(JsonValue, usize), DeserializeError>(DeserializeError::UnexpectedEnd),
        pos < events@.len() ==> match events@[pos as int] {
            Event::Null => r == Ok::<(JsonValue, usize), DeserializeError>((JsonValue::Null, (pos + 1) as usize)),
            Event::Bool(b) => r == Ok::<(JsonValue, usize), DeserializeError>((JsonValue::Bool(b), (pos + 1) as usize)),
            Event::Str(s) => r == Ok::<(JsonValue, usize), DeserializeError>((JsonValue::String(s), (pos + 1) as usize)),
            Event::Number(s) => r == Ok::<(JsonValue, usize), DeserializeError>((JsonValue::Number(s), (pos + 1) as usize)),
            Event::StartObject | Event::StartArray => depth == 0 ==> r == Err::<(JsonValue, usize), DeserializeError>(
                DeserializeError::TooDeep { position: pos },
            ),
            _ => r == Err::<(JsonValue, usize), DeserializeError>(DeserializeError::UnexpectedEvent { position: pos }),
        },
    decreases depth,
{
    if pos >= events.len() {
        return Err(DeserializeError::UnexpectedEnd);
    }
    match &events[pos] {
        Event::Null => Ok((JsonValue::Null, pos + 1)),
        Event::Bool(b) => Ok((JsonValue::Bool(*b), pos + 1)),
        Event::Str(s) => Ok((JsonValue::String(s.clone()), pos + 1)),
        Event::Number(s) => Ok((JsonValue::Number(s.clone()), pos + 1)),
        Event::StartArray => {
            if depth == 0 {
                return Err(DeserializeError::TooDeep { position: pos });
            }
            let mut items: Vec<JsonValue> = Vec::new();
            let mut p = pos + 1;
            loop
                invariant
                    pos < p <= events@.len(),
                    depth > 0,
                    events@[pos as int] is StartArray,
                    value_end(events@, pos as int, depth as nat) == items_end(events@, p as int, (depth - 1) as nat),
                    arr_rel(events@, pos + 1, (depth - 1) as nat, items@, p as int),
                decreases events@.len() - p,
            {
                if p >= events.len() {
                    return Err(DeserializeError::UnexpectedEnd);
                }
                if let Event::EndArray = &events[p] {
                    return Ok((JsonValue::Array(items), p + 1));
                }
                match read_any(events, p, depth - 1) {
                    Ok((v, np)) => {
                        let ghost before = items@;
                        let ghost q = p as int;
                        items.push(v);
                        proof {
                            let d = (depth - 1) as nat;
                            assert(items@.drop_last() =~= before);
                            assert(arr_rel(events@, pos + 1, d, items@.drop_last(), q));
                            assert(tree_rel(events@, q, d, items@.last(), np as int));
                            assert(pos + 1 <= q < np);
                            assert(q < events@.len());
                            assert(!(events@[q] is EndArray));
                            assert(items@.len() > 0);
                            assert(exists|q2: int|
                                {
                                    &&& pos + 1 <= q2 < np
                                    &&& arr_rel(events@, pos + 1, d, items@.drop_last(), q2)
                                    &&& q2 < events@.len()
                                    &&& !(events@[q2] is EndArray)
                                    &&& tree_rel(events@, q2, d, items@.last(), np as int)
                                });
                            assert(arr_rel(events@, pos + 1, d, items@, np as int));
                        }
                        p = np;
                    },
                    Err(e) => {
                        return Err(e);
                    },
                }
            }
        },
        Event::StartObject => {
            if depth == 0 {
                return Err(DeserializeError::TooDeep { position: pos });
            }
            let mut entries: Vec<(String, JsonValue)> = Vec::new();
            let mut p = pos + 1;
            loop
                invariant
                    pos < p <= events@.len(),
                    depth > 0,
                    events@[pos as int] is StartObject,
                    value_end(events@, pos as int, depth as nat) == entries_end(events@, p as int, (depth - 1) as nat),
                    obj_rel(events@, pos + 1, (depth - 1) as nat, entries@, p as int),
                decreases events@.len() - p,
            {
                if p >= events.len() {
                    return Err(DeserializeError::UnexpectedEnd);
                }
                match &events[p] {
                    Event::EndObject => {
                        return Ok((JsonValue::Object(entries), p + 1));
                    },
                    Event::Key(k) => match read_any(events, p + 1, depth - 1) {
                        Ok((v, np)) => {
                            let ghost before = entries@;
                            let ghost q = p as int;
                            entries.push((k.clone(), v));
                            proof {
                                let d = (depth - 1) as nat;
                                assert(entries@.drop_last() =~= before);
                                assert(obj_rel(events@, pos + 1, d, entries@.drop_last(), q));
                                assert(tree_rel(events@, q + 1, d, entries@.last().1, np as int));
                                assert(pos + 1 <= q < np);
                                assert(obj_rel(events@, pos + 1, d, entries@, np as int));
                            }
                            p = np;
                        },
                        Err(e) => {
                            return Err(e);
                        },
                    },
                    _ => {
                        return Err(DeserializeError::UnexpectedEvent { position: p });
                    },
                }
            }
        },
        _ => Err(DeserializeError::UnexpectedEvent { position: pos }),
    }
}

/// `rec` keeps its type and the length of its storage.
pub open spec fn same_record_shape(a: Record, b: Record) -> bool {
    b.ty == a.ty && b.fields@.len() == a.fields@.len()
}

/// `new` keeps the entries of `old`, in place, and may have more after them.
pub open spec fn appended(old: Seq<Node>, new: Seq<Node>) -> bool {
    old.len() <= new.len() && forall|i: int| 0 <= i < old.len() ==> new[i] == old[i]
}

/// `new` keeps the keys of `old`, in place, and may have more after them.
pub open spec fn keys_kept(old: Seq<(String, Node)>, new: Seq<(String, Node)>) -> bool {
    old.len() <= new.len() && forall|i: int| 0 <= i < old.len() ==> new[i].0@ == old[i].0@
}

/// The keys of `b`'s keyed map or catch-all map are those of `a`'s, and maybe more.
pub open spec fn map_keys_kept(a: Node, b: Node) -> bool {
    &&& a is Dict ==> b is Dict && keys_kept(a->Dict_1@, b->Dict_1@)
    &&& a is Record ==> b is Record && keys_kept(a->Record_0.extensions@, b->Record_0.extensions@)
}

/// Reads the value that starts at `pos` into `node`, as its tag says: a
/// scalar into a primitive, an object into a record, reference union or map,
/// an array into a list, anything into an opaque value.
pub fn read_value(
    schema: &Schema,
    node: &mut Node,
    events: &Vec<Event>,
    pos: usize,
    depth: usize,
    opts: &Options,
) -> (r: Result<usize, DeserializeError>)
    ensures
        progress(r, pos as int, events@.len() as int),
        consumed(r, events@, pos as int, depth as nat),
        same_shape(*old(node), *final(node)),
        map_keys_kept(*old(node), *final(node)),
        pos >= events@.len() ==> r == Err::<usize, DeserializeError>(DeserializeError::UnexpectedEnd)
            && *final(node) == *old(node),
        *old(node) is Primitive ==> r == scalar_result(events@, pos as int, old(node)->Primitive_0.spec_kind()),
        *old(node) is Primitive && r is Ok ==> *final(node) == Node::Primitive(scalar_of(events@[pos as int])),
        *old(node) is Primitive && r is Err ==> *final(node) == *old(node),
        *old(node) is Any && r is Err ==> *final(node) == *old(node),
        *old(node) is List ==> appended(old(node)->List_1@, final(node)->List_1@),
        *old(node) is List && r is Ok ==> final(node)->List_1@.len() == old(node)->List_1@.len() + items_count(
            events@,
            pos + 1,
            (depth - 1) as nat,
        ),
        is_object_like(*old(node)) && pos < events@.len() && !(events@[pos as int] is StartObject) ==> r
            == Err::<usize, DeserializeError>(DeserializeError::UnexpectedEvent { position: pos })
            && *final(node) == *old(node),
        *old(node) is List && pos < events@.len() && !(events@[pos as int] is StartArray) ==> r
            == Err::<usize, DeserializeError>(DeserializeError::UnexpectedEvent { position: pos })
            && *final(node) == *old(node),
        is_object_like(*old(node)) && pos < events@.len() && depth == 0 && events@[pos as int] is StartObject
            ==> r == Err::<usize, DeserializeError>(DeserializeError::TooDeep { position: pos })
            && *final(node) == *old(node),
        *old(node) is List && pos < events@.len() && depth == 0 && events@[pos as int] is StartArray ==> r
            == Err::<usize, DeserializeError>(DeserializeError::TooDeep { position: pos }) && *final(node)
            == *old(node),
        schema.reads(*old(node), *final(node), events@, pos as int, depth as nat, opts.skip_unknown, r),
    decreases depth, 0nat,
{
    if pos >= events.len() {
        return Err(DeserializeError::UnexpectedEnd);
    }
    match node {
        Node::Primitive(p) => read_scalar(p, events, pos),
        Node::Any(v) => match read_any(events, pos, depth) {
            Ok((x, p)) => {
                *v = x;
                Ok(p)
            },
            Err(e) => Err(e),
        },
        Node::List(s, items) => {
            if !matches!(events[pos], Event::StartArray) {
                return Err(DeserializeError::UnexpectedEvent { position: pos });
            }
            if depth == 0 {
                return Err(DeserializeError::TooDeep { position: pos });
            }
            read_entries(schema, s, items, events, pos + 1, depth - 1, opts)
        },
        _ => {
            if !matches!(events[pos], Event::StartObject) {
                return Err(DeserializeError::UnexpectedEvent { position: pos });
            }
            if depth == 0 {
                return Err(DeserializeError::TooDeep { position: pos });
            }
            read_fields(schema, node, events, pos + 1, depth - 1, opts)
        },
    }
}

/// Reads the entries of an array, after its `StartArray`, into a list: each
/// one into a new default entry appended in stream order.
fn read_entries(
    schema: &Schema,
    s: &Shape,
    items: &mut Vec<Node>,
    events: &Vec<Event>,
    pos: usize,
    depth: usize,
    opts: &Options,
) -> (r: Result<usize, DeserializeError>)
    requires
        pos <= events@.len(),
    ensures
        r matches Ok(p) ==> pos < p <= events@.len() && items_end(events@, pos as int, depth as nat) == Some(
            p as int,
        ),
        appended(old(items)@, final(items)@),
        r is Ok ==> final(items)@.len() == old(items)@.len() + items_count(events@, pos as int, depth as nat),
        schema.list_outcome(*s, old(items)@, final(items)@, events@, pos as int, depth as nat, opts.skip_unknown, r),
    decreases depth, 4nat,
{
    let mut p = pos;
    loop
        invariant
            pos <= p <= events@.len(),
            appended(old(items)@, items@),
            schema.list_rel(*s, old(items)@, items@, events@, pos as int, depth as nat, opts.skip_unknown),
            items_pos(events@, pos as int, depth as nat, (items@.len() - old(items)@.len()) as nat) == Some(
                p as int,
            ),
            items_end(events@, pos as int, depth as nat) == items_end(events@, p as int, depth as nat),
            items@.len() + items_count(events@, p as int, depth as nat) == old(items)@.len() + items_count(
                events@,
                pos as int,
                depth as nat,
            ),
        decreases events@.len() - p,
    {
        if p >= events.len() {
            return Err(DeserializeError::UnexpectedEnd);
        }
        if matches!(events[p], Event::EndArray) {
            return Ok(p + 1);
        }
        let ghost before = items@;
        let i = schema.push_default(items, s);
        let ghost d = items@[i as int];
        let mut item = replace_at(items, i, Node::Any(JsonValue::Null));
        let r = read_value(schema, &mut item, events, p, depth, opts);
        let _ = replace_at(items, i, item);
        proof {
            assert(items@.drop_last() =~= before);
            assert(schema.is_default(*s, d));
        }
        match r {
            Ok(np) => {
                proof {
                    assert(schema.list_rel(*s, old(items)@, items@, events@, pos as int, depth as nat, opts.skip_unknown));
                }
                p = np;
            },
            Err(e) => {
                return Err(e);
            },
        }
    }
}

/// Reads the fields of an object, after its `StartObject`, up to its `EndObject`.
fn read_fields(
    schema: &Schema,
    node: &mut Node,
    events: &Vec<Event>,
    pos: usize,
    depth: usize,
    opts: &Options,
) -> (r: Result<usize, DeserializeError>)
    requires
        is_object_like(*old(node)),
        pos <= events@.len(),
    ensures
        r matches Ok(p) ==> pos < p <= events@.len() && entries_end(events@, pos as int, depth as nat) == Some(
            p as int,
        ),
        same_shape(*old(node), *final(node)),
        map_keys_kept(*old(node), *final(node)),
        schema.object_outcome(*old(node), *final(node), events@, pos as int, depth as nat, opts.skip_unknown, r),
    decreases depth, 4nat,
{
    let mut p = pos;
    let ghost mut states: Seq<Node> = seq![*node];
    loop
        invariant
            pos <= p <= events@.len(),
            entries_end(events@, pos as int, depth as nat) == entries_end(events@, p as int, depth as nat),
            is_object_like(*node),
            same_shape(*old(node), *node),
            map_keys_kept(*old(node), *node),
            schema.keys_chain(*old(node), states, events@, pos as int, depth as nat, opts.skip_unknown),
            states.last() == *node,
            keys_pos(events@, pos as int, depth as nat, (states.len() - 1) as nat) == Some(p as int),
        decreases events@.len() - p,
    {
        if p >= events.len() {
            proof {
                assert(states.len() >= 1);
            }
            return Err(DeserializeError::UnexpectedEnd);
        }
        match &events[p] {
            Event::EndObject => {
                return Ok(p + 1);
            },
            Event::Key(name) => match read_field(schema, node, name.as_str(), events, p + 1, depth, opts) {
                Ok(np) => {
                    proof {
                        let k = (states.len() - 1) as nat;
                        let old_states = states;
                        states = states.push(*node);
                        assert(schema.field_step(old_states.last(), *node, events@, pos as int, depth as nat, opts.skip_unknown, k));
                        assert forall|j: int| 0 <= j < states.len() - 1 implies schema.field_step(
                            #[trigger] states[j],
                            states[j + 1],
                            events@,
                            pos as int,
                            depth as nat,
                            opts.skip_unknown,
                            j as nat,
                        ) by {
                            if j < k {
                                assert(states[j] == old_states[j]);
                                assert(states[j + 1] == old_states[j + 1]);
                            }
                        }
                    }
                    p = np;
                },
                Err(e) => {
                    return Err(e);
                },
            },
            _ => {
                return Err(DeserializeError::UnexpectedEvent { position: p });
            },
        }
    }
}

/// Addresses the field `name` of `node` and reads the value at `pos` into it.
/// A field that no binding takes fails, or has its value skipped, as `opts` says.
fn read_field(
    schema: &Schema,
    node: &mut Node,
    name: &str,
    events: &Vec<Event>,
    pos: usize,
    depth: usize,
    opts: &Options,
) -> (r: Result<usize, DeserializeError>)
    requires
        is_object_like(*old(node)),
    ensures
        progress(r, pos as int, events@.len() as int),
        consumed(r, events@, pos as int, depth as nat),
        same_shape(*old(node), *final(node)),
        map_keys_kept(*old(node), *final(node)),
        schema.field_rel(*old(node), *final(node), name@, events@, pos as int, depth as nat, opts.skip_unknown, r),
    decreases depth, 3nat,
{
    let ghost before = *node;
    let c = node.create(schema, name);
    let ghost mid = *node;
    let r = match c {
        Ok(view) => read_view(schema, node, view, events, pos, depth, opts),
        Err(e) => unknown_field(e, events, pos, depth, opts),
    };
    proof {
        assert(schema.node_create_post(before, mid, name@, c));
    }
    r
}

/// Reads the value at `pos` into the place inside `node` that `view`, just
/// handed out by `Node::create`, points to.
fn read_view(
    schema: &Schema,
    node: &mut Node,
    view: FieldView,
    events: &Vec<Event>,
    pos: usize,
    depth: usize,
    opts: &Options,
) -> (r: Result<usize, DeserializeError>)
    requires
        exists|before: Node, name: Seq<char>|
            schema.node_create_post(before, *old(node), name, Ok::<FieldView, ReflectionError>(view)),
    ensures
        progress(r, pos as int, events@.len() as int),
        consumed(r, events@, pos as int, depth as nat),
        same_shape(*old(node), *final(node)),
        map_keys_kept(*old(node), *final(node)),
        schema.view_rel(*old(node), view, *final(node), events@, pos as int, depth as nat, opts.skip_unknown, r),
    decreases depth, 2nat,
{
    match (node, view) {
        (Node::Record(rec), FieldView::Slot(s)) => read_slot(schema, rec, s, events, pos, depth, opts),
        (Node::Reference(_, Reference::Other(rec)), FieldView::Slot(s)) => read_slot(
            schema,
            rec,
            s,
            events,
            pos,
            depth,
            opts,
        ),
        (Node::Reference(_, Reference::Reference(rv)), FieldView::Marker) => read_scalar(
            &mut rv.reference,
            events,
            pos,
        ),
        (Node::Dict(_, entries), FieldView::Entry(j)) => {
            let ghost e0 = entries@;
            let (k, mut item) = replace_at(entries, j, (String::new(), Node::Any(JsonValue::Null)));
            let r = read_value(schema, &mut item, events, pos, depth, opts);
            let _ = replace_at(entries, j, (k, item));
            proof {
                assert(entries@ =~= e0.update(j as int, entries@[j as int]));
            }
            r
        },
        _ => {
            proof {
                assert(false);
            }
            Err(DeserializeError::UnexpectedEvent { position: pos })
        },
    }
}

/// A field that could not be addressed: the value of a field that no binding
/// takes is skipped when `opts` says so; any other error stands.
fn unknown_field(e: ReflectionError, events: &Vec<Event>, pos: usize, depth: usize, opts: &Options) -> (r: Result<
    usize,
    DeserializeError,
>)
    ensures
        progress(r, pos as int, events@.len() as int),
        consumed(r, events@, pos as int, depth as nat),
        opts.skip_unknown && e is UnknownField ==> (value_end(events@, pos as int, depth as nat) matches Some(q)
            ==> r == Ok::<usize, DeserializeError>(q as usize)),
        opts.skip_unknown && e is UnknownField ==> (value_end(events@, pos as int, depth as nat) is None
            ==> r is Err),
        !(opts.skip_unknown && e is UnknownField) ==> r == Err::<usize, DeserializeError>(
            DeserializeError::Reflection(e),
        ),
{
    if opts.skip_unknown && matches!(e, ReflectionError::UnknownField { .. }) {
        match read_any(events, pos, depth) {
            Ok((_, p)) => Ok(p),
            Err(err) => Err(err),
        }
    } else {
        Err(DeserializeError::Reflection(e))
    }
}

/// Reads the value at `pos` into the field or catch-all entry `slot` of `rec`.
fn read_slot(
    schema: &Schema,
    rec: &mut Record,
    slot: FieldSlot,
    events: &Vec<Event>,
    pos: usize,
    depth: usize,
    opts: &Options,
) -> (r: Result<usize, DeserializeError>)
    requires
        slot matches FieldSlot::Field(i) ==> i < old(rec).fields@.len() && old(rec).fields@[i as int] is Some,
        slot matches FieldSlot::Extension(j) ==> j < old(rec).extensions@.len(),
    ensures
        progress(r, pos as int, events@.len() as int),
        consumed(r, events@, pos as int, depth as nat),
        same_record_shape(*old(rec), *final(rec)),
        keys_kept(old(rec).extensions@, final(rec).extensions@),
        schema.slot_rel(*old(rec), slot, *final(rec), events@, pos as int, depth as nat, opts.skip_unknown, r),
    decreases depth, 1nat,
{
    match slot {
        FieldSlot::Field(i) => {
            let ghost f0 = rec.fields@;
            let taken = replace_at(&mut rec.fields, i, None);
            let mut item = taken.unwrap();
            let r = read_value(schema, &mut item, events, pos, depth, opts);
            let _ = replace_at(&mut rec.fields, i, Some(item));
            proof {
                assert(rec.fields@ =~= f0.update(i as int, rec.fields@[i as int]));
            }
            r
        },
        FieldSlot::Extension(j) => {
            let ghost e0 = rec.extensions@;
            let (k, mut item) = replace_at(&mut rec.extensions, j, (String::new(), Node::Any(JsonValue::Null)));
            let r = read_value(schema, &mut item, events, pos, depth, opts);
            let _ = replace_at(&mut rec.extensions, j, (k, item));
            proof {
                assert(rec.extensions@ =~= e0.update(j as int, rec.extensions@[j as int]));
            }
            r
        },
    }
}

/// Deserializes one complete object from `events` into `root`, in place:
/// what `root` holds afterwards and the answer are those that `Schema::reads`
/// relates to the stream, and events left after the object fail the read.
/// On failure `root` keeps what was written before the error: there is no
/// rollback.
pub fn deserialize(schema: &Schema, events: &Vec<Event>, root: &mut Node, opts: &Options) -> (r: Result<
    (),
    DeserializeError,
>)
    requires
        is_object_like(*old(root)),
    ensures
        same_shape(*old(root), *final(root)),
        map_keys_kept(*old(root), *final(root)),
        r is Ok ==> value_end(events@, 0, opts.max_depth as nat) == Some(events@.len() as int),
        exists|rr: Result<usize, DeserializeError>|
            schema.reads(*old(root), *final(root), events@, 0, opts.max_depth as nat, opts.skip_unknown, rr) && r
                == #[trigger] finish(rr, events@.len() as int),
        events@.len() == 0 ==> r == Err::<(), DeserializeError>(DeserializeError::UnexpectedEnd),
        events@.len() > 0 && !(events@[0] is StartObject) ==> r == Err::<(), DeserializeError>(
            DeserializeError::UnexpectedEvent { position: 0 },
        ) && *final(root) == *old(root),
        opts.max_depth == 0 && events@.len() > 0 && events@[0] is StartObject ==> r == Err::<(), DeserializeError>(
            DeserializeError::TooDeep { position: 0 },
        ) && *final(root) == *old(root),
{
    let rr = read_value(schema, root, events, 0, opts.max_depth, opts);
    let r = match rr {
        Ok(p) => if p < events.len() {
            Err(DeserializeError::TrailingEvents { position: p })
        } else {
            Ok(())
        },
        Err(e) => Err(e),
    };
    proof {
        assert(r == finish(rr, events@.len() as int));
    }
    r
}

} // verus!

verus! {

/// A string read into a boolean field fails with a kind mismatch and leaves
/// the field as it was.
pub proof fn lemma_string_into_bool_rejected(
    schema: Schema,
    b: bool,
    after: Node,
    events: Seq<Event>,
    pos: int,
    depth: nat,
    skip: bool,
    r: Result<usize, DeserializeError>,
)
    requires
        schema.reads(Node::Primitive(PrimitiveValue::Bool(b)), after, events, pos, depth, skip, r),
        0 <= pos < events.len(),
        events[pos] is Str,
    ensures
        r == Err::<usize, DeserializeError>(
            DeserializeError::Reflection(mismatch(PrimitiveValueKind::Bool, PrimitiveValueKind::String)),
        ),
        after == Node::Primitive(PrimitiveValue::Bool(b)),
{
}

/// Reading an array into a list appends one entry per element and keeps the
/// entries that were there: on success the new entries are exactly as many
/// as the elements before the array's end.
pub proof fn lemma_list_accumulates(
    schema: Schema,
    s: Shape,
    items: Vec<Node>,
    after: Node,
    events: Seq<Event>,
    pos: int,
    depth: nat,
    skip: bool,
    p: usize,
)
    requires
        schema.reads(Node::List(s, items), after, events, pos, depth, skip, Ok(p)),
    ensures
        after is List,
        after->List_0 == s,
        after->List_1@.len() >= items@.len(),
        after->List_1@.subrange(0, items@.len() as int) == items@,
        items_pos(events, pos + 1, (depth - 1) as nat, (after->List_1@.len() - items@.len()) as nat) matches Some(q)
            && 0 <= q < events.len() && events[q] is EndArray,
{
    assert(0 <= pos < events.len() && events[pos] is StartArray && depth > 0);
    let fin = after->List_1@;
    assert(schema.list_outcome(s, items@, fin, events, pos + 1, (depth - 1) as nat, skip, Ok(p)));
    assert(schema.list_rel(s, items@, fin, events, pos + 1, (depth - 1) as nat, skip));
    lemma_list_rel_prefix(schema, s, items@, fin, events, pos + 1, (depth - 1) as nat, skip);
    let n = (fin.len() - items@.len()) as nat;
    let q = items_pos(events, pos + 1, (depth - 1) as nat, n)->Some_0;
    assert(q != events.len());
}

proof fn lemma_list_rel_prefix(
    schema: Schema,
    s: Shape,
    base: Seq<Node>,
    acc: Seq<Node>,
    events: Seq<Event>,
    start: int,
    depth: nat,
    skip: bool,
)
    requires
        schema.list_rel(s, base, acc, events, start, depth, skip),
    ensures
        acc.len() >= base.len(),
        acc.subrange(0, base.len() as int) == base,
    decreases acc.len(),
{
    if acc.len() > base.len() {
        lemma_list_rel_prefix(schema, s, base, acc.drop_last(), events, start, depth, skip);
        assert(acc.subrange(0, base.len() as int) =~= acc.drop_last().subrange(0, base.len() as int));
    } else {
        assert(acc.subrange(0, base.len() as int) =~= acc);
    }
}

} // verus!

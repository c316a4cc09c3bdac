use vstd::prelude::*;
use crate::reflection::{PrimitiveValue, PrimitiveValueKind, ReflectionError};
use crate::reference::{Reference, ReferenceValue};

verus! {

/// An untyped value tree, stored verbatim by opaque fields.
#[derive(Debug, PartialEq, Eq)]
pub enum JsonValue {
    Null,
    Bool(bool),
    /// A number, kept as the text the token source gave for it.
    Number(String),
    String(String),
    Array(Vec<JsonValue>),
    Object(Vec<(String, JsonValue)>),
}

/// How a field, or an entry of a collection, is surfaced to the deserializer.
#[derive(Debug, PartialEq, Eq)]
pub enum Shape {
    /// A scalar of the given kind.
    Primitive(PrimitiveValueKind),
    /// An opaque value tree, read verbatim.
    Any,
    /// A nested record of the record type with this index in the schema.
    Record(usize),
    /// Either a bare `$ref` pointer or an inline record of the given type.
    Reference(usize),
    /// An ordered, append-only list of entries of the given shape.
    List(Box<Shape>),
    /// A keyed map from names to entries of the given shape.
    Dict(Box<Shape>),
}

impl Shape {
    /// A structural copy.
    pub fn copy(&self) -> (r: Shape)
        ensures
            r == *self,
        decreases self,
    {
        match self {
            Shape::Primitive(k) => Shape::Primitive(*k),
            Shape::Any => Shape::Any,
            Shape::Record(t) => Shape::Record(*t),
            Shape::Reference(t) => Shape::Reference(*t),
            Shape::List(s) => Shape::List(Box::new(s.copy())),
            Shape::Dict(s) => Shape::Dict(Box::new(s.copy())),
        }
    }
}

/// One declared field of a record type.
#[derive(Debug)]
pub struct FieldBinding {
    pub name: String,
    pub shape: Shape,
    /// Whether the field is present-or-absent. Every field is stored absent
    /// until it is first addressed; for a field that is not optional, absent
    /// reads as the default value of its shape.
    pub optional: bool,
}

/// The binding of one record type: its declared fields, and the shape of the
/// entries of its catch-all map, if it has one.
#[derive(Debug)]
pub struct RecordType {
    pub fields: Vec<FieldBinding>,
    pub catch_all: Option<Shape>,
}

/// Errors in the definition of a record type.
#[derive(Debug, PartialEq, Eq)]
pub enum BindError {
    /// Two fields were declared with this name.
    DuplicateField { name: String },
    /// A second catch-all field was declared.
    DuplicateCatchAll,
    /// The field's marker does not fit its declared type.
    Unbindable { name: String },
}

/// A table of record types; a record type is named by its index.
#[derive(Debug)]
pub struct Schema {
    pub types: Vec<RecordType>,
}

/// A value of the record graph: what one field, list entry or map entry holds.
#[derive(Debug, PartialEq, Eq)]
pub enum Node {
    Primitive(PrimitiveValue),
    Any(JsonValue),
    Record(Record),
    /// A reference union whose inline form is a record of the given type.
    Reference(usize, Reference<Record>),
    /// A list, with the shape of its entries.
    List(Shape, Vec<Node>),
    /// A keyed map in order of insertion, with the shape of its entries.
    Dict(Shape, Vec<(String, Node)>),
}

/// An instance of a record type. `fields` runs parallel to the type's declared
/// fields (`None` while a field has not been addressed); `extensions` is the
/// catch-all map.
#[derive(Debug, PartialEq, Eq)]
pub struct Record {
    pub ty: usize,
    pub fields: Vec<Option<Node>>,
    pub extensions: Vec<(String, Node)>,
}

/// Where `Record::create` found or made the addressed field.
#[derive(Debug, Clone, Copy, PartialEq, Eq, Structural)]
pub enum FieldSlot {
    /// The declared field with this index.
    Field(usize),
    /// The catch-all entry with this index.
    Extension(usize),
}

pub open spec fn names(fields: Seq<FieldBinding>) -> Seq<Seq<char>> {
    fields.map_values(|b: FieldBinding| b.name@)
}

pub open spec fn keys(entries: Seq<(String, Node)>) -> Seq<Seq<char>> {
    entries.map_values(|e: (String, Node)| e.0@)
}

/// `i` is the first position of `k` in `ks`.
pub open spec fn first_index(ks: Seq<Seq<char>>, k: Seq<char>, i: int) -> bool {
    0 <= i < ks.len() && ks[i] == k && forall|j: int| 0 <= j < i ==> ks[j] != k
}

/// No key occurs twice in `ks`.
pub open spec fn unique(ks: Seq<Seq<char>>) -> bool {
    forall|i: int, j: int| 0 <= i < j < ks.len() ==> ks[i] != ks[j]
}

/// `k` does not occur in `ks`.
pub open spec fn absent(ks: Seq<Seq<char>>, k: Seq<char>) -> bool {
    forall|j: int| 0 <= j < ks.len() ==> ks[j] != k
}

/// A primitive at the default value of its kind.
pub open spec fn is_zero(p: PrimitiveValue) -> bool {
    match p {
        PrimitiveValue::String(s) => s@.len() == 0,
        PrimitiveValue::Bool(b) => !b,
    }
}

/// A reference union in its initial state: referencing the empty pointer.
pub open spec fn is_blank_reference(r: Reference<Record>) -> bool {
    r is Reference && r->Reference_0.reference@.len() == 0
}

impl Schema {
    /// The number of declared fields of record type `t` (none for an unknown type).
    pub open spec fn field_count(&self, t: int) -> int {
        if 0 <= t < self.types@.len() {
            self.types@[t].fields@.len() as int
        } else {
            0
        }
    }

    /// `r` is a record of type `t` on which nothing has been addressed yet.
    pub open spec fn is_fresh(&self, t: int, r: Record) -> bool {
        &&& r.ty == t
        &&& r.fields@.len() == self.field_count(t)
        &&& forall|i: int| 0 <= i < r.fields@.len() ==> r.fields@[i] is None
        &&& r.extensions@.len() == 0
    }

    /// `n` is the default value of `shape`.
    pub open spec fn is_default(&self, shape: Shape, n: Node) -> bool {
        match shape {
            Shape::Primitive(k) => n is Primitive && n->Primitive_0.spec_kind() == k && is_zero(
                n->Primitive_0,
            ),
            Shape::Any => n == Node::Any(JsonValue::Null),
            Shape::Record(t) => n is Record && self.is_fresh(t as int, n->Record_0),
            Shape::Reference(t) => n is Reference && n->Reference_0 == t && is_blank_reference(
                n->Reference_1,
            ),
            Shape::List(s) => n is List && n->List_0 == *s && n->List_1@.len() == 0,
            Shape::Dict(s) => n is Dict && n->Dict_0 == *s && n->Dict_1@.len() == 0,
        }
    }

    /// `new` is `old` after a find-or-insert of `key` that answered `j`:
    /// the first entry named `key` if there is one, else a new default entry at the end.
    pub open spec fn entry_post(
        &self,
        shape: Shape,
        old: Seq<(String, Node)>,
        new: Seq<(String, Node)>,
        key: Seq<char>,
        j: int,
    ) -> bool {
        ||| first_index(keys(old), key, j) && new == old
        ||| {
            &&& absent(keys(old), key)
            &&& j == old.len()
            &&& new == old.push(new[j])
            &&& new[j].0@ == key
            &&& self.is_default(shape, new[j].1)
        }
    }

    /// The binding of `r`'s type matches its storage.
    pub open spec fn binds(&self, r: Record) -> bool {
        r.ty < self.types@.len() && r.fields@.len() == self.types@[r.ty as int].fields@.len()
    }

    /// What `Record::create(name)` does: `new` is `old` afterwards, `r` its answer.
    pub open spec fn create_post(
        &self,
        old: Record,
        new: Record,
        name: Seq<char>,
        r: Result<FieldSlot, ReflectionError>,
    ) -> bool {
        match r {
            Ok(FieldSlot::Field(i)) => {
                let b = self.types@[old.ty as int];
                &&& self.binds(old)
                &&& first_index(names(b.fields@), name, i as int)
                &&& new.ty == old.ty
                &&& new.extensions == old.extensions
                &&& new.fields@[i as int] is Some
                &&& new.fields@ == old.fields@.update(i as int, new.fields@[i as int])
                &&& old.fields@[i as int] is Some ==> new.fields@ == old.fields@
                &&& old.fields@[i as int] is None ==> self.is_default(
                    b.fields@[i as int].shape,
                    new.fields@[i as int]->Some_0,
                )
            },
            Ok(FieldSlot::Extension(j)) => {
                let b = self.types@[old.ty as int];
                &&& self.binds(old)
                &&& absent(names(b.fields@), name)
                &&& b.catch_all is Some
                &&& new.ty == old.ty
                &&& new.fields == old.fields
                &&& self.entry_post(b.catch_all->Some_0, old.extensions@, new.extensions@, name, j as int)
            },
            Err(e) => {
                &&& new == old
                &&& !self.binds(old) ==> e is InvalidField && e->InvalidField_name@ == name
                &&& self.binds(old) ==> absent(names(self.types@[old.ty as int].fields@), name)
                    && self.types@[old.ty as int].catch_all is None
                    && e is UnknownField && e->UnknownField_name@ == name
            },
        }
    }
}

/// The first declared field named `name`.
fn find_field(fields: &Vec<FieldBinding>, name: &String) -> (r: Option<usize>)
    ensures
        r matches Some(i) ==> first_index(names(fields@), name@, i as int),
        r is None ==> absent(names(fields@), name@),
{
    let mut i: usize = 0;
    while i < fields.len()
        invariant
            i <= fields@.len(),
            forall|j: int| 0 <= j < i ==> names(fields@)[j] != name@,
        decreases fields.len() - i,
    {
        if fields[i].name == *name {
            return Some(i);
        }
        i = i + 1;
    }
    None
}

/// The first entry named `key`.
pub(crate) fn find_key(entries: &Vec<(String, Node)>, key: &String) -> (r: Option<usize>)
    ensures
        r matches Some(i) ==> first_index(keys(entries@), key@, i as int),
        r is None ==> absent(keys(entries@), key@),
{
    let mut i: usize = 0;
    while i < entries.len()
        invariant
            i <= entries@.len(),
            forall|j: int| 0 <= j < i ==> keys(entries@)[j] != key@,
        decreases entries.len() - i,
    {
        if entries[i].0 == *key {
            return Some(i);
        }
        i = i + 1;
    }
    None
}

/// Replaces the element at `i` by `x` and returns the element it held.
pub(crate) fn replace_at<T>(v: &mut Vec<T>, i: usize, x: T) -> (r: T)
    requires
        i < old(v).len(),
    ensures
        r == old(v)@[i as int],
        final(v)@ == old(v)@.update(i as int, x),
{
    v.push(x);
    v.swap_remove(i)
}

impl Schema {
    pub fn new() -> (r: Schema)
        ensures
            r.types@.len() == 0,
    {
        Schema { types: Vec::new() }
    }

    /// Adds a record type and returns its index.
    pub fn add(&mut self, t: RecordType) -> (r: usize)
        ensures
            r == old(self).types@.len(),
            final(self).types@ == old(self).types@.push(t),
    {
        let r = self.types.len();
        self.types.push(t);
        r
    }

    /// The default value of `shape`.
    pub fn default_node(&self, shape: &Shape) -> (r: Node)
        ensures
            self.is_default(*shape, r),
    {
        match shape {
            Shape::Primitive(PrimitiveValueKind::String) => Node::Primitive(PrimitiveValue::String(String::new())),
            Shape::Primitive(PrimitiveValueKind::Bool) => Node::Primitive(PrimitiveValue::Bool(false)),
            Shape::Any => Node::Any(JsonValue::Null),
            Shape::Record(t) => Node::Record(Record::new(self, *t)),
            Shape::Reference(t) => Node::Reference(*t, Reference::new()),
            Shape::List(s) => Node::List(s.copy(), Vec::new()),
            Shape::Dict(s) => Node::Dict(s.copy(), Vec::new()),
        }
    }

    /// Find-or-insert: the index of the first entry named `key`, after
    /// appending a default entry of `shape` if there was none.
    pub fn entry(&self, entries: &mut Vec<(String, Node)>, shape: &Shape, key: &str) -> (r: usize)
        ensures
            self.entry_post(*shape, old(entries)@, final(entries)@, key@, r as int),
            unique(keys(old(entries)@)) ==> unique(keys(final(entries)@)),
    {
        let k = key.to_owned();
        match find_key(entries, &k) {
            Some(j) => j,
            None => {
                let j = entries.len();
                let d = self.default_node(shape);
                let ghost e0 = entries@;
                entries.push((k, d));
                proof {
                    if unique(keys(e0)) {
                        assert forall|a: int, b: int| 0 <= a < b < entries@.len() implies keys(entries@)[a] != keys(
                            entries@,
                        )[b] by {
                            if b < e0.len() {
                                assert(keys(entries@)[a] == keys(e0)[a]);
                                assert(keys(entries@)[b] == keys(e0)[b]);
                            } else {
                                assert(keys(entries@)[a] == keys(e0)[a]);
                                assert(keys(entries@)[b] == key@);
                                assert(keys(e0)[a] != key@);
                            }
                        }
                    }
                }
                j
            },
        }
    }

    /// Appends a default entry of `shape` and returns its index.
    pub fn push_default(&self, items: &mut Vec<Node>, shape: &Shape) -> (r: usize)
        ensures
            r == old(items)@.len(),
            final(items)@ == old(items)@.push(final(items)@[r as int]),
            self.is_default(*shape, final(items)@[r as int]),
    {
        let r = items.len();
        let d = self.default_node(shape);
        items.push(d);
        r
    }
}

impl RecordType {
    pub fn new() -> (r: RecordType)
        ensures
            r.fields@.len() == 0,
            r.catch_all is None,
    {
        RecordType { fields: Vec::new(), catch_all: None }
    }

    /// Declares a field; a name may be declared once.
    pub fn add_field(&mut self, name: &str, shape: Shape, optional: bool) -> (r: Result<(), BindError>)
        ensures
            r is Ok <==> absent(names(old(self).fields@), name@),
            r is Ok ==> final(self).fields@.len() == old(self).fields@.len() + 1
                && final(self).fields@.drop_last() == old(self).fields@
                && final(self).fields@.last().name@ == name@
                && final(self).fields@.last().shape == shape
                && final(self).fields@.last().optional == optional,
            r is Ok ==> final(self).catch_all == old(self).catch_all,
            r matches Err(e) ==> e is DuplicateField && e->DuplicateField_name@ == name@,
            r is Err ==> *final(self) == *old(self),
    {
        let k = name.to_owned();
        match find_field(&self.fields, &k) {
            Some(_) => Err(BindError::DuplicateField { name: k }),
            None => {
                self.fields.push(FieldBinding { name: k, shape, optional });
                proof {
                    assert(final(self).fields@.drop_last() =~= old(self).fields@);
                }
                Ok(())
            },
        }
    }

    /// Declares the catch-all field, whose entries have `shape`; there is at most one.
    pub fn set_catch_all(&mut self, shape: Shape) -> (r: Result<(), BindError>)
        ensures
            r is Ok <==> old(self).catch_all is None,
            r is Ok ==> final(self).catch_all == Some(shape) && final(self).fields == old(self).fields,
            r is Err ==> r == Err::<(), BindError>(BindError::DuplicateCatchAll) && *final(self) == *old(self),
    {
        if self.catch_all.is_some() {
            Err(BindError::DuplicateCatchAll)
        } else {
            self.catch_all = Some(shape);
            Ok(())
        }
    }
}

impl Record {
    /// A record of type `ty` on which nothing has been addressed.
    pub fn new(schema: &Schema, ty: usize) -> (r: Record)
        ensures
            schema.is_fresh(ty as int, r),
    {
        let n = if ty < schema.types.len() { schema.types[ty].fields.len() } else { 0 };
        let mut fields: Vec<Option<Node>> = Vec::new();
        let mut i: usize = 0;
        while i < n
            invariant
                i <= n,
                n == schema.field_count(ty as int),
                fields@.len() == i,
                forall|j: int| 0 <= j < i ==> fields@[j] is None,
            decreases n - i,
        {
            fields.push(None);
            i = i + 1;
        }
        Record { ty, fields, extensions: Vec::new() }
    }

    /// Locates the field named `name`, materializing its default value on
    /// first access; a name that no field declares goes to the catch-all map.
    pub fn create(&mut self, schema: &Schema, name: &str) -> (r: Result<FieldSlot, ReflectionError>)
        ensures
            schema.create_post(*old(self), *final(self), name@, r),
            unique(keys(old(self).extensions@)) ==> unique(keys(final(self).extensions@)),
    {
        if self.ty >= schema.types.len() || self.fields.len() != schema.types[self.ty].fields.len() {
            return Err(ReflectionError::InvalidField { name: name.to_owned() });
        }
        let b = &schema.types[self.ty];
        let k = name.to_owned();
        match find_field(&b.fields, &k) {
            Some(i) => {
                if self.fields[i].is_none() {
                    let d = schema.default_node(&b.fields[i].shape);
                    let _ = replace_at(&mut self.fields, i, Some(d));
                } else {
                    proof {
                        assert(self.fields@ =~= self.fields@.update(i as int, self.fields@[i as int]));
                    }
                }
                Ok(FieldSlot::Field(i))
            },
            None => match &b.catch_all {
                Some(shape) => {
                    let j = schema.entry(&mut self.extensions, shape, name);
                    Ok(FieldSlot::Extension(j))
                },
                None => Err(ReflectionError::UnknownField { name: k }),
            },
        }
    }
}

/// A key occurs at most once among the first index of each name.
pub proof fn lemma_first_index_unique(ks: Seq<Seq<char>>, k: Seq<char>, i: int, j: int)
    requires
        first_index(ks, k, i),
        first_index(ks, k, j),
    ensures
        i == j,
{
    if i < j {
        assert(ks[i] == k);
    } else if j < i {
        assert(ks[j] == k);
    }
}

/// Addressing the same field twice in a row: the second call answers the slot
/// of the first and changes nothing, so both reach the same storage and a
/// value materialized or written in between is kept.
pub proof fn lemma_create_idempotent(
    schema: Schema,
    r0: Record,
    r1: Record,
    r2: Record,
    name: Seq<char>,
    a: Result<FieldSlot, ReflectionError>,
    b: Result<FieldSlot, ReflectionError>,
)
    requires
        schema.create_post(r0, r1, name, a),
        schema.create_post(r1, r2, name, b),
        a is Ok,
    ensures
        b == a,
        r2.ty == r1.ty,
        r2.fields@ == r1.fields@,
        r2.extensions@ == r1.extensions@,
{
    let ks = names(schema.types@[r0.ty as int].fields@);
    match a {
        Ok(FieldSlot::Field(i)) => {
            assert(ks[i as int] == name);
            match b {
                Ok(FieldSlot::Field(i2)) => {
                    assert(i2 == i) by {
                        if i2 < i {
                            assert(ks[i2 as int] == name);
                        } else if i < i2 {
                            assert(ks[i as int] == name);
                        }
                    }
                },
                Ok(FieldSlot::Extension(_)) => {
                    assert(ks[i as int] == name);
                },
                Err(_) => {
                    assert(ks[i as int] == name);
                },
            }
        },
        Ok(FieldSlot::Extension(j)) => {
            let c = schema.types@[r0.ty as int].catch_all->Some_0;
            let k1 = keys(r1.extensions@);
            assert(first_index(k1, name, j as int)) by {
                if !first_index(keys(r0.extensions@), name, j as int) {
                    assert forall|m: int| 0 <= m < j implies k1[m] != name by {
                        assert(k1[m] == keys(r0.extensions@)[m]);
                    }
                }
            }
            match b {
                Ok(FieldSlot::Extension(j2)) => {
                    if !first_index(k1, name, j2 as int) {
                        assert(k1[j as int] == name);
                    }
                    assert(j2 == j) by {
                        if j2 < j {
                            assert(k1[j2 as int] == name);
                        }
                    }
                },
                _ => {},
            }
        },
        Err(_) => {},
    }
}

/// Addressing a field touches no other declared field: one never addressed
/// keeps its absent state.
pub proof fn lemma_create_touches_one_field(
    schema: Schema,
    r0: Record,
    r1: Record,
    name: Seq<char>,
    a: Result<FieldSlot, ReflectionError>,
    k: int,
)
    requires
        schema.create_post(r0, r1, name, a),
        0 <= k < r0.fields@.len(),
        a != Ok::<FieldSlot, ReflectionError>(FieldSlot::Field(k as usize)),
    ensures
        r1.fields@.len() == r0.fields@.len(),
        r1.fields@[k] == r0.fields@[k],
{
}

/// A name that the record type does not declare goes to the catch-all map,
/// under that very name; with no catch-all it is an unknown field.
pub proof fn lemma_catch_all_routing(
    schema: Schema,
    r0: Record,
    r1: Record,
    name: Seq<char>,
    a: Result<FieldSlot, ReflectionError>,
)
    requires
        schema.create_post(r0, r1, name, a),
        schema.binds(r0),
        absent(names(schema.types@[r0.ty as int].fields@), name),
    ensures
        schema.types@[r0.ty as int].catch_all is Some ==> (a matches Ok(FieldSlot::Extension(j)) && j
            < r1.extensions@.len() && r1.extensions@[j as int].0@ == name),
        schema.types@[r0.ty as int].catch_all is None ==> (a matches Err(e) && e is UnknownField
            && e->UnknownField_name@ == name && r1 == r0),
{
    let ks = names(schema.types@[r0.ty as int].fields@);
    match a {
        Ok(FieldSlot::Field(i)) => {
            assert(ks[i as int] == name);
        },
        Ok(FieldSlot::Extension(j)) => {
            if first_index(keys(r0.extensions@), name, j as int) {
                assert(keys(r0.extensions@)[j as int] == name);
            }
        },
        Err(_) => {},
    }
}

} // verus!

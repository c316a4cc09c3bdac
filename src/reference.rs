use vstd::prelude::*;
use crate::reflection::{Primitive, PrimitiveValue, PrimitiveValueKind, ReflectionError, mismatch};
use crate::schema::{FieldSlot, Node, Record, Schema, absent, first_index, keys, names, replace_at};

verus! {

/// A bare reference to a definition elsewhere in the document.
#[derive(Debug, PartialEq, Eq)]
pub struct ReferenceValue {
    /// The pointer held under the `$ref` key.
    pub reference: String,
}

/// Either a bare `$ref` pointer or an inline value of `T`, decided by which
/// fields actually appear.
#[derive(Debug, PartialEq, Eq)]
pub enum Reference<T> {
    Reference(ReferenceValue),
    Other(T),
}

/// Where `Reference::create` led.
#[derive(Debug, Clone, Copy, PartialEq, Eq, Structural)]
pub enum RefSlot {
    /// The pointer string of a union still in the referencing state.
    Marker,
    /// A field of the inline record.
    Inner(FieldSlot),
}

/// The name of the reference marker.
pub open spec fn marker() -> Seq<char> {
    seq!['$', 'r', 'e', 'f']
}

/// A primitive node holding the string `s`.
pub open spec fn holds_string(n: Node, s: Seq<char>) -> bool {
    n is Primitive && n->Primitive_0 is String && n->Primitive_0->String_0@ == s
}

impl Schema {
    /// The marker of record type `ty` is surfaced with `shape`: as its declared
    /// field of that name, or, when it declares none, as a catch-all entry.
    pub open spec fn marker_shape_is(&self, ty: int, shape: crate::schema::Shape) -> bool {
        let b = self.types@[ty];
        ||| exists|i: int| first_index(names(b.fields@), marker(), i) && b.fields@[i].shape == shape
        ||| absent(names(b.fields@), marker()) && b.catch_all == Some(shape)
    }

    /// The marker of record type `ty` takes a string.
    pub open spec fn takes_marker_string(&self, ty: int) -> bool {
        self.marker_shape_is(ty, crate::schema::Shape::Primitive(PrimitiveValueKind::String))
    }

    /// `r` is a record of type `ty` in which only the marker has been set, to `ptr`.
    pub open spec fn marker_only(&self, ty: int, r: Record, ptr: Seq<char>) -> bool {
        let b = self.types@[ty];
        &&& r.ty == ty
        &&& self.binds(r)
        &&& {
            ||| exists|i: int|
                {
                    &&& first_index(names(b.fields@), marker(), i)
                    &&& r.extensions@.len() == 0
                    &&& r.fields@[i] is Some && holds_string(r.fields@[i]->Some_0, ptr)
                    &&& forall|j: int| 0 <= j < r.fields@.len() && j != i ==> r.fields@[j] is None
                }
            ||| {
                &&& absent(names(b.fields@), marker())
                &&& r.extensions@.len() == 1
                &&& r.extensions@[0].0@ == marker()
                &&& holds_string(r.extensions@[0].1, ptr)
                &&& forall|j: int| 0 <= j < r.fields@.len() ==> r.fields@[j] is None
            }
        }
    }

    /// A fresh record of type `ty` after its marker was set to `ptr`, which
    /// gave `res`: a non-empty pointer is forwarded, an empty one means none.
    pub open spec fn resolve_post(
        &self,
        ty: int,
        ptr: Seq<char>,
        r: Record,
        res: Result<(), ReflectionError>,
    ) -> bool {
        let bool_marker = 0 <= ty < self.types@.len() && self.marker_shape_is(
            ty,
            crate::schema::Shape::Primitive(PrimitiveValueKind::Bool),
        );
        &&& ptr.len() == 0 ==> res is Ok && self.is_fresh(ty, r)
        &&& ptr.len() > 0 ==> (res is Ok <==> 0 <= ty < self.types@.len() && self.takes_marker_string(ty))
        &&& ptr.len() > 0 && res is Ok ==> self.marker_only(ty, r, ptr)
        &&& res matches Err(e) ==> r.ty == ty && (bool_marker ==> e == mismatch(
            PrimitiveValueKind::Bool,
            PrimitiveValueKind::String,
        )) && (!bool_marker ==> e is InvalidField && e->InvalidField_name@ == marker())
        &&& res is Err ==> exists|f: Record, c: Result<FieldSlot, ReflectionError>|
            self.is_fresh(ty, f) && self.create_post(f, r, marker(), c)
    }

    /// What `Reference::create(name)` does on a union whose inline form has type `ty`.
    pub open spec fn reference_create_post(
        &self,
        ty: int,
        old: Reference<Record>,
        new: Reference<Record>,
        name: Seq<char>,
        r: Result<RefSlot, ReflectionError>,
    ) -> bool {
        match old {
            Reference::Other(o) => {
                &&& new is Other
                &&& !(r matches Ok(RefSlot::Marker))
                &&& r matches Ok(RefSlot::Inner(s)) ==> self.create_post(o, new->Other_0, name, Ok(s))
                &&& r matches Err(e) ==> self.create_post(o, new->Other_0, name, Err(e))
            },
            Reference::Reference(rv) => if name == marker() {
                r == Ok::<RefSlot, ReflectionError>(RefSlot::Marker) && new == old
            } else {
                &&& new is Other
                &&& !(r matches Ok(RefSlot::Marker))
                &&& exists|mid: Record, fwd: Result<(), ReflectionError>|
                    {
                        &&& self.resolve_post(ty, rv.reference@, mid, fwd)
                        &&& fwd matches Err(e) ==> r == Err::<RefSlot, ReflectionError>(e) && new
                            == Reference::<Record>::Other(mid)
                        &&& fwd is Ok ==> (r matches Ok(RefSlot::Inner(s)) ==> self.create_post(
                            mid,
                            new->Other_0,
                            name,
                            Ok(s),
                        ))
                        &&& fwd is Ok ==> (r matches Err(e) ==> self.create_post(mid, new->Other_0, name, Err(e)))
                    }
            },
        }
    }
}

/// Sets the primitive node `n` to the string `s`; fails with `InvalidField`
/// on a node that is not primitive.
fn set_marker(n: &mut Node, s: String) -> (r: Result<(), ReflectionError>)
    ensures
        *old(n) is Primitive && old(n)->Primitive_0 is String ==> r is Ok && holds_string(*final(n), s@),
        *old(n) is Primitive && old(n)->Primitive_0 is Bool ==> r == Err::<(), ReflectionError>(
            mismatch(PrimitiveValueKind::Bool, PrimitiveValueKind::String),
        ),
        r is Err ==> *final(n) == *old(n),
        !(*old(n) is Primitive) ==> (r matches Err(e) && e is InvalidField && e->InvalidField_name@ == marker()),
{
    match n {
        Node::Primitive(p) => p.set(PrimitiveValue::String(s)),
        _ => {
            let name = "$ref".to_owned();
            proof {
                reveal_strlit("$ref");
            }
            Err(ReflectionError::InvalidField { name })
        },
    }
}

impl Reference<Record> {
    /// A fresh inline record of type `ty` carrying the pointer `ptr` forward
    /// into its own marker field; an empty pointer is dropped.
    pub fn resolve(schema: &Schema, ty: usize, ptr: String) -> (r: (Record, Result<(), ReflectionError>))
        ensures
            schema.resolve_post(ty as int, ptr@, r.0, r.1),
    {
        let mut rec = Record::new(schema, ty);
        if ptr.as_str().is_empty() {
            return (rec, Ok(()));
        }
        proof {
            reveal_strlit("$ref");
            assert("$ref"@ =~= marker());
        }
        let ghost fresh = rec;
        let c = rec.create(schema, "$ref");
        let ghost created = rec;
        match c {
            Err(_) => {
                proof {
                    if 0 <= ty < schema.types@.len() {
                        let ks = names(schema.types@[ty as int].fields@);
                        if exists|i: int| first_index(ks, marker(), i) {
                            let i = choose|i: int| first_index(ks, marker(), i);
                            assert(ks[i] == marker());
                        }
                    }
                    assert(schema.create_post(fresh, rec, marker(), c));
                }
                (rec, Err(ReflectionError::InvalidField { name: "$ref".to_owned() }))
            },
            Ok(FieldSlot::Field(i)) => {
                let taken = replace_at(&mut rec.fields, i, None);
                let mut n = taken.unwrap();
                let res = set_marker(&mut n, ptr);
                let _ = replace_at(&mut rec.fields, i, Some(n));
                proof {
                    let b = schema.types@[ty as int];
                    let ks = names(b.fields@);
                    assert forall|i2: int| first_index(ks, marker(), i2) implies i2 == i by {
                        crate::schema::lemma_first_index_unique(ks, marker(), i as int, i2);
                    }
                    if res is Err {
                        assert(rec.fields@ =~= created.fields@);
                        assert(schema.create_post(fresh, rec, marker(), c));
                    }
                    if res is Ok {
                        assert(rec.fields@[i as int] is Some && holds_string(rec.fields@[i as int]->Some_0, ptr@));
                        assert forall|j: int| 0 <= j < rec.fields@.len() && j != i implies rec.fields@[j] is None by {
                            assert(fresh.fields@[j] is None);
                        }
                    }
                }
                (rec, res)
            },
            Ok(FieldSlot::Extension(j)) => {
                let (k, mut n) = replace_at(&mut rec.extensions, j, (String::new(), Node::Primitive(PrimitiveValue::Bool(false))));
                let res = set_marker(&mut n, ptr);
                let _ = replace_at(&mut rec.extensions, j, (k, n));
                proof {
                    assert(fresh.extensions@.len() == 0);
                    let ks = names(schema.types@[ty as int].fields@);
                    if exists|i: int| first_index(ks, marker(), i) {
                        let i = choose|i: int| first_index(ks, marker(), i);
                        assert(ks[i] == marker());
                    }
                    if res is Err {
                        assert(rec.extensions@ =~= created.extensions@);
                        assert(schema.create_post(fresh, rec, marker(), c));
                    }
                    if res is Ok {
                        assert forall|jj: int| 0 <= jj < rec.fields@.len() implies rec.fields@[jj] is None by {
                            assert(fresh.fields@[jj] is None);
                        }
                    }
                }
                (rec, res)
            },
        }
    }

    /// Addresses the field `name`. The marker `$ref` of a union in the
    /// referencing state is its pointer string; any other name turns the union
    /// for good into an inline record of type `ty`, into which a non-empty
    /// pointer is forwarded before `name` is addressed there.
    pub fn create(&mut self, schema: &Schema, ty: usize, name: &str) -> (r: Result<RefSlot, ReflectionError>)
        ensures
            schema.reference_create_post(ty as int, *old(self), *final(self), name@, r),
    {
        match self {
            Reference::Other(rec) => match rec.create(schema, name) {
                Ok(s) => Ok(RefSlot::Inner(s)),
                Err(e) => Err(e),
            },
            Reference::Reference(rv) => {
                let k = name.to_owned();
                let m = "$ref".to_owned();
                proof {
                    reveal_strlit("$ref");
                    assert(m@ =~= marker());
                }
                if k == m {
                    return Ok(RefSlot::Marker);
                }
                let mut ptr = String::new();
                std::mem::swap(&mut ptr, &mut rv.reference);
                let ghost p = ptr@;
                let (mut rec, fwd) = Reference::resolve(schema, ty, ptr);
                let ghost mid = rec;
                match fwd {
                    Err(e) => {
                        *self = Reference::Other(rec);
                        proof {
                            assert(schema.resolve_post(ty as int, p, mid, fwd));
                        }
                        Err(e)
                    },
                    Ok(()) => {
                        let r = rec.create(schema, name);
                        *self = Reference::Other(rec);
                        proof {
                            assert(schema.resolve_post(ty as int, p, mid, fwd));
                        }
                        match r {
                            Ok(s) => Ok(RefSlot::Inner(s)),
                            Err(e) => Err(e),
                        }
                    },
                }
            },
        }
    }
}

impl<T> Reference<T> {
    /// The initial state: referencing the empty pointer, which means "no reference".
    pub fn new() -> (r: Reference<T>)
        ensures
            r is Reference && r->Reference_0.reference@.len() == 0,
    {
        Reference::Reference(ReferenceValue { reference: String::new() })
    }
}

impl Schema {
    /// The marker of `r` holds `ptr`: its declared marker field, or else the
    /// first catch-all entry, under the marker's name.
    pub open spec fn has_marker(&self, r: Record, ptr: Seq<char>) -> bool {
        let b = self.types@[r.ty as int];
        ||| exists|i: int|
            first_index(names(b.fields@), marker(), i) && r.fields@[i] is Some && holds_string(
                r.fields@[i]->Some_0,
                ptr,
            )
        ||| {
            &&& absent(names(b.fields@), marker())
            &&& r.extensions@.len() >= 1
            &&& r.extensions@[0].0@ == marker()
            &&& holds_string(r.extensions@[0].1, ptr)
        }
    }

    /// Nothing was stored under the marker of `r`.
    pub open spec fn lacks_marker(&self, r: Record) -> bool {
        let b = self.types@[r.ty as int];
        &&& forall|i: int| first_index(names(b.fields@), marker(), i) ==> r.fields@[i] is None
        &&& forall|k: int| 0 <= k < r.extensions@.len() ==> r.extensions@[k].0@ != marker()
    }
}

/// Addressing a field other than the marker turns a referencing union into an
/// inline record of its type, for good. A non-empty pointer is carried into
/// the record's marker when the type takes a string there; an empty one
/// leaves the marker unset.
pub proof fn lemma_reference_transition(
    schema: Schema,
    ty: int,
    old: Reference<Record>,
    new: Reference<Record>,
    name: Seq<char>,
    r: Result<RefSlot, ReflectionError>,
)
    requires
        schema.reference_create_post(ty, old, new, name, r),
        old is Reference,
        name != marker(),
        0 <= ty < schema.types@.len(),
        r is Ok,
    ensures
        new is Other,
        new->Other_0.ty == ty,
        old->Reference_0.reference@.len() > 0 && schema.takes_marker_string(ty) ==> schema.has_marker(
            new->Other_0,
            old->Reference_0.reference@,
        ),
        old->Reference_0.reference@.len() == 0 ==> schema.lacks_marker(new->Other_0),
{
    let ptr = old->Reference_0.reference@;
    let (mid, fwd) = choose|mid: Record, fwd: Result<(), ReflectionError>|
        {
            &&& schema.resolve_post(ty, ptr, mid, fwd)
            &&& fwd matches Err(e) ==> r == Err::<RefSlot, ReflectionError>(e) && new
                == Reference::<Record>::Other(mid)
            &&& fwd is Ok ==> (r matches Ok(RefSlot::Inner(s)) ==> schema.create_post(
                mid,
                new->Other_0,
                name,
                Ok(s),
            ))
            &&& fwd is Ok ==> (r matches Err(e) ==> schema.create_post(mid, new->Other_0, name, Err(e)))
        };
    let s = r->Ok_0->Inner_0;
    let rec = new->Other_0;
    assert(schema.create_post(mid, rec, name, Ok(s)));
    let ks = names(schema.types@[ty].fields@);
    if ptr.len() > 0 && schema.takes_marker_string(ty) {
        assert(schema.marker_only(ty, mid, ptr));
        if exists|i: int|
            {
                &&& first_index(ks, marker(), i)
                &&& mid.extensions@.len() == 0
                &&& mid.fields@[i] is Some && holds_string(mid.fields@[i]->Some_0, ptr)
                &&& forall|j: int| 0 <= j < mid.fields@.len() && j != i ==> mid.fields@[j] is None
            } {
            let i = choose|i: int|
                {
                    &&& first_index(ks, marker(), i)
                    &&& mid.extensions@.len() == 0
                    &&& mid.fields@[i] is Some && holds_string(mid.fields@[i]->Some_0, ptr)
                    &&& forall|j: int| 0 <= j < mid.fields@.len() && j != i ==> mid.fields@[j] is None
                };
            if let FieldSlot::Field(i2) = s {
                assert(ks[i2 as int] == name);
                assert(i2 != i);
            }
            assert(rec.fields@[i] == mid.fields@[i]);
        } else {
            if let FieldSlot::Extension(j) = s {
                if !first_index(keys(mid.extensions@), name, j as int) {
                    assert(rec.extensions@[0] == mid.extensions@[0]);
                }
            }
        }
    }
    if ptr.len() == 0 {
        assert(schema.is_fresh(ty, mid));
        match s {
            FieldSlot::Field(i2) => {
                assert forall|i: int| first_index(ks, marker(), i) implies rec.fields@[i] is None by {
                    assert(ks[i2 as int] == name);
                    assert(mid.fields@[i] is None);
                }
            },
            FieldSlot::Extension(j) => {
                assert forall|i: int| first_index(ks, marker(), i) implies rec.fields@[i] is None by {
                    assert(mid.fields@[i] is None);
                }
                assert forall|k: int| 0 <= k < rec.extensions@.len() implies rec.extensions@[k].0@ != marker() by {
                    assert(k == j);
                }
            },
        }
    }
}

} // verus!

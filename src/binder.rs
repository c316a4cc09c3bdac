use vstd::prelude::*;
use crate::reflection::PrimitiveValueKind;
use crate::schema::{BindError, RecordType, Shape, absent, names};

verus! {

/// The type of a field as a record type declares it.
#[derive(Debug, PartialEq, Eq)]
pub enum DeclaredType {
    /// A scalar: a string or a boolean.
    Scalar(PrimitiveValueKind),
    /// An untyped value tree.
    Opaque,
    /// A record of the record type with this index.
    Record(usize),
    /// A reference-or-inline union over the record type with this index.
    Reference(usize),
    /// An ordered collection of the inner type.
    Sequence(Box<DeclaredType>),
    /// A keyed map from names to the inner type.
    Keyed(Box<DeclaredType>),
    /// Present-or-absent; only at the top of a field's type.
    Optional(Box<DeclaredType>),
}

/// The marker a field carries.
#[derive(Debug, Clone, Copy, PartialEq, Eq, Structural)]
pub enum Marker {
    /// No marker: a nested object, or a sequence.
    Plain,
    /// A scalar field, or a sequence of scalars.
    Scalar,
    /// An opaque field, read verbatim.
    Opaque,
    /// The catch-all field: a keyed map that takes every undeclared name.
    CatchAll,
}

/// A type with no `Optional` inside it.
pub open spec fn plain_type(t: DeclaredType) -> bool
    decreases t,
{
    match t {
        DeclaredType::Sequence(x) => plain_type(*x),
        DeclaredType::Keyed(x) => plain_type(*x),
        DeclaredType::Optional(_) => false,
        _ => true,
    }
}

/// `s` is the shape of the plain type `t`, one for one.
pub open spec fn shape_matches(t: DeclaredType, s: Shape) -> bool
    decreases t,
{
    match t {
        DeclaredType::Scalar(k) => s == Shape::Primitive(k),
        DeclaredType::Opaque => s == Shape::Any,
        DeclaredType::Record(i) => s == Shape::Record(i),
        DeclaredType::Reference(i) => s == Shape::Reference(i),
        DeclaredType::Sequence(x) => s is List && shape_matches(*x, *s->List_0),
        DeclaredType::Keyed(x) => s is Dict && shape_matches(*x, *s->Dict_0),
        DeclaredType::Optional(_) => false,
    }
}

/// The type inside an optional one.
pub open spec fn strip(t: DeclaredType) -> DeclaredType {
    match t {
        DeclaredType::Optional(x) => *x,
        _ => t,
    }
}

/// A field of type `t` with marker `m` can be bound: an opaque marker takes
/// any type; the catch-all must be a keyed map; a sequence takes a plain or
/// scalar marker; a scalar marker needs a scalar; an unmarked field must be a
/// record, a reference union or a keyed map.
pub open spec fn bindable(t: DeclaredType, m: Marker) -> bool {
    let i = strip(t);
    match m {
        Marker::Opaque => true,
        Marker::CatchAll => i is Keyed && plain_type(*i->Keyed_0),
        Marker::Scalar => plain_type(i) && (i is Sequence || i is Scalar),
        Marker::Plain => plain_type(i) && (i is Sequence || i is Record || i is Reference || i is Keyed),
    }
}

/// The shape that a bindable field of type `t` with marker `m` is surfaced
/// as (for the catch-all: the shape of its entries). Precedence: opaque, then
/// the field's own structure (sequence, scalar or nested object).
pub open spec fn binds_as(t: DeclaredType, m: Marker, s: Shape) -> bool {
    let i = strip(t);
    match m {
        Marker::Opaque => s == Shape::Any,
        Marker::CatchAll => shape_matches(*i->Keyed_0, s),
        _ => shape_matches(i, s),
    }
}

/// The shape of a plain type; `None` when an `Optional` is nested inside.
pub fn to_shape(t: &DeclaredType) -> (r: Option<Shape>)
    ensures
        r is Some <==> plain_type(*t),
        r matches Some(s) ==> shape_matches(*t, s),
    decreases t,
{
    match t {
        DeclaredType::Scalar(k) => Some(Shape::Primitive(*k)),
        DeclaredType::Opaque => Some(Shape::Any),
        DeclaredType::Record(i) => Some(Shape::Record(*i)),
        DeclaredType::Reference(i) => Some(Shape::Reference(*i)),
        DeclaredType::Sequence(x) => match to_shape(x) {
            Some(s) => Some(Shape::List(Box::new(s))),
            None => None,
        },
        DeclaredType::Keyed(x) => match to_shape(x) {
            Some(s) => Some(Shape::Dict(Box::new(s))),
            None => None,
        },
        DeclaredType::Optional(_) => None,
    }
}

/// The shape a field of type `t` with marker `m` is surfaced as, if it can be bound.
fn classify(t: &DeclaredType, m: Marker) -> (r: Option<Shape>)
    ensures
        r is Some <==> bindable(*t, m),
        r matches Some(s) ==> binds_as(*t, m, s),
{
    let inner = match t {
        DeclaredType::Optional(x) => &**x,
        _ => t,
    };
    match m {
        Marker::Opaque => Some(Shape::Any),
        Marker::CatchAll => match inner {
            DeclaredType::Keyed(x) => to_shape(x),
            _ => None,
        },
        Marker::Scalar => match inner {
            DeclaredType::Sequence(_) | DeclaredType::Scalar(_) => to_shape(inner),
            _ => None,
        },
        Marker::Plain => match inner {
            DeclaredType::Sequence(_) | DeclaredType::Record(_) | DeclaredType::Reference(_)
            | DeclaredType::Keyed(_) => to_shape(inner),
            _ => None,
        },
    }
}

impl RecordType {
    /// Binds a declared field: classifies it by its type and marker, and adds
    /// it as a field, or as the catch-all. A field that cannot be bound, a
    /// second field of one name and a second catch-all are definition errors.
    pub fn declare(&mut self, name: &str, t: &DeclaredType, m: Marker) -> (r: Result<(), BindError>)
        ensures
            !bindable(*t, m) ==> (r matches Err(e) && e is Unbindable && e->Unbindable_name@ == name@),
            bindable(*t, m) && m == Marker::CatchAll ==> {
                &&& r is Ok <==> old(self).catch_all is None
                &&& r is Err ==> r == Err::<(), BindError>(BindError::DuplicateCatchAll)
                &&& r is Ok ==> final(self).fields == old(self).fields && final(self).catch_all is Some
                    && binds_as(*t, m, final(self).catch_all->Some_0)
            },
            bindable(*t, m) && m != Marker::CatchAll ==> {
                &&& r is Ok <==> absent(names(old(self).fields@), name@)
                &&& r matches Err(e) ==> e is DuplicateField && e->DuplicateField_name@ == name@
                &&& r is Ok ==> final(self).catch_all == old(self).catch_all
                    && final(self).fields@.len() == old(self).fields@.len() + 1
                    && final(self).fields@.drop_last() == old(self).fields@
                    && final(self).fields@.last().name@ == name@
                    && binds_as(*t, m, final(self).fields@.last().shape)
                    && final(self).fields@.last().optional == (*t is Optional)
            },
            r is Err ==> *final(self) == *old(self),
    {
        match classify(t, m) {
            None => Err(BindError::Unbindable { name: name.to_owned() }),
            Some(s) => match m {
                Marker::CatchAll => self.set_catch_all(s),
                _ => {
                    let optional = matches!(t, DeclaredType::Optional(_));
                    self.add_field(name, s, optional)
                },
            },
        }
    }
}

} // verus!

use vstd::prelude::*;
use crate::reference::RefSlot;
use crate::reflection::ReflectionError;
use crate::schema::{FieldSlot, Node, Schema};

verus! {

/// A view handed out by `Node::create`: where the addressed value lives
/// inside the node. Its tag is the tag of the node found there.
#[derive(Debug, Clone, Copy, PartialEq, Eq, Structural)]
pub enum FieldView {
    /// A field or catch-all entry of a record, or of the inline record of a
    /// reference union.
    Slot(FieldSlot),
    /// The pointer string of a reference union still in the referencing state.
    Marker,
    /// The entry of a keyed map with this index.
    Entry(usize),
}

/// A node that fields can be addressed in: a record, a reference union or a keyed map.
pub open spec fn is_object_like(n: Node) -> bool {
    n is Record || n is Reference || n is Dict
}

impl Schema {
    /// What `Node::create(name)` does: `new` is `old` afterwards, `r` its answer.
    pub open spec fn node_create_post(
        &self,
        old: Node,
        new: Node,
        name: Seq<char>,
        r: Result<FieldView, ReflectionError>,
    ) -> bool {
        match old {
            Node::Record(o) => new is Record && match r {
                Ok(FieldView::Slot(s)) => self.create_post(o, new->Record_0, name, Ok(s)),
                Err(e) => self.create_post(o, new->Record_0, name, Err(e)),
                _ => false,
            },
            Node::Reference(t, o) => new is Reference && new->Reference_0 == t && match r {
                Ok(FieldView::Marker) => self.reference_create_post(
                    t as int,
                    o,
                    new->Reference_1,
                    name,
                    Ok(RefSlot::Marker),
                ),
                Ok(FieldView::Slot(s)) => self.reference_create_post(
                    t as int,
                    o,
                    new->Reference_1,
                    name,
                    Ok(RefSlot::Inner(s)),
                ),
                Err(e) => self.reference_create_post(t as int, o, new->Reference_1, name, Err(e)),
                _ => false,
            },
            Node::Dict(s, es) => new is Dict && new->Dict_0 == s && match r {
                Ok(FieldView::Entry(j)) => self.entry_post(s, es@, new->Dict_1@, name, j as int),
                _ => false,
            },
            _ => false,
        }
    }
}

impl Node {
    /// Locates or materializes the value named `name` inside this node: a
    /// field of a record (or its catch-all entry), the marker or a field of a
    /// reference union, or the entry of a keyed map, inserted by default.
    pub fn create(&mut self, schema: &Schema, name: &str) -> (r: Result<FieldView, ReflectionError>)
        requires
            is_object_like(*old(self)),
        ensures
            schema.node_create_post(*old(self), *final(self), name@, r),
    {
        match self {
            Node::Record(rec) => match rec.create(schema, name) {
                Ok(s) => Ok(FieldView::Slot(s)),
                Err(e) => Err(e),
            },
            Node::Reference(t, r) => match r.create(schema, *t, name) {
                Ok(RefSlot::Marker) => Ok(FieldView::Marker),
                Ok(RefSlot::Inner(s)) => Ok(FieldView::Slot(s)),
                Err(e) => Err(e),
            },
            Node::Dict(s, entries) => Ok(FieldView::Entry(schema.entry(entries, s, name))),
            _ => {
                proof {
                    assert(false);
                }
                Err(ReflectionError::InvalidField { name: name.to_owned() })
            },
        }
    }

    /// Appends a default entry to a list and returns its index; never fails.
    pub fn push(&mut self, schema: &Schema) -> (r: usize)
        requires
            *old(self) is List,
        ensures
            *final(self) is List,
            final(self)->List_0 == old(self)->List_0,
            r == old(self)->List_1@.len(),
            final(self)->List_1@ == old(self)->List_1@.push(final(self)->List_1@[r as int]),
            schema.is_default(old(self)->List_0, final(self)->List_1@[r as int]),
    {
        match self {
            Node::List(s, items) => schema.push_default(items, s),
            _ => {
                proof {
                    assert(false);
                }
                0
            },
        }
    }
}

} // verus!

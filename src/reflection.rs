use vstd::prelude::*;

verus! {

/// The scalar kinds a primitive field can hold.
#[derive(Debug, Clone, Copy, PartialEq, Eq, Structural)]
pub enum PrimitiveValueKind {
    String,
    Bool,
}

/// A scalar value, as handed to a primitive field.
#[derive(Debug, PartialEq, Eq)]
pub enum PrimitiveValue {
    String(String),
    Bool(bool),
}

/// Errors raised by the reflection operations.
#[derive(Debug, PartialEq, Eq)]
pub enum ReflectionError {
    /// A primitive received a value of the wrong kind.
    ValueMismatch { expected: PrimitiveValueKind, actual: PrimitiveValueKind },
    /// No binding takes a field of that name, and there is no catch-all.
    UnknownField { name: String },
    /// The field cannot accept the requested kind of view, or the record's
    /// storage does not fit its binding.
    InvalidField { name: String },
}

impl PrimitiveValue {
    pub open spec fn spec_kind(&self) -> PrimitiveValueKind {
        match self {
            PrimitiveValue::String(_) => PrimitiveValueKind::String,
            PrimitiveValue::Bool(_) => PrimitiveValueKind::Bool,
        }
    }

    /// The kind of this value.
    pub fn kind(&self) -> (r: PrimitiveValueKind)
        ensures
            r == self.spec_kind(),
    {
        match self {
            PrimitiveValue::String(_) => PrimitiveValueKind::String,
            PrimitiveValue::Bool(_) => PrimitiveValueKind::Bool,
        }
    }

}

/// The mismatch error for a value of kind `actual` handed to a primitive of kind `expected`.
pub open spec fn mismatch(expected: PrimitiveValueKind, actual: PrimitiveValueKind) -> ReflectionError {
    ReflectionError::ValueMismatch { expected, actual }
}

/// A location that holds one scalar of a fixed kind.
pub trait Primitive: Sized {
    /// The kind this location accepts.
    spec fn accepted_kind(&self) -> PrimitiveValueKind;

    /// Whether this location holds exactly `v`.
    spec fn holds(&self, v: PrimitiveValue) -> bool;

    fn kind(&self) -> (r: PrimitiveValueKind)
        ensures
            r == self.accepted_kind(),
    ;

    /// Replaces the held value by `value` when its kind is the accepted one;
    /// otherwise fails with `ValueMismatch` and leaves the location unchanged.
    fn set(&mut self, value: PrimitiveValue) -> (r: Result<(), ReflectionError>)
        ensures
            r is Ok <==> value.spec_kind() == old(self).accepted_kind(),
            r is Ok ==> final(self).holds(value),
            final(self).accepted_kind() == old(self).accepted_kind(),
            r is Err ==> *final(self) == *old(self) && r == Err::<(), ReflectionError>(
                mismatch(old(self).accepted_kind(), value.spec_kind()),
            ),
    ;
}

impl Primitive for String {
    open spec fn accepted_kind(&self) -> PrimitiveValueKind {
        PrimitiveValueKind::String
    }

    open spec fn holds(&self, v: PrimitiveValue) -> bool {
        v == PrimitiveValue::String(*self)
    }

    fn kind(&self) -> (r: PrimitiveValueKind) {
        PrimitiveValueKind::String
    }

    fn set(&mut self, value: PrimitiveValue) -> (r: Result<(), ReflectionError>) {
        match value {
            PrimitiveValue::String(s) => {
                *self = s;
                Ok(())
            },
            v => Err(ReflectionError::ValueMismatch { expected: PrimitiveValueKind::String, actual: v.kind() }),
        }
    }
}

impl Primitive for bool {
    open spec fn accepted_kind(&self) -> PrimitiveValueKind {
        PrimitiveValueKind::Bool
    }

    open spec fn holds(&self, v: PrimitiveValue) -> bool {
        v == PrimitiveValue::Bool(*self)
    }

    fn kind(&self) -> (r: PrimitiveValueKind) {
        PrimitiveValueKind::Bool
    }

    fn set(&mut self, value: PrimitiveValue) -> (r: Result<(), ReflectionError>) {
        match value {
            PrimitiveValue::Bool(b) => {
                *self = b;
                Ok(())
            },
            v => Err(ReflectionError::ValueMismatch { expected: PrimitiveValueKind::Bool, actual: v.kind() }),
        }
    }
}

/// A stored primitive keeps the kind of the value it was created with.
impl Primitive for PrimitiveValue {
    open spec fn accepted_kind(&self) -> PrimitiveValueKind {
        self.spec_kind()
    }

    open spec fn holds(&self, v: PrimitiveValue) -> bool {
        *self == v
    }

    fn kind(&self) -> (r: PrimitiveValueKind) {
        PrimitiveValue::kind(self)
    }

    fn set(&mut self, value: PrimitiveValue) -> (r: Result<(), ReflectionError>) {
        let expected = PrimitiveValue::kind(self);
        let actual = value.kind();
        if expected == actual {
            *self = value;
            Ok(())
        } else {
            Err(ReflectionError::ValueMismatch { expected, actual })
        }
    }
}

} // verus!

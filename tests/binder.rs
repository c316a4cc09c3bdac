use dynser::binder::{to_shape, DeclaredType, Marker};
use dynser::reflection::PrimitiveValueKind;
use dynser::schema::{BindError, RecordType, Shape};

fn string() -> DeclaredType {
    DeclaredType::Scalar(PrimitiveValueKind::String)
}

fn optional(t: DeclaredType) -> DeclaredType {
    DeclaredType::Optional(Box::new(t))
}

#[test]
fn declare_classifies_fields() {
    let mut t = RecordType::new();
    t.declare("title", &string(), Marker::Scalar).unwrap();
    t.declare("description", &optional(string()), Marker::Scalar).unwrap();
    t.declare("deprecated", &DeclaredType::Scalar(PrimitiveValueKind::Bool), Marker::Scalar).unwrap();
    t.declare("tags", &DeclaredType::Sequence(Box::new(string())), Marker::Scalar).unwrap();
    t.declare("servers", &DeclaredType::Sequence(Box::new(DeclaredType::Record(3))), Marker::Plain).unwrap();
    t.declare("info", &DeclaredType::Record(1), Marker::Plain).unwrap();
    t.declare("contact", &optional(DeclaredType::Record(2)), Marker::Plain).unwrap();
    t.declare("example", &optional(DeclaredType::Opaque), Marker::Opaque).unwrap();
    t.declare("schema", &optional(DeclaredType::Reference(4)), Marker::Plain).unwrap();
    t.declare("links", &DeclaredType::Keyed(Box::new(DeclaredType::Reference(5))), Marker::Plain).unwrap();
    t.declare("extensions", &DeclaredType::Keyed(Box::new(DeclaredType::Opaque)), Marker::CatchAll).unwrap();

    let got: Vec<(&str, &Shape, bool)> = t.fields.iter().map(|f| (f.name.as_str(), &f.shape, f.optional)).collect();
    let str_shape = Shape::Primitive(PrimitiveValueKind::String);
    assert_eq!(got[0], ("title", &str_shape, false));
    assert_eq!(got[1], ("description", &str_shape, true));
    assert_eq!(got[2], ("deprecated", &Shape::Primitive(PrimitiveValueKind::Bool), false));
    assert_eq!(got[3], ("tags", &Shape::List(Box::new(str_shape.copy())), false));
    assert_eq!(got[4], ("servers", &Shape::List(Box::new(Shape::Record(3))), false));
    assert_eq!(got[5], ("info", &Shape::Record(1), false));
    assert_eq!(got[6], ("contact", &Shape::Record(2), true));
    assert_eq!(got[7], ("example", &Shape::Any, true));
    assert_eq!(got[8], ("schema", &Shape::Reference(4), true));
    assert_eq!(got[9], ("links", &Shape::Dict(Box::new(Shape::Reference(5))), false));
    assert_eq!(t.fields.len(), 10);
    assert_eq!(t.catch_all, Some(Shape::Any));
}

#[test]
fn opaque_marker_takes_precedence_over_sequence() {
    let mut t = RecordType::new();
    let seq = DeclaredType::Sequence(Box::new(DeclaredType::Opaque));
    t.declare("raw", &seq, Marker::Opaque).unwrap();
    assert_eq!(t.fields[0].shape, Shape::Any);
    t.declare("list", &seq, Marker::Plain).unwrap();
    assert_eq!(t.fields[1].shape, Shape::List(Box::new(Shape::Any)));
}

#[test]
fn declare_rejects_bad_definitions() {
    let mut t = RecordType::new();
    let ext = DeclaredType::Keyed(Box::new(DeclaredType::Opaque));
    assert_eq!(t.declare("extensions", &ext, Marker::CatchAll), Ok(()));
    assert_eq!(t.declare("more", &ext, Marker::CatchAll), Err(BindError::DuplicateCatchAll));
    assert_eq!(
        t.declare("name", &string(), Marker::Plain),
        Err(BindError::Unbindable { name: "name".to_string() })
    );
    assert_eq!(
        t.declare("info", &DeclaredType::Record(1), Marker::Scalar),
        Err(BindError::Unbindable { name: "info".to_string() })
    );
    assert_eq!(
        t.declare("bad", &DeclaredType::Sequence(Box::new(optional(string()))), Marker::Scalar),
        Err(BindError::Unbindable { name: "bad".to_string() })
    );
    assert_eq!(
        t.declare("x", &string(), Marker::CatchAll),
        Err(BindError::Unbindable { name: "x".to_string() })
    );
    assert_eq!(t.declare("a", &string(), Marker::Scalar), Ok(()));
    assert_eq!(
        t.declare("a", &DeclaredType::Scalar(PrimitiveValueKind::Bool), Marker::Scalar),
        Err(BindError::DuplicateField { name: "a".to_string() })
    );
    assert_eq!(t.fields.len(), 1);
}

#[test]
fn shapes_of_plain_types() {
    assert_eq!(to_shape(&DeclaredType::Keyed(Box::new(DeclaredType::Sequence(Box::new(string()))))),
        Some(Shape::Dict(Box::new(Shape::List(Box::new(Shape::Primitive(PrimitiveValueKind::String)))))));
    assert_eq!(to_shape(&optional(string())), None);
}

use dynser::dyndeser::{deserialize, read_any, read_scalar, DeserializeError, Event, Options};
use dynser::reference::{RefSlot, Reference, ReferenceValue};
use dynser::reflection::{Primitive, PrimitiveValue, PrimitiveValueKind, ReflectionError};
use dynser::object::FieldView;
use dynser::schema::{BindError, FieldSlot, JsonValue, Node, Record, RecordType, Schema, Shape};

const DOC: usize = 0;
const ITEM: usize = 1;
const PLAIN: usize = 2;
const FLAG_REF: usize = 3;

// Field indices of the document type.
const TITLE: usize = 0;
const FLAG: usize = 1;
const INFO: usize = 2;
const TAGS: usize = 3;
const ITEMS: usize = 4;
const REFD: usize = 5;
const META: usize = 6;
const LABELS: usize = 7;
const PLAIN_REF: usize = 8;

// Field indices of the item type.
const ITEM_REF: usize = 0;
const ITEM_EXTRA: usize = 1;

fn string_shape() -> Shape {
    Shape::Primitive(PrimitiveValueKind::String)
}

fn schema() -> Schema {
    let mut schema = Schema::new();
    let mut doc = RecordType::new();
    doc.add_field("title", string_shape(), false).unwrap();
    doc.add_field("flag", Shape::Primitive(PrimitiveValueKind::Bool), true).unwrap();
    doc.add_field("info", Shape::Record(ITEM), true).unwrap();
    doc.add_field("tags", Shape::List(Box::new(string_shape())), false).unwrap();
    doc.add_field("items", Shape::List(Box::new(Shape::Record(ITEM))), false).unwrap();
    doc.add_field("refd", Shape::Reference(ITEM), true).unwrap();
    doc.add_field("meta", Shape::Any, true).unwrap();
    doc.add_field("labels", Shape::Dict(Box::new(Shape::Record(ITEM))), false).unwrap();
    doc.add_field("plainref", Shape::Reference(PLAIN), true).unwrap();
    doc.set_catch_all(Shape::Any).unwrap();
    assert_eq!(schema.add(doc), DOC);

    let mut item = RecordType::new();
    item.add_field("$ref", string_shape(), true).unwrap();
    item.add_field("extra", string_shape(), true).unwrap();
    assert_eq!(schema.add(item), ITEM);

    let mut plain = RecordType::new();
    plain.add_field("name", string_shape(), false).unwrap();
    assert_eq!(schema.add(plain), PLAIN);

    let mut flag_ref = RecordType::new();
    flag_ref.add_field("$ref", Shape::Primitive(PrimitiveValueKind::Bool), true).unwrap();
    assert_eq!(schema.add(flag_ref), FLAG_REF);
    schema
}

fn key(s: &str) -> Event {
    Event::Key(s.to_string())
}

fn st(s: &str) -> Event {
    Event::Str(s.to_string())
}

fn doc(schema: &Schema) -> Node {
    Node::Record(Record::new(schema, DOC))
}

fn record(n: &Node) -> &Record {
    match n {
        Node::Record(r) => r,
        other => panic!("not a record: {:?}", other),
    }
}

fn string_of(n: &Node) -> &str {
    match n {
        Node::Primitive(PrimitiveValue::String(s)) => s,
        other => panic!("not a string: {:?}", other),
    }
}

fn field(r: &Record, i: usize) -> &Node {
    r.fields[i].as_ref().expect("field was materialized")
}

#[test]
fn primitive_value_kind() {
    assert_eq!(PrimitiveValue::String("a".to_string()).kind(), PrimitiveValueKind::String);
    assert_eq!(PrimitiveValue::Bool(true).kind(), PrimitiveValueKind::Bool);
}

#[test]
fn bool_rejects_string_and_keeps_value() {
    let mut b = true;
    let r = b.set(PrimitiveValue::String("yes".to_string()));
    assert_eq!(
        r,
        Err(ReflectionError::ValueMismatch { expected: PrimitiveValueKind::Bool, actual: PrimitiveValueKind::String })
    );
    assert!(b);
    assert_eq!(Primitive::kind(&b), PrimitiveValueKind::Bool);
    assert_eq!(b.set(PrimitiveValue::Bool(false)), Ok(()));
    assert!(!b);
}

#[test]
fn string_primitive_set() {
    let mut s = String::from("old");
    assert_eq!(s.set(PrimitiveValue::String("new".to_string())), Ok(()));
    assert_eq!(s, "new");
    assert_eq!(
        s.set(PrimitiveValue::Bool(true)),
        Err(ReflectionError::ValueMismatch { expected: PrimitiveValueKind::String, actual: PrimitiveValueKind::Bool })
    );
    assert_eq!(s, "new");
}

#[test]
fn stored_primitive_keeps_its_kind() {
    let mut p = PrimitiveValue::Bool(false);
    assert_eq!(Primitive::kind(&p), PrimitiveValueKind::Bool);
    assert!(p.set(PrimitiveValue::String("x".to_string())).is_err());
    assert_eq!(p, PrimitiveValue::Bool(false));
    assert_eq!(p.set(PrimitiveValue::Bool(true)), Ok(()));
    assert_eq!(p, PrimitiveValue::Bool(true));
}

#[test]
fn deserializer_rejects_string_for_bool_field() {
    let schema = schema();
    let mut root = doc(&schema);
    let events = vec![Event::StartObject, key("flag"), Event::Bool(true), key("flag"), st("no"), Event::EndObject];
    let r = deserialize(&schema, &events, &mut root, &Options::new());
    assert_eq!(
        r,
        Err(DeserializeError::Reflection(ReflectionError::ValueMismatch {
            expected: PrimitiveValueKind::Bool,
            actual: PrimitiveValueKind::String,
        }))
    );
    assert_eq!(field(record(&root), FLAG), &Node::Primitive(PrimitiveValue::Bool(true)));
}

#[test]
fn create_twice_reaches_same_storage() {
    let schema = schema();
    let mut rec = Record::new(&schema, DOC);
    let a = rec.create(&schema, "title").unwrap();
    assert_eq!(a, FieldSlot::Field(TITLE));
    rec.fields[TITLE] = Some(Node::Primitive(PrimitiveValue::String("written".to_string())));
    let b = rec.create(&schema, "title").unwrap();
    assert_eq!(a, b);
    assert_eq!(string_of(field(&rec, TITLE)), "written");
}

#[test]
fn optional_field_is_materialized_lazily() {
    let schema = schema();
    let mut rec = Record::new(&schema, DOC);
    assert!(rec.fields.iter().all(|f| f.is_none()));
    assert_eq!(rec.create(&schema, "flag"), Ok(FieldSlot::Field(FLAG)));
    assert_eq!(field(&rec, FLAG), &Node::Primitive(PrimitiveValue::Bool(false)));
    assert!(rec.fields[INFO].is_none());
    rec.fields[FLAG] = Some(Node::Primitive(PrimitiveValue::Bool(true)));
    assert_eq!(rec.create(&schema, "flag"), Ok(FieldSlot::Field(FLAG)));
    assert_eq!(field(&rec, FLAG), &Node::Primitive(PrimitiveValue::Bool(true)));
    let touched = rec.fields.iter().filter(|f| f.is_some()).count();
    assert_eq!(touched, 1);
}

#[test]
fn untouched_fields_stay_absent_after_parse() {
    let schema = schema();
    let mut root = doc(&schema);
    let events = vec![Event::StartObject, key("title"), st("T"), Event::EndObject];
    assert_eq!(deserialize(&schema, &events, &mut root, &Options::new()), Ok(()));
    let r = record(&root);
    assert_eq!(string_of(field(r, TITLE)), "T");
    for i in 0..r.fields.len() {
        if i != TITLE {
            assert!(r.fields[i].is_none());
        }
    }
}

#[test]
fn catch_all_keeps_name() {
    let schema = schema();
    let mut rec = Record::new(&schema, DOC);
    assert_eq!(rec.create(&schema, "x-vendor"), Ok(FieldSlot::Extension(0)));
    assert_eq!(rec.extensions.len(), 1);
    assert_eq!(rec.extensions[0].0, "x-vendor");
    assert_eq!(rec.extensions[0].1, Node::Any(JsonValue::Null));
    assert_eq!(rec.create(&schema, "x-vendor"), Ok(FieldSlot::Extension(0)));
    assert_eq!(rec.create(&schema, "x-other"), Ok(FieldSlot::Extension(1)));
    assert_eq!(rec.extensions.len(), 2);
}

#[test]
fn unknown_field_without_catch_all() {
    let schema = schema();
    let mut rec = Record::new(&schema, PLAIN);
    assert_eq!(
        rec.create(&schema, "x-vendor"),
        Err(ReflectionError::UnknownField { name: "x-vendor".to_string() })
    );
    assert!(rec.extensions.is_empty());
    assert!(rec.fields[0].is_none());
}

#[test]
fn catch_all_routing_in_stream() {
    let schema = schema();
    let mut root = doc(&schema);
    let events = vec![
        Event::StartObject,
        key("x-vendor"),
        Event::StartArray,
        Event::Number("1".to_string()),
        Event::Null,
        Event::EndArray,
        Event::EndObject,
    ];
    assert_eq!(deserialize(&schema, &events, &mut root, &Options::new()), Ok(()));
    let r = record(&root);
    assert_eq!(r.extensions.len(), 1);
    assert_eq!(r.extensions[0].0, "x-vendor");
    assert_eq!(
        r.extensions[0].1,
        Node::Any(JsonValue::Array(vec![JsonValue::Number("1".to_string()), JsonValue::Null]))
    );
}

#[test]
fn unknown_field_policy() {
    let schema = schema();
    let events = vec![
        Event::StartObject,
        key("bogus"),
        Event::StartObject,
        key("a"),
        Event::Bool(true),
        Event::EndObject,
        key("name"),
        st("n"),
        Event::EndObject,
    ];
    let mut root = Node::Record(Record::new(&schema, PLAIN));
    assert_eq!(deserialize(&schema, &events, &mut root, &Options::new()), Ok(()));
    assert_eq!(string_of(field(record(&root), 0)), "n");

    let strict = Options { max_depth: 128, skip_unknown: false };
    let mut root = Node::Record(Record::new(&schema, PLAIN));
    assert_eq!(
        deserialize(&schema, &events, &mut root, &strict),
        Err(DeserializeError::Reflection(ReflectionError::UnknownField { name: "bogus".to_string() }))
    );
    assert!(record(&root).fields[0].is_none());
}

fn refd_after(events: Vec<Event>) -> Reference<Record> {
    let schema = schema();
    let mut root = doc(&schema);
    let mut all = vec![Event::StartObject, key("refd")];
    all.extend(events);
    all.push(Event::EndObject);
    assert_eq!(deserialize(&schema, &all, &mut root, &Options::new()), Ok(()));
    let mut r = match root {
        Node::Record(r) => r,
        _ => unreachable!(),
    };
    match r.fields[REFD].take() {
        Some(Node::Reference(t, value)) => {
            assert_eq!(t, ITEM);
            value
        },
        other => panic!("not a reference: {:?}", other),
    }
}

#[test]
fn reference_stays_referencing() {
    let r = refd_after(vec![Event::StartObject, key("$ref"), st("#/x"), Event::EndObject]);
    assert_eq!(r, Reference::Reference(ReferenceValue { reference: "#/x".to_string() }));
}

#[test]
fn reference_resolves_and_forwards_marker() {
    let r = refd_after(vec![Event::StartObject, key("$ref"), st("#/x"), key("extra"), st("y"), Event::EndObject]);
    let rec = match r {
        Reference::Other(rec) => rec,
        other => panic!("still referencing: {:?}", other),
    };
    assert_eq!(rec.ty, ITEM);
    assert_eq!(string_of(field(&rec, ITEM_REF)), "#/x");
    assert_eq!(string_of(field(&rec, ITEM_EXTRA)), "y");
}

#[test]
fn reference_resolves_without_marker() {
    let r = refd_after(vec![Event::StartObject, key("extra"), st("y"), Event::EndObject]);
    let rec = match r {
        Reference::Other(rec) => rec,
        other => panic!("still referencing: {:?}", other),
    };
    assert!(rec.fields[ITEM_REF].is_none());
    assert_eq!(string_of(field(&rec, ITEM_EXTRA)), "y");
}

#[test]
fn reference_create_transitions_once() {
    let schema = schema();
    let mut r: Reference<Record> = Reference::new();
    assert_eq!(r.create(&schema, ITEM, "$ref"), Ok(RefSlot::Marker));
    if let Reference::Reference(v) = &mut r {
        v.reference = "#/a".to_string();
    }
    assert_eq!(r.create(&schema, ITEM, "extra"), Ok(RefSlot::Inner(FieldSlot::Field(ITEM_EXTRA))));
    assert_eq!(r.create(&schema, ITEM, "$ref"), Ok(RefSlot::Inner(FieldSlot::Field(ITEM_REF))));
    match &r {
        Reference::Other(rec) => assert_eq!(string_of(field(rec, ITEM_REF)), "#/a"),
        other => panic!("still referencing: {:?}", other),
    }
}

#[test]
fn reference_forward_into_type_without_marker() {
    let schema = schema();
    let (rec, res) = Reference::resolve(&schema, PLAIN, "#/a".to_string());
    assert_eq!(res, Err(ReflectionError::InvalidField { name: "$ref".to_string() }));
    assert_eq!(rec.ty, PLAIN);
    let (rec, res) = Reference::resolve(&schema, PLAIN, String::new());
    assert_eq!(res, Ok(()));
    assert!(rec.fields[0].is_none());
}

#[test]
fn list_accumulates_in_order() {
    let schema = schema();
    let mut root = doc(&schema);
    let events = vec![
        Event::StartObject,
        key("tags"),
        Event::StartArray,
        st("a"),
        st("b"),
        st("c"),
        Event::EndArray,
        key("items"),
        Event::StartArray,
        Event::StartObject,
        key("extra"),
        st("1"),
        Event::EndObject,
        Event::StartObject,
        Event::EndObject,
        Event::StartObject,
        key("extra"),
        st("3"),
        Event::EndObject,
        Event::EndArray,
        Event::EndObject,
    ];
    assert_eq!(deserialize(&schema, &events, &mut root, &Options::new()), Ok(()));
    let r = record(&root);
    match field(r, TAGS) {
        Node::List(_, items) => {
            let got: Vec<&str> = items.iter().map(string_of).collect();
            assert_eq!(got, vec!["a", "b", "c"]);
        },
        other => panic!("not a list: {:?}", other),
    }
    match field(r, ITEMS) {
        Node::List(_, items) => {
            assert_eq!(items.len(), 3);
            assert_eq!(string_of(field(record(&items[0]), ITEM_EXTRA)), "1");
            assert!(record(&items[1]).fields[ITEM_EXTRA].is_none());
            assert_eq!(string_of(field(record(&items[2]), ITEM_EXTRA)), "3");
        },
        other => panic!("not a list: {:?}", other),
    }
}

#[test]
fn keyed_map_find_or_insert() {
    let schema = schema();
    let mut root = doc(&schema);
    let events = vec![
        Event::StartObject,
        key("labels"),
        Event::StartObject,
        key("a"),
        Event::StartObject,
        key("extra"),
        st("1"),
        Event::EndObject,
        key("b"),
        Event::StartObject,
        Event::EndObject,
        key("a"),
        Event::StartObject,
        key("$ref"),
        st("r"),
        Event::EndObject,
        Event::EndObject,
        Event::EndObject,
    ];
    assert_eq!(deserialize(&schema, &events, &mut root, &Options::new()), Ok(()));
    match field(record(&root), LABELS) {
        Node::Dict(_, entries) => {
            assert_eq!(entries.len(), 2);
            assert_eq!(entries[0].0, "a");
            assert_eq!(entries[1].0, "b");
            let a = record(&entries[0].1);
            assert_eq!(string_of(field(a, ITEM_EXTRA)), "1");
            assert_eq!(string_of(field(a, ITEM_REF)), "r");
        },
        other => panic!("not a map: {:?}", other),
    }
}

#[test]
fn opaque_field_reads_tree_verbatim() {
    let schema = schema();
    let mut root = doc(&schema);
    let events = vec![
        Event::StartObject,
        key("meta"),
        Event::StartObject,
        key("k"),
        Event::StartArray,
        Event::Bool(false),
        st("s"),
        Event::EndArray,
        key("n"),
        Event::Null,
        Event::EndObject,
        Event::EndObject,
    ];
    assert_eq!(deserialize(&schema, &events, &mut root, &Options::new()), Ok(()));
    let expected = JsonValue::Object(vec![
        ("k".to_string(), JsonValue::Array(vec![JsonValue::Bool(false), JsonValue::String("s".to_string())])),
        ("n".to_string(), JsonValue::Null),
    ]);
    assert_eq!(field(record(&root), META), &Node::Any(expected));
}

#[test]
fn read_any_scalars_and_errors() {
    let events = vec![Event::Number("2.5".to_string()), Event::EndArray];
    assert_eq!(read_any(&events, 0, 4), Ok((JsonValue::Number("2.5".to_string()), 1)));
    assert_eq!(read_any(&events, 1, 4), Err(DeserializeError::UnexpectedEvent { position: 1 }));
    assert_eq!(read_any(&events, 2, 4), Err(DeserializeError::UnexpectedEnd));
    let nested = vec![Event::StartArray, Event::EndArray];
    assert_eq!(read_any(&nested, 0, 0), Err(DeserializeError::TooDeep { position: 0 }));
    assert_eq!(read_any(&nested, 0, 1), Ok((JsonValue::Array(vec![]), 2)));
}

#[test]
fn read_scalar_into_string() {
    let mut s = String::new();
    let events = vec![st("v"), Event::Null];
    assert_eq!(read_scalar(&mut s, &events, 0), Ok(1));
    assert_eq!(s, "v");
    assert_eq!(read_scalar(&mut s, &events, 1), Err(DeserializeError::UnexpectedEvent { position: 1 }));
    assert_eq!(s, "v");
}

#[test]
fn stream_errors() {
    let schema = schema();
    let opts = Options::new();
    let mut root = doc(&schema);
    assert_eq!(deserialize(&schema, &vec![], &mut root, &opts), Err(DeserializeError::UnexpectedEnd));
    assert_eq!(
        deserialize(&schema, &vec![Event::StartArray], &mut root, &opts),
        Err(DeserializeError::UnexpectedEvent { position: 0 })
    );
    assert_eq!(
        deserialize(&schema, &vec![Event::StartObject, key("title")], &mut root, &opts),
        Err(DeserializeError::UnexpectedEnd)
    );
    let mut root = doc(&schema);
    assert_eq!(
        deserialize(&schema, &vec![Event::StartObject, Event::EndObject, Event::Null], &mut root, &opts),
        Err(DeserializeError::TrailingEvents { position: 2 })
    );
    let mut root = doc(&schema);
    assert_eq!(
        deserialize(&schema, &vec![Event::StartObject, key("title"), Event::StartObject], &mut root, &opts),
        Err(DeserializeError::UnexpectedEvent { position: 2 })
    );
}

#[test]
fn depth_limit() {
    let schema = schema();
    let events = vec![
        Event::StartObject,
        key("info"),
        Event::StartObject,
        key("extra"),
        st("e"),
        Event::EndObject,
        Event::EndObject,
    ];
    let mut root = doc(&schema);
    let shallow = Options { max_depth: 1, skip_unknown: true };
    assert_eq!(deserialize(&schema, &events, &mut root, &shallow), Err(DeserializeError::TooDeep { position: 2 }));
    let mut root = doc(&schema);
    let zero = Options { max_depth: 0, skip_unknown: true };
    assert_eq!(deserialize(&schema, &events, &mut root, &zero), Err(DeserializeError::TooDeep { position: 0 }));
    let mut root = doc(&schema);
    let enough = Options { max_depth: 2, skip_unknown: true };
    assert_eq!(deserialize(&schema, &events, &mut root, &enough), Ok(()));
    assert_eq!(string_of(field(record(field(record(&root), INFO)), ITEM_EXTRA)), "e");
}

#[test]
fn partial_mutation_is_kept_on_failure() {
    let schema = schema();
    let mut root = doc(&schema);
    let events = vec![Event::StartObject, key("title"), st("kept"), key("flag"), Event::Null, Event::EndObject];
    assert_eq!(
        deserialize(&schema, &events, &mut root, &Options::new()),
        Err(DeserializeError::UnexpectedEvent { position: 4 })
    );
    assert_eq!(string_of(field(record(&root), TITLE)), "kept");
}

#[test]
fn binding_errors() {
    let mut t = RecordType::new();
    assert_eq!(t.add_field("a", string_shape(), false), Ok(()));
    assert_eq!(t.add_field("a", Shape::Any, true), Err(BindError::DuplicateField { name: "a".to_string() }));
    assert_eq!(t.fields.len(), 1);
    assert_eq!(t.set_catch_all(Shape::Any), Ok(()));
    assert_eq!(t.set_catch_all(string_shape()), Err(BindError::DuplicateCatchAll));
    assert_eq!(t.catch_all, Some(Shape::Any));
}

#[test]
fn shape_defaults() {
    let schema = schema();
    assert_eq!(schema.default_node(&string_shape()), Node::Primitive(PrimitiveValue::String(String::new())));
    assert_eq!(schema.default_node(&Shape::Any), Node::Any(JsonValue::Null));
    assert_eq!(schema.default_node(&Shape::Reference(ITEM)), Node::Reference(ITEM, Reference::new()));
    match schema.default_node(&Shape::Record(ITEM)) {
        Node::Record(r) => {
            assert_eq!(r.ty, ITEM);
            assert_eq!(r.fields.len(), 2);
        },
        other => panic!("not a record: {:?}", other),
    }
    let l = Shape::List(Box::new(Shape::Any));
    assert_eq!(l.copy(), l);
}

#[test]
fn node_create_views() {
    let schema = schema();
    let mut root = doc(&schema);
    assert_eq!(root.create(&schema, "title"), Ok(FieldView::Slot(FieldSlot::Field(TITLE))));
    assert_eq!(root.create(&schema, "x-a"), Ok(FieldView::Slot(FieldSlot::Extension(0))));

    let mut r = schema.default_node(&Shape::Reference(ITEM));
    assert_eq!(r.create(&schema, "$ref"), Ok(FieldView::Marker));
    assert_eq!(r.create(&schema, "extra"), Ok(FieldView::Slot(FieldSlot::Field(ITEM_EXTRA))));
    assert!(matches!(r, Node::Reference(ITEM, Reference::Other(_))));

    let mut m = schema.default_node(&Shape::Dict(Box::new(Shape::Any)));
    assert_eq!(m.create(&schema, "k"), Ok(FieldView::Entry(0)));
    assert_eq!(m.create(&schema, "j"), Ok(FieldView::Entry(1)));
    assert_eq!(m.create(&schema, "k"), Ok(FieldView::Entry(0)));

    let mut p = Node::Record(Record::new(&schema, PLAIN));
    assert_eq!(p.create(&schema, "nope"), Err(ReflectionError::UnknownField { name: "nope".to_string() }));
}

#[test]
fn node_push_appends_default() {
    let schema = schema();
    let mut l = schema.default_node(&Shape::List(Box::new(Shape::Primitive(PrimitiveValueKind::Bool))));
    assert_eq!(l.push(&schema), 0);
    assert_eq!(l.push(&schema), 1);
    match l {
        Node::List(_, items) => {
            assert_eq!(items, vec![Node::Primitive(PrimitiveValue::Bool(false)), Node::Primitive(PrimitiveValue::Bool(false))]);
        },
        other => panic!("not a list: {:?}", other),
    }
}

#[test]
fn forward_into_opaque_catch_all_fails() {
    let schema = schema();
    let (rec, res) = Reference::resolve(&schema, DOC, "#/x".to_string());
    assert_eq!(res, Err(ReflectionError::InvalidField { name: "$ref".to_string() }));
    assert_eq!(rec.extensions, vec![("$ref".to_string(), Node::Any(JsonValue::Null))]);
    assert!(rec.fields.iter().all(|f| f.is_none()));
}

#[test]
fn forward_into_bool_marker_fails() {
    let schema = schema();
    let (rec, res) = Reference::resolve(&schema, FLAG_REF, "#/x".to_string());
    assert_eq!(
        res,
        Err(ReflectionError::ValueMismatch { expected: PrimitiveValueKind::Bool, actual: PrimitiveValueKind::String })
    );
    assert_eq!(rec.fields[0], Some(Node::Primitive(PrimitiveValue::Bool(false))));
}

#[test]
fn skipping_leaves_forwarding_errors_standing() {
    let schema = schema();
    let mut root = doc(&schema);
    let events = vec![
        Event::StartObject,
        key("plainref"),
        Event::StartObject,
        key("$ref"),
        st("#/a"),
        key("name"),
        st("n"),
        Event::EndObject,
        Event::EndObject,
    ];
    assert_eq!(
        deserialize(&schema, &events, &mut root, &Options::new()),
        Err(DeserializeError::Reflection(ReflectionError::InvalidField { name: "$ref".to_string() }))
    );
    match field(record(&root), PLAIN_REF) {
        Node::Reference(t, Reference::Other(rec)) => {
            assert_eq!(*t, PLAIN);
            assert!(rec.fields[0].is_none());
        },
        other => panic!("not resolved: {:?}", other),
    }
}

#[test]
fn repeated_key_keeps_both_writes() {
    let schema = schema();
    let mut root = doc(&schema);
    let events = vec![
        Event::StartObject,
        key("info"),
        Event::StartObject,
        key("extra"),
        st("e"),
        Event::EndObject,
        key("info"),
        Event::StartObject,
        key("$ref"),
        st("r"),
        Event::EndObject,
        Event::EndObject,
    ];
    assert_eq!(deserialize(&schema, &events, &mut root, &Options::new()), Ok(()));
    let info = record(field(record(&root), INFO));
    assert_eq!(string_of(field(info, ITEM_EXTRA)), "e");
    assert_eq!(string_of(field(info, ITEM_REF)), "r");
}

use tag_model::proto::ValTag;
use tag_model::records::codec::{DeserializationError, Reason, SerdeTag, SerdeTags, TagRecord, Typed};
use tag_model::records::names::{elem_str, parse_shape, shape_name};
use tag_model::records::value::{Elem, Scalar, Shape, Value};

const ELEMS: [Elem; 12] = [
    Elem::Bool,
    Elem::U8,
    Elem::I8,
    Elem::U16,
    Elem::I16,
    Elem::U32,
    Elem::I32,
    Elem::U64,
    Elem::I64,
    Elem::U128,
    Elem::I128,
    Elem::Str,
];

fn all_shapes() -> Vec<Shape> {
    let mut shapes = Vec::new();
    for e in ELEMS {
        shapes.push(Shape::Single(e));
        shapes.push(Shape::List(e));
        shapes.push(Shape::HashSet(e));
        shapes.push(Shape::IndexSet(e));
        for v in ELEMS {
            shapes.push(Shape::HashMap(e, v));
            shapes.push(Shape::IndexMap(e, v));
        }
    }
    shapes
}

fn text(s: &str) -> Scalar {
    Scalar::Str(s.to_string())
}

fn tag(uuid: u128, parent: Option<u128>, shape: Shape, value: Value) -> ValTag<Typed> {
    ValTag { uuid, parent, val: Typed { shape, value } }
}

fn sample() -> SerdeTags {
    SerdeTags(vec![
        tag(1, None, Shape::Single(Elem::I32), Value::One(Scalar::I32(-7))),
        tag(2, Some(1), Shape::List(Elem::Str), Value::Many(vec![text("a"), text(""), text("a")])),
        tag(
            3,
            Some(2),
            Shape::HashMap(Elem::Str, Elem::I32),
            Value::Pairs(vec![(text("one"), Scalar::I32(1)), (text("two"), Scalar::I32(2))]),
        ),
    ])
}

#[test]
fn discriminators_are_written_as_type_names() {
    assert_eq!(shape_name(Shape::Single(Elem::I32)), "ValTag<i32>");
    assert_eq!(shape_name(Shape::List(Elem::Str)), "VecTag<String>");
    assert_eq!(shape_name(Shape::HashSet(Elem::U8)), "SetTag<u8>");
    assert_eq!(shape_name(Shape::IndexSet(Elem::Bool)), "IndexSetTag<bool>");
    assert_eq!(shape_name(Shape::HashMap(Elem::Str, Elem::I32)), "MapTag<String,i32>");
    assert_eq!(shape_name(Shape::IndexMap(Elem::U128, Elem::I128)), "IndexMapTag<u128,i128>");
    let names: Vec<&str> = ELEMS.iter().map(|e| elem_str(*e)).collect();
    assert_eq!(names, ["bool", "u8", "i8", "u16", "i16", "u32", "i32", "u64", "i64", "u128", "i128", "String"]);
}

#[test]
fn every_name_is_read_back() {
    let shapes = all_shapes();
    assert_eq!(shapes.len(), 12 * 4 + 12 * 12 * 2);
    let mut names = std::collections::HashSet::new();
    for shape in shapes {
        let name = shape_name(shape);
        assert_eq!(parse_shape(&name), Some(shape), "{}", name);
        assert!(names.insert(name));
    }
}

#[test]
fn other_texts_name_nothing() {
    for kind in [
        "",
        "ValTag",
        "ValTag<>",
        "ValTag<i32",
        "ValTag<i32>>",
        "ValTag<i32> ",
        " ValTag<i32>",
        "valtag<i32>",
        "ValTag<f32>",
        "ValTag<f64>",
        "ValTag<i31>",
        "ValTag<u256>",
        "ValTag<string>",
        "ValTag<i32,i32>",
        "VelTag<i32>",
        "MapTag<i32>",
        "MapTag<i32,>",
        "MapTag<i32, i32>",
        "MapTag<i32,i32,i32>",
        "MapTag<String,String",
        "IndexMapTag<u8>",
        "IndexSetTag<u8,u8>",
        "IndexSetTag<u8",
        "IndexTag<u8,u8>",
        "SetTag(u8)",
        "MapTag<u8;u8>",
        "VälTag<i32>",
        "ValTag<i32>\n",
    ] {
        assert_eq!(parse_shape(kind), None, "{:?}", kind);
    }
}

#[test]
fn collection_survives_the_round_trip() {
    let tags = sample();
    let records = tags.serialize();
    assert_eq!(records.len(), 3);
    assert_eq!(records[0].kind, "ValTag<i32>");
    assert_eq!(records[1].kind, "VecTag<String>");
    assert_eq!(records[2].kind, "MapTag<String,i32>");
    assert_eq!(records[2].uuid, 3);
    assert_eq!(records[2].parent, Some(2));
    let back = SerdeTags::deserialize(&records).unwrap();
    assert_eq!(back, tags);
    for (read, written) in back.0.iter().zip(tags.0.iter()) {
        assert_eq!(read.uuid, written.uuid);
        assert_eq!(read.parent, written.parent);
        assert_eq!(read.val, written.val);
    }
}

#[test]
fn each_shape_survives_the_round_trip() {
    let one = |e: Elem| match e {
        Elem::Bool => Scalar::Bool(true),
        Elem::U8 => Scalar::U8(u8::MAX),
        Elem::I8 => Scalar::I8(i8::MIN),
        Elem::U16 => Scalar::U16(u16::MAX),
        Elem::I16 => Scalar::I16(i16::MIN),
        Elem::U32 => Scalar::U32(u32::MAX),
        Elem::I32 => Scalar::I32(i32::MIN),
        Elem::U64 => Scalar::U64(u64::MAX),
        Elem::I64 => Scalar::I64(i64::MIN),
        Elem::U128 => Scalar::U128(u128::MAX),
        Elem::I128 => Scalar::I128(i128::MIN),
        Elem::Str => Scalar::Str("text".into()),
    };
    let mut tags = Vec::new();
    for (n, shape) in all_shapes().into_iter().enumerate() {
        let value = match shape {
            Shape::Single(e) => Value::One(one(e)),
            Shape::List(e) => Value::Many(vec![one(e), one(e)]),
            Shape::HashSet(e) | Shape::IndexSet(e) => Value::Many(vec![one(e)]),
            Shape::HashMap(k, v) | Shape::IndexMap(k, v) => Value::Pairs(vec![(one(k), one(v))]),
        };
        tags.push(tag(n as u128, if n % 2 == 0 { None } else { Some(n as u128 - 1) }, shape, value));
    }
    let tags = SerdeTags(tags);
    assert_eq!(SerdeTags::deserialize(&tags.serialize()).unwrap(), tags);
}

#[test]
fn empty_collections() {
    let none = SerdeTags(vec![]);
    assert!(none.serialize().is_empty());
    assert_eq!(SerdeTags::deserialize(&vec![]).unwrap(), none);
    let empties = SerdeTags(vec![
        tag(1, None, Shape::List(Elem::U8), Value::Many(vec![])),
        tag(2, None, Shape::HashSet(Elem::Str), Value::Many(vec![])),
        tag(3, None, Shape::IndexMap(Elem::Str, Elem::Bool), Value::Pairs(vec![])),
    ]);
    assert_eq!(SerdeTags::deserialize(&empties.serialize()).unwrap(), empties);
}

fn record(kind: &str, payload: Value) -> TagRecord {
    TagRecord { kind: kind.to_string(), uuid: 9, parent: None, payload }
}

#[test]
fn unknown_discriminator_is_reported_with_its_record() {
    let mut records = sample().serialize();
    records[1].kind = "VecTag<f32>".to_string();
    assert_eq!(
        SerdeTags::deserialize(&records),
        Err(DeserializationError { record: 1, reason: Reason::UnknownDiscriminator })
    );
    assert_eq!(record("NoSuchTag<u8>", Value::One(Scalar::U8(1))).to_tag(), Err(Reason::UnknownDiscriminator));
}

#[test]
fn payload_mismatch_is_reported_with_its_record() {
    let mut records = sample().serialize();
    records[2].payload = Value::Many(vec![]);
    assert_eq!(
        SerdeTags::deserialize(&records),
        Err(DeserializationError { record: 2, reason: Reason::PayloadMismatch })
    );
}

#[test]
fn the_first_bad_record_is_the_one_reported() {
    let mut records = sample().serialize();
    records[0].payload = Value::One(Scalar::I64(1));
    records[1].kind = "?".to_string();
    assert_eq!(
        SerdeTags::deserialize(&records),
        Err(DeserializationError { record: 0, reason: Reason::PayloadMismatch })
    );
}

#[test]
fn payloads_must_fit_their_type() {
    let fits = |kind: &str, payload: Value| record(kind, payload).to_tag().is_ok();
    assert!(fits("ValTag<u8>", Value::One(Scalar::U8(1))));
    assert!(!fits("ValTag<u8>", Value::One(Scalar::I8(1))));
    assert!(!fits("ValTag<u8>", Value::Many(vec![Scalar::U8(1)])));
    assert!(!fits("ValTag<u8>", Value::Pairs(vec![])));
    assert!(fits("VecTag<u8>", Value::Many(vec![Scalar::U8(1), Scalar::U8(1)])));
    assert!(!fits("VecTag<u8>", Value::Many(vec![Scalar::U8(1), Scalar::U16(1)])));
    assert!(!fits("VecTag<u8>", Value::One(Scalar::U8(1))));
    assert!(fits("SetTag<u8>", Value::Many(vec![Scalar::U8(1), Scalar::U8(2)])));
    assert!(!fits("SetTag<u8>", Value::Many(vec![Scalar::U8(1), Scalar::U8(2), Scalar::U8(1)])));
    assert!(!fits("IndexSetTag<String>", Value::Many(vec![text("a"), text("a")])));
    assert!(fits("IndexSetTag<String>", Value::Many(vec![text("a"), text("A")])));
    assert!(fits("MapTag<u8,bool>", Value::Pairs(vec![(Scalar::U8(1), Scalar::Bool(true))])));
    assert!(!fits("MapTag<u8,bool>", Value::Pairs(vec![(Scalar::Bool(true), Scalar::U8(1))])));
    assert!(!fits("MapTag<u8,bool>", Value::Many(vec![])));
    assert!(fits(
        "MapTag<u8,bool>",
        Value::Pairs(vec![(Scalar::U8(1), Scalar::Bool(true)), (Scalar::U8(2), Scalar::Bool(true))])
    ));
    assert!(!fits(
        "IndexMapTag<u8,bool>",
        Value::Pairs(vec![(Scalar::U8(1), Scalar::Bool(true)), (Scalar::U8(1), Scalar::Bool(false))])
    ));
}

#[test]
fn a_record_holds_the_fields_of_its_tag() {
    let written = tag(5, Some(4), Shape::IndexSet(Elem::U64), Value::Many(vec![Scalar::U64(3)])).to_record();
    assert_eq!(
        written,
        TagRecord { kind: "IndexSetTag<u64>".into(), uuid: 5, parent: Some(4), payload: Value::Many(vec![Scalar::U64(3)]) }
    );
    let read = written.to_tag().unwrap();
    assert_eq!(read.uuid, 5);
    assert_eq!(read.parent, Some(4));
    assert_eq!(read.val.shape, Shape::IndexSet(Elem::U64));
}

#[test]
fn scalars_know_their_type_and_equals() {
    assert_eq!(Scalar::U8(1).kind(), Elem::U8);
    assert_eq!(text("x").kind(), Elem::Str);
    assert!(Scalar::U8(1).same(&Scalar::U8(1)));
    assert!(!Scalar::U8(1).same(&Scalar::U8(2)));
    assert!(!Scalar::U8(1).same(&Scalar::U16(1)));
    assert!(text("x").same(&text("x")));
    assert!(!text("x").same(&text("y")));
    assert_eq!(text("x").copy(), text("x"));
    let pairs = Value::Pairs(vec![(text("k"), Scalar::I128(-1))]);
    assert_eq!(pairs.copy(), pairs);
    assert!(pairs.conforms(Shape::HashMap(Elem::Str, Elem::I128)));
    assert!(!pairs.conforms(Shape::HashMap(Elem::Str, Elem::U128)));
}

use gnome_randr::codec::{ConvError, Value};
use gnome_randr::enum_codec::EnumError;
use gnome_randr::schema::{
    EnumSchema, EnumVariant, FieldDescriptor, PropMapField, PropMapSchema, RecordSchema, RecordStyle, Schema, TypeRef,
};
use gnome_randr::wire::{Scalar, ScalarKind, WireValue};

fn field(name: &str, ty: TypeRef) -> FieldDescriptor {
    FieldDescriptor { name: Some(name.to_string()), ty }
}

fn choice_enum() -> EnumSchema {
    EnumSchema {
        name: "Choice".to_string(),
        backing: ScalarKind::Byte,
        variants: vec![
            EnumVariant { tag: "A".to_string(), discriminant: 0 },
            EnumVariant { tag: "B".to_string(), discriminant: 1 },
        ],
    }
}

fn props_schema() -> PropMapSchema {
    PropMapSchema {
        name: "Props".to_string(),
        fields: vec![
            PropMapField { name: "vendor".to_string(), wire_key: "vendor".to_string(), kind: ScalarKind::Str },
            PropMapField { name: "display_name".to_string(), wire_key: "display-name".to_string(), kind: ScalarKind::Str },
            PropMapField { name: "backlight".to_string(), wire_key: "backlight".to_string(), kind: ScalarKind::Int64 },
        ],
    }
}

/// Records: 0 = a structure of scalars and containers, 1 = an argument list
/// holding an enum, a property map and record 0.
fn schema() -> Schema {
    Schema {
        records: vec![
            RecordSchema { name: "Plain".to_string(), style: RecordStyle::Struct, fields: vec![
                field("x", TypeRef::Scalar(ScalarKind::Int32)),
                field("name", TypeRef::Scalar(ScalarKind::Str)),
                field("values", TypeRef::List(Box::new(TypeRef::Scalar(ScalarKind::UInt32)))),
                field("m", TypeRef::Dict(ScalarKind::Int16, Box::new(TypeRef::Scalar(ScalarKind::UInt16)))),
            ] },
            RecordSchema { name: "Call".to_string(), style: RecordStyle::Args, fields: vec![
                field("choice", TypeRef::Enum(0)),
                field("props", TypeRef::PropMap(0)),
                field("plain", TypeRef::Composite(0)),
            ] },
        ],
        enums: vec![choice_enum()],
        prop_maps: vec![props_schema()],
    }
}

fn plain_value() -> Vec<Value> {
    vec![
        Value::Scalar(Scalar::Int32(-7)),
        Value::Scalar(Scalar::Str("HDMI-1".to_string())),
        Value::List(vec![Value::Scalar(Scalar::UInt32(1)), Value::Scalar(Scalar::UInt32(2))]),
        Value::Dict(vec![(Scalar::Int16(3), Value::Scalar(Scalar::UInt16(4)))]),
    ]
}

fn call_value() -> Vec<Value> {
    vec![
        Value::Enum(1),
        Value::Props(vec![Some(Scalar::Str("ACME".to_string())), None, Some(Scalar::Int64(80))]),
        Value::Record(plain_value()),
    ]
}

#[test]
fn record_round_trip() {
    let s = schema();
    assert!(s.check().is_ok());
    let v = plain_value();
    let wire = s.to_wire(0, &v).unwrap();
    assert_eq!(wire.len(), 4);
    let back = s.from_wire(0, &wire).unwrap();
    assert_eq!(format!("{:?}", back), format!("{:?}", v));
}

#[test]
fn nested_round_trip() {
    let s = schema();
    let v = call_value();
    let wire = s.to_wire(1, &v).unwrap();
    assert!(matches!(&wire[0], WireValue::Scalar(Scalar::Byte(1))));
    assert!(matches!(&wire[2], WireValue::Struct(items) if items.len() == 4));
    let back = s.from_wire(1, &wire).unwrap();
    assert_eq!(format!("{:?}", back), format!("{:?}", v));
}

#[test]
fn ill_typed_value_is_refused() {
    let s = schema();
    let mut v = plain_value();
    v[0] = Value::Scalar(Scalar::UInt32(7));
    assert_eq!(s.to_wire(0, &v).unwrap_err(), ConvError::Mismatch);
    let short = vec![Value::Scalar(Scalar::Int32(1))];
    assert_eq!(s.to_wire(0, &short).unwrap_err(), ConvError::Mismatch);
}

#[test]
fn first_failing_field_decides() {
    let s = schema();
    let wire = vec![
        WireValue::Scalar(Scalar::Byte(9)),
        WireValue::Scalar(Scalar::Bool(true)),
        WireValue::Scalar(Scalar::Bool(true)),
    ];
    assert_eq!(s.from_wire(1, &wire).unwrap_err(), ConvError::UnknownDiscriminant(9));
    let wrong_len = vec![WireValue::Scalar(Scalar::Byte(0))];
    assert_eq!(s.from_wire(1, &wrong_len).unwrap_err(), ConvError::Mismatch);
}

#[test]
fn enum_scenario() {
    let e = choice_enum();
    assert_eq!(e.pack(1), 1);
    assert_eq!(e.pack(0), 0);
    assert_eq!(e.unpack(2), Err(EnumError::UnknownDiscriminant(2)));
    assert_eq!(e.unpack(1), Ok(1));
    assert_eq!(e.unpack(0), Ok(0));
}

#[test]
fn prop_map_omits_absent_fields() {
    let s = schema();
    let props = Value::Props(vec![Some(Scalar::Str("ACME".to_string())), None, Some(Scalar::Int64(80))]);
    let w = s.value_to_wire(&TypeRef::PropMap(0), &props, 2).unwrap();
    match &w {
        WireValue::Dict(entries) => {
            assert_eq!(entries.len(), 2);
            for (k, _) in entries.iter() {
                assert!(!matches!(k, Scalar::Str(key) if key == "display-name"));
            }
            assert!(matches!(&entries[0].0, Scalar::Str(key) if key == "vendor"));
            assert!(matches!(&entries[1].1, WireValue::Variant(b) if matches!(**b, WireValue::Scalar(Scalar::Int64(80)))));
        },
        _ => panic!("a property map packs as a dictionary"),
    }
}

#[test]
fn prop_map_tolerates_missing_and_unknown_keys() {
    let s = schema();
    let entries = vec![
        (Scalar::Str("unknown".to_string()), WireValue::Variant(Box::new(WireValue::Scalar(Scalar::Bool(true))))),
        (Scalar::Str("display-name".to_string()), WireValue::Variant(Box::new(WireValue::Scalar(Scalar::Str("Built-in".to_string()))))),
        (Scalar::Str("backlight".to_string()), WireValue::Variant(Box::new(WireValue::Scalar(Scalar::Str("wrong".to_string()))))),
    ];
    let v = s.value_from_wire(&TypeRef::PropMap(0), &WireValue::Dict(entries), 2).unwrap();
    match v {
        Value::Props(fields) => {
            assert_eq!(fields.len(), 3);
            assert!(fields[0].is_none());
            assert!(matches!(&fields[1], Some(Scalar::Str(x)) if x == "Built-in"));
            assert!(fields[2].is_none());
        },
        _ => panic!("a property map decodes to properties"),
    }
}

#[test]
fn pack_and_unpack_struct_and_args() {
    let s = schema();
    let mut cursor: Vec<WireValue> = vec![WireValue::Scalar(Scalar::Bool(false))];
    s.pack(0, &plain_value(), &mut cursor).unwrap();
    assert_eq!(cursor.len(), 2);
    assert!(matches!(&cursor[1], WireValue::Struct(items) if items.len() == 4));
    s.pack(1, &call_value(), &mut cursor).unwrap();
    assert_eq!(cursor.len(), 5);

    let (plain, next) = s.unpack(0, &cursor, 1).unwrap();
    assert_eq!(next, 2);
    assert_eq!(format!("{:?}", plain), format!("{:?}", plain_value()));
    let (call, next) = s.unpack(1, &cursor, 2).unwrap();
    assert_eq!(next, 5);
    assert_eq!(format!("{:?}", call), format!("{:?}", call_value()));

    assert!(s.unpack(0, &cursor, 0).is_none());
    assert!(s.unpack(1, &cursor, 3).is_none());
    assert!(s.unpack(0, &cursor, 9).is_none());
}

#[test]
fn failed_pack_leaves_cursor() {
    let s = schema();
    let mut cursor: Vec<WireValue> = vec![];
    let bad = vec![Value::Enum(5), Value::Props(vec![None, None, None]), Value::Record(plain_value())];
    assert_eq!(s.pack(1, &bad, &mut cursor), Err(ConvError::Mismatch));
    assert!(cursor.is_empty());
}

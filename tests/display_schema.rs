use gnome_randr::projection::TupleType;
use gnome_randr::schema::{
    EnumSchema, EnumVariant, FieldDescriptor, PropMapField, PropMapSchema, RecordSchema, RecordStyle, Schema, TypeRef,
};
use gnome_randr::wire::ScalarKind;
use gnome_randr::wire::ScalarKind::{Double, Int32, Int64, Str, UInt32};

fn f(name: &str, ty: TypeRef) -> FieldDescriptor {
    FieldDescriptor { name: Some(name.to_string()), ty }
}

fn s(k: ScalarKind) -> TypeRef {
    TypeRef::Scalar(k)
}

fn list(t: TypeRef) -> TypeRef {
    TypeRef::List(Box::new(t))
}

fn record(name: &str, style: RecordStyle, fields: Vec<FieldDescriptor>) -> RecordSchema {
    RecordSchema { name: name.to_string(), style, fields }
}

/// The records of the display configuration interface.
fn display_schema() -> Schema {
    let transform = EnumSchema {
        name: "Transform".to_string(),
        backing: ScalarKind::UInt32,
        variants: ["Normal", "Normal90", "Normal180", "Normal270", "Flipped", "Flipped90", "Flipped180", "Flipped270"]
            .iter()
            .enumerate()
            .map(|(i, t)| EnumVariant { tag: t.to_string(), discriminant: i as u64 })
            .collect(),
    };
    let props = PropMapSchema {
        name: "OutputProperties".to_string(),
        fields: ["vendor", "product", "serial", "display-name"]
            .iter()
            .map(|k| PropMapField { name: k.replace('-', "_"), wire_key: k.to_string(), kind: ScalarKind::Str })
            .chain([
                PropMapField { name: "backlight".to_string(), wire_key: "backlight".to_string(), kind: ScalarKind::Int64 },
                PropMapField { name: "primary".to_string(), wire_key: "primary".to_string(), kind: ScalarKind::Bool },
                PropMapField { name: "presentation".to_string(), wire_key: "presentation".to_string(), kind: ScalarKind::Bool },
            ])
            .collect(),
    };
    Schema {
        records: vec![
            record("Mode", RecordStyle::Struct, vec![
                f("id", s(UInt32)), f("winsys_id", s(Int64)), f("width", s(UInt32)),
                f("height", s(UInt32)), f("frequency", s(Double)), f("flags", s(UInt32)),
            ]),
            record("CrtController", RecordStyle::Struct, vec![
                f("id", s(UInt32)), f("winsys_id", s(Int64)), f("x", s(Int32)), f("y", s(Int32)),
                f("width", s(Int32)), f("height", s(Int32)), f("mode_id", s(Int32)),
                f("transform", TypeRef::Enum(0)), f("transforms", list(s(UInt32))),
            ]),
            record("Output", RecordStyle::Struct, vec![
                f("id", s(UInt32)), f("winsys_id", s(Int64)), f("crtc_id", s(Int32)),
                f("possible_crtc_ids", list(s(UInt32))), f("connector_name", s(Str)),
                f("mode_ids", list(s(UInt32))), f("clone_ids", list(s(UInt32))), f("props", TypeRef::PropMap(0)),
            ]),
            record("GetResourcesReturn", RecordStyle::Args, vec![
                f("serial", s(UInt32)), f("crtcs", list(TypeRef::Composite(1))),
                f("outputs", list(TypeRef::Composite(2))), f("modes", list(TypeRef::Composite(0))),
                f("max_screen_width", s(Int32)), f("max_screen_height", s(Int32)),
            ]),
            record("ChangeBacklightArgs", RecordStyle::Args, vec![
                f("serial", s(UInt32)), f("output", s(UInt32)), f("value", s(Int32)),
            ]),
        ],
        enums: vec![transform],
        prop_maps: vec![props],
    }
}

#[test]
fn display_signatures() {
    let schema = display_schema();
    assert!(schema.check().is_ok());
    assert_eq!(schema.signature(0), "(uxuudu)");
    assert_eq!(schema.signature(1), "(uxiiiiiuau)");
    assert_eq!(schema.signature(2), "(uxiausauaua{sv})");
    assert_eq!(schema.signature(3), "(ua(uxiiiiiuau)a(uxiausauaua{sv})a(uxuudu)ii)");
    assert_eq!(schema.signature(4), "(uui)");
}

#[test]
fn tuple_projection_names_nested_tuples() {
    let schema = display_schema();
    let t = schema.tuple_projection(3);
    assert_eq!(t.len(), 6);
    assert!(matches!(&t[0], TupleType::Scalar(ScalarKind::UInt32)));
    assert!(matches!(&t[1], TupleType::List(b) if matches!(**b, TupleType::Tuple(1))));
    assert!(matches!(&t[3], TupleType::List(b) if matches!(**b, TupleType::Tuple(0))));
    let crtc = schema.tuple_projection(1);
    assert!(matches!(&crtc[7], TupleType::Enum(0)));
}

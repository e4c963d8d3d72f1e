use gnome_randr::classify::{classify, classify_fields, ClassifyError, FieldDecl, Head, TypeExpr, UserType};
use gnome_randr::schema::{
    EnumSchema, EnumVariant, FieldDescriptor, PropMapField, PropMapSchema, RecordSchema, RecordStyle, Schema,
    SchemaError, TypeRef,
};
use gnome_randr::wire::ScalarKind;

fn field(name: &str, ty: TypeRef) -> FieldDescriptor {
    FieldDescriptor { name: Some(name.to_string()), ty }
}

fn one_record(style: RecordStyle, fields: Vec<FieldDescriptor>) -> Schema {
    Schema {
        records: vec![RecordSchema { name: "R".to_string(), style, fields }],
        enums: vec![],
        prop_maps: vec![],
    }
}

#[test]
fn scalar_record_signature() {
    let s = one_record(RecordStyle::Struct, vec![
        field("x", TypeRef::Scalar(ScalarKind::Int32)),
        field("y", TypeRef::Scalar(ScalarKind::UInt32)),
        field("name", TypeRef::Scalar(ScalarKind::Str)),
    ]);
    assert!(s.check().is_ok());
    assert_eq!(s.signature(0), "(ius)");
}

#[test]
fn list_record_signature() {
    let s = one_record(RecordStyle::Struct, vec![
        field("values", TypeRef::List(Box::new(TypeRef::Scalar(ScalarKind::Double)))),
    ]);
    assert_eq!(s.signature(0), "(ad)");
}

#[test]
fn map_record_signature() {
    let s = one_record(RecordStyle::Struct, vec![
        field("m", TypeRef::Dict(ScalarKind::Int16, Box::new(TypeRef::Scalar(ScalarKind::UInt16)))),
    ]);
    assert_eq!(s.signature(0), "(a{nq})");
}

#[test]
fn single_field_args_and_struct() {
    let args = one_record(RecordStyle::Args, vec![field("v", TypeRef::Scalar(ScalarKind::Int32))]);
    let st = one_record(RecordStyle::Struct, vec![field("v", TypeRef::Scalar(ScalarKind::Int32))]);
    assert_eq!(args.signature(0), "i");
    assert_eq!(st.signature(0), "(i)");
}

#[test]
fn two_field_args_are_framed() {
    let args = one_record(RecordStyle::Args, vec![
        field("a", TypeRef::Scalar(ScalarKind::Byte)),
        field("b", TypeRef::Scalar(ScalarKind::Bool)),
    ]);
    assert_eq!(args.signature(0), "(yb)");
}

#[test]
fn signature_is_stable() {
    let s = one_record(RecordStyle::Struct, vec![
        field("x", TypeRef::Wrapper(Box::new(TypeRef::Scalar(ScalarKind::Int64)))),
        field("h", TypeRef::Scalar(ScalarKind::UnixFd)),
    ]);
    let first = s.signature(0);
    let second = s.signature(0);
    assert_eq!(first, second);
    assert_eq!(first, "(xh)");
}

#[test]
fn nested_composite_signature() {
    let s = Schema {
        records: vec![
            RecordSchema { name: "Inner".to_string(), style: RecordStyle::Struct, fields: vec![
                field("t", TypeRef::Scalar(ScalarKind::UInt64)),
            ] },
            RecordSchema { name: "Outer".to_string(), style: RecordStyle::Struct, fields: vec![
                field("inner", TypeRef::Composite(0)),
                field("many", TypeRef::List(Box::new(TypeRef::Composite(0)))),
                field("props", TypeRef::PropMap(0)),
            ] },
        ],
        enums: vec![],
        prop_maps: vec![PropMapSchema { name: "P".to_string(), fields: vec![] }],
    };
    assert!(s.check().is_ok());
    assert_eq!(s.signature(1), "((t)a(t)a{sv})");
    assert_eq!(s.type_signature(&TypeRef::Composite(1), 2), "((t)a(t)a{sv})");
}

#[test]
fn schema_errors() {
    let empty = one_record(RecordStyle::Struct, vec![]);
    assert_eq!(empty.check(), Err(SchemaError::EmptyRecord(0)));

    let mixed = one_record(RecordStyle::Struct, vec![
        field("a", TypeRef::Scalar(ScalarKind::Byte)),
        FieldDescriptor { name: None, ty: TypeRef::Scalar(ScalarKind::Byte) },
    ]);
    assert_eq!(mixed.check(), Err(SchemaError::MixedFieldNames(0)));

    let dup = one_record(RecordStyle::Struct, vec![
        field("a", TypeRef::Scalar(ScalarKind::Byte)),
        field("a", TypeRef::Scalar(ScalarKind::Bool)),
    ]);
    assert_eq!(dup.check(), Err(SchemaError::DuplicateFieldName(0)));

    let forward = one_record(RecordStyle::Struct, vec![field("a", TypeRef::Composite(0))]);
    assert_eq!(forward.check(), Err(SchemaError::BadFieldType(0)));

    let bad_key = one_record(RecordStyle::Struct, vec![
        field("a", TypeRef::Dict(ScalarKind::Double, Box::new(TypeRef::Scalar(ScalarKind::Byte)))),
    ]);
    assert_eq!(bad_key.check(), Err(SchemaError::BadFieldType(0)));

    let mut e = one_record(RecordStyle::Struct, vec![field("a", TypeRef::Enum(0))]);
    e.enums.push(EnumSchema { name: "E".to_string(), backing: ScalarKind::Byte, variants: vec![
        EnumVariant { tag: "A".to_string(), discriminant: 3 },
        EnumVariant { tag: "B".to_string(), discriminant: 3 },
    ] });
    assert_eq!(e.check(), Err(SchemaError::DuplicateDiscriminant(0)));
    e.enums[0].variants[1].discriminant = 300;
    assert_eq!(e.check(), Err(SchemaError::DiscriminantOutOfRange(0)));
    e.enums[0].backing = ScalarKind::Str;
    assert_eq!(e.check(), Err(SchemaError::BadEnumBacking(0)));

    let mut p = one_record(RecordStyle::Struct, vec![field("a", TypeRef::PropMap(0))]);
    p.prop_maps.push(PropMapSchema { name: "P".to_string(), fields: vec![
        PropMapField { name: "a".to_string(), wire_key: "k".to_string(), kind: ScalarKind::Str },
        PropMapField { name: "b".to_string(), wire_key: "k".to_string(), kind: ScalarKind::Str },
    ] });
    assert_eq!(p.check(), Err(SchemaError::DuplicateWireKey(0)));
}

#[test]
fn classifier_rules() {
    let boxed = TypeExpr::Generic(Head::Box, vec![TypeExpr::Prim(ScalarKind::Int32)]);
    assert!(matches!(classify(&boxed), Ok(TypeRef::Wrapper(_))));
    let reference = TypeExpr::Reference(Box::new(TypeExpr::Slice(Box::new(TypeExpr::Prim(ScalarKind::Byte)))));
    let s = one_record(RecordStyle::Struct, vec![field("a", classify(&reference).unwrap())]);
    assert_eq!(s.signature(0), "(y)");
    assert!(matches!(classify(&TypeExpr::Function), Err(ClassifyError::Unsupported)));
    assert!(matches!(
        classify(&TypeExpr::RawPointer(Box::new(TypeExpr::Prim(ScalarKind::Byte)))),
        Err(ClassifyError::Unsupported)
    ));
    assert!(matches!(classify(&TypeExpr::Generic(Head::Other, vec![])), Err(ClassifyError::Unsupported)));
    assert!(matches!(classify(&TypeExpr::Generic(Head::Vec, vec![])), Err(ClassifyError::MissingArgument)));
    assert!(matches!(
        classify(&TypeExpr::Generic(Head::HashMap, vec![TypeExpr::Prim(ScalarKind::Str)])),
        Err(ClassifyError::MissingArgument)
    ));
    assert!(matches!(
        classify(&TypeExpr::Generic(Head::BTreeMap, vec![
            TypeExpr::Prim(ScalarKind::Double),
            TypeExpr::Prim(ScalarKind::Byte),
        ])),
        Err(ClassifyError::BadKey)
    ));
}

#[test]
fn classifier_field_rules() {
    let decls = vec![
        FieldDecl {
            name: Some("a".to_string()),
            declared: TypeExpr::Function,
            override_type: Some(TypeExpr::Prim(ScalarKind::UInt32)),
            derived: false,
        },
        FieldDecl {
            name: Some("b".to_string()),
            declared: TypeExpr::User(UserType::Record(0)),
            override_type: None,
            derived: true,
        },
    ];
    let fields = classify_fields(&decls).unwrap();
    assert!(matches!(fields[0].ty, TypeRef::Scalar(ScalarKind::UInt32)));
    assert!(matches!(fields[1].ty, TypeRef::Composite(0)));

    let bad = vec![
        FieldDecl { name: None, declared: TypeExpr::Prim(ScalarKind::Byte), override_type: None, derived: false },
        FieldDecl { name: None, declared: TypeExpr::Prim(ScalarKind::Byte), override_type: None, derived: true },
    ];
    let err = classify_fields(&bad).unwrap_err();
    assert_eq!(err.field, 1);
    assert_eq!(err.error, ClassifyError::NotARecord);
}

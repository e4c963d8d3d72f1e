use gnome_randr::classify::{classify_fields, FieldDecl, Head, TypeExpr, UserType};
use gnome_randr::schema::{
    EnumSchema, EnumVariant, PropMapField, PropMapSchema, RecordSchema, RecordStyle, Schema, TypeRef,
};
use gnome_randr::wire::ScalarKind;

fn named(name: &str, declared: TypeExpr) -> FieldDecl {
    FieldDecl { name: Some(name.to_string()), declared, override_type: None, derived: false }
}

fn positional(declared: TypeExpr) -> FieldDecl {
    FieldDecl { name: None, declared, override_type: None, derived: false }
}

fn record(name: &str, style: RecordStyle, decls: Vec<FieldDecl>) -> RecordSchema {
    let fields = classify_fields(&decls).unwrap();
    RecordSchema { name: name.to_string(), style, fields }
}

fn nested() -> TypeExpr {
    TypeExpr::User(UserType::Record(0))
}

fn vec_of(t: TypeExpr) -> TypeExpr {
    TypeExpr::Generic(Head::Vec, vec![t])
}

#[test]
fn conversion() {
    let mut schema = Schema { records: vec![], enums: vec![], prop_maps: vec![] };
    schema.enums.push(EnumSchema {
        name: "ChoiceArg".to_string(),
        backing: ScalarKind::Byte,
        variants: vec![
            EnumVariant { tag: "Choice0".to_string(), discriminant: 0 },
            EnumVariant { tag: "Choice1".to_string(), discriminant: 1 },
        ],
    });
    schema.prop_maps.push(PropMapSchema {
        name: "PropsArg".to_string(),
        fields: vec![
            PropMapField { name: "arg1".to_string(), wire_key: "arg1".to_string(), kind: ScalarKind::Str },
            PropMapField { name: "arg2".to_string(), wire_key: "arg2".to_string(), kind: ScalarKind::UInt32 },
        ],
    });
    let nested_arg = record("NestedArg", RecordStyle::Args, vec![
        named("arg_i32", TypeExpr::Prim(ScalarKind::Int32)),
        named("arg_u32", TypeExpr::Prim(ScalarKind::UInt32)),
        named("arg_string", TypeExpr::Prim(ScalarKind::Str)),
        named("arg_vec", vec_of(TypeExpr::Prim(ScalarKind::Double))),
        named("arg_map", TypeExpr::Generic(Head::HashMap, vec![
            TypeExpr::Prim(ScalarKind::Int16),
            TypeExpr::Prim(ScalarKind::UInt16),
        ])),
        named("arg_tree", TypeExpr::Generic(Head::BTreeMap, vec![
            TypeExpr::Prim(ScalarKind::Int64),
            TypeExpr::Prim(ScalarKind::UInt64),
        ])),
        named("arg_enum", TypeExpr::User(UserType::Enum(0))),
        named("arg_props", TypeExpr::User(UserType::PropMap(0))),
    ]);
    schema.records.push(nested_arg);
    let args_named = record("ArgsNamed", RecordStyle::Args, vec![
        named("arg_struct", nested()),
        named("arg_vec_struct", vec_of(nested())),
    ]);
    schema.records.push(args_named);
    let args_named_wrapper = record("ArgsNamedWrapper", RecordStyle::Args, vec![positional(nested())]);
    schema.records.push(args_named_wrapper);
    let args_unnamed = record("ArgsUnnamed", RecordStyle::Args, vec![
        positional(nested()),
        positional(vec_of(nested())),
    ]);
    schema.records.push(args_unnamed);
    let args_unnamed_wrapper = record("ArgsUnnamedWrapper", RecordStyle::Args, vec![positional(nested())]);
    schema.records.push(args_unnamed_wrapper);
    assert!(schema.check().is_ok());

    let nested_sig = "(iusada{nq}a{xt}ya{sv})".to_string();
    let full_sig = format!("({nested_sig}a{nested_sig})");
    assert_eq!(nested_sig, schema.signature(0));
    assert_eq!(nested_sig, schema.signature(2));
    assert_eq!(nested_sig, schema.signature(4));
    assert_eq!(full_sig, schema.signature(1));
    assert_eq!(full_sig, schema.signature(3));
    assert!(matches!(&schema.records[1].fields[0].ty, TypeRef::Composite(0)));
}

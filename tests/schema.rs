use borsh_derive_internal::{
    borsh_schema, declaration_of, ConfigError, DiscriminantExpr, EnumDefinition, FieldSchema,
    FieldSpec, Fields, Registry, ScalarKind, SchemaError, SchemaNode, SchemaOverride,
    StructDefinition, TypeDefinition, TypeExpr, UnionDefinition, VariantSchema, VariantSpec,
};

fn field(name: &str, ty: TypeExpr) -> FieldSpec {
    FieldSpec {
        name: Some(name.to_string()),
        ty,
        skipped: false,
        serialize_with: None,
        deserialize_with: None,
        bound_serialize: None,
        bound_deserialize: None,
        schema_with: None,
    }
}

fn named(name: &str, args: Vec<TypeExpr>) -> TypeExpr {
    TypeExpr::Named(name.to_string(), args)
}

fn entry<'a>(reg: &'a Registry, key: &str) -> Vec<&'a SchemaNode> {
    reg.entries().iter().filter(|e| e.key == key).map(|e| &e.node).collect()
}

fn fs(name: &str, decl: &str) -> FieldSchema {
    FieldSchema { name: Some(name.to_string()), declaration: decl.to_string(), definitions: None }
}

#[test]
fn self_referential_record_registered_once() {
    let node = StructDefinition {
        name: "Node".to_string(),
        generics: vec![],
        attrs: vec![],
        fields: Fields::Named(vec![
            field("value", TypeExpr::Scalar(ScalarKind::U32)),
            field("children", TypeExpr::Sequence(Box::new(named("Node", vec![])))),
        ]),
    };
    let env = vec![TypeDefinition::Struct(node)];
    let reg = borsh_schema(&env, &named("Node", vec![]), 16).unwrap();
    assert_eq!(reg.len(), 3);
    assert_eq!(
        entry(&reg, "Node"),
        vec![&SchemaNode::Struct { fields: vec![fs("value", "u32"), fs("children", "Vec<Node>")] }]
    );
    assert_eq!(entry(&reg, "Vec<Node>"), vec![&SchemaNode::Sequence { element: "Node".to_string() }]);
    assert_eq!(entry(&reg, "u32"), vec![&SchemaNode::Primitive]);
}

#[test]
fn generic_arguments_are_positional() {
    let pair = StructDefinition {
        name: "Pair".to_string(),
        generics: vec!["A".to_string(), "B".to_string()],
        attrs: vec![],
        fields: Fields::Unnamed(vec![
            FieldSpec { name: None, ..field("", TypeExpr::Param(1)) },
            FieldSpec { name: None, ..field("", TypeExpr::Fixed(4, Box::new(TypeExpr::Param(0)))) },
        ]),
    };
    let env = vec![TypeDefinition::Struct(pair)];
    let root = named("Pair", vec![TypeExpr::Scalar(ScalarKind::U8), TypeExpr::Bytes]);
    let reg = borsh_schema(&env, &root, 8).unwrap();
    let keys: Vec<&str> = reg.entries().iter().map(|e| e.key.as_str()).collect();
    assert_eq!(keys, vec!["Pair<u8, Vec<u8>>", "u8", "Vec<u8>", "[u8; 4]"]);
    assert_eq!(
        entry(&reg, "Pair<u8, Vec<u8>>"),
        vec![&SchemaNode::Struct {
            fields: vec![
                FieldSchema { name: None, declaration: "Vec<u8>".to_string(), definitions: None },
                FieldSchema { name: None, declaration: "[u8; 4]".to_string(), definitions: None },
            ]
        }]
    );
}

#[test]
fn enum_schema_records_tags() {
    let e = EnumDefinition {
        name: "Shape".to_string(),
        generics: vec![],
        attrs: vec![],
        variants: vec![
            VariantSpec { name: "Empty".to_string(), discriminant: None, fields: Fields::Unit },
            VariantSpec {
                name: "Square".to_string(),
                discriminant: Some(DiscriminantExpr::Literal(7)),
                fields: Fields::Named(vec![field("side", TypeExpr::Scalar(ScalarKind::U16))]),
            },
        ],
        use_discriminant: Some(true),
    };
    let env = vec![TypeDefinition::Enum(e)];
    let reg = borsh_schema(&env, &named("Shape", vec![]), 8).unwrap();
    assert_eq!(
        entry(&reg, "Shape"),
        vec![&SchemaNode::Enum {
            variants: vec![
                VariantSchema { name: "Empty".to_string(), tag: 0, fields: vec![] },
                VariantSchema { name: "Square".to_string(), tag: 7, fields: vec![fs("side", "u16")] },
            ]
        }]
    );
    assert_eq!(reg.len(), 2);
}

#[test]
fn schema_override_replaces_reference() {
    let s = StructDefinition {
        name: "S".to_string(),
        generics: vec![],
        attrs: vec![],
        fields: Fields::Named(vec![FieldSpec {
            schema_with: Some(SchemaOverride {
                declaration: "m::decl".to_string(),
                definitions: "m::defs".to_string(),
            }),
            ..field("x", named("Foreign", vec![]))
        }]),
    };
    let env = vec![TypeDefinition::Struct(s)];
    let reg = borsh_schema(&env, &named("S", vec![]), 8).unwrap();
    assert_eq!(reg.len(), 1);
    assert_eq!(
        entry(&reg, "S"),
        vec![&SchemaNode::Struct {
            fields: vec![FieldSchema {
                name: Some("x".to_string()),
                declaration: "m::decl".to_string(),
                definitions: Some("m::defs".to_string()),
            }]
        }]
    );
}

#[test]
fn skipped_fields_left_out() {
    let s = StructDefinition {
        name: "S".to_string(),
        generics: vec![],
        attrs: vec![],
        fields: Fields::Named(vec![
            field("a", TypeExpr::Scalar(ScalarKind::U8)),
            FieldSpec { skipped: true, ..field("b", named("X", vec![])) },
            field("c", TypeExpr::Text),
        ]),
    };
    let env = vec![TypeDefinition::Struct(s)];
    let reg = borsh_schema(&env, &named("S", vec![]), 8).unwrap();
    assert_eq!(entry(&reg, "S"), vec![&SchemaNode::Struct { fields: vec![fs("a", "u8"), fs("c", "String")] }]);
    assert_eq!(reg.len(), 3);
    assert_eq!(entry(&reg, "String"), vec![&SchemaNode::Primitive]);
}

#[test]
fn skipped_field_with_schema_override_rejected() {
    let s = StructDefinition {
        name: "S".to_string(),
        generics: vec![],
        attrs: vec![],
        fields: Fields::Named(vec![
            field("a", TypeExpr::Scalar(ScalarKind::U8)),
            FieldSpec {
                skipped: true,
                schema_with: Some(SchemaOverride { declaration: "d".to_string(), definitions: "f".to_string() }),
                ..field("x", TypeExpr::Scalar(ScalarKind::U8))
            },
        ]),
    };
    let env = vec![TypeDefinition::Struct(s)];
    assert_eq!(
        borsh_schema(&env, &named("S", vec![]), 8),
        Err(SchemaError::Config(ConfigError::ConflictingFieldOptions { in_variant: None, field: 1 }))
    );
}

#[test]
fn union_has_no_schema() {
    let u = UnionDefinition {
        name: "U".to_string(),
        generics: vec![],
        attrs: vec![],
        fields: vec![field("a", TypeExpr::Scalar(ScalarKind::U8)), field("b", TypeExpr::Scalar(ScalarKind::U16))],
    };
    let env = vec![TypeDefinition::Union(u)];
    assert_eq!(borsh_schema(&env, &named("U", vec![]), 8), Err(SchemaError::UnionUnsupported));
}

#[test]
fn schema_errors() {
    let env: Vec<TypeDefinition> = vec![];
    assert_eq!(
        borsh_schema(&env, &named("Missing", vec![]), 8),
        Err(SchemaError::UnknownType { name: "Missing".to_string() })
    );
    let s = StructDefinition { name: "S".to_string(), generics: vec![], attrs: vec![], fields: Fields::Unit };
    let env = vec![TypeDefinition::Struct(s)];
    assert_eq!(
        borsh_schema(&env, &named("S", vec![TypeExpr::Bytes]), 8),
        Err(SchemaError::Malformed)
    );
    assert_eq!(borsh_schema(&env, &named("S", vec![]), 0), Err(SchemaError::TooDeep));
    let e = EnumDefinition {
        name: "E".to_string(),
        generics: vec![],
        attrs: vec![],
        variants: vec![VariantSpec {
            name: "A".to_string(),
            discriminant: Some(DiscriminantExpr::Literal(300)),
            fields: Fields::Unit,
        }],
        use_discriminant: Some(true),
    };
    let env = vec![TypeDefinition::Enum(e)];
    assert_eq!(
        borsh_schema(&env, &named("E", vec![]), 8),
        Err(SchemaError::Config(ConfigError::DiscriminantOutOfRange { variant: 0, value: 300 }))
    );
}

#[test]
fn declarations_are_canonical() {
    let ctx = vec!["u64".to_string()];
    let ty = named(
        "Map",
        vec![TypeExpr::Param(0), TypeExpr::Fixed(32, Box::new(TypeExpr::Scalar(ScalarKind::I8)))],
    );
    assert_eq!(declaration_of(&ty, &ctx), "Map<u64, [i8; 32]>");
    let nested = TypeExpr::Sequence(Box::new(TypeExpr::Fixed(1000, Box::new(TypeExpr::Bytes))));
    assert_eq!(declaration_of(&nested, &vec![]), "Vec<[Vec<u8>; 1000]>");
}

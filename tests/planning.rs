use borsh_derive_internal::{
    borsh_deserialize, borsh_serialize, enum_de, enum_ser, struct_de, struct_ser, union_ser,
    Attribute, Caps, Capability, CodecPlan, ConfigError, DiscriminantExpr, EnumDefinition,
    FieldPlan, FieldSpec, Fields, Meta, Requirement, ScalarKind, SchemaOverride, StructDefinition,
    TypeDefinition, TypeExpr, UnionDefinition, VariantSpec, Wire,
};

fn field(name: &str, ty: TypeExpr) -> FieldSpec {
    FieldSpec {
        name: Some(name.to_string()),
        ty,
        skipped: false,
        serialize_with: None,
        deserialize_with: None,
        bound_serialize: None,
        bound_deserialize: None,
        schema_with: None,
    }
}

fn skipped(name: &str, ty: TypeExpr) -> FieldSpec {
    FieldSpec { skipped: true, ..field(name, ty) }
}

fn record(fields: Vec<FieldSpec>, generics: &[&str]) -> StructDefinition {
    StructDefinition {
        name: "A".to_string(),
        generics: generics.iter().map(|g| g.to_string()).collect(),
        attrs: vec![],
        fields: Fields::Named(fields),
    }
}

const NONE: Caps = Caps { encode: false, decode: false, default_value: false };

#[test]
fn skipped_with_custom_codec_rejected() {
    let mut bad = skipped("y", TypeExpr::Scalar(ScalarKind::U8));
    bad.serialize_with = Some("path::ser".to_string());
    let def = record(vec![field("x", TypeExpr::Scalar(ScalarKind::U8)), bad], &[]);
    let expected = Err(ConfigError::ConflictingFieldOptions { in_variant: None, field: 1 });
    assert_eq!(struct_ser(&def, "borsh".to_string()), expected);
    assert_eq!(struct_de(&def, "borsh".to_string()), expected);
}

#[test]
fn skipped_with_bound_override_rejected() {
    let mut bad = skipped("y", TypeExpr::Param(0));
    bad.bound_deserialize = Some(vec![]);
    let def = record(vec![bad], &["T"]);
    assert_eq!(
        struct_de(&def, "borsh".to_string()),
        Err(ConfigError::ConflictingFieldOptions { in_variant: None, field: 0 })
    );
}

#[test]
fn skipped_with_custom_codec_in_variant_rejected() {
    let mut bad = skipped("y", TypeExpr::Scalar(ScalarKind::U8));
    bad.deserialize_with = Some("path::de".to_string());
    let def = EnumDefinition {
        name: "E".to_string(),
        generics: vec![],
        attrs: vec![],
        variants: vec![
            VariantSpec { name: "A".to_string(), discriminant: None, fields: Fields::Unit },
            VariantSpec { name: "B".to_string(), discriminant: None, fields: Fields::Named(vec![bad]) },
        ],
        use_discriminant: None,
    };
    assert_eq!(
        enum_ser(&def, "borsh".to_string(), None),
        Err(ConfigError::ConflictingFieldOptions { in_variant: Some(1), field: 0 })
    );
}

#[test]
fn tag_error_reported_before_field_conflict() {
    let mut bad = skipped("y", TypeExpr::Scalar(ScalarKind::U8));
    bad.serialize_with = Some("path::ser".to_string());
    let def = EnumDefinition {
        name: "E".to_string(),
        generics: vec![],
        attrs: vec![],
        variants: vec![VariantSpec {
            name: "A".to_string(),
            discriminant: Some(DiscriminantExpr::Literal(3)),
            fields: Fields::Named(vec![bad]),
        }],
        use_discriminant: None,
    };
    assert_eq!(
        enum_de(&def, "borsh".to_string(), None),
        Err(ConfigError::AmbiguousDiscriminantMode)
    );
}

#[test]
fn skipped_with_schema_override_rejected() {
    let mut bad = skipped("y", TypeExpr::Scalar(ScalarKind::U8));
    bad.schema_with = Some(SchemaOverride { declaration: "d".to_string(), definitions: "f".to_string() });
    let def = record(vec![bad], &[]);
    assert_eq!(
        struct_ser(&def, "borsh".to_string()),
        Err(ConfigError::ConflictingFieldOptions { in_variant: None, field: 0 })
    );
}

#[test]
fn bounds_follow_participation() {
    let def = record(vec![field("x", TypeExpr::Param(0)), skipped("y", TypeExpr::Param(1))], &["U", "V"]);
    let ser = struct_ser(&def, "borsh".to_string()).unwrap();
    assert_eq!(ser.bounds.caps, vec![Caps { encode: true, ..NONE }, NONE]);
    let de = struct_de(&def, "borsh".to_string()).unwrap();
    assert_eq!(de.bounds.caps, vec![Caps { decode: true, ..NONE }, Caps { default_value: true, ..NONE }]);
    assert_eq!(
        de.fields,
        vec![
            FieldPlan { participates: true, encode_with: None, decode_with: None, wire: None },
            FieldPlan { participates: false, encode_with: None, decode_with: None, wire: None },
        ]
    );
}

#[test]
fn bounds_reach_nested_parameters() {
    let ty = TypeExpr::Named(
        "HashMap".to_string(),
        vec![TypeExpr::Param(1), TypeExpr::Sequence(Box::new(TypeExpr::Param(2)))],
    );
    let def = record(vec![field("m", ty)], &["A", "B", "C"]);
    let ser = struct_ser(&def, "borsh".to_string()).unwrap();
    assert_eq!(ser.bounds.caps, vec![NONE, Caps { encode: true, ..NONE }, Caps { encode: true, ..NONE }]);
}

#[test]
fn bound_override_replaces_inferred() {
    let mut f = field("m", TypeExpr::Param(0));
    f.bound_serialize = Some(vec![
        Requirement { param: 1, capability: Capability::Encode },
        Requirement { param: 1, capability: Capability::DefaultValue },
    ]);
    f.bound_deserialize = Some(vec![]);
    let def = record(vec![f], &["K", "V"]);
    let ser = struct_ser(&def, "borsh".to_string()).unwrap();
    assert_eq!(ser.bounds.caps, vec![NONE, Caps { encode: true, default_value: true, ..NONE }]);
    let de = struct_de(&def, "borsh".to_string()).unwrap();
    assert_eq!(de.bounds.caps, vec![NONE, NONE]);
}

#[test]
fn custom_codec_needs_no_bound() {
    let mut f = field("m", TypeExpr::Param(0));
    f.serialize_with = Some("path::ser".to_string());
    let def = record(vec![f], &["T"]);
    let ser = struct_ser(&def, "borsh".to_string()).unwrap();
    assert_eq!(ser.bounds.caps, vec![NONE]);
    assert_eq!(ser.fields[0].encode_with, Some("path::ser".to_string()));
    assert_eq!(ser.fields[0].decode_with, None);
    let de = struct_de(&def, "borsh".to_string()).unwrap();
    assert_eq!(de.bounds.caps, vec![Caps { decode: true, ..NONE }]);
}

#[test]
fn init_hook_only_for_decoding() {
    let mut def = record(vec![field("x", TypeExpr::Scalar(ScalarKind::U64))], &[]);
    def.attrs = vec![Attribute { path: vec!["borsh_init".to_string()], meta: Meta::List("init".to_string()) }];
    let de = struct_de(&def, "my_borsh".to_string()).unwrap();
    assert_eq!(de.init_hook, Some("init".to_string()));
    assert_eq!(de.cratename, "my_borsh");
    assert_eq!(de.fields[0].wire, Some(Wire::Scalar(ScalarKind::U64)));
    let ser = struct_ser(&def, "my_borsh".to_string()).unwrap();
    assert_eq!(ser.init_hook, None);
}

#[test]
fn enum_plan_carries_tags_and_fields() {
    let def = EnumDefinition {
        name: "E".to_string(),
        generics: vec!["T".to_string()],
        attrs: vec![],
        variants: vec![
            VariantSpec { name: "A".to_string(), discriminant: None, fields: Fields::Unit },
            VariantSpec {
                name: "B".to_string(),
                discriminant: Some(DiscriminantExpr::Literal(10)),
                fields: Fields::Unnamed(vec![field("0", TypeExpr::Param(0)), skipped("1", TypeExpr::Bytes)]),
            },
        ],
        use_discriminant: Some(true),
    };
    let plan = enum_ser(&def, "borsh".to_string(), Some(true)).unwrap();
    assert_eq!(plan.variants.len(), 2);
    assert_eq!(plan.variants[0].tag, 0);
    assert_eq!(plan.variants[1].tag, 10);
    assert!(plan.variants[0].fields.is_empty());
    assert_eq!(plan.variants[1].fields.len(), 2);
    assert!(!plan.variants[1].fields[1].participates);
    assert_eq!(plan.bounds.caps, vec![Caps { encode: true, ..NONE }]);
    let order = enum_de(&def, "borsh".to_string(), Some(false)).unwrap();
    assert_eq!(order.variants[1].tag, 1);
    assert_eq!(order.bounds.caps, vec![Caps { decode: true, ..NONE }]);
}

#[test]
fn dispatch_by_kind() {
    let u = UnionDefinition {
        name: "U".to_string(),
        generics: vec![],
        attrs: vec![],
        fields: vec![field("a", TypeExpr::Scalar(ScalarKind::U32)), field("b", TypeExpr::Bytes)],
    };
    let direct = union_ser(&u, "borsh".to_string()).unwrap();
    match borsh_serialize(&TypeDefinition::Union(u), "borsh".to_string()) {
        Ok(CodecPlan::Union(p)) => assert_eq!(p, direct),
        other => panic!("unexpected {:?}", other),
    }
    let s = record(vec![field("x", TypeExpr::Scalar(ScalarKind::Bool))], &[]);
    assert!(matches!(
        borsh_deserialize(&TypeDefinition::Struct(s), "borsh".to_string()),
        Ok(CodecPlan::Struct(_))
    ));
    let e = EnumDefinition {
        name: "E".to_string(),
        generics: vec![],
        attrs: vec![],
        variants: vec![VariantSpec {
            name: "A".to_string(),
            discriminant: Some(DiscriminantExpr::Literal(1)),
            fields: Fields::Unit,
        }],
        use_discriminant: None,
    };
    assert_eq!(
        borsh_serialize(&TypeDefinition::Enum(e), "borsh".to_string()),
        Err(ConfigError::AmbiguousDiscriminantMode)
    );
}

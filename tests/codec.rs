use borsh_derive_internal::{
    decode_overlay, decode_product, decode_sum, decode_value, encode_overlay, encode_product,
    encode_sum, struct_de, struct_ser, enum_ser, DecodeError, EncodeError, EnumDefinition,
    FieldPlan, FieldSpec, Fields, ScalarKind, StructDefinition, SumValue, TypeExpr, Value,
    VariantSpec, Wire, WireError, DiscriminantExpr,
};

fn plan(wire: Wire) -> FieldPlan {
    FieldPlan { participates: true, encode_with: None, decode_with: None, wire: Some(wire) }
}

fn scalar(k: ScalarKind) -> FieldPlan {
    plan(Wire::Scalar(k))
}

fn encode(plans: &Vec<FieldPlan>, values: &Vec<Value>) -> Vec<u8> {
    let mut out = Vec::new();
    encode_product(plans, values, &mut out).unwrap();
    out
}

fn field(name: &str, ty: TypeExpr) -> FieldSpec {
    FieldSpec {
        name: Some(name.to_string()),
        ty,
        skipped: false,
        serialize_with: None,
        deserialize_with: None,
        bound_serialize: None,
        bound_deserialize: None,
        schema_with: None,
    }
}

#[test]
fn scalars_are_little_endian() {
    let plans = vec![scalar(ScalarKind::U32), scalar(ScalarKind::I16), scalar(ScalarKind::Bool)];
    let values = vec![Value::U32(0x0102_0304), Value::I16(-2), Value::Bool(true)];
    assert_eq!(encode(&plans, &values), vec![4, 3, 2, 1, 0xfe, 0xff, 1]);
}

#[test]
fn bytes_are_length_prefixed() {
    let plans = vec![plan(Wire::Bytes)];
    let values = vec![Value::Bytes(vec![9, 8])];
    assert_eq!(encode(&plans, &values), vec![2, 0, 0, 0, 9, 8]);
}

#[test]
fn empty_bytes_are_four_zero_bytes() {
    let plans = vec![plan(Wire::Bytes)];
    assert_eq!(encode(&plans, &vec![Value::Bytes(vec![])]), vec![0, 0, 0, 0]);
}

#[test]
fn matches_borsh_crate() {
    let plans = vec![
        scalar(ScalarKind::U64),
        scalar(ScalarKind::I32),
        scalar(ScalarKind::U128),
        scalar(ScalarKind::Bool),
        plan(Wire::Bytes),
        scalar(ScalarKind::F64),
    ];
    let x: f64 = 1.5;
    let values = vec![
        Value::U64(u64::MAX - 7),
        Value::I32(-123_456),
        Value::U128(1 << 100),
        Value::Bool(false),
        Value::Bytes(b"hello".to_vec()),
        Value::F64(x.to_bits()),
    ];
    let ours = encode(&plans, &values);
    let theirs = borsh::to_vec(&(u64::MAX - 7, -123_456i32, 1u128 << 100, false, b"hello".to_vec(), x)).unwrap();
    assert_eq!(ours, theirs);
}

#[test]
fn product_round_trip_with_skipped_field() {
    let def = StructDefinition {
        name: "R".to_string(),
        generics: vec![],
        attrs: vec![],
        fields: Fields::Named(vec![
            field("a", TypeExpr::Scalar(ScalarKind::U8)),
            FieldSpec { skipped: true, ..field("b", TypeExpr::Scalar(ScalarKind::U64)) },
            field("c", TypeExpr::Bytes),
            field("d", TypeExpr::Scalar(ScalarKind::I128)),
            field("e", TypeExpr::Scalar(ScalarKind::F32)),
        ]),
    };
    let ser = struct_ser(&def, "borsh".to_string()).unwrap();
    let de = struct_de(&def, "borsh".to_string()).unwrap();
    let values = vec![
        Value::U8(7),
        Value::U64(99),
        Value::Bytes(vec![1, 2, 3]),
        Value::I128(-5),
        Value::F32(2.5f32.to_bits()),
    ];
    let bytes = encode(&ser.fields, &values);
    assert_eq!(bytes.len(), 1 + 4 + 3 + 16 + 4);
    let (back, end) = decode_product(&de.fields, &bytes, 0, 1024).unwrap();
    assert_eq!(end, bytes.len());
    assert_eq!(
        back,
        vec![
            Value::U8(7),
            Value::U64(0),
            Value::Bytes(vec![1, 2, 3]),
            Value::I128(-5),
            Value::F32(2.5f32.to_bits()),
        ]
    );
}

#[test]
fn encoding_is_deterministic() {
    let plans = vec![scalar(ScalarKind::U16), plan(Wire::Bytes)];
    let values = vec![Value::U16(513), Value::Bytes(vec![5; 10])];
    let first = encode(&plans, &values);
    let second = encode(&plans, &values.clone());
    assert_eq!(first, second);
}

#[test]
fn truncated_scalar() {
    assert_eq!(
        decode_value(Wire::Scalar(ScalarKind::U32), &[1, 2], 0, 100),
        Err(WireError::TruncatedInput)
    );
    let plans = vec![scalar(ScalarKind::U32)];
    assert_eq!(
        decode_product(&plans, &[1, 2], 0, 100),
        Err(DecodeError::Wire { field: Some(0), error: WireError::TruncatedInput })
    );
}

#[test]
fn declared_length_past_input() {
    assert_eq!(
        decode_value(Wire::Bytes, &[10, 0, 0, 0, 1, 2, 3], 0, 100),
        Err(WireError::LengthOverflow)
    );
}

#[test]
fn declared_length_past_maximum() {
    let input = [3, 0, 0, 0, 1, 2, 3];
    assert_eq!(decode_value(Wire::Bytes, &input, 0, 2), Err(WireError::LengthOverflow));
    assert_eq!(decode_value(Wire::Bytes, &input, 0, 3), Ok((Value::Bytes(vec![1, 2, 3]), 7)));
}

#[test]
fn truncated_length_prefix() {
    assert_eq!(decode_value(Wire::Bytes, &[1, 0, 0], 0, 100), Err(WireError::TruncatedInput));
}

#[test]
fn invalid_boolean_byte() {
    assert_eq!(
        decode_value(Wire::Scalar(ScalarKind::Bool), &[2], 0, 100),
        Err(WireError::InvalidBooleanByte { byte: 2 })
    );
    assert_eq!(decode_value(Wire::Scalar(ScalarKind::Bool), &[1], 0, 100), Ok((Value::Bool(true), 1)));
}

#[test]
fn decode_at_offset() {
    assert_eq!(
        decode_value(Wire::Scalar(ScalarKind::I64), &[0xaa, 0xff, 0xff, 0xff, 0xff, 0xff, 0xff, 0xff, 0xff], 1, 0),
        Ok((Value::I64(-1), 9))
    );
}

fn three_variant_sum() -> EnumDefinition {
    EnumDefinition {
        name: "E".to_string(),
        generics: vec![],
        attrs: vec![],
        variants: vec![
            VariantSpec { name: "A".to_string(), discriminant: None, fields: Fields::Unit },
            VariantSpec {
                name: "B".to_string(),
                discriminant: None,
                fields: Fields::Unnamed(vec![field("0", TypeExpr::Scalar(ScalarKind::U16))]),
            },
            VariantSpec {
                name: "C".to_string(),
                discriminant: None,
                fields: Fields::Named(vec![field("x", TypeExpr::Bytes), field("y", TypeExpr::Scalar(ScalarKind::Bool))]),
            },
        ],
        use_discriminant: None,
    }
}

#[test]
fn unknown_variant_tag() {
    let plan = enum_ser(&three_variant_sum(), "borsh".to_string(), None).unwrap();
    assert_eq!(decode_sum(&plan, &[0xff], 0, 100), Err(DecodeError::UnknownVariantTag { tag: 255 }));
    assert_eq!(decode_sum(&plan, &[3, 0], 0, 100), Err(DecodeError::UnknownVariantTag { tag: 3 }));
}

#[test]
fn missing_tag_byte() {
    let plan = enum_ser(&three_variant_sum(), "borsh".to_string(), None).unwrap();
    assert_eq!(
        decode_sum(&plan, &[], 0, 100),
        Err(DecodeError::Wire { field: None, error: WireError::TruncatedInput })
    );
}

#[test]
fn sum_round_trip() {
    let plan = enum_ser(&three_variant_sum(), "borsh".to_string(), None).unwrap();
    let value = SumValue { variant: 2, fields: vec![Value::Bytes(vec![7, 7]), Value::Bool(true)] };
    let mut out = Vec::new();
    encode_sum(&plan, &value, &mut out).unwrap();
    assert_eq!(out, vec![2, 2, 0, 0, 0, 7, 7, 1]);
    assert_eq!(decode_sum(&plan, &out, 0, 100), Ok((value, 8)));
    let unit = SumValue { variant: 0, fields: vec![] };
    let mut out = Vec::new();
    encode_sum(&plan, &unit, &mut out).unwrap();
    assert_eq!(out, vec![0]);
    assert_eq!(decode_sum(&plan, &out, 0, 100), Ok((unit, 1)));
}

#[test]
fn explicit_tags_on_the_wire() {
    let mut def = three_variant_sum();
    def.variants[1].discriminant = Some(DiscriminantExpr::Literal(10));
    let plan = enum_ser(&def, "borsh".to_string(), Some(true)).unwrap();
    let value = SumValue { variant: 1, fields: vec![Value::U16(258)] };
    let mut out = Vec::new();
    encode_sum(&plan, &value, &mut out).unwrap();
    assert_eq!(out, vec![10, 2, 1]);
    assert_eq!(decode_sum(&plan, &out, 0, 100), Ok((value, 3)));
    assert_eq!(decode_sum(&plan, &[1, 0, 0], 0, 100), Err(DecodeError::UnknownVariantTag { tag: 1 }));
}

#[test]
fn unknown_variant_on_encode() {
    let plan = enum_ser(&three_variant_sum(), "borsh".to_string(), None).unwrap();
    let mut out = Vec::new();
    let value = SumValue { variant: 3, fields: vec![] };
    assert_eq!(encode_sum(&plan, &value, &mut out), Err(EncodeError::UnknownVariant { variant: 3 }));
}

#[test]
fn overlay_round_trip() {
    let plans = vec![scalar(ScalarKind::U32), plan(Wire::Bytes)];
    let mut out = Vec::new();
    encode_overlay(&plans, 1, &Value::Bytes(vec![4]), &mut out).unwrap();
    assert_eq!(out, vec![1, 0, 0, 0, 4]);
    assert_eq!(decode_overlay(&plans, 1, &out, 0, 10), Ok((Value::Bytes(vec![4]), 5)));
    let mut out = Vec::new();
    encode_overlay(&plans, 0, &Value::U32(6), &mut out).unwrap();
    assert_eq!(out, vec![6, 0, 0, 0]);
    assert_eq!(decode_overlay(&plans, 0, &out, 0, 10), Ok((Value::U32(6), 4)));
}

#[test]
fn encode_errors() {
    let plans = vec![scalar(ScalarKind::U8), scalar(ScalarKind::U16)];
    let mut out = Vec::new();
    assert_eq!(
        encode_product(&plans, &vec![Value::U8(1)], &mut out),
        Err(EncodeError::ArityMismatch { expected: 2, found: 1 })
    );
    assert_eq!(
        encode_product(&plans, &vec![Value::U8(1), Value::U32(2)], &mut out),
        Err(EncodeError::TypeMismatch { field: 1 })
    );
    let custom = vec![FieldPlan { encode_with: Some("p::f".to_string()), ..scalar(ScalarKind::U8) }];
    assert_eq!(
        encode_product(&custom, &vec![Value::U8(1)], &mut Vec::new()),
        Err(EncodeError::NotInterpretable { field: 0 })
    );
    let opaque = vec![FieldPlan { participates: true, encode_with: None, decode_with: None, wire: None }];
    assert_eq!(
        decode_product(&opaque, &[0], 0, 10),
        Err(DecodeError::NotInterpretable { field: 0 })
    );
}

#[test]
fn skipped_field_is_not_checked_on_encode() {
    let plans = vec![FieldPlan { participates: false, ..scalar(ScalarKind::U8) }, scalar(ScalarKind::U8)];
    assert_eq!(encode(&plans, &vec![Value::Bool(true), Value::U8(5)]), vec![5]);
    assert_eq!(decode_product(&plans, &[5], 0, 0), Ok((vec![Value::U8(0), Value::U8(5)], 1)));
}

#[test]
fn text_field_uses_length_prefix() {
    let def = StructDefinition {
        name: "T".to_string(),
        generics: vec![],
        attrs: vec![],
        fields: Fields::Unnamed(vec![field("0", TypeExpr::Text)]),
    };
    let ser = struct_ser(&def, "borsh".to_string()).unwrap();
    assert_eq!(ser.fields[0].wire, Some(Wire::Bytes));
    let bytes = encode(&ser.fields, &vec![Value::Bytes(b"hi".to_vec())]);
    assert_eq!(bytes, borsh::to_vec(&"hi".to_string()).unwrap());
}

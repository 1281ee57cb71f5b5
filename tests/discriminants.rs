use borsh_derive_internal::{
    resolve_tags, ConfigError, DiscriminantExpr, DiscriminantMode, Fields, VariantSpec,
};

fn variant(name: &str, discriminant: Option<DiscriminantExpr>) -> VariantSpec {
    VariantSpec { name: name.to_string(), discriminant, fields: Fields::Unit }
}

fn literals(values: &[Option<i128>]) -> Vec<VariantSpec> {
    values
        .iter()
        .enumerate()
        .map(|(i, v)| variant(&format!("V{}", i), v.map(DiscriminantExpr::Literal)))
        .collect()
}

#[test]
fn declaration_order_gives_positions() {
    let vs = literals(&[None, None, None]);
    assert_eq!(resolve_tags(&vs, DiscriminantMode::Unset), Ok(vec![0, 1, 2]));
    assert_eq!(resolve_tags(&vs, DiscriminantMode::DeclarationOrder), Ok(vec![0, 1, 2]));
}

#[test]
fn declaration_order_ignores_declared_values() {
    let vs = literals(&[None, Some(10)]);
    assert_eq!(resolve_tags(&vs, DiscriminantMode::DeclarationOrder), Ok(vec![0, 1]));
}

#[test]
fn declaration_order_covers_all_bytes() {
    let vs = literals(&vec![None; 256]);
    let tags = resolve_tags(&vs, DiscriminantMode::DeclarationOrder).unwrap();
    let expected: Vec<u8> = (0..=255u8).collect();
    assert_eq!(tags, expected);
}

#[test]
fn too_many_variants_rejected() {
    let vs = literals(&vec![None; 257]);
    assert_eq!(
        resolve_tags(&vs, DiscriminantMode::DeclarationOrder),
        Err(ConfigError::TooManyVariants { count: 257 })
    );
}

#[test]
fn explicit_zero_and_ten() {
    let vs = literals(&[Some(0), Some(10)]);
    assert_eq!(resolve_tags(&vs, DiscriminantMode::Explicit), Ok(vec![0, 10]));
}

#[test]
fn explicit_implicit_follows_previous() {
    let vs = literals(&[Some(0), Some(10), None]);
    assert_eq!(resolve_tags(&vs, DiscriminantMode::Explicit), Ok(vec![0, 10, 11]));
}

#[test]
fn explicit_first_implicit_is_zero() {
    let vs = literals(&[None, Some(5), None]);
    assert_eq!(resolve_tags(&vs, DiscriminantMode::Explicit), Ok(vec![0, 5, 6]));
}

#[test]
fn explicit_256_out_of_range() {
    let vs = literals(&[Some(0), Some(256)]);
    assert_eq!(
        resolve_tags(&vs, DiscriminantMode::Explicit),
        Err(ConfigError::DiscriminantOutOfRange { variant: 1, value: 256 })
    );
}

#[test]
fn explicit_implicit_past_255_out_of_range() {
    let vs = literals(&[Some(255), None]);
    assert_eq!(
        resolve_tags(&vs, DiscriminantMode::Explicit),
        Err(ConfigError::DiscriminantOutOfRange { variant: 1, value: 256 })
    );
}

#[test]
fn explicit_negative_out_of_range() {
    let vs = literals(&[Some(-1)]);
    assert_eq!(
        resolve_tags(&vs, DiscriminantMode::Explicit),
        Err(ConfigError::DiscriminantOutOfRange { variant: 0, value: -1 })
    );
}

#[test]
fn explicit_collision_rejected() {
    let vs = literals(&[Some(1), Some(0), None]);
    assert_eq!(
        resolve_tags(&vs, DiscriminantMode::Explicit),
        Err(ConfigError::DiscriminantCollision { variant: 2, tag: 1 })
    );
}

#[test]
fn computed_discriminant_unsupported() {
    let vs = vec![variant("A", None), variant("B", Some(DiscriminantExpr::Computed))];
    assert_eq!(
        resolve_tags(&vs, DiscriminantMode::Explicit),
        Err(ConfigError::UnsupportedDiscriminantExpression { variant: 1 })
    );
}

#[test]
fn explicit_without_mode_is_ambiguous() {
    let vs = literals(&[None, Some(10)]);
    assert_eq!(
        resolve_tags(&vs, DiscriminantMode::Unset),
        Err(ConfigError::AmbiguousDiscriminantMode)
    );
}

#[test]
fn mode_from_flag() {
    assert_eq!(DiscriminantMode::from_flag(None), DiscriminantMode::Unset);
    assert_eq!(DiscriminantMode::from_flag(Some(false)), DiscriminantMode::DeclarationOrder);
    assert_eq!(DiscriminantMode::from_flag(Some(true)), DiscriminantMode::Explicit);
}

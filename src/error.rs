use vstd::prelude::*;

verus! {

/// A configuration error: found while planning a type, before any byte is
/// read or written. Indices are zero-based positions in declaration order.
#[derive(Debug, Clone, Copy, PartialEq, Eq, Structural)]
pub enum ConfigError {
    /// Some variant declares a discriminant but the type does not say whether
    /// the declared values or the declaration order are the wire tags.
    AmbiguousDiscriminantMode,
    /// More variants than a one-byte tag can tell apart.
    TooManyVariants { count: usize },
    /// The variant at `variant` resolves to a tag outside `[0, 255]`.
    DiscriminantOutOfRange { variant: usize, value: i128 },
    /// The variant at `variant` resolves to a tag that an earlier one has.
    DiscriminantCollision { variant: usize, tag: u8 },
    /// The variant at `variant` declares a discriminant that is not an
    /// integer literal.
    UnsupportedDiscriminantExpression { variant: usize },
    /// The field at `field` (of the variant at `in_variant`, in a sum) is skipped
    /// and also has a custom codec, a bound override or a schema override.
    ConflictingFieldOptions { in_variant: Option<usize>, field: usize },
}

} // verus!

use vstd::prelude::*;

use crate::error::ConfigError;
use crate::types::{DiscriminantExpr, VariantSpec};

verus! {

/// How the wire tags of a sum's variants are chosen.
#[derive(Debug, Clone, Copy, PartialEq, Eq, Structural)]
pub enum DiscriminantMode {
    /// Not given. Allowed only while no variant declares a discriminant.
    Unset,
    /// The tag of a variant is its position.
    DeclarationOrder,
    /// The tag of a variant is its declared discriminant; a variant without
    /// one follows the previous variant's tag by one (the first one is 0).
    Explicit,
}

impl DiscriminantMode {
    /// The mode that an optional `use_discriminant` flag selects.
    pub fn from_flag(flag: Option<bool>) -> (r: DiscriminantMode)
        ensures
            r == mode_of_flag(flag),
    {
        match flag {
            None => DiscriminantMode::Unset,
            Some(false) => DiscriminantMode::DeclarationOrder,
            Some(true) => DiscriminantMode::Explicit,
        }
    }
}

pub open spec fn mode_of_flag(flag: Option<bool>) -> DiscriminantMode {
    match flag {
        None => DiscriminantMode::Unset,
        Some(false) => DiscriminantMode::DeclarationOrder,
        Some(true) => DiscriminantMode::Explicit,
    }
}

/// Some variant declares a discriminant.
pub open spec fn has_explicit(vs: Seq<VariantSpec>) -> bool {
    exists|i: int| 0 <= i < vs.len() && (#[trigger] vs[i]).discriminant is Some
}

/// The tags by declaration order: variant `i` gets `i`.
pub open spec fn order_tags(n: nat) -> Seq<u8> {
    Seq::new(n, |i: int| i as u8)
}

/// The tag that variant `i` asks for in explicit mode, given the tags of the
/// variants before it.
pub open spec fn wanted_tag(vs: Seq<VariantSpec>, i: int, before: Seq<u8>) -> int {
    match vs[i].discriminant {
        Some(DiscriminantExpr::Literal(x)) => x as int,
        _ => if i == 0 {
            0
        } else {
            before.last() + 1
        },
    }
}

/// Explicit mode over the first `n` variants: their tags, or the error at
/// the first variant that cannot have one.
pub open spec fn explicit_tags(vs: Seq<VariantSpec>, n: nat) -> Result<Seq<u8>, ConfigError>
    decreases n,
{
    if n == 0 {
        Ok(Seq::empty())
    } else {
        let i = n - 1;
        match explicit_tags(vs, (n - 1) as nat) {
            Err(e) => Err(e),
            Ok(before) => if vs[i].discriminant == Some(DiscriminantExpr::Computed) {
                Err(ConfigError::UnsupportedDiscriminantExpression { variant: i as usize })
            } else {
                let v = wanted_tag(vs, i, before);
                if v < 0 || v > 255 {
                    Err(ConfigError::DiscriminantOutOfRange { variant: i as usize, value: v as i128 })
                } else if before.contains(v as u8) {
                    Err(ConfigError::DiscriminantCollision { variant: i as usize, tag: v as u8 })
                } else {
                    Ok(before.push(v as u8))
                }
            },
        }
    }
}

/// The wire tags of a sum's variants under `mode`, or why there are none.
pub open spec fn resolution(vs: Seq<VariantSpec>, mode: DiscriminantMode) -> Result<
    Seq<u8>,
    ConfigError,
> {
    if has_explicit(vs) && mode == DiscriminantMode::Unset {
        Err(ConfigError::AmbiguousDiscriminantMode)
    } else if mode == DiscriminantMode::Explicit {
        explicit_tags(vs, vs.len())
    } else if vs.len() > 256 {
        Err(ConfigError::TooManyVariants { count: vs.len() as usize })
    } else {
        Ok(order_tags(vs.len()))
    }
}

/// Once a prefix fails, every longer prefix fails with the same error.
proof fn lemma_explicit_error_persists(vs: Seq<VariantSpec>, k: nat, m: nat)
    requires
        k <= m,
        explicit_tags(vs, k) is Err,
    ensures
        explicit_tags(vs, m) == explicit_tags(vs, k),
    decreases m - k,
{
    if k < m {
        lemma_explicit_error_persists(vs, k, (m - 1) as nat);
    }
}

fn contains_tag(tags: &Vec<u8>, t: u8) -> (r: bool)
    ensures
        r == tags@.contains(t),
{
    let mut j: usize = 0;
    while j < tags.len()
        invariant
            j <= tags.len(),
            forall|k: int| 0 <= k < j ==> tags@[k] != t,
        decreases tags.len() - j,
    {
        if tags[j] == t {
            return true;
        }
        j = j + 1;
    }
    false
}

fn any_explicit(variants: &Vec<VariantSpec>) -> (r: bool)
    ensures
        r == has_explicit(variants@),
{
    let mut i: usize = 0;
    while i < variants.len()
        invariant
            i <= variants.len(),
            forall|k: int| 0 <= k < i ==> (#[trigger] variants@[k]).discriminant is None,
        decreases variants.len() - i,
    {
        if variants[i].discriminant.is_some() {
            return true;
        }
        i = i + 1;
    }
    false
}

/// Resolves the one-byte wire tag of every variant of a sum, in declaration
/// order.
pub fn resolve_tags(variants: &Vec<VariantSpec>, mode: DiscriminantMode) -> (r: Result<
    Vec<u8>,
    ConfigError,
>)
    ensures
        r is Ok ==> resolution(variants@, mode) == Ok::<Seq<u8>, ConfigError>(r->Ok_0@),
        r is Err ==> resolution(variants@, mode) == Err::<Seq<u8>, ConfigError>(r->Err_0),
{
    if mode == DiscriminantMode::Unset && any_explicit(variants) {
        return Err(ConfigError::AmbiguousDiscriminantMode);
    }
    let n = variants.len();
    let mut tags: Vec<u8> = Vec::new();
    if mode != DiscriminantMode::Explicit {
        if n > 256 {
            return Err(ConfigError::TooManyVariants { count: n });
        }
        let mut i: usize = 0;
        while i < n
            invariant
                n == variants.len() <= 256,
                i <= n,
                tags@ == order_tags(i as nat),
            decreases n - i,
        {
            tags.push(i as u8);
            i = i + 1;
            assert(tags@ =~= order_tags(i as nat));
        }
        return Ok(tags);
    }
    let mut i: usize = 0;
    while i < n
        invariant
            n == variants.len(),
            i <= n,
            mode == DiscriminantMode::Explicit,
            explicit_tags(variants@, i as nat) == Ok::<Seq<u8>, ConfigError>(tags@),
            tags@.len() == i,
        decreases n - i,
    {
        let wanted: i128 = match variants[i].discriminant {
            Some(DiscriminantExpr::Computed) => {
                proof {
                    lemma_explicit_error_persists(variants@, (i + 1) as nat, n as nat);
                }
                return Err(ConfigError::UnsupportedDiscriminantExpression { variant: i });
            },
            Some(DiscriminantExpr::Literal(x)) => x,
            None => if i == 0 {
                0
            } else {
                tags[i - 1] as i128 + 1
            },
        };
        assert(wanted as int == wanted_tag(variants@, i as int, tags@));
        if wanted < 0 || wanted > 255 {
            proof {
                lemma_explicit_error_persists(variants@, (i + 1) as nat, n as nat);
            }
            return Err(ConfigError::DiscriminantOutOfRange { variant: i, value: wanted });
        }
        let t = wanted as u8;
        if contains_tag(&tags, t) {
            proof {
                lemma_explicit_error_persists(variants@, (i + 1) as nat, n as nat);
            }
            return Err(ConfigError::DiscriminantCollision { variant: i, tag: t });
        }
        tags.push(t);
        i = i + 1;
    }
    Ok(tags)
}

proof fn lemma_explicit_tags_distinct(vs: Seq<VariantSpec>, n: nat)
    requires
        explicit_tags(vs, n) is Ok,
    ensures
        explicit_tags(vs, n)->Ok_0.len() == n,
        explicit_tags(vs, n)->Ok_0.no_duplicates(),
    decreases n,
{
    if n > 0 {
        lemma_explicit_tags_distinct(vs, (n - 1) as nat);
    }
}

/// Under declaration order, a sum of at most 256 variants gets the tags
/// `0, 1, ..., N-1`: variant `i` gets `i`, each tag once.
pub proof fn lemma_declaration_order_tags(vs: Seq<VariantSpec>)
    requires
        vs.len() <= 256,
    ensures
        resolution(vs, DiscriminantMode::DeclarationOrder) == Ok::<Seq<u8>, ConfigError>(
            order_tags(vs.len()),
        ),
        forall|i: int| 0 <= i < vs.len() ==> order_tags(vs.len())[i] == i,
        order_tags(vs.len()).to_set() == Set::new(|t: u8| (t as int) < vs.len()),
        order_tags(vs.len()).no_duplicates(),
{
    let tags = order_tags(vs.len());
    assert forall|t: u8| (t as int) < vs.len() implies tags.to_set().contains(t) by {
        assert(tags[t as int] == t);
    }
    assert(tags.to_set() =~= Set::new(|t: u8| (t as int) < vs.len()));
}

/// Whatever the mode, resolved tags are one per variant and pairwise
/// distinct.
pub proof fn lemma_resolved_tags_distinct(vs: Seq<VariantSpec>, mode: DiscriminantMode)
    requires
        resolution(vs, mode) is Ok,
    ensures
        resolution(vs, mode)->Ok_0.len() == vs.len(),
        resolution(vs, mode)->Ok_0.no_duplicates(),
{
    if mode == DiscriminantMode::Explicit {
        lemma_explicit_tags_distinct(vs, vs.len());
    }
}

} // verus!

use vstd::prelude::*;

use crate::attrs::{contains_initialize_with, initialize_with, Attribute};
use crate::discriminant::{
    has_explicit, lemma_declaration_order_tags, mode_of_flag, order_tags, resolution, resolve_tags,
    DiscriminantMode,
};
use crate::error::ConfigError;
use crate::plan::{
    add_bounds, Caps, conflicting, empty_caps, grants, plan_fields, plan_of, required, BoundSet,
    Direction, FieldPlan,
};
use crate::types::{
    fields_of, Capability, EnumDefinition, FieldSpec, Fields, StructDefinition, TypeDefinition,
    UnionDefinition, VariantSpec,
};

verus! {

/// The plan of one half of a struct's or union's codec.
#[derive(Debug, Clone, PartialEq, Eq)]
pub struct ProductPlan {
    /// One plan per field, in declaration order, which is also wire order.
    pub fields: Vec<FieldPlan>,
    pub bounds: BoundSet,
    /// The hook run on a decoded value; never set for encoding.
    pub init_hook: Option<String>,
    /// The namespace that generated code names the codec traits under.
    pub cratename: String,
}

/// The plan of one variant of a sum.
#[derive(Debug, Clone, PartialEq, Eq)]
pub struct VariantPlan {
    /// The byte written before the variant's fields.
    pub tag: u8,
    pub fields: Vec<FieldPlan>,
}

/// The plan of one half of a sum's codec.
#[derive(Debug, Clone, PartialEq, Eq)]
pub struct SumPlan {
    /// One plan per variant, in declaration order.
    pub variants: Vec<VariantPlan>,
    pub bounds: BoundSet,
    /// The hook run on a decoded value, whatever its variant; never set for
    /// encoding.
    pub init_hook: Option<String>,
    pub cratename: String,
}

/// The plan of one half of a codec for any kind of type.
#[derive(Debug, Clone, PartialEq, Eq)]
pub enum CodecPlan {
    Struct(ProductPlan),
    Enum(SumPlan),
    Union(ProductPlan),
}

pub open spec fn opt_view(o: Option<String>) -> Option<Seq<char>> {
    match o {
        Some(s) => Some(s@),
        None => None,
    }
}

/// The hook that the `dir` half of a codec runs.
pub open spec fn hook_for(attrs: Seq<Attribute>, dir: Direction) -> Option<Seq<char>> {
    match dir {
        Direction::Serialize => None,
        Direction::Deserialize => initialize_with(attrs),
    }
}

/// `b` holds, for each of `n` parameters, exactly what `fields` require.
pub open spec fn bounds_of(b: BoundSet, fields: Seq<FieldSpec>, n: nat, dir: Direction) -> bool {
    &&& b.caps@.len() == n
    &&& forall|p: usize, c: Capability|
        (p as int) < n ==> #[trigger] grants(b.caps@[p as int], c) == required(fields, dir, p, c)
}

/// `r` is the plan of a product with these fields.
pub open spec fn product_matches(
    r: ProductPlan,
    fields: Seq<FieldSpec>,
    n: nat,
    dir: Direction,
    attrs: Seq<Attribute>,
    cratename: Seq<char>,
) -> bool {
    &&& r.fields@ == fields.map_values(|f: FieldSpec| plan_of(f))
    &&& bounds_of(r.bounds, fields, n, dir)
    &&& opt_view(r.init_hook) == hook_for(attrs, dir)
    &&& r.cratename@ == cratename
}

/// No field of the list is conflicting.
pub open spec fn clean(fields: Seq<FieldSpec>) -> bool {
    forall|i: int| 0 <= i < fields.len() ==> !conflicting(#[trigger] fields[i])
}

/// `e` reports the first conflicting field of a product.
pub open spec fn first_conflict(
    fields: Seq<FieldSpec>,
    in_variant: Option<usize>,
    e: ConfigError,
) -> bool {
    exists|i: int|
        0 <= i < fields.len() && conflicting(#[trigger] fields[i]) && clean(fields.subrange(0, i))
            && e == (ConfigError::ConflictingFieldOptions { in_variant, field: i as usize })
}

/// What planning a product owes: the first conflicting field, else the plan.
pub open spec fn product_outcome(
    r: Result<ProductPlan, ConfigError>,
    fields: Seq<FieldSpec>,
    n: nat,
    dir: Direction,
    attrs: Seq<Attribute>,
    cratename: Seq<char>,
) -> bool {
    &&& r is Ok <==> clean(fields)
    &&& r is Ok ==> product_matches(r->Ok_0, fields, n, dir, attrs, cratename)
    &&& r is Err ==> first_conflict(fields, None, r->Err_0)
}

fn hook(attrs: &Vec<Attribute>, dir: Direction) -> (r: Option<String>)
    ensures
        opt_view(r) == hook_for(attrs@, dir),
{
    match dir {
        Direction::Serialize => None,
        Direction::Deserialize => contains_initialize_with(attrs.as_slice()),
    }
}

proof fn lemma_clean_prefix(fields: Seq<FieldSpec>, i: int)
    requires
        0 <= i <= fields.len(),
        forall|j: int| 0 <= j < i ==> !conflicting(#[trigger] fields[j]),
    ensures
        clean(fields.subrange(0, i)),
{
    assert forall|j: int| 0 <= j < i implies !conflicting(#[trigger] fields.subrange(0, i)[j]) by {
        assert(fields.subrange(0, i)[j] == fields[j]);
    }
}

fn product_plan(
    fields: &Vec<FieldSpec>,
    n_generics: usize,
    dir: Direction,
    attrs: &Vec<Attribute>,
    cratename: String,
) -> (r: Result<ProductPlan, ConfigError>)
    ensures
        product_outcome(r, fields@, n_generics as nat, dir, attrs@, cratename@),
{
    match plan_fields(fields, None) {
        Err(e) => {
            proof {
                let i = choose|i: int|
                    0 <= i < fields@.len() && conflicting(#[trigger] fields@[i]) && (forall|j: int|
                        0 <= j < i ==> !conflicting(#[trigger] fields@[j])) && e
                        == (ConfigError::ConflictingFieldOptions { in_variant: None, field: i as usize });
                lemma_clean_prefix(fields@, i);
            }
            Err(e)
        },
        Ok(plans) => {
            let mut caps = empty_caps(n_generics);
            add_bounds(fields, dir, &mut caps);
            let init_hook = hook(attrs, dir);
            Ok(ProductPlan { fields: plans, bounds: BoundSet { caps }, init_hook, cratename })
        },
    }
}

fn struct_plan(input: &StructDefinition, cratename: String, dir: Direction) -> (r: Result<
    ProductPlan,
    ConfigError,
>)
    ensures
        product_outcome(
            r,
            fields_of(input.fields),
            input.generics@.len(),
            dir,
            input.attrs@,
            cratename@,
        ),
{
    let n = input.generics.len();
    match &input.fields {
        Fields::Named(f) => product_plan(f, n, dir, &input.attrs, cratename),
        Fields::Unnamed(f) => product_plan(f, n, dir, &input.attrs, cratename),
        Fields::Unit => {
            let none: Vec<FieldSpec> = Vec::new();
            assert(none@ =~= fields_of(input.fields));
            product_plan(&none, n, dir, &input.attrs, cratename)
        },
    }
}

/// The serializing half of a struct's codec.
pub fn struct_ser(input: &StructDefinition, cratename: String) -> (r: Result<
    ProductPlan,
    ConfigError,
>)
    ensures
        product_outcome(
            r,
            fields_of(input.fields),
            input.generics@.len(),
            Direction::Serialize,
            input.attrs@,
            cratename@,
        ),
{
    struct_plan(input, cratename, Direction::Serialize)
}

/// The deserializing half of a struct's codec.
pub fn struct_de(input: &StructDefinition, cratename: String) -> (r: Result<
    ProductPlan,
    ConfigError,
>)
    ensures
        product_outcome(
            r,
            fields_of(input.fields),
            input.generics@.len(),
            Direction::Deserialize,
            input.attrs@,
            cratename@,
        ),
{
    struct_plan(input, cratename, Direction::Deserialize)
}

/// The serializing half of an overlay's codec: every field is planned; which
/// one is active for a value is up to the caller.
pub fn union_ser(input: &UnionDefinition, cratename: String) -> (r: Result<
    ProductPlan,
    ConfigError,
>)
    ensures
        product_outcome(
            r,
            input.fields@,
            input.generics@.len(),
            Direction::Serialize,
            input.attrs@,
            cratename@,
        ),
{
    let n = input.generics.len();
    product_plan(&input.fields, n, Direction::Serialize, &input.attrs, cratename)
}

/// The deserializing half of an overlay's codec.
pub fn union_de(input: &UnionDefinition, cratename: String) -> (r: Result<
    ProductPlan,
    ConfigError,
>)
    ensures
        product_outcome(
            r,
            input.fields@,
            input.generics@.len(),
            Direction::Deserialize,
            input.attrs@,
            cratename@,
        ),
{
    let n = input.generics.len();
    product_plan(&input.fields, n, Direction::Deserialize, &input.attrs, cratename)
}

/// No variant before `vi` has a conflicting field.
pub open spec fn clean_before(vs: Seq<VariantSpec>, vi: int) -> bool {
    forall|w: int| 0 <= w < vi ==> clean(fields_of((#[trigger] vs[w]).fields))
}

/// Some variant asks `c` of `p` through one of its fields.
pub open spec fn sum_required(
    vs: Seq<VariantSpec>,
    dir: Direction,
    p: usize,
    c: Capability,
) -> bool {
    exists|vi: int| 0 <= vi < vs.len() && required(fields_of((#[trigger] vs[vi]).fields), dir, p, c)
}

/// `r` is the plan of a sum with these variants and tags.
pub open spec fn sum_matches(
    r: SumPlan,
    vs: Seq<VariantSpec>,
    tags: Seq<u8>,
    n: nat,
    dir: Direction,
    attrs: Seq<Attribute>,
    cratename: Seq<char>,
) -> bool {
    &&& r.variants@.len() == vs.len()
    &&& forall|vi: int| 0 <= vi < vs.len() ==> (#[trigger] r.variants@[vi]).tag == tags[vi]
    &&& forall|vi: int|
        0 <= vi < vs.len() ==> (#[trigger] r.variants@[vi]).fields@ == fields_of(vs[vi].fields).map_values(
            |f: FieldSpec| plan_of(f),
        )
    &&& r.bounds.caps@.len() == n
    &&& forall|p: usize, c: Capability|
        (p as int) < n ==> #[trigger] grants(r.bounds.caps@[p as int], c) == sum_required(vs, dir, p, c)
    &&& opt_view(r.init_hook) == hook_for(attrs, dir)
    &&& r.cratename@ == cratename
}

/// What planning a sum owes: the tag error first, then the first conflicting
/// field in declaration order, else the plan.
pub open spec fn sum_outcome(
    r: Result<SumPlan, ConfigError>,
    input: EnumDefinition,
    use_discriminant: Option<bool>,
    dir: Direction,
    cratename: Seq<char>,
) -> bool {
    let vs = input.variants@;
    let res = resolution(vs, mode_of_flag(use_discriminant));
    &&& res is Err ==> r == Err::<SumPlan, ConfigError>(res->Err_0)
    &&& (res is Ok && r is Err) ==> exists|vi: int|
        0 <= vi < vs.len() && clean_before(vs, vi) && first_conflict(
            fields_of((#[trigger] vs[vi]).fields),
            Some(vi as usize),
            r->Err_0,
        )
    &&& r is Ok ==> res is Ok && clean_before(vs, vs.len() as int) && sum_matches(
        r->Ok_0,
        vs,
        res->Ok_0,
        input.generics@.len(),
        dir,
        input.attrs@,
        cratename,
    )
    &&& (res is Ok && clean_before(vs, vs.len() as int)) ==> r is Ok
}

fn plan_variant_fields(fields: &Fields, vi: usize) -> (r: Result<Vec<FieldPlan>, ConfigError>)
    ensures
        r is Ok <==> clean(fields_of(*fields)),
        r is Ok ==> r->Ok_0@ == fields_of(*fields).map_values(|f: FieldSpec| plan_of(f)),
        r is Err ==> first_conflict(fields_of(*fields), Some(vi), r->Err_0),
{
    let none: Vec<FieldSpec> = Vec::new();
    let list = match fields {
        Fields::Named(f) => f,
        Fields::Unnamed(f) => f,
        Fields::Unit => &none,
    };
    assert(list@ =~= fields_of(*fields));
    let r = plan_fields(list, Some(vi));
    proof {
        if r is Err {
            let i = choose|i: int|
                0 <= i < list@.len() && conflicting(#[trigger] list@[i]) && (forall|j: int|
                    0 <= j < i ==> !conflicting(#[trigger] list@[j])) && r->Err_0
                    == (ConfigError::ConflictingFieldOptions { in_variant: Some(vi), field: i as usize });
            lemma_clean_prefix(list@, i);
        }
    }
    r
}

fn add_variant_bounds(fields: &Fields, dir: Direction, caps: &mut Vec<Caps>)
    ensures
        final(caps)@.len() == old(caps)@.len(),
        forall|p: usize, x: Capability|
            (p as int) < old(caps)@.len() ==> #[trigger] grants(final(caps)@[p as int], x) == (grants(
                old(caps)@[p as int],
                x,
            ) || required(fields_of(*fields), dir, p, x)),
{
    match fields {
        Fields::Named(f) => add_bounds(f, dir, caps),
        Fields::Unnamed(f) => add_bounds(f, dir, caps),
        Fields::Unit => {},
    }
}

fn sum_plan(
    input: &EnumDefinition,
    cratename: String,
    use_discriminant: Option<bool>,
    dir: Direction,
) -> (r: Result<SumPlan, ConfigError>)
    ensures
        sum_outcome(r, *input, use_discriminant, dir, cratename@),
{
    let vs = &input.variants;
    let tags = match resolve_tags(vs, DiscriminantMode::from_flag(use_discriminant)) {
        Ok(t) => t,
        Err(e) => {
            return Err(e);
        },
    };
    proof {
        crate::discriminant::lemma_resolved_tags_distinct(vs@, mode_of_flag(use_discriminant));
    }
    let n = input.generics.len();
    let mut variants: Vec<VariantPlan> = Vec::new();
    let mut caps = empty_caps(n);
    let mut vi: usize = 0;
    while vi < vs.len()
        invariant
            vs == &input.variants,
            vi <= vs@.len() == tags@.len(),
            resolution(vs@, mode_of_flag(use_discriminant)) == Ok::<Seq<u8>, ConfigError>(tags@),
            clean_before(vs@, vi as int),
            variants@.len() == vi,
            forall|w: int| 0 <= w < vi ==> (#[trigger] variants@[w]).tag == tags@[w],
            forall|w: int|
                0 <= w < vi ==> (#[trigger] variants@[w]).fields@ == fields_of(vs@[w].fields).map_values(
                    |f: FieldSpec| plan_of(f),
                ),
            caps@.len() == n,
            forall|p: usize, c: Capability|
                (p as int) < n ==> #[trigger] grants(caps@[p as int], c) == sum_required(
                    vs@.subrange(0, vi as int),
                    dir,
                    p,
                    c,
                ),
        decreases vs@.len() - vi,
    {
        let fields = match plan_variant_fields(&vs[vi].fields, vi) {
            Ok(f) => f,
            Err(e) => {
                proof {
                    let fl = fields_of(vs@[vi as int].fields);
                    assert(first_conflict(fl, Some(vi), e));
                    let i = choose|i: int|
                        0 <= i < fl.len() && conflicting(#[trigger] fl[i]) && clean(fl.subrange(0, i))
                            && e == (ConfigError::ConflictingFieldOptions { in_variant: Some(vi), field: i as usize });
                    assert(!clean(fl));
                    assert(!clean_before(vs@, vs@.len() as int));
                    assert(exists|w: int|
                        0 <= w < vs@.len() && clean_before(vs@, w) && first_conflict(
                            fields_of((#[trigger] vs@[w]).fields),
                            Some(w as usize),
                            e,
                        ));
                }
                return Err(e);
            },
        };
        add_variant_bounds(&vs[vi].fields, dir, &mut caps);
        variants.push(VariantPlan { tag: tags[vi], fields });
        proof {
            let prev = vs@.subrange(0, vi as int);
            let next = vs@.subrange(0, vi + 1);
            assert forall|p: usize, c: Capability|
                sum_required(next, dir, p, c) == (sum_required(prev, dir, p, c) || required(
                    fields_of(vs@[vi as int].fields),
                    dir,
                    p,
                    c,
                )) by {
                if sum_required(next, dir, p, c) {
                    let w = choose|w: int|
                        0 <= w < next.len() && required(fields_of((#[trigger] next[w]).fields), dir, p, c);
                    if w < vi {
                        assert(prev[w] == next[w]);
                    }
                }
                if sum_required(prev, dir, p, c) {
                    let w = choose|w: int|
                        0 <= w < prev.len() && required(fields_of((#[trigger] prev[w]).fields), dir, p, c);
                    assert(next[w] == prev[w]);
                }
                if required(fields_of(vs@[vi as int].fields), dir, p, c) {
                    assert(next[vi as int] == vs@[vi as int]);
                }
            }
        }
        vi = vi + 1;
    }
    assert(vs@.subrange(0, vs@.len() as int) =~= vs@);
    let init_hook = hook(&input.attrs, dir);
    Ok(SumPlan { variants, bounds: BoundSet { caps }, init_hook, cratename })
}

/// The serializing half of a sum's codec: the wire tag of every variant and
/// the plan of its fields.
pub fn enum_ser(
    input: &EnumDefinition,
    cratename: String,
    use_discriminant: Option<bool>,
) -> (r: Result<SumPlan, ConfigError>)
    ensures
        sum_outcome(r, *input, use_discriminant, Direction::Serialize, cratename@),
{
    sum_plan(input, cratename, use_discriminant, Direction::Serialize)
}

/// The deserializing half of a sum's codec.
pub fn enum_de(
    input: &EnumDefinition,
    cratename: String,
    use_discriminant: Option<bool>,
) -> (r: Result<SumPlan, ConfigError>)
    ensures
        sum_outcome(r, *input, use_discriminant, Direction::Deserialize, cratename@),
{
    sum_plan(input, cratename, use_discriminant, Direction::Deserialize)
}

/// What planning any type owes, by its kind.
pub open spec fn codec_outcome(
    r: Result<CodecPlan, ConfigError>,
    input: TypeDefinition,
    dir: Direction,
    cratename: Seq<char>,
) -> bool {
    match input {
        TypeDefinition::Struct(d) => {
            let fl = fields_of(d.fields);
            let n = d.generics@.len();
            match r {
                Ok(CodecPlan::Struct(p)) => product_outcome(Ok(p), fl, n, dir, d.attrs@, cratename),
                Ok(_) => false,
                Err(e) => product_outcome(Err(e), fl, n, dir, d.attrs@, cratename),
            }
        },
        TypeDefinition::Union(d) => {
            let n = d.generics@.len();
            match r {
                Ok(CodecPlan::Union(p)) => product_outcome(Ok(p), d.fields@, n, dir, d.attrs@, cratename),
                Ok(_) => false,
                Err(e) => product_outcome(Err(e), d.fields@, n, dir, d.attrs@, cratename),
            }
        },
        TypeDefinition::Enum(d) => match r {
            Ok(CodecPlan::Enum(p)) => sum_outcome(Ok(p), d, d.use_discriminant, dir, cratename),
            Ok(_) => false,
            Err(e) => sum_outcome(Err(e), d, d.use_discriminant, dir, cratename),
        },
    }
}

/// The tags that the variants of a plan carry.
pub open spec fn tag_set(vs: Seq<VariantPlan>) -> Set<u8> {
    Set::new(|t: u8| exists|i: int| 0 <= i < vs.len() && (#[trigger] vs[i]).tag == t)
}

/// Under declaration order (`use_discriminant` is `Some(false)`, or `None`
/// while no variant declares a discriminant), a sum of at most 256 variants
/// without conflicting fields gets a plan in which variant `i` has tag `i`:
/// the tags are exactly `0, ..., N-1`, one per variant.
pub proof fn lemma_enum_declaration_order(
    input: EnumDefinition,
    use_discriminant: Option<bool>,
    dir: Direction,
    cratename: Seq<char>,
    r: Result<SumPlan, ConfigError>,
)
    requires
        sum_outcome(r, input, use_discriminant, dir, cratename),
        input.variants@.len() <= 256,
        use_discriminant == Some(false) || (use_discriminant is None && !has_explicit(input.variants@)),
        clean_before(input.variants@, input.variants@.len() as int),
    ensures
        r is Ok,
        forall|i: int| 0 <= i < input.variants@.len() ==> (#[trigger] r->Ok_0.variants@[i]).tag == i,
        tag_set(r->Ok_0.variants@) == Set::new(|t: u8| (t as int) < input.variants@.len()),
{
    let vs = input.variants@;
    lemma_declaration_order_tags(vs);
    assert(resolution(vs, mode_of_flag(use_discriminant)) == Ok::<Seq<u8>, ConfigError>(order_tags(vs.len())));
    let p = r->Ok_0;
    assert forall|t: u8| (t as int) < vs.len() implies #[trigger] tag_set(p.variants@).contains(t) by {
        assert(p.variants@[t as int].tag == t);
    }
    assert(tag_set(p.variants@) =~= Set::new(|t: u8| (t as int) < vs.len()));
}

/// A field that is skipped and also names a custom encode or decode
/// procedure.
pub open spec fn skipped_with_codec(f: FieldSpec) -> bool {
    f.skipped && (f.serialize_with is Some || f.deserialize_with is Some)
}

pub open spec fn has_skipped_with_codec(fields: Seq<FieldSpec>) -> bool {
    exists|i: int| 0 <= i < fields.len() && skipped_with_codec(#[trigger] fields[i])
}

/// The type has such a field, in a variant if it is a sum.
pub open spec fn type_has_skipped_with_codec(input: TypeDefinition) -> bool {
    match input {
        TypeDefinition::Struct(d) => has_skipped_with_codec(fields_of(d.fields)),
        TypeDefinition::Union(d) => has_skipped_with_codec(d.fields@),
        TypeDefinition::Enum(d) => exists|vi: int|
            0 <= vi < d.variants@.len() && has_skipped_with_codec(fields_of((#[trigger] d.variants@[vi]).fields)),
    }
}

/// A type with a field that is skipped and also has a custom codec gets no
/// plan, for either half: planning fails with `ConflictingFieldOptions`
/// (for a sum, once its tags resolve, since a tag error is reported first).
pub proof fn lemma_skipped_with_codec_rejected(
    input: TypeDefinition,
    dir: Direction,
    cratename: Seq<char>,
    r: Result<CodecPlan, ConfigError>,
)
    requires
        codec_outcome(r, input, dir, cratename),
        type_has_skipped_with_codec(input),
        input matches TypeDefinition::Enum(d) ==> resolution(d.variants@, mode_of_flag(d.use_discriminant)) is Ok,
    ensures
        r is Err,
        r->Err_0 is ConflictingFieldOptions,
{
    match input {
        TypeDefinition::Struct(d) => {
            let fl = fields_of(d.fields);
            let i = choose|i: int| 0 <= i < fl.len() && skipped_with_codec(#[trigger] fl[i]);
            assert(conflicting(fl[i]));
        },
        TypeDefinition::Union(d) => {
            let fl = d.fields@;
            let i = choose|i: int| 0 <= i < fl.len() && skipped_with_codec(#[trigger] fl[i]);
            assert(conflicting(fl[i]));
        },
        TypeDefinition::Enum(d) => {
            let vs = d.variants@;
            let vi = choose|vi: int|
                0 <= vi < vs.len() && has_skipped_with_codec(fields_of((#[trigger] vs[vi]).fields));
            let fl = fields_of(vs[vi].fields);
            let i = choose|i: int| 0 <= i < fl.len() && skipped_with_codec(#[trigger] fl[i]);
            assert(conflicting(fl[i]));
            assert(!clean_before(vs, vs.len() as int));
        },
    }
}

/// Plans the serializing half of the codec of any type, under the namespace
/// `cratename`.
pub fn borsh_serialize(input: &TypeDefinition, cratename: String) -> (r: Result<
    CodecPlan,
    ConfigError,
>)
    ensures
        codec_outcome(r, *input, Direction::Serialize, cratename@),
{
    match input {
        TypeDefinition::Struct(d) => match struct_ser(d, cratename) {
            Ok(p) => Ok(CodecPlan::Struct(p)),
            Err(e) => Err(e),
        },
        TypeDefinition::Enum(d) => match enum_ser(d, cratename, d.use_discriminant) {
            Ok(p) => Ok(CodecPlan::Enum(p)),
            Err(e) => Err(e),
        },
        TypeDefinition::Union(d) => match union_ser(d, cratename) {
            Ok(p) => Ok(CodecPlan::Union(p)),
            Err(e) => Err(e),
        },
    }
}

/// Plans the deserializing half of the codec of any type, under the
/// namespace `cratename`.
pub fn borsh_deserialize(input: &TypeDefinition, cratename: String) -> (r: Result<
    CodecPlan,
    ConfigError,
>)
    ensures
        codec_outcome(r, *input, Direction::Deserialize, cratename@),
{
    match input {
        TypeDefinition::Struct(d) => match struct_de(d, cratename) {
            Ok(p) => Ok(CodecPlan::Struct(p)),
            Err(e) => Err(e),
        },
        TypeDefinition::Enum(d) => match enum_de(d, cratename, d.use_discriminant) {
            Ok(p) => Ok(CodecPlan::Enum(p)),
            Err(e) => Err(e),
        },
        TypeDefinition::Union(d) => match union_de(d, cratename) {
            Ok(p) => Ok(CodecPlan::Union(p)),
            Err(e) => Err(e),
        },
    }
}

} // verus!

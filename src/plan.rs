use vstd::prelude::*;

use crate::error::ConfigError;
use crate::types::{mark_params, occurs, Capability, FieldSpec, Requirement, TypeExpr};
use crate::wire::Wire;

verus! {

/// What the planner decided for one field.
#[derive(Debug, Clone, PartialEq, Eq)]
pub struct FieldPlan {
    /// The field is on the wire; otherwise decoding fills in its default.
    pub participates: bool,
    /// The custom procedure that encodes the field, if any.
    pub encode_with: Option<String>,
    /// The custom procedure that decodes the field, if any.
    pub decode_with: Option<String>,
    /// What the primitive codec reads and writes for the field's type, if
    /// the type is a primitive.
    pub wire: Option<Wire>,
}

/// The capabilities required of one generic parameter.
#[derive(Debug, Clone, Copy, PartialEq, Eq, Structural)]
pub struct Caps {
    pub encode: bool,
    pub decode: bool,
    pub default_value: bool,
}

/// The requirements of a codec on the type's generic parameters: entry `p`
/// is for the parameter at position `p`.
#[derive(Debug, Clone, PartialEq, Eq)]
pub struct BoundSet {
    pub caps: Vec<Caps>,
}

/// Which half of a codec is planned.
#[derive(Debug, Clone, Copy, PartialEq, Eq, Structural)]
pub enum Direction {
    Serialize,
    Deserialize,
}

pub open spec fn grants(k: Caps, c: Capability) -> bool {
    match c {
        Capability::Encode => k.encode,
        Capability::Decode => k.decode,
        Capability::DefaultValue => k.default_value,
    }
}

/// A skipped field that also has a custom codec, a bound override or a
/// schema override.
pub open spec fn conflicting(f: FieldSpec) -> bool {
    f.skipped && (f.serialize_with is Some || f.deserialize_with is Some
        || f.bound_serialize is Some || f.bound_deserialize is Some || f.schema_with is Some)
}

pub open spec fn wire_of(ty: TypeExpr) -> Option<Wire> {
    match ty {
        TypeExpr::Scalar(k) => Some(Wire::Scalar(k)),
        TypeExpr::Bytes => Some(Wire::Bytes),
        TypeExpr::Text => Some(Wire::Bytes),
        _ => None,
    }
}

pub open spec fn plan_of(f: FieldSpec) -> FieldPlan {
    FieldPlan {
        participates: !f.skipped,
        encode_with: f.serialize_with,
        decode_with: f.deserialize_with,
        wire: wire_of(f.ty),
    }
}

fn wire(ty: &TypeExpr) -> (r: Option<Wire>)
    ensures
        r == wire_of(*ty),
{
    match ty {
        TypeExpr::Scalar(k) => Some(Wire::Scalar(*k)),
        TypeExpr::Bytes => Some(Wire::Bytes),
        TypeExpr::Text => Some(Wire::Bytes),
        _ => None,
    }
}

fn copy_name(o: &Option<String>) -> (r: Option<String>)
    ensures
        r == *o,
{
    match o {
        Some(s) => Some(s.clone()),
        None => None,
    }
}

pub open spec fn listed(reqs: Seq<Requirement>, p: usize, c: Capability) -> bool {
    exists|j: int| 0 <= j < reqs.len() && reqs[j] == Requirement { param: p, capability: c }
}

/// Field `f` asks capability `c` of parameter `p` for the `dir` half of the
/// codec. An override replaces what would be inferred; a custom procedure
/// needs nothing of the field's type; a skipped field needs a default value
/// of it when decoding.
pub open spec fn contributes(f: FieldSpec, dir: Direction, p: usize, c: Capability) -> bool {
    match dir {
        Direction::Serialize => !f.skipped && match f.bound_serialize {
            Some(reqs) => listed(reqs@, p, c),
            None => f.serialize_with is None && c == Capability::Encode && occurs(p, f.ty),
        },
        Direction::Deserialize => if f.skipped {
            c == Capability::DefaultValue && occurs(p, f.ty)
        } else {
            match f.bound_deserialize {
                Some(reqs) => listed(reqs@, p, c),
                None => f.deserialize_with is None && c == Capability::Decode && occurs(p, f.ty),
            }
        },
    }
}

/// Some field of `fields` asks `c` of `p`.
pub open spec fn required(fields: Seq<FieldSpec>, dir: Direction, p: usize, c: Capability) -> bool {
    exists|i: int| 0 <= i < fields.len() && contributes(#[trigger] fields[i], dir, p, c)
}

fn with_cap(k: Caps, c: Capability) -> (r: Caps)
    ensures
        forall|x: Capability| #[trigger] grants(r, x) == (grants(k, x) || x == c),
{
    match c {
        Capability::Encode => Caps { encode: true, ..k },
        Capability::Decode => Caps { decode: true, ..k },
        Capability::DefaultValue => Caps { default_value: true, ..k },
    }
}

/// No capability for any of `n` parameters.
pub fn empty_caps(n: usize) -> (r: Vec<Caps>)
    ensures
        r@.len() == n,
        forall|p: int, c: Capability| 0 <= p < n ==> !#[trigger] grants(r@[p], c),
{
    let mut r: Vec<Caps> = Vec::new();
    let none = Caps { encode: false, decode: false, default_value: false };
    let mut i: usize = 0;
    while i < n
        invariant
            i <= n,
            r@.len() == i,
            forall|p: int| 0 <= p < i ==> #[trigger] r@[p] == none,
        decreases n - i,
    {
        r.push(none);
        i = i + 1;
    }
    r
}

/// Adds `c` for every parameter that occurs in `ty`.
fn add_occurring(ty: &crate::types::TypeExpr, c: Capability, caps: &mut Vec<Caps>)
    ensures
        final(caps)@.len() == old(caps)@.len(),
        forall|p: usize, x: Capability|
            (p as int) < old(caps)@.len() ==> #[trigger] grants(final(caps)@[p as int], x) == (grants(
                old(caps)@[p as int],
                x,
            ) || (x == c && occurs(p, *ty))),
{
    let n = caps.len();
    let mut marks: Vec<bool> = vec![false; n];
    mark_params(ty, &mut marks);
    let mut p: usize = 0;
    while p < n
        invariant
            n == caps@.len() == old(caps)@.len() == marks@.len(),
            p <= n,
            forall|q: usize| (q as int) < n ==> #[trigger] marks@[q as int] == occurs(q, *ty),
            forall|q: usize, x: Capability|
                (q as int) < p ==> #[trigger] grants(caps@[q as int], x) == (grants(
                    old(caps)@[q as int],
                    x,
                ) || (x == c && occurs(q, *ty))),
            forall|q: int| p <= q < n ==> caps@[q] == old(caps)@[q],
        decreases n - p,
    {
        if marks[p] {
            let k = with_cap(caps[p], c);
            caps.set(p, k);
        }
        p = p + 1;
    }
}

/// Adds every requirement of an override that names one of the parameters.
fn add_listed(reqs: &Vec<Requirement>, caps: &mut Vec<Caps>)
    ensures
        final(caps)@.len() == old(caps)@.len(),
        forall|p: usize, x: Capability|
            (p as int) < old(caps)@.len() ==> #[trigger] grants(final(caps)@[p as int], x) == (grants(
                old(caps)@[p as int],
                x,
            ) || listed(reqs@, p, x)),
{
    let mut j: usize = 0;
    while j < reqs.len()
        invariant
            j <= reqs@.len(),
            caps@.len() == old(caps)@.len(),
            forall|p: usize, x: Capability|
                (p as int) < old(caps)@.len() ==> #[trigger] grants(caps@[p as int], x) == (grants(
                    old(caps)@[p as int],
                    x,
                ) || listed(reqs@.subrange(0, j as int), p, x)),
        decreases reqs@.len() - j,
    {
        let r = reqs[j];
        if r.param < caps.len() {
            let k = with_cap(caps[r.param], r.capability);
            caps.set(r.param, k);
        }
        proof {
            let next = reqs@.subrange(0, j + 1);
            assert forall|p: usize, x: Capability|
                listed(next, p, x) == (listed(reqs@.subrange(0, j as int), p, x) || (Requirement {
                    param: p,
                    capability: x,
                }) == r) by {
                if listed(next, p, x) {
                    let w = choose|w: int|
                        0 <= w < next.len() && next[w] == Requirement { param: p, capability: x };
                    if w < j {
                        assert(reqs@.subrange(0, j as int)[w] == next[w]);
                    }
                }
                if listed(reqs@.subrange(0, j as int), p, x) {
                    let w = choose|w: int|
                        0 <= w < j && reqs@.subrange(0, j as int)[w] == Requirement {
                            param: p,
                            capability: x,
                        };
                    assert(next[w] == reqs@.subrange(0, j as int)[w]);
                }
                if (Requirement { param: p, capability: x }) == r {
                    assert(next[j as int] == r);
                }
            }
        }
        j = j + 1;
    }
    assert(reqs@.subrange(0, reqs@.len() as int) =~= reqs@);
}

/// Adds what one field asks for the `dir` half of the codec.
fn add_field_bounds(f: &FieldSpec, dir: Direction, caps: &mut Vec<Caps>)
    ensures
        final(caps)@.len() == old(caps)@.len(),
        forall|p: usize, x: Capability|
            (p as int) < old(caps)@.len() ==> #[trigger] grants(final(caps)@[p as int], x) == (grants(
                old(caps)@[p as int],
                x,
            ) || contributes(*f, dir, p, x)),
{
    match dir {
        Direction::Serialize => {
            if !f.skipped {
                match &f.bound_serialize {
                    Some(reqs) => add_listed(reqs, caps),
                    None => {
                        if f.serialize_with.is_none() {
                            add_occurring(&f.ty, Capability::Encode, caps);
                        }
                    },
                }
            }
        },
        Direction::Deserialize => {
            if f.skipped {
                add_occurring(&f.ty, Capability::DefaultValue, caps);
            } else {
                match &f.bound_deserialize {
                    Some(reqs) => add_listed(reqs, caps),
                    None => {
                        if f.deserialize_with.is_none() {
                            add_occurring(&f.ty, Capability::Decode, caps);
                        }
                    },
                }
            }
        },
    }
}

/// Adds what the fields ask for the `dir` half of the codec.
pub fn add_bounds(fields: &Vec<FieldSpec>, dir: Direction, caps: &mut Vec<Caps>)
    ensures
        final(caps)@.len() == old(caps)@.len(),
        forall|p: usize, x: Capability|
            (p as int) < old(caps)@.len() ==> #[trigger] grants(final(caps)@[p as int], x) == (grants(
                old(caps)@[p as int],
                x,
            ) || required(fields@, dir, p, x)),
{
    let mut i: usize = 0;
    while i < fields.len()
        invariant
            i <= fields@.len(),
            caps@.len() == old(caps)@.len(),
            forall|p: usize, x: Capability|
                (p as int) < old(caps)@.len() ==> #[trigger] grants(caps@[p as int], x) == (grants(
                    old(caps)@[p as int],
                    x,
                ) || required(fields@.subrange(0, i as int), dir, p, x)),
        decreases fields@.len() - i,
    {
        add_field_bounds(&fields[i], dir, caps);
        proof {
            let prev = fields@.subrange(0, i as int);
            let next = fields@.subrange(0, i + 1);
            assert forall|p: usize, x: Capability|
                required(next, dir, p, x) == (required(prev, dir, p, x) || contributes(
                    fields@[i as int],
                    dir,
                    p,
                    x,
                )) by {
                if required(next, dir, p, x) {
                    let w = choose|w: int| 0 <= w < next.len() && contributes(#[trigger] next[w], dir, p, x);
                    if w < i {
                        assert(prev[w] == next[w]);
                    }
                }
                if required(prev, dir, p, x) {
                    let w = choose|w: int| 0 <= w < prev.len() && contributes(#[trigger] prev[w], dir, p, x);
                    assert(next[w] == prev[w]);
                }
                if contributes(fields@[i as int], dir, p, x) {
                    assert(next[i as int] == fields@[i as int]);
                }
            }
        }
        i = i + 1;
    }
    assert(fields@.subrange(0, fields@.len() as int) =~= fields@);
}

/// Plans the fields of one field list, in declaration order; `in_variant`
/// only goes into the error.
pub fn plan_fields(fields: &Vec<FieldSpec>, in_variant: Option<usize>) -> (r: Result<
    Vec<FieldPlan>,
    ConfigError,
>)
    ensures
        r is Ok <==> forall|i: int| 0 <= i < fields@.len() ==> !conflicting(#[trigger] fields@[i]),
        r is Ok ==> r->Ok_0@ == fields@.map_values(|f: FieldSpec| plan_of(f)),
        r is Err ==> exists|i: int|
            0 <= i < fields@.len() && conflicting(#[trigger] fields@[i]) && (forall|j: int|
                0 <= j < i ==> !conflicting(#[trigger] fields@[j])) && r->Err_0
                == (ConfigError::ConflictingFieldOptions { in_variant, field: i as usize }),
{
    let mut plans: Vec<FieldPlan> = Vec::new();
    let mut i: usize = 0;
    while i < fields.len()
        invariant
            i <= fields@.len(),
            forall|j: int| 0 <= j < i ==> !conflicting(#[trigger] fields@[j]),
            plans@ == fields@.subrange(0, i as int).map_values(|f: FieldSpec| plan_of(f)),
        decreases fields@.len() - i,
    {
        let f = &fields[i];
        if f.skipped && (f.serialize_with.is_some() || f.deserialize_with.is_some()
            || f.bound_serialize.is_some() || f.bound_deserialize.is_some()
            || f.schema_with.is_some()) {
            return Err(ConfigError::ConflictingFieldOptions { in_variant, field: i });
        }
        plans.push(
            FieldPlan {
                participates: !f.skipped,
                encode_with: copy_name(&f.serialize_with),
                decode_with: copy_name(&f.deserialize_with),
                wire: wire(&f.ty),
            },
        );
        i = i + 1;
        assert(plans@ =~= fields@.subrange(0, i as int).map_values(|f: FieldSpec| plan_of(f)));
    }
    assert(fields@.subrange(0, fields@.len() as int) =~= fields@);
    Ok(plans)
}

} // verus!

use vstd::prelude::*;

use crate::items::{SumPlan, VariantPlan};
use crate::plan::FieldPlan;
use crate::wire::{
    decode_value, decoding, encode_value, encoding, length_fits, lemma_value_round_trip, of_wire,
    Value, ValueModel, Wire, WireError,
};
use crate::types::ScalarKind;

verus! {

/// A failure while encoding a value against a plan.
#[derive(Debug, Clone, Copy, PartialEq, Eq, Structural)]
pub enum EncodeError {
    /// The value has `found` fields where the plan has `expected`.
    ArityMismatch { expected: usize, found: usize },
    /// The field's codec is a custom procedure, or its type is not a
    /// primitive: the runtime codec cannot run it.
    NotInterpretable { field: usize },
    /// The field's value is not of the field's type.
    TypeMismatch { field: usize },
    /// The field is a byte string too long for its four-byte length.
    LengthOverflow { field: usize },
    /// The sum has no variant at this position.
    UnknownVariant { variant: usize },
}

/// A failure while decoding a value against a plan.
#[derive(Debug, Clone, Copy, PartialEq, Eq, Structural)]
pub enum DecodeError {
    /// The primitive codec failed on the field at `field`, or on the tag
    /// byte where `field` is `None`.
    Wire { field: Option<usize>, error: WireError },
    /// No variant of the sum has this tag.
    UnknownVariantTag { tag: u8 },
    /// The field's codec is a custom procedure, or its type is not a
    /// primitive: the runtime codec cannot run it.
    NotInterpretable { field: usize },
}

/// What decoding puts in a skipped field of wire type `w`.
pub open spec fn default_of(w: Wire) -> ValueModel {
    match w {
        Wire::Scalar(ScalarKind::U8) => ValueModel::U8(0),
        Wire::Scalar(ScalarKind::U16) => ValueModel::U16(0),
        Wire::Scalar(ScalarKind::U32) => ValueModel::U32(0),
        Wire::Scalar(ScalarKind::U64) => ValueModel::U64(0),
        Wire::Scalar(ScalarKind::U128) => ValueModel::U128(0),
        Wire::Scalar(ScalarKind::I8) => ValueModel::I8(0),
        Wire::Scalar(ScalarKind::I16) => ValueModel::I16(0),
        Wire::Scalar(ScalarKind::I32) => ValueModel::I32(0),
        Wire::Scalar(ScalarKind::I64) => ValueModel::I64(0),
        Wire::Scalar(ScalarKind::I128) => ValueModel::I128(0),
        Wire::Scalar(ScalarKind::F32) => ValueModel::F32(0),
        Wire::Scalar(ScalarKind::F64) => ValueModel::F64(0),
        Wire::Scalar(ScalarKind::Bool) => ValueModel::Bool(false),
        Wire::Bytes => ValueModel::Bytes(Seq::empty()),
    }
}

/// The default value of wire type `w`: zero, `false`, or no bytes.
pub fn default_value(w: Wire) -> (r: Value)
    ensures
        r@ == default_of(w),
{
    match w {
        Wire::Scalar(ScalarKind::U8) => Value::U8(0),
        Wire::Scalar(ScalarKind::U16) => Value::U16(0),
        Wire::Scalar(ScalarKind::U32) => Value::U32(0),
        Wire::Scalar(ScalarKind::U64) => Value::U64(0),
        Wire::Scalar(ScalarKind::U128) => Value::U128(0),
        Wire::Scalar(ScalarKind::I8) => Value::I8(0),
        Wire::Scalar(ScalarKind::I16) => Value::I16(0),
        Wire::Scalar(ScalarKind::I32) => Value::I32(0),
        Wire::Scalar(ScalarKind::I64) => Value::I64(0),
        Wire::Scalar(ScalarKind::I128) => Value::I128(0),
        Wire::Scalar(ScalarKind::F32) => Value::F32(0),
        Wire::Scalar(ScalarKind::F64) => Value::F64(0),
        Wire::Scalar(ScalarKind::Bool) => Value::Bool(false),
        Wire::Bytes => Value::Bytes(Vec::new()),
    }
}

pub open spec fn models(vs: Seq<Value>) -> Seq<ValueModel> {
    vs.map_values(|v: Value| v@)
}

/// Why field `i`, planned as `p`, cannot be encoded with value `v`, if it
/// cannot. A skipped field is never looked at.
pub open spec fn field_encode_error(p: FieldPlan, v: ValueModel, i: int) -> Option<EncodeError> {
    if !p.participates {
        None
    } else if p.encode_with is Some || p.wire is None {
        Some(EncodeError::NotInterpretable { field: i as usize })
    } else if !of_wire(p.wire->Some_0, v) {
        Some(EncodeError::TypeMismatch { field: i as usize })
    } else if !length_fits(v) {
        Some(EncodeError::LengthOverflow { field: i as usize })
    } else {
        None
    }
}

/// What field planned as `p` with value `v` puts on the wire.
pub open spec fn field_bytes(p: FieldPlan, v: ValueModel) -> Seq<u8> {
    if p.participates {
        encoding(v)
    } else {
        Seq::empty()
    }
}

/// The encoding of the first `n` fields, in declaration order, or the error
/// at the first field that cannot be encoded.
pub open spec fn fields_encoding(plans: Seq<FieldPlan>, vals: Seq<ValueModel>, n: nat) -> Result<
    Seq<u8>,
    EncodeError,
>
    decreases n,
{
    if n == 0 {
        Ok(Seq::empty())
    } else {
        match fields_encoding(plans, vals, (n - 1) as nat) {
            Err(e) => Err(e),
            Ok(b) => match field_encode_error(plans[n - 1], vals[n - 1], n - 1) {
                Some(e) => Err(e),
                None => Ok(b + field_bytes(plans[n - 1], vals[n - 1])),
            },
        }
    }
}

/// The encoding of a product value: its participating fields' encodings,
/// concatenated in declaration order.
pub open spec fn product_encoding(plans: Seq<FieldPlan>, vals: Seq<ValueModel>) -> Result<
    Seq<u8>,
    EncodeError,
> {
    if vals.len() != plans.len() {
        Err(EncodeError::ArityMismatch { expected: plans.len() as usize, found: vals.len() as usize })
    } else {
        fields_encoding(plans, vals, plans.len())
    }
}

/// Decoding field `i`, planned as `p`, at `pos`: a skipped field takes its
/// default and reads nothing.
pub open spec fn field_decoding(p: FieldPlan, i: int, input: Seq<u8>, pos: int, max_len: nat) -> Result<
    (ValueModel, int),
    DecodeError,
> {
    if p.wire is None || (p.participates && p.decode_with is Some) {
        Err(DecodeError::NotInterpretable { field: i as usize })
    } else if !p.participates {
        Ok((default_of(p.wire->Some_0), pos))
    } else {
        match decoding(p.wire->Some_0, input, pos, max_len) {
            Err(e) => Err(DecodeError::Wire { field: Some(i as usize), error: e }),
            Ok((v, end)) => Ok((v, end)),
        }
    }
}

/// Decoding the first `n` fields from `pos`: their values and the position
/// after them, or the first field's error.
pub open spec fn fields_decoding(
    plans: Seq<FieldPlan>,
    input: Seq<u8>,
    pos: int,
    max_len: nat,
    n: nat,
) -> Result<(Seq<ValueModel>, int), DecodeError>
    decreases n,
{
    if n == 0 {
        Ok((Seq::empty(), pos))
    } else {
        match fields_decoding(plans, input, pos, max_len, (n - 1) as nat) {
            Err(e) => Err(e),
            Ok((vals, at)) => match field_decoding(plans[n - 1], n - 1, input, at, max_len) {
                Err(e) => Err(e),
                Ok((v, end)) => Ok((vals.push(v), end)),
            },
        }
    }
}

proof fn lemma_encode_error_persists(plans: Seq<FieldPlan>, vals: Seq<ValueModel>, k: nat, m: nat)
    requires
        k <= m,
        fields_encoding(plans, vals, k) is Err,
    ensures
        fields_encoding(plans, vals, m) == fields_encoding(plans, vals, k),
    decreases m - k,
{
    if k < m {
        lemma_encode_error_persists(plans, vals, k, (m - 1) as nat);
    }
}

proof fn lemma_decode_error_persists(
    plans: Seq<FieldPlan>,
    input: Seq<u8>,
    pos: int,
    max_len: nat,
    k: nat,
    m: nat,
)
    requires
        k <= m,
        fields_decoding(plans, input, pos, max_len, k) is Err,
    ensures
        fields_decoding(plans, input, pos, max_len, m) == fields_decoding(plans, input, pos, max_len, k),
    decreases m - k,
{
    if k < m {
        lemma_decode_error_persists(plans, input, pos, max_len, k, (m - 1) as nat);
    }
}

/// Appends the encoding of a product value, one value per field, to `out`.
/// On failure `out` keeps what was written before the failing field.
pub fn encode_product(plans: &Vec<FieldPlan>, values: &Vec<Value>, out: &mut Vec<u8>) -> (r: Result<
    (),
    EncodeError,
>)
    ensures
        match product_encoding(plans@, models(values@)) {
            Ok(b) => r is Ok && final(out)@ == old(out)@ + b,
            Err(e) => r == Err::<(), EncodeError>(e) && old(out)@.is_prefix_of(final(out)@),
        },
{
    if values.len() != plans.len() {
        assert(old(out)@.is_prefix_of(out@)) by {
            assert(out@.subrange(0, out@.len() as int) =~= out@);
        }
        return Err(EncodeError::ArityMismatch { expected: plans.len(), found: values.len() });
    }
    let ghost vals = models(values@);
    let ghost start = out@;
    let mut i: usize = 0;
    while i < plans.len()
        invariant
            i <= plans@.len() == values@.len() == vals.len(),
            vals == models(values@),
            start == old(out)@,
            fields_encoding(plans@, vals, i as nat) is Ok,
            out@ == start + fields_encoding(plans@, vals, i as nat)->Ok_0,
        decreases plans@.len() - i,
    {
        let p = &plans[i];
        let v = &values[i];
        assert(vals[i as int] == v@);
        if p.participates {
            let failed: Option<EncodeError> = match p.wire {
                None => Some(EncodeError::NotInterpretable { field: i }),
                Some(w) => if p.encode_with.is_some() {
                    Some(EncodeError::NotInterpretable { field: i })
                } else if !fits_wire(w, v) {
                    Some(EncodeError::TypeMismatch { field: i })
                } else if !fits_length(v) {
                    Some(EncodeError::LengthOverflow { field: i })
                } else {
                    None
                },
            };
            match failed {
                Some(e) => {
                    proof {
                        assert(field_encode_error(*p, v@, i as int) == Some(e));
                        lemma_encode_error_persists(plans@, vals, (i + 1) as nat, plans@.len());
                        assert(start.is_prefix_of(out@)) by {
                            assert(out@.subrange(0, start.len() as int) =~= start);
                        }
                    }
                    return Err(e);
                },
                None => {
                    encode_value(v, out);
                },
            }
        }
        i = i + 1;
        proof {
            assert(out@ =~= start + fields_encoding(plans@, vals, i as nat)->Ok_0);
        }
    }
    Ok(())
}

fn fits_wire(w: Wire, v: &Value) -> (r: bool)
    ensures
        r == of_wire(w, v@),
{
    match (w, v) {
        (Wire::Scalar(ScalarKind::U8), Value::U8(_)) => true,
        (Wire::Scalar(ScalarKind::U16), Value::U16(_)) => true,
        (Wire::Scalar(ScalarKind::U32), Value::U32(_)) => true,
        (Wire::Scalar(ScalarKind::U64), Value::U64(_)) => true,
        (Wire::Scalar(ScalarKind::U128), Value::U128(_)) => true,
        (Wire::Scalar(ScalarKind::I8), Value::I8(_)) => true,
        (Wire::Scalar(ScalarKind::I16), Value::I16(_)) => true,
        (Wire::Scalar(ScalarKind::I32), Value::I32(_)) => true,
        (Wire::Scalar(ScalarKind::I64), Value::I64(_)) => true,
        (Wire::Scalar(ScalarKind::I128), Value::I128(_)) => true,
        (Wire::Scalar(ScalarKind::F32), Value::F32(_)) => true,
        (Wire::Scalar(ScalarKind::F64), Value::F64(_)) => true,
        (Wire::Scalar(ScalarKind::Bool), Value::Bool(_)) => true,
        (Wire::Bytes, Value::Bytes(_)) => true,
        _ => false,
    }
}

fn fits_length(v: &Value) -> (r: bool)
    ensures
        r == length_fits(v@),
{
    match v {
        Value::Bytes(b) => b.len() <= 0xffff_ffff,
        _ => true,
    }
}

/// Decodes one value per field from `input` at `pos`, in declaration order;
/// a byte string longer than `max_len` fails. Returns the values and the
/// position after them.
pub fn decode_product(plans: &Vec<FieldPlan>, input: &[u8], pos: usize, max_len: usize) -> (r: Result<
    (Vec<Value>, usize),
    DecodeError,
>)
    requires
        pos <= input@.len(),
    ensures
        match fields_decoding(plans@, input@, pos as int, max_len as nat, plans@.len()) {
            Ok((vals, end)) => r is Ok && models(r->Ok_0.0@) == vals && r->Ok_0.1 == end,
            Err(e) => r == Err::<(Vec<Value>, usize), DecodeError>(e),
        },
{
    let mut values: Vec<Value> = Vec::new();
    let mut at = pos;
    let mut i: usize = 0;
    assert(models(values@) =~= Seq::<ValueModel>::empty());
    while i < plans.len()
        invariant
            i <= plans@.len(),
            pos <= at <= input@.len(),
            fields_decoding(plans@, input@, pos as int, max_len as nat, i as nat) == Ok::<
                (Seq<ValueModel>, int),
                DecodeError,
            >((models(values@), at as int)),
        decreases plans@.len() - i,
    {
        let p = &plans[i];
        let w = match p.wire {
            None => {
                proof {
                    lemma_decode_error_persists(plans@, input@, pos as int, max_len as nat, (i + 1) as nat, plans@.len());
                }
                return Err(DecodeError::NotInterpretable { field: i });
            },
            Some(w) => w,
        };
        if !p.participates {
            let d = default_value(w);
            values.push(d);
        } else if p.decode_with.is_some() {
            proof {
                lemma_decode_error_persists(plans@, input@, pos as int, max_len as nat, (i + 1) as nat, plans@.len());
            }
            return Err(DecodeError::NotInterpretable { field: i });
        } else {
            match decode_value(w, input, at, max_len) {
                Err(e) => {
                    proof {
                        lemma_decode_error_persists(plans@, input@, pos as int, max_len as nat, (i + 1) as nat, plans@.len());
                    }
                    return Err(DecodeError::Wire { field: Some(i), error: e });
                },
                Ok((v, end)) => {
                    values.push(v);
                    at = end;
                },
            }
        }
        i = i + 1;
        proof {
            assert(models(values@) =~= fields_decoding(plans@, input@, pos as int, max_len as nat, i as nat)->Ok_0.0);
        }
    }
    Ok((values, at))
}

/// Determinism: two product values with the same content have the same
/// encoding, or fail alike.
pub proof fn lemma_product_encoding_deterministic(plans: Seq<FieldPlan>, a: Seq<Value>, b: Seq<Value>)
    requires
        models(a) == models(b),
    ensures
        product_encoding(plans, models(a)) == product_encoding(plans, models(b)),
{
}

/// Determinism: two sum values with the same variant and the same content
/// have the same encoding, or fail alike.
pub proof fn lemma_sum_encoding_deterministic(vs: Seq<VariantPlan>, a: SumValue, b: SumValue)
    requires
        a.variant == b.variant,
        models(a.fields@) == models(b.fields@),
    ensures
        sum_encoding(vs, a.variant as int, models(a.fields@)) == sum_encoding(
            vs,
            b.variant as int,
            models(b.fields@),
        ),
{
}

/// What decoding gives back for the first `n` fields: a participating field
/// its value, a skipped one its default.
pub open spec fn restored(plans: Seq<FieldPlan>, vals: Seq<ValueModel>, n: nat) -> Seq<ValueModel> {
    Seq::new(
        n,
        |i: int|
            if plans[i].participates {
                vals[i]
            } else {
                default_of(plans[i].wire->Some_0)
            },
    )
}

/// The runtime codec can decode every field, and no byte string of `vals`
/// is longer than `max_len`.
pub open spec fn decodable(plans: Seq<FieldPlan>, vals: Seq<ValueModel>, max_len: nat) -> bool {
    forall|i: int|
        0 <= i < plans.len() ==> {
            &&& (#[trigger] plans[i]).wire is Some
            &&& plans[i].participates ==> plans[i].decode_with is None
            &&& (plans[i].participates && vals[i] is Bytes) ==> vals[i]->Bytes_0.len() <= max_len
        }
}

proof fn lemma_fields_round_trip(
    plans: Seq<FieldPlan>,
    vals: Seq<ValueModel>,
    input: Seq<u8>,
    pos: int,
    max_len: nat,
    n: nat,
)
    requires
        n <= plans.len() == vals.len(),
        fields_encoding(plans, vals, n) is Ok,
        decodable(plans, vals, max_len),
        0 <= pos,
        pos + fields_encoding(plans, vals, n)->Ok_0.len() <= input.len(),
        input.subrange(pos, pos + fields_encoding(plans, vals, n)->Ok_0.len())
            == fields_encoding(plans, vals, n)->Ok_0,
    ensures
        fields_decoding(plans, input, pos, max_len, n) == Ok::<(Seq<ValueModel>, int), DecodeError>(
            (restored(plans, vals, n), pos + fields_encoding(plans, vals, n)->Ok_0.len()),
        ),
    decreases n,
{
    if n == 0 {
        assert(restored(plans, vals, 0) =~= Seq::<ValueModel>::empty());
    } else {
        let k = (n - 1) as nat;
        let b = fields_encoding(plans, vals, n)->Ok_0;
        let a = fields_encoding(plans, vals, k)->Ok_0;
        let piece = field_bytes(plans[k as int], vals[k as int]);
        assert(b == a + piece);
        assert(input.subrange(pos, pos + a.len()) =~= b.subrange(0, a.len() as int));
        assert(b.subrange(0, a.len() as int) =~= a);
        lemma_fields_round_trip(plans, vals, input, pos, max_len, k);
        let at = pos + a.len();
        let p = plans[k as int];
        assert(p.wire is Some);
        if p.participates {
            assert(input.subrange(at, at + piece.len()) =~= b.subrange(a.len() as int, b.len() as int));
            assert(b.subrange(a.len() as int, b.len() as int) =~= piece);
            lemma_value_round_trip(p.wire->Some_0, vals[k as int], input, at, max_len);
        }
        assert(restored(plans, vals, n) =~= restored(plans, vals, k).push(
            restored(plans, vals, n)[k as int],
        ));
    }
}

/// Round trip: the encoding of a product value, found at `pos` in any
/// input, decodes to the same value, but that each skipped field holds its
/// default; decoding ends right after the encoding.
pub proof fn lemma_product_round_trip(
    plans: Seq<FieldPlan>,
    vals: Seq<ValueModel>,
    input: Seq<u8>,
    pos: int,
    max_len: nat,
)
    requires
        product_encoding(plans, vals) is Ok,
        decodable(plans, vals, max_len),
        0 <= pos,
        pos + product_encoding(plans, vals)->Ok_0.len() <= input.len(),
        input.subrange(pos, pos + product_encoding(plans, vals)->Ok_0.len())
            == product_encoding(plans, vals)->Ok_0,
    ensures
        fields_decoding(plans, input, pos, max_len, plans.len()) == Ok::<(Seq<ValueModel>, int), DecodeError>(
            (restored(plans, vals, plans.len()), pos + product_encoding(plans, vals)->Ok_0.len()),
        ),
{
    lemma_fields_round_trip(plans, vals, input, pos, max_len, plans.len());
}

/// A value of a sum: the position of its variant and one value per field
/// of that variant.
#[derive(Debug, Clone, PartialEq, Eq)]
pub struct SumValue {
    pub variant: usize,
    pub fields: Vec<Value>,
}

/// The first variant from `from` on whose tag is `tag`.
pub open spec fn tag_index(vs: Seq<VariantPlan>, tag: u8, from: nat) -> Option<nat>
    decreases vs.len() - from,
{
    if from >= vs.len() {
        None
    } else if vs[from as int].tag == tag {
        Some(from)
    } else {
        tag_index(vs, tag, from + 1)
    }
}

/// The encoding of a sum value: its variant's tag byte, then the variant's
/// fields as a product.
pub open spec fn sum_encoding(vs: Seq<VariantPlan>, variant: int, vals: Seq<ValueModel>) -> Result<
    Seq<u8>,
    EncodeError,
> {
    if !(0 <= variant < vs.len()) {
        Err(EncodeError::UnknownVariant { variant: variant as usize })
    } else {
        match product_encoding(vs[variant].fields@, vals) {
            Ok(b) => Ok(seq![vs[variant].tag] + b),
            Err(e) => Err(e),
        }
    }
}

/// Decoding a sum value at `pos`: the variant whose tag is the byte read,
/// its field values, and the position after them. An unknown tag is an
/// error, never a fallback.
pub open spec fn sum_decoding(vs: Seq<VariantPlan>, input: Seq<u8>, pos: int, max_len: nat) -> Result<
    ((nat, Seq<ValueModel>), int),
    DecodeError,
> {
    if pos >= input.len() {
        Err(DecodeError::Wire { field: None, error: WireError::TruncatedInput })
    } else {
        match tag_index(vs, input[pos], 0) {
            None => Err(DecodeError::UnknownVariantTag { tag: input[pos] }),
            Some(vi) => match fields_decoding(
                vs[vi as int].fields@,
                input,
                pos + 1,
                max_len,
                vs[vi as int].fields@.len(),
            ) {
                Err(e) => Err(e),
                Ok((vals, end)) => Ok(((vi, vals), end)),
            },
        }
    }
}

/// Appends the encoding of a sum value to `out`. On failure `out` keeps
/// what was written before the failing field.
pub fn encode_sum(plan: &SumPlan, value: &SumValue, out: &mut Vec<u8>) -> (r: Result<(), EncodeError>)
    ensures
        match sum_encoding(plan.variants@, value.variant as int, models(value.fields@)) {
            Ok(b) => r is Ok && final(out)@ == old(out)@ + b,
            Err(e) => r == Err::<(), EncodeError>(e) && old(out)@.is_prefix_of(final(out)@),
        },
{
    if value.variant >= plan.variants.len() {
        assert(old(out)@.is_prefix_of(out@)) by {
            assert(out@.subrange(0, out@.len() as int) =~= out@);
        }
        return Err(EncodeError::UnknownVariant { variant: value.variant });
    }
    let v = &plan.variants[value.variant];
    let ghost start = out@;
    out.push(v.tag);
    let ghost mid = out@;
    let r = encode_product(&v.fields, &value.fields, out);
    proof {
        assert(mid == start + seq![v.tag]);
        match product_encoding(v.fields@, models(value.fields@)) {
            Ok(b) => {
                assert(out@ =~= start + (seq![v.tag] + b));
            },
            Err(e) => {
                assert(out@.subrange(0, start.len() as int) =~= mid.subrange(0, start.len() as int));
                assert(start.is_prefix_of(out@));
            },
        }
    }
    r
}

proof fn lemma_tag_index_bound(vs: Seq<VariantPlan>, tag: u8, from: nat)
    ensures
        tag_index(vs, tag, from) is Some ==> tag_index(vs, tag, from)->Some_0 < vs.len(),
    decreases vs.len() - from,
{
    if from < vs.len() {
        lemma_tag_index_bound(vs, tag, from + 1);
    }
}

fn find_tag(vs: &Vec<VariantPlan>, tag: u8) -> (r: Option<usize>)
    ensures
        r is Some ==> r->Some_0 < vs@.len(),
        r is Some <==> tag_index(vs@, tag, 0) is Some,
        r is Some ==> tag_index(vs@, tag, 0) == Some(r->Some_0 as nat),
{
    let mut i: usize = 0;
    while i < vs.len()
        invariant
            i <= vs@.len(),
            tag_index(vs@, tag, 0) == tag_index(vs@, tag, i as nat),
        decreases vs@.len() - i,
    {
        if vs[i].tag == tag {
            proof {
                lemma_tag_index_bound(vs@, tag, 0);
            }
            return Some(i);
        }
        i = i + 1;
    }
    None
}

/// Decodes a sum value from `input` at `pos`: reads the tag byte, picks the
/// variant with that tag, and decodes its fields; a byte string longer than
/// `max_len` fails. Returns the value and the position after it.
pub fn decode_sum(plan: &SumPlan, input: &[u8], pos: usize, max_len: usize) -> (r: Result<
    (SumValue, usize),
    DecodeError,
>)
    requires
        pos <= input@.len(),
    ensures
        match sum_decoding(plan.variants@, input@, pos as int, max_len as nat) {
            Ok(((vi, vals), end)) => r is Ok && r->Ok_0.0.variant == vi && models(r->Ok_0.0.fields@)
                == vals && r->Ok_0.1 == end,
            Err(e) => r == Err::<(SumValue, usize), DecodeError>(e),
        },
{
    if pos >= input.len() {
        return Err(DecodeError::Wire { field: None, error: WireError::TruncatedInput });
    }
    let tag = input[pos];
    proof {
        lemma_tag_index_bound(plan.variants@, tag, 0);
    }
    match find_tag(&plan.variants, tag) {
        None => Err(DecodeError::UnknownVariantTag { tag }),
        Some(vi) => {
            let fields = &plan.variants[vi].fields;
            assert(fields@ == plan.variants@[vi as int].fields@);
            match decode_product(fields, input, pos + 1, max_len) {
                Err(e) => Err(e),
                Ok((fields, end)) => Ok((SumValue { variant: vi, fields }, end)),
            }
        },
    }
}

/// The tags of the variants are pairwise distinct.
pub open spec fn distinct_tags(vs: Seq<VariantPlan>) -> bool {
    forall|i: int, j: int| 0 <= i < vs.len() && 0 <= j < vs.len() && i != j ==> vs[i].tag != vs[j].tag
}

proof fn lemma_tag_index(vs: Seq<VariantPlan>, v: nat, from: nat)
    requires
        distinct_tags(vs),
        from <= v < vs.len(),
    ensures
        tag_index(vs, vs[v as int].tag, from) == Some(v),
    decreases v - from,
{
    if from < v {
        lemma_tag_index(vs, v, from + 1);
    }
}

/// Round trip: with pairwise distinct tags, the encoding of a sum value,
/// found at `pos` in any input, decodes to the same variant and the same
/// field values, but that each skipped field holds its default; decoding
/// ends right after the encoding.
pub proof fn lemma_sum_round_trip(
    vs: Seq<VariantPlan>,
    variant: nat,
    vals: Seq<ValueModel>,
    input: Seq<u8>,
    pos: int,
    max_len: nat,
)
    requires
        distinct_tags(vs),
        sum_encoding(vs, variant as int, vals) is Ok,
        variant < vs.len() ==> decodable(vs[variant as int].fields@, vals, max_len),
        0 <= pos,
        pos + sum_encoding(vs, variant as int, vals)->Ok_0.len() <= input.len(),
        input.subrange(pos, pos + sum_encoding(vs, variant as int, vals)->Ok_0.len())
            == sum_encoding(vs, variant as int, vals)->Ok_0,
    ensures
        sum_decoding(vs, input, pos, max_len) == Ok::<((nat, Seq<ValueModel>), int), DecodeError>(
            (
                (variant, restored(vs[variant as int].fields@, vals, vals.len())),
                pos + sum_encoding(vs, variant as int, vals)->Ok_0.len(),
            ),
        ),
{
    let plans = vs[variant as int].fields@;
    let all = sum_encoding(vs, variant as int, vals)->Ok_0;
    let b = product_encoding(plans, vals)->Ok_0;
    assert(all[0] == vs[variant as int].tag);
    assert(input[pos] == all[0]) by {
        assert(input.subrange(pos, pos + all.len())[0] == input[pos]);
    }
    lemma_tag_index(vs, variant, 0);
    assert(input.subrange(pos + 1, pos + 1 + b.len()) =~= all.subrange(1, all.len() as int));
    assert(all.subrange(1, all.len() as int) =~= b);
    lemma_product_round_trip(plans, vals, input, pos + 1, max_len);
}

/// The encoding of an overlay value: the active field's encoding alone, with
/// no tag and no length.
pub open spec fn overlay_encoding(plans: Seq<FieldPlan>, active: int, v: ValueModel) -> Result<
    Seq<u8>,
    EncodeError,
> {
    match field_encode_error(plans[active], v, active) {
        Some(e) => Err(e),
        None => Ok(field_bytes(plans[active], v)),
    }
}

/// Appends the encoding of an overlay value to `out`: `value` is the value
/// of the field at `active`, which the caller chooses.
pub fn encode_overlay(plans: &Vec<FieldPlan>, active: usize, value: &Value, out: &mut Vec<u8>) -> (r: Result<
    (),
    EncodeError,
>)
    requires
        active < plans@.len(),
    ensures
        match overlay_encoding(plans@, active as int, value@) {
            Ok(b) => r is Ok && final(out)@ == old(out)@ + b,
            Err(e) => r == Err::<(), EncodeError>(e) && final(out)@ == old(out)@,
        },
{
    let p = &plans[active];
    if !p.participates {
        assert(out@ =~= old(out)@ + Seq::<u8>::empty());
        return Ok(());
    }
    match p.wire {
        None => Err(EncodeError::NotInterpretable { field: active }),
        Some(w) => if p.encode_with.is_some() {
            Err(EncodeError::NotInterpretable { field: active })
        } else if !fits_wire(w, value) {
            Err(EncodeError::TypeMismatch { field: active })
        } else if !fits_length(value) {
            Err(EncodeError::LengthOverflow { field: active })
        } else {
            encode_value(value, out);
            Ok(())
        },
    }
}

/// Decodes an overlay value from `input` at `pos` as the value of the field
/// at `active`; a byte string longer than `max_len` fails. Returns the value
/// and the position after it.
pub fn decode_overlay(plans: &Vec<FieldPlan>, active: usize, input: &[u8], pos: usize, max_len: usize) -> (r: Result<
    (Value, usize),
    DecodeError,
>)
    requires
        active < plans@.len(),
        pos <= input@.len(),
    ensures
        match field_decoding(plans@[active as int], active as int, input@, pos as int, max_len as nat) {
            Ok((v, end)) => r is Ok && r->Ok_0.0@ == v && r->Ok_0.1 == end,
            Err(e) => r == Err::<(Value, usize), DecodeError>(e),
        },
{
    let p = &plans[active];
    match p.wire {
        None => Err(DecodeError::NotInterpretable { field: active }),
        Some(w) => if !p.participates {
            Ok((default_value(w), pos))
        } else if p.decode_with.is_some() {
            Err(DecodeError::NotInterpretable { field: active })
        } else {
            match decode_value(w, input, pos, max_len) {
                Err(e) => Err(DecodeError::Wire { field: Some(active), error: e }),
                Ok((v, end)) => Ok((v, end)),
            }
        },
    }
}

/// Round trip: the encoding of an overlay value, found at `pos` in any
/// input, decodes to the same value (the default, where the active field is
/// skipped); decoding ends right after the encoding.
pub proof fn lemma_overlay_round_trip(
    plans: Seq<FieldPlan>,
    active: nat,
    v: ValueModel,
    input: Seq<u8>,
    pos: int,
    max_len: nat,
)
    requires
        active < plans.len(),
        overlay_encoding(plans, active as int, v) is Ok,
        decodable(plans.subrange(active as int, active as int + 1), seq![v], max_len),
        0 <= pos,
        pos + overlay_encoding(plans, active as int, v)->Ok_0.len() <= input.len(),
        input.subrange(pos, pos + overlay_encoding(plans, active as int, v)->Ok_0.len())
            == overlay_encoding(plans, active as int, v)->Ok_0,
    ensures
        field_decoding(plans[active as int], active as int, input, pos, max_len) == Ok::<(ValueModel, int), DecodeError>(
            (
                if plans[active as int].participates {
                    v
                } else {
                    default_of(plans[active as int].wire->Some_0)
                },
                pos + overlay_encoding(plans, active as int, v)->Ok_0.len(),
            ),
        ),
{
    let p = plans[active as int];
    assert(plans.subrange(active as int, active as int + 1)[0] == p);
    if p.participates {
        lemma_value_round_trip(p.wire->Some_0, v, input, pos, max_len);
    }
}

} // verus!

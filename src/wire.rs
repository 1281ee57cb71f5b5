use vstd::bytes::*;
use vstd::prelude::*;
use vstd::slice::slice_subrange;

use crate::types::ScalarKind;

verus! {

/// What the primitive codec reads and writes for one field.
#[derive(Debug, Clone, Copy, PartialEq, Eq, Structural)]
pub enum Wire {
    Scalar(ScalarKind),
    /// A four-byte little-endian length, then that many bytes.
    Bytes,
}

/// A failure of the primitive codec while decoding.
#[derive(Debug, Clone, Copy, PartialEq, Eq, Structural)]
pub enum WireError {
    /// Fewer bytes are left than the value needs.
    TruncatedInput,
    /// A declared length runs past the input or past the configured maximum.
    LengthOverflow,
    /// A boolean byte other than 0 or 1.
    InvalidBooleanByte { byte: u8 },
}

/// A value that the primitive codec can carry. Floats are held as their
/// IEEE-754 bit patterns.
#[derive(Debug, Clone, PartialEq, Eq)]
pub enum Value {
    U8(u8),
    U16(u16),
    U32(u32),
    U64(u64),
    U128(u128),
    I8(i8),
    I16(i16),
    I32(i32),
    I64(i64),
    I128(i128),
    F32(u32),
    F64(u64),
    Bool(bool),
    Bytes(Vec<u8>),
}

/// The mathematical content of a [`Value`].
pub enum ValueModel {
    U8(u8),
    U16(u16),
    U32(u32),
    U64(u64),
    U128(u128),
    I8(i8),
    I16(i16),
    I32(i32),
    I64(i64),
    I128(i128),
    F32(u32),
    F64(u64),
    Bool(bool),
    Bytes(Seq<u8>),
}

impl View for Value {
    type V = ValueModel;

    open spec fn view(&self) -> ValueModel {
        match self {
            Value::U8(x) => ValueModel::U8(*x),
            Value::U16(x) => ValueModel::U16(*x),
            Value::U32(x) => ValueModel::U32(*x),
            Value::U64(x) => ValueModel::U64(*x),
            Value::U128(x) => ValueModel::U128(*x),
            Value::I8(x) => ValueModel::I8(*x),
            Value::I16(x) => ValueModel::I16(*x),
            Value::I32(x) => ValueModel::I32(*x),
            Value::I64(x) => ValueModel::I64(*x),
            Value::I128(x) => ValueModel::I128(*x),
            Value::F32(x) => ValueModel::F32(*x),
            Value::F64(x) => ValueModel::F64(*x),
            Value::Bool(x) => ValueModel::Bool(*x),
            Value::Bytes(b) => ValueModel::Bytes(b@),
        }
    }
}

/// The number of bytes a scalar takes on the wire.
pub open spec fn width(k: ScalarKind) -> nat {
    match k {
        ScalarKind::U8 | ScalarKind::I8 | ScalarKind::Bool => 1,
        ScalarKind::U16 | ScalarKind::I16 => 2,
        ScalarKind::U32 | ScalarKind::I32 | ScalarKind::F32 => 4,
        ScalarKind::U64 | ScalarKind::I64 | ScalarKind::F64 => 8,
        ScalarKind::U128 | ScalarKind::I128 => 16,
    }
}

/// `v` is a value of the wire type `w`.
pub open spec fn of_wire(w: Wire, v: ValueModel) -> bool {
    match (w, v) {
        (Wire::Scalar(ScalarKind::U8), ValueModel::U8(_)) => true,
        (Wire::Scalar(ScalarKind::U16), ValueModel::U16(_)) => true,
        (Wire::Scalar(ScalarKind::U32), ValueModel::U32(_)) => true,
        (Wire::Scalar(ScalarKind::U64), ValueModel::U64(_)) => true,
        (Wire::Scalar(ScalarKind::U128), ValueModel::U128(_)) => true,
        (Wire::Scalar(ScalarKind::I8), ValueModel::I8(_)) => true,
        (Wire::Scalar(ScalarKind::I16), ValueModel::I16(_)) => true,
        (Wire::Scalar(ScalarKind::I32), ValueModel::I32(_)) => true,
        (Wire::Scalar(ScalarKind::I64), ValueModel::I64(_)) => true,
        (Wire::Scalar(ScalarKind::I128), ValueModel::I128(_)) => true,
        (Wire::Scalar(ScalarKind::F32), ValueModel::F32(_)) => true,
        (Wire::Scalar(ScalarKind::F64), ValueModel::F64(_)) => true,
        (Wire::Scalar(ScalarKind::Bool), ValueModel::Bool(_)) => true,
        (Wire::Bytes, ValueModel::Bytes(_)) => true,
        _ => false,
    }
}

/// The length of a byte string can be written in the four-byte prefix.
pub open spec fn length_fits(v: ValueModel) -> bool {
    match v {
        ValueModel::Bytes(b) => b.len() <= u32::MAX,
        _ => true,
    }
}

/// The bytes that encode `v`: little-endian, no padding, and for a byte
/// string a four-byte little-endian length first.
pub open spec fn encoding(v: ValueModel) -> Seq<u8> {
    match v {
        ValueModel::U8(x) => seq![x],
        ValueModel::U16(x) => spec_u16_to_le_bytes(x),
        ValueModel::U32(x) => spec_u32_to_le_bytes(x),
        ValueModel::U64(x) => spec_u64_to_le_bytes(x),
        ValueModel::U128(x) => spec_u128_to_le_bytes(x),
        ValueModel::I8(x) => seq![x as u8],
        ValueModel::I16(x) => spec_u16_to_le_bytes(x as u16),
        ValueModel::I32(x) => spec_u32_to_le_bytes(x as u32),
        ValueModel::I64(x) => spec_u64_to_le_bytes(x as u64),
        ValueModel::I128(x) => spec_u128_to_le_bytes(x as u128),
        ValueModel::F32(x) => spec_u32_to_le_bytes(x),
        ValueModel::F64(x) => spec_u64_to_le_bytes(x),
        ValueModel::Bool(x) => seq![if x { 1u8 } else { 0u8 }],
        ValueModel::Bytes(b) => spec_u32_to_le_bytes(b.len() as u32) + b,
    }
}

/// The scalar of kind `k` that the bytes `b` (of its width) encode.
pub open spec fn scalar_value(k: ScalarKind, b: Seq<u8>) -> ValueModel {
    match k {
        ScalarKind::U8 => ValueModel::U8(b[0]),
        ScalarKind::U16 => ValueModel::U16(spec_u16_from_le_bytes(b)),
        ScalarKind::U32 => ValueModel::U32(spec_u32_from_le_bytes(b)),
        ScalarKind::U64 => ValueModel::U64(spec_u64_from_le_bytes(b)),
        ScalarKind::U128 => ValueModel::U128(spec_u128_from_le_bytes(b)),
        ScalarKind::I8 => ValueModel::I8(b[0] as i8),
        ScalarKind::I16 => ValueModel::I16(spec_u16_from_le_bytes(b) as i16),
        ScalarKind::I32 => ValueModel::I32(spec_u32_from_le_bytes(b) as i32),
        ScalarKind::I64 => ValueModel::I64(spec_u64_from_le_bytes(b) as i64),
        ScalarKind::I128 => ValueModel::I128(spec_u128_from_le_bytes(b) as i128),
        ScalarKind::F32 => ValueModel::F32(spec_u32_from_le_bytes(b)),
        ScalarKind::F64 => ValueModel::F64(spec_u64_from_le_bytes(b)),
        ScalarKind::Bool => ValueModel::Bool(b[0] == 1),
    }
}

/// Decoding a value of wire type `w` from `input` at `pos`, with byte
/// strings no longer than `max_len`: the value and the position after it.
pub open spec fn decoding(w: Wire, input: Seq<u8>, pos: int, max_len: nat) -> Result<
    (ValueModel, int),
    WireError,
> {
    match w {
        Wire::Scalar(k) => if pos + width(k) > input.len() {
            Err(WireError::TruncatedInput)
        } else {
            let b = input.subrange(pos, pos + width(k));
            if k == ScalarKind::Bool && b[0] > 1 {
                Err(WireError::InvalidBooleanByte { byte: b[0] })
            } else {
                Ok((scalar_value(k, b), pos + width(k)))
            }
        },
        Wire::Bytes => if pos + 4 > input.len() {
            Err(WireError::TruncatedInput)
        } else {
            let n = spec_u32_from_le_bytes(input.subrange(pos, pos + 4)) as int;
            if n > max_len || pos + 4 + n > input.len() {
                Err(WireError::LengthOverflow)
            } else {
                Ok((ValueModel::Bytes(input.subrange(pos + 4, pos + 4 + n)), pos + 4 + n))
            }
        },
    }
}

/// A value of wire type `w` placed at `pos` in `input` decodes to itself,
/// and decoding ends right after its encoding.
pub proof fn lemma_value_round_trip(w: Wire, v: ValueModel, input: Seq<u8>, pos: int, max_len: nat)
    requires
        of_wire(w, v),
        length_fits(v),
        v is Bytes ==> v->Bytes_0.len() <= max_len,
        0 <= pos,
        pos + encoding(v).len() <= input.len(),
        input.subrange(pos, pos + encoding(v).len()) == encoding(v),
    ensures
        decoding(w, input, pos, max_len) == Ok::<(ValueModel, int), WireError>(
            (v, pos + encoding(v).len()),
        ),
{
    lemma_auto_spec_u16_to_from_le_bytes();
    lemma_auto_spec_u32_to_from_le_bytes();
    lemma_auto_spec_u64_to_from_le_bytes();
    lemma_auto_spec_u128_to_from_le_bytes();
    let e = encoding(v);
    match v {
        ValueModel::I8(x) => {
            assert((x as u8) as i8 == x) by (bit_vector);
        },
        ValueModel::I16(x) => {
            assert((x as u16) as i16 == x) by (bit_vector);
        },
        ValueModel::I32(x) => {
            assert((x as u32) as i32 == x) by (bit_vector);
        },
        ValueModel::I64(x) => {
            assert((x as u64) as i64 == x) by (bit_vector);
        },
        ValueModel::I128(x) => {
            assert((x as u128) as i128 == x) by (bit_vector);
        },
        ValueModel::Bool(x) => {
            assert(e[0] <= 1);
        },
        ValueModel::Bytes(b) => {
            let n = b.len() as u32;
            assert(input.subrange(pos, pos + 4) =~= e.subrange(0, 4));
            assert(e.subrange(0, 4) =~= spec_u32_to_le_bytes(n));
            assert(input.subrange(pos + 4, pos + 4 + b.len()) =~= e.subrange(4, 4 + b.len() as int));
            assert(e.subrange(4, 4 + b.len() as int) =~= b);
        },
        _ => {},
    }
    match w {
        Wire::Scalar(k) => {
            assert(e.len() == width(k));
        },
        _ => {},
    }
}

/// Appends the encoding of `v` to `out`.
pub fn encode_value(v: &Value, out: &mut Vec<u8>)
    requires
        length_fits(v@),
    ensures
        final(out)@ == old(out)@ + encoding(v@),
{
    let mut b: Vec<u8> = match v {
        Value::U8(x) => vec![*x],
        Value::U16(x) => u16_to_le_bytes(*x),
        Value::U32(x) => u32_to_le_bytes(*x),
        Value::U64(x) => u64_to_le_bytes(*x),
        Value::U128(x) => u128_to_le_bytes(*x),
        Value::I8(x) => vec![*x as u8],
        Value::I16(x) => u16_to_le_bytes(*x as u16),
        Value::I32(x) => u32_to_le_bytes(*x as u32),
        Value::I64(x) => u64_to_le_bytes(*x as u64),
        Value::I128(x) => u128_to_le_bytes(*x as u128),
        Value::F32(x) => u32_to_le_bytes(*x),
        Value::F64(x) => u64_to_le_bytes(*x),
        Value::Bool(x) => vec![if *x { 1u8 } else { 0u8 }],
        Value::Bytes(bytes) => {
            let mut b = u32_to_le_bytes(bytes.len() as u32);
            b.extend_from_slice(bytes.as_slice());
            b
        },
    };
    assert(b@ =~= encoding(v@));
    out.append(&mut b);
}

/// Decodes a value of wire type `w` from `input` at `pos`; a byte string
/// longer than `max_len` fails with `LengthOverflow`.
pub fn decode_value(w: Wire, input: &[u8], pos: usize, max_len: usize) -> (r: Result<
    (Value, usize),
    WireError,
>)
    requires
        pos <= input@.len(),
    ensures
        match decoding(w, input@, pos as int, max_len as nat) {
            Ok((m, end)) => r is Ok && r->Ok_0.0@ == m && r->Ok_0.1 == end,
            Err(e) => r == Err::<(Value, usize), WireError>(e),
        },
{
    let avail = input.len() - pos;
    match w {
        Wire::Scalar(k) => {
            let n: usize = match k {
                ScalarKind::U8 | ScalarKind::I8 | ScalarKind::Bool => 1,
                ScalarKind::U16 | ScalarKind::I16 => 2,
                ScalarKind::U32 | ScalarKind::I32 | ScalarKind::F32 => 4,
                ScalarKind::U64 | ScalarKind::I64 | ScalarKind::F64 => 8,
                ScalarKind::U128 | ScalarKind::I128 => 16,
            };
            if n > avail {
                return Err(WireError::TruncatedInput);
            }
            let b = slice_subrange(input, pos, pos + n);
            let v = match k {
                ScalarKind::U8 => Value::U8(b[0]),
                ScalarKind::U16 => Value::U16(u16_from_le_bytes(b)),
                ScalarKind::U32 => Value::U32(u32_from_le_bytes(b)),
                ScalarKind::U64 => Value::U64(u64_from_le_bytes(b)),
                ScalarKind::U128 => Value::U128(u128_from_le_bytes(b)),
                ScalarKind::I8 => Value::I8(b[0] as i8),
                ScalarKind::I16 => Value::I16(u16_from_le_bytes(b) as i16),
                ScalarKind::I32 => Value::I32(u32_from_le_bytes(b) as i32),
                ScalarKind::I64 => Value::I64(u64_from_le_bytes(b) as i64),
                ScalarKind::I128 => Value::I128(u128_from_le_bytes(b) as i128),
                ScalarKind::F32 => Value::F32(u32_from_le_bytes(b)),
                ScalarKind::F64 => Value::F64(u64_from_le_bytes(b)),
                ScalarKind::Bool => {
                    if b[0] > 1 {
                        return Err(WireError::InvalidBooleanByte { byte: b[0] });
                    }
                    Value::Bool(b[0] == 1)
                },
            };
            Ok((v, pos + n))
        },
        Wire::Bytes => {
            if avail < 4 {
                return Err(WireError::TruncatedInput);
            }
            let len = u32_from_le_bytes(slice_subrange(input, pos, pos + 4)) as usize;
            if len > max_len || len > avail - 4 {
                return Err(WireError::LengthOverflow);
            }
            let body = slice_subrange(input, pos + 4, pos + 4 + len);
            let bytes = vstd::slice::slice_to_vec(body);
            Ok((Value::Bytes(bytes), pos + 4 + len))
        },
    }
}

} // verus!

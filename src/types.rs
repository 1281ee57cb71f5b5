use vstd::prelude::*;

verus! {

/// A fixed-width scalar: written as its little-endian bytes, with no prefix.
#[derive(Debug, Clone, Copy, PartialEq, Eq, Structural)]
pub enum ScalarKind {
    U8,
    U16,
    U32,
    U64,
    U128,
    I8,
    I16,
    I32,
    I64,
    I128,
    F32,
    F64,
    Bool,
}

/// The declared type of a field.
#[derive(Debug, PartialEq, Eq)]
pub enum TypeExpr {
    Scalar(ScalarKind),
    /// A byte string: a four-byte length, then the bytes.
    Bytes,
    /// A UTF-8 string: a four-byte length, then its bytes.
    Text,
    /// The generic parameter at this position of the enclosing type's list.
    Param(usize),
    /// A variable-length sequence of elements.
    Sequence(Box<TypeExpr>),
    /// An array of a fixed number of elements.
    Fixed(usize, Box<TypeExpr>),
    /// A named type with its type arguments.
    Named(String, Vec<TypeExpr>),
}

/// The generic parameter `p` occurs in `ty`.
pub open spec fn occurs(p: usize, ty: TypeExpr) -> bool
    decreases ty, 0nat,
{
    match ty {
        TypeExpr::Param(q) => q == p,
        TypeExpr::Sequence(e) => occurs(p, *e),
        TypeExpr::Fixed(_, e) => occurs(p, *e),
        TypeExpr::Named(_, args) => occurs_in(p, args, 0),
        _ => false,
    }
}

/// The generic parameter `p` occurs in one of `args[k..]`.
pub open spec fn occurs_in(p: usize, args: Vec<TypeExpr>, k: nat) -> bool
    decreases args, args@.len() - k,
{
    if k >= args@.len() {
        false
    } else {
        occurs(p, args@[k as int]) || occurs_in(p, args, k + 1)
    }
}

/// Marks in `marks` every generic parameter that occurs in `ty`.
pub fn mark_params(ty: &TypeExpr, marks: &mut Vec<bool>)
    ensures
        final(marks)@.len() == old(marks)@.len(),
        forall|p: usize|
            (p as int) < old(marks)@.len() ==> #[trigger] final(marks)@[p as int] == (old(
                marks,
            )@[p as int] || occurs(p, *ty)),
    decreases ty, 0nat,
{
    match ty {
        TypeExpr::Param(q) => {
            if *q < marks.len() {
                marks.set(*q, true);
            }
        },
        TypeExpr::Sequence(e) => mark_params(e, marks),
        TypeExpr::Fixed(_, e) => mark_params(e, marks),
        TypeExpr::Named(_, args) => mark_params_in(args, 0, marks),
        _ => {},
    }
}

fn mark_params_in(args: &Vec<TypeExpr>, k: usize, marks: &mut Vec<bool>)
    requires
        k <= args@.len(),
    ensures
        final(marks)@.len() == old(marks)@.len(),
        forall|p: usize|
            (p as int) < old(marks)@.len() ==> #[trigger] final(marks)@[p as int] == (old(
                marks,
            )@[p as int] || occurs_in(p, *args, k as nat)),
    decreases args, args@.len() - k,
{
    if k < args.len() {
        mark_params(&args[k], marks);
        mark_params_in(args, k + 1, marks);
    }
}

/// A capability that a codec may need of a generic parameter.
#[derive(Debug, Clone, Copy, PartialEq, Eq, Structural)]
pub enum Capability {
    Encode,
    Decode,
    DefaultValue,
}

/// One requirement of a bound override: `param` must have `capability`.
#[derive(Debug, Clone, Copy, PartialEq, Eq, Structural)]
pub struct Requirement {
    pub param: usize,
    pub capability: Capability,
}

/// The options of one field, in the order in which they were declared.
#[derive(Debug, PartialEq, Eq)]
pub struct FieldSpec {
    /// `None` for a positional field.
    pub name: Option<String>,
    pub ty: TypeExpr,
    /// The field is absent from the wire; decoding fills in its default.
    pub skipped: bool,
    /// A custom procedure that encodes the field.
    pub serialize_with: Option<String>,
    /// A custom procedure that decodes the field.
    pub deserialize_with: Option<String>,
    /// Replaces the requirements inferred for encoding.
    pub bound_serialize: Option<Vec<Requirement>>,
    /// Replaces the requirements inferred for decoding.
    pub bound_deserialize: Option<Vec<Requirement>>,
    /// Replaces the schema inferred for the field's type.
    pub schema_with: Option<SchemaOverride>,
}

/// Custom schema procedures for a field: one gives the declaration that the
/// field refers to, the other registers whatever definitions it needs.
#[derive(Debug, Clone, PartialEq, Eq)]
pub struct SchemaOverride {
    pub declaration: String,
    pub definitions: String,
}

/// An explicit discriminant of a variant.
#[derive(Debug, Clone, Copy, PartialEq, Eq, Structural)]
pub enum DiscriminantExpr {
    /// An integer literal.
    Literal(i128),
    /// Anything else: a constant, a call, arithmetic on names.
    Computed,
}

/// The fields of a struct, union or variant.
#[derive(Debug, PartialEq, Eq)]
pub enum Fields {
    Named(Vec<FieldSpec>),
    Unnamed(Vec<FieldSpec>),
    Unit,
}

/// One variant of a sum, in declaration order.
#[derive(Debug, PartialEq, Eq)]
pub struct VariantSpec {
    pub name: String,
    pub discriminant: Option<DiscriminantExpr>,
    pub fields: Fields,
}

/// The field list of a struct, union or variant.
pub open spec fn fields_of(f: Fields) -> Seq<FieldSpec> {
    match f {
        Fields::Named(v) => v@,
        Fields::Unnamed(v) => v@,
        Fields::Unit => Seq::empty(),
    }
}

/// A struct: a record (named fields), a tuple (positional fields) or a unit.
#[derive(Debug, PartialEq, Eq)]
pub struct StructDefinition {
    pub name: String,
    pub generics: Vec<String>,
    pub attrs: Vec<crate::attrs::Attribute>,
    pub fields: Fields,
}

/// An overlay: the fields share their storage and carry no tag.
#[derive(Debug, PartialEq, Eq)]
pub struct UnionDefinition {
    pub name: String,
    pub generics: Vec<String>,
    pub attrs: Vec<crate::attrs::Attribute>,
    pub fields: Vec<FieldSpec>,
}

/// A tagged sum.
#[derive(Debug, PartialEq, Eq)]
pub struct EnumDefinition {
    pub name: String,
    pub generics: Vec<String>,
    pub attrs: Vec<crate::attrs::Attribute>,
    pub variants: Vec<VariantSpec>,
    /// `None` when the type does not say; `Some(true)` when the declared
    /// discriminants are the wire tags; `Some(false)` for declaration order.
    pub use_discriminant: Option<bool>,
}

/// A type whose codec is to be planned.
#[derive(Debug, PartialEq, Eq)]
pub enum TypeDefinition {
    Struct(StructDefinition),
    Enum(EnumDefinition),
    Union(UnionDefinition),
}

} // verus!

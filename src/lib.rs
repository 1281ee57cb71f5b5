//! Planning and runtime support for a canonical, byte-exact binary encoding of
//! records, tuples, overlays and tagged sums.
//!
//! A type is described by a [`TypeDefinition`]. The planning stage resolves the
//! wire tag of every variant, decides per field whether it takes part in the
//! encoding and which capabilities it asks of the type's generic parameters,
//! and rejects inconsistent configurations. The runtime codec encodes and
//! decodes dynamic values against such a plan, and the schema registry records
//! the shape of a type and of everything reachable from it.

mod attrs;
mod codec;
mod discriminant;
mod error;
mod items;
mod plan;
mod schema;
mod types;
mod wire;

pub use attrs::{contains_initialize_with, contains_skip, Attribute, Meta};
pub use codec::{
    decode_overlay, decode_product, decode_sum, default_value, encode_overlay, encode_product,
    encode_sum, DecodeError, EncodeError, SumValue,
};
pub use discriminant::{resolve_tags, DiscriminantMode};
pub use error::ConfigError;
pub use items::{
    borsh_deserialize, borsh_serialize, enum_de, enum_ser, struct_de, struct_ser, union_de,
    union_ser, CodecPlan, ProductPlan, SumPlan, VariantPlan,
};
pub use plan::{add_bounds, empty_caps, plan_fields, BoundSet, Caps, Direction, FieldPlan};
pub use schema::{
    add_definitions, borsh_schema, declaration_of, definition_node, Entry, FieldSchema, Registry, SchemaError,
    SchemaNode, VariantSchema,
};
pub use types::{
    mark_params, Capability, DiscriminantExpr, EnumDefinition, FieldSpec, Fields, Requirement,
    SchemaOverride,
    ScalarKind, StructDefinition, TypeDefinition, TypeExpr, UnionDefinition, VariantSpec,
};
pub use wire::{decode_value, encode_value, Value, Wire, WireError};

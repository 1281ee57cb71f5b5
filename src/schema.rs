use vstd::prelude::*;

use crate::discriminant::{mode_of_flag, resolution, resolve_tags, DiscriminantMode};
use crate::error::ConfigError;
use crate::items::opt_view;
use crate::plan::conflicting;
use crate::types::{
    fields_of, FieldSpec, Fields, ScalarKind, StructDefinition, TypeDefinition, TypeExpr,
    VariantSpec,
};

verus! {

/// The texts of a list of strings.
pub open spec fn texts(v: Seq<String>) -> Seq<Seq<char>> {
    v.map_values(|s: String| s@)
}

pub open spec fn scalar_name(k: ScalarKind) -> Seq<char> {
    match k {
        ScalarKind::U8 => "u8"@,
        ScalarKind::U16 => "u16"@,
        ScalarKind::U32 => "u32"@,
        ScalarKind::U64 => "u64"@,
        ScalarKind::U128 => "u128"@,
        ScalarKind::I8 => "i8"@,
        ScalarKind::I16 => "i16"@,
        ScalarKind::I32 => "i32"@,
        ScalarKind::I64 => "i64"@,
        ScalarKind::I128 => "i128"@,
        ScalarKind::F32 => "f32"@,
        ScalarKind::F64 => "f64"@,
        ScalarKind::Bool => "bool"@,
    }
}

pub open spec fn digit(d: nat) -> Seq<char> {
    if d == 0 {
        "0"@
    } else if d == 1 {
        "1"@
    } else if d == 2 {
        "2"@
    } else if d == 3 {
        "3"@
    } else if d == 4 {
        "4"@
    } else if d == 5 {
        "5"@
    } else if d == 6 {
        "6"@
    } else if d == 7 {
        "7"@
    } else if d == 8 {
        "8"@
    } else {
        "9"@
    }
}

/// `n` in decimal digits.
pub open spec fn decimal(n: nat) -> Seq<char>
    decreases n,
{
    if n < 10 {
        digit(n)
    } else {
        decimal(n / 10) + digit(n % 10)
    }
}

/// The canonical declaration of `ty`, where generic parameter `p` stands for
/// `ctx[p]`: `u32`, `Vec<u8>` for bytes, `Vec<T>`, `[T; 4]`, `Name` or
/// `Name<A, B>`.
pub open spec fn declaration(ty: TypeExpr, ctx: Seq<Seq<char>>) -> Seq<char>
    decreases ty, 0nat,
{
    match ty {
        TypeExpr::Scalar(k) => scalar_name(k),
        TypeExpr::Bytes => "Vec<u8>"@,
        TypeExpr::Text => "String"@,
        TypeExpr::Param(p) => if p < ctx.len() {
            ctx[p as int]
        } else {
            Seq::empty()
        },
        TypeExpr::Sequence(e) => "Vec<"@ + declaration(*e, ctx) + ">"@,
        TypeExpr::Fixed(n, e) => "["@ + declaration(*e, ctx) + "; "@ + decimal(n as nat) + "]"@,
        TypeExpr::Named(name, args) => if args@.len() == 0 {
            name@
        } else {
            name@ + "<"@ + declaration_list(args, ctx, 0) + ">"@
        },
    }
}

/// The declarations of `args[k..]`, separated by `, `.
pub open spec fn declaration_list(args: Vec<TypeExpr>, ctx: Seq<Seq<char>>, k: nat) -> Seq<char>
    decreases args, args@.len() - k,
{
    if k >= args@.len() {
        Seq::empty()
    } else if k + 1 == args@.len() {
        declaration(args@[k as int], ctx)
    } else {
        declaration(args@[k as int], ctx) + ", "@ + declaration_list(args, ctx, k + 1)
    }
}

fn digit_text(d: usize) -> (r: &'static str)
    requires
        d < 10,
    ensures
        r@ == digit(d as nat),
{
    match d {
        0 => "0",
        1 => "1",
        2 => "2",
        3 => "3",
        4 => "4",
        5 => "5",
        6 => "6",
        7 => "7",
        8 => "8",
        _ => "9",
    }
}

fn decimal_text(n: usize) -> (r: String)
    ensures
        r@ == decimal(n as nat),
    decreases n,
{
    if n < 10 {
        let mut s = String::new();
        s.append(digit_text(n));
        assert(s@ =~= decimal(n as nat));
        s
    } else {
        let mut s = decimal_text(n / 10);
        s.append(digit_text(n % 10));
        s
    }
}

fn scalar_text(k: ScalarKind) -> (r: &'static str)
    ensures
        r@ == scalar_name(k),
{
    match k {
        ScalarKind::U8 => "u8",
        ScalarKind::U16 => "u16",
        ScalarKind::U32 => "u32",
        ScalarKind::U64 => "u64",
        ScalarKind::U128 => "u128",
        ScalarKind::I8 => "i8",
        ScalarKind::I16 => "i16",
        ScalarKind::I32 => "i32",
        ScalarKind::I64 => "i64",
        ScalarKind::I128 => "i128",
        ScalarKind::F32 => "f32",
        ScalarKind::F64 => "f64",
        ScalarKind::Bool => "bool",
    }
}

/// The canonical declaration of `ty`, where generic parameter `p` stands for
/// `ctx[p]`.
pub fn declaration_of(ty: &TypeExpr, ctx: &Vec<String>) -> (r: String)
    ensures
        r@ == declaration(*ty, texts(ctx@)),
    decreases ty, 0nat,
{
    let mut s = String::new();
    match ty {
        TypeExpr::Scalar(k) => {
            s.append(scalar_text(*k));
        },
        TypeExpr::Bytes => {
            s.append("Vec<u8>");
        },
        TypeExpr::Text => {
            s.append("String");
        },
        TypeExpr::Param(p) => {
            if *p < ctx.len() {
                s.append(ctx[*p].as_str());
            }
        },
        TypeExpr::Sequence(e) => {
            s.append("Vec<");
            let inner = declaration_of(e, ctx);
            s.append(inner.as_str());
            s.append(">");
        },
        TypeExpr::Fixed(n, e) => {
            s.append("[");
            let inner = declaration_of(e, ctx);
            s.append(inner.as_str());
            s.append("; ");
            let len = decimal_text(*n);
            s.append(len.as_str());
            s.append("]");
        },
        TypeExpr::Named(name, args) => {
            s.append(name.as_str());
            if args.len() > 0 {
                s.append("<");
                let inner = declaration_list_of(args, ctx, 0);
                s.append(inner.as_str());
                s.append(">");
            }
        },
    }
    proof {
        assert(s@ =~= declaration(*ty, texts(ctx@)));
    }
    s
}

fn declaration_list_of(args: &Vec<TypeExpr>, ctx: &Vec<String>, k: usize) -> (r: String)
    requires
        k <= args@.len(),
    ensures
        r@ == declaration_list(*args, texts(ctx@), k as nat),
    decreases args, args@.len() - k,
{
    let mut s = String::new();
    if k < args.len() {
        let first = declaration_of(&args[k], ctx);
        s.append(first.as_str());
        if k + 1 < args.len() {
            s.append(", ");
            let rest = declaration_list_of(args, ctx, k + 1);
            s.append(rest.as_str());
        }
    }
    proof {
        assert(s@ =~= declaration_list(*args, texts(ctx@), k as nat));
    }
    s
}

/// A field of a struct or variant in a schema: its name (none for a
/// positional field) and what it refers to. That is the declaration of its
/// type, the key of that type's entry; or, for a field with a schema
/// override, the override's declaration procedure, with `definitions` the
/// override's procedure that registers what the field needs.
#[derive(Debug, Clone, PartialEq, Eq)]
pub struct FieldSchema {
    pub name: Option<String>,
    pub declaration: String,
    pub definitions: Option<String>,
}

/// A variant of a sum in a schema.
#[derive(Debug, Clone, PartialEq, Eq)]
pub struct VariantSchema {
    pub name: String,
    pub tag: u8,
    pub fields: Vec<FieldSchema>,
}

/// The shape of one type. Other types are named by their declarations.
#[derive(Debug, Clone, PartialEq, Eq)]
pub enum SchemaNode {
    Primitive,
    Sequence { element: String },
    Fixed { length: usize, element: String },
    Struct { fields: Vec<FieldSchema> },
    Enum { variants: Vec<VariantSchema> },
}

/// One entry of a registry: a declaration and the shape it names.
#[derive(Debug, Clone, PartialEq, Eq)]
pub struct Entry {
    pub key: String,
    pub node: SchemaNode,
}

/// Why a schema could not be built.
#[derive(Debug, Clone, PartialEq, Eq)]
pub enum SchemaError {
    /// No definition has this name.
    UnknownType { name: String },
    /// A named type has not as many arguments as its definition has generic
    /// parameters, or a generic parameter is out of range.
    Malformed,
    /// The types nest deeper than the configured maximum.
    TooDeep,
    /// The tags of a sum could not be resolved, or a field has conflicting
    /// options.
    Config(ConfigError),
    /// An overlay has no schema: which field a value holds is not part of
    /// its type.
    UnionUnsupported,
}

pub type FieldModel = (Option<Seq<char>>, Seq<char>, Option<Seq<char>>);

/// The mathematical content of a [`SchemaNode`].
pub enum NodeModel {
    Primitive,
    Sequence(Seq<char>),
    Fixed(nat, Seq<char>),
    Struct(Seq<FieldModel>),
    Enum(Seq<(Seq<char>, u8, Seq<FieldModel>)>),
}

pub type Entries = Seq<(Seq<char>, NodeModel)>;

pub open spec fn field_model(f: FieldSchema) -> FieldModel {
    (opt_view(f.name), f.declaration@, opt_view(f.definitions))
}

pub open spec fn variant_model(v: VariantSchema) -> (Seq<char>, u8, Seq<FieldModel>) {
    (v.name@, v.tag, v.fields@.map_values(|f: FieldSchema| field_model(f)))
}

pub open spec fn node_model(n: SchemaNode) -> NodeModel {
    match n {
        SchemaNode::Primitive => NodeModel::Primitive,
        SchemaNode::Sequence { element } => NodeModel::Sequence(element@),
        SchemaNode::Fixed { length, element } => NodeModel::Fixed(length as nat, element@),
        SchemaNode::Struct { fields } => NodeModel::Struct(
            fields@.map_values(|f: FieldSchema| field_model(f)),
        ),
        SchemaNode::Enum { variants } => NodeModel::Enum(
            variants@.map_values(|v: VariantSchema| variant_model(v)),
        ),
    }
}

/// Some entry has the key `k`.
pub open spec fn has_key(reg: Entries, k: Seq<char>) -> bool {
    exists|i: int| 0 <= i < reg.len() && (#[trigger] reg[i]).0 == k
}

/// No two entries share a key.
pub open spec fn keys_unique(reg: Entries) -> bool {
    forall|i: int, j: int| 0 <= i < reg.len() && 0 <= j < reg.len() && i != j ==> reg[i].0 != reg[j].0
}

pub open spec fn def_name(d: TypeDefinition) -> Seq<char> {
    match d {
        TypeDefinition::Struct(s) => s.name@,
        TypeDefinition::Enum(e) => e.name@,
        TypeDefinition::Union(u) => u.name@,
    }
}

pub open spec fn def_arity(d: TypeDefinition) -> nat {
    match d {
        TypeDefinition::Struct(s) => s.generics@.len(),
        TypeDefinition::Enum(e) => e.generics@.len(),
        TypeDefinition::Union(u) => u.generics@.len(),
    }
}

/// The first definition from `from` on that has this name.
pub open spec fn find_def(env: Seq<TypeDefinition>, name: Seq<char>, from: nat) -> Option<nat>
    decreases env.len() - from,
{
    if from >= env.len() {
        None
    } else if def_name(env[from as int]) == name {
        Some(from)
    } else {
        find_def(env, name, from + 1)
    }
}

/// What a field refers to in a schema.
pub open spec fn field_entry(f: FieldSpec, ctx: Seq<Seq<char>>) -> FieldModel {
    match f.schema_with {
        Some(o) => (opt_view(f.name), o.declaration@, Some(o.definitions@)),
        None => (opt_view(f.name), declaration(f.ty, ctx), None),
    }
}

/// The schema fields of the first `n` fields: skipped ones are left out.
pub open spec fn fields_model(fields: Seq<FieldSpec>, ctx: Seq<Seq<char>>, n: nat) -> Seq<
    FieldModel,
>
    decreases n,
{
    if n == 0 {
        Seq::empty()
    } else {
        let prev = fields_model(fields, ctx, (n - 1) as nat);
        if fields[n - 1].skipped {
            prev
        } else {
            prev.push(field_entry(fields[n - 1], ctx))
        }
    }
}

pub open spec fn schema_fields(fields: Seq<FieldSpec>, ctx: Seq<Seq<char>>) -> Seq<FieldModel> {
    fields_model(fields, ctx, fields.len())
}

/// The first conflicting field from `k` on.
pub open spec fn conflict_from(fields: Seq<FieldSpec>, k: nat) -> Option<nat>
    decreases fields.len() - k,
{
    if k >= fields.len() {
        None
    } else if conflicting(fields[k as int]) {
        Some(k)
    } else {
        conflict_from(fields, k + 1)
    }
}

/// The first variant from `k` on with a conflicting field, and that field.
pub open spec fn variant_conflict_from(vs: Seq<VariantSpec>, k: nat) -> Option<(nat, nat)>
    decreases vs.len() - k,
{
    if k >= vs.len() {
        None
    } else {
        match conflict_from(fields_of(vs[k as int].fields), 0) {
            Some(i) => Some((k, i)),
            None => variant_conflict_from(vs, k + 1),
        }
    }
}

/// The shape that a definition describes, with its generic parameters
/// standing for `ctx`.
pub open spec fn def_node(d: TypeDefinition, ctx: Seq<Seq<char>>) -> Result<NodeModel, SchemaError> {
    match d {
        TypeDefinition::Struct(s) => match conflict_from(fields_of(s.fields), 0) {
            Some(i) => Err(
                SchemaError::Config(
                    ConfigError::ConflictingFieldOptions { in_variant: None, field: i as usize },
                ),
            ),
            None => Ok(NodeModel::Struct(schema_fields(fields_of(s.fields), ctx))),
        },
        TypeDefinition::Union(_) => Err(SchemaError::UnionUnsupported),
        TypeDefinition::Enum(e) => match resolution(e.variants@, mode_of_flag(e.use_discriminant)) {
            Err(c) => Err(SchemaError::Config(c)),
            Ok(tags) => match variant_conflict_from(e.variants@, 0) {
                Some((vi, i)) => Err(
                    SchemaError::Config(
                        ConfigError::ConflictingFieldOptions {
                            in_variant: Some(vi as usize),
                            field: i as usize,
                        },
                    ),
                ),
                None => Ok(
                    NodeModel::Enum(
                        Seq::new(
                            e.variants@.len(),
                            |i: int|
                                (
                                    e.variants@[i].name@,
                                    tags[i],
                                    schema_fields(fields_of(e.variants@[i].fields), ctx),
                                ),
                        ),
                    ),
                ),
            },
        },
    }
}

pub open spec fn arg_texts(args: Seq<TypeExpr>, ctx: Seq<Seq<char>>) -> Seq<Seq<char>> {
    Seq::new(args.len(), |i: int| declaration(args[i], ctx))
}

/// Registering `ty` (generic parameter `p` standing for `ctx[p]`) and every
/// shape reachable from it, nesting at most `depth` deep. A shape whose key
/// is already there is not visited again; a field with a schema override is
/// not visited at all.
pub open spec fn build(
    env: Seq<TypeDefinition>,
    ty: TypeExpr,
    ctx: Seq<Seq<char>>,
    reg: Entries,
    depth: nat,
) -> Result<Entries, SchemaError>
    decreases depth, 0nat, 0nat,
{
    if depth == 0 {
        Err(SchemaError::TooDeep)
    } else {
        match ty {
            TypeExpr::Param(p) => if p < ctx.len() {
                Ok(reg)
            } else {
                Err(SchemaError::Malformed)
            },
            _ => {
                let key = declaration(ty, ctx);
                if has_key(reg, key) {
                    Ok(reg)
                } else {
                    match ty {
                        TypeExpr::Sequence(e) => build(
                            env,
                            *e,
                            ctx,
                            reg.push((key, NodeModel::Sequence(declaration(*e, ctx)))),
                            (depth - 1) as nat,
                        ),
                        TypeExpr::Fixed(n, e) => build(
                            env,
                            *e,
                            ctx,
                            reg.push((key, NodeModel::Fixed(n as nat, declaration(*e, ctx)))),
                            (depth - 1) as nat,
                        ),
                        TypeExpr::Named(name, args) => match find_def(env, name@, 0) {
                            None => Err(SchemaError::UnknownType { name }),
                            Some(i) => if def_arity(env[i as int]) != args@.len() {
                                Err(SchemaError::Malformed)
                            } else {
                                let child = arg_texts(args@, ctx);
                                match def_node(env[i as int], child) {
                                    Err(e) => Err(e),
                                    Ok(node) => match build_list(
                                        env,
                                        args,
                                        0,
                                        ctx,
                                        reg.push((key, node)),
                                        (depth - 1) as nat,
                                    ) {
                                        Err(e) => Err(e),
                                        Ok(r) => build_def(env, env[i as int], child, r, (depth - 1) as nat),
                                    },
                                }
                            },
                        },
                        _ => Ok(reg.push((key, NodeModel::Primitive))),
                    }
                }
            },
        }
    }
}

/// Registering `args[k..]` in turn.
pub open spec fn build_list(
    env: Seq<TypeDefinition>,
    args: Vec<TypeExpr>,
    k: nat,
    ctx: Seq<Seq<char>>,
    reg: Entries,
    depth: nat,
) -> Result<Entries, SchemaError>
    decreases depth, 1nat, args@.len() - k,
{
    if k >= args@.len() {
        Ok(reg)
    } else {
        match build(env, args@[k as int], ctx, reg, depth) {
            Err(e) => Err(e),
            Ok(r) => build_list(env, args, k + 1, ctx, r, depth),
        }
    }
}

/// Registering the types of `fields[k..]` in turn, but those with a schema
/// override.
pub open spec fn build_fields(
    env: Seq<TypeDefinition>,
    fields: Seq<FieldSpec>,
    k: nat,
    ctx: Seq<Seq<char>>,
    reg: Entries,
    depth: nat,
) -> Result<Entries, SchemaError>
    decreases depth, 1nat, fields.len() - k,
{
    if k >= fields.len() {
        Ok(reg)
    } else if fields[k as int].skipped || fields[k as int].schema_with is Some {
        build_fields(env, fields, k + 1, ctx, reg, depth)
    } else {
        match build(env, fields[k as int].ty, ctx, reg, depth) {
            Err(e) => Err(e),
            Ok(r) => build_fields(env, fields, k + 1, ctx, r, depth),
        }
    }
}

/// Registering the field types of `vs[k..]` in turn.
pub open spec fn build_variants(
    env: Seq<TypeDefinition>,
    vs: Seq<VariantSpec>,
    k: nat,
    ctx: Seq<Seq<char>>,
    reg: Entries,
    depth: nat,
) -> Result<Entries, SchemaError>
    decreases depth, 2nat, vs.len() - k,
{
    if k >= vs.len() {
        Ok(reg)
    } else {
        match build_fields(env, fields_of(vs[k as int].fields), 0, ctx, reg, depth) {
            Err(e) => Err(e),
            Ok(r) => build_variants(env, vs, k + 1, ctx, r, depth),
        }
    }
}

/// Registering the field types of a definition.
pub open spec fn build_def(
    env: Seq<TypeDefinition>,
    d: TypeDefinition,
    ctx: Seq<Seq<char>>,
    reg: Entries,
    depth: nat,
) -> Result<Entries, SchemaError>
    decreases depth, 3nat, 0nat,
{
    match d {
        TypeDefinition::Struct(s) => build_fields(env, fields_of(s.fields), 0, ctx, reg, depth),
        TypeDefinition::Union(u) => build_fields(env, u.fields@, 0, ctx, reg, depth),
        TypeDefinition::Enum(e) => build_variants(env, e.variants@, 0, ctx, reg, depth),
    }
}

/// `b` keeps the entries of `a`, in order, and adds entries with new keys
/// only.
pub open spec fn grows(a: Entries, b: Entries) -> bool {
    &&& a.is_prefix_of(b)
    &&& keys_unique(a) ==> keys_unique(b)
}

proof fn lemma_grows_trans(a: Entries, b: Entries, c: Entries)
    requires
        grows(a, b),
        grows(b, c),
    ensures
        grows(a, c),
{
    assert(c.subrange(0, a.len() as int) =~= b.subrange(0, a.len() as int));
}

proof fn lemma_grows_push(a: Entries, key: Seq<char>, node: NodeModel)
    requires
        !has_key(a, key),
    ensures
        grows(a, a.push((key, node))),
{
    let b = a.push((key, node));
    assert(b.subrange(0, a.len() as int) =~= a);
    if keys_unique(a) {
        assert forall|i: int, j: int| 0 <= i < b.len() && 0 <= j < b.len() && i != j implies b[i].0 != b[j].0 by {
            if i == a.len() as int {
                assert(a[j] == b[j]);
            } else if j == a.len() as int {
                assert(a[i] == b[i]);
            }
        }
    }
}

proof fn lemma_grows_refl(a: Entries)
    ensures
        grows(a, a),
{
    assert(a.subrange(0, a.len() as int) =~= a);
}

/// Building only appends entries under new keys.
pub proof fn lemma_build_grows(env: Seq<TypeDefinition>, ty: TypeExpr, ctx: Seq<Seq<char>>, reg: Entries, depth: nat)
    requires
        build(env, ty, ctx, reg, depth) is Ok,
    ensures
        grows(reg, build(env, ty, ctx, reg, depth)->Ok_0),
    decreases depth, 0nat, 0nat,
{
    lemma_grows_refl(reg);
    if depth > 0 && !(ty is Param) {
        let key = declaration(ty, ctx);
        if !has_key(reg, key) {
            let d = (depth - 1) as nat;
            match ty {
                TypeExpr::Sequence(e) => {
                    let r1 = reg.push((key, NodeModel::Sequence(declaration(*e, ctx))));
                    lemma_grows_push(reg, key, NodeModel::Sequence(declaration(*e, ctx)));
                    lemma_build_grows(env, *e, ctx, r1, d);
                    lemma_grows_trans(reg, r1, build(env, *e, ctx, r1, d)->Ok_0);
                },
                TypeExpr::Fixed(n, e) => {
                    let r1 = reg.push((key, NodeModel::Fixed(n as nat, declaration(*e, ctx))));
                    lemma_grows_push(reg, key, NodeModel::Fixed(n as nat, declaration(*e, ctx)));
                    lemma_build_grows(env, *e, ctx, r1, d);
                    lemma_grows_trans(reg, r1, build(env, *e, ctx, r1, d)->Ok_0);
                },
                TypeExpr::Named(name, args) => {
                    let i = find_def(env, name@, 0)->Some_0;
                    let child = arg_texts(args@, ctx);
                    let node = def_node(env[i as int], child)->Ok_0;
                    let r1 = reg.push((key, node));
                    lemma_grows_push(reg, key, node);
                    lemma_build_list_grows(env, args, 0, ctx, r1, d);
                    let r2 = build_list(env, args, 0, ctx, r1, d)->Ok_0;
                    lemma_grows_trans(reg, r1, r2);
                    lemma_build_def_grows(env, env[i as int], child, r2, d);
                    lemma_grows_trans(reg, r2, build_def(env, env[i as int], child, r2, d)->Ok_0);
                },
                _ => {
                    lemma_grows_push(reg, key, NodeModel::Primitive);
                },
            }
        }
    }
}

proof fn lemma_build_list_grows(
    env: Seq<TypeDefinition>,
    args: Vec<TypeExpr>,
    k: nat,
    ctx: Seq<Seq<char>>,
    reg: Entries,
    depth: nat,
)
    requires
        build_list(env, args, k, ctx, reg, depth) is Ok,
    ensures
        grows(reg, build_list(env, args, k, ctx, reg, depth)->Ok_0),
    decreases depth, 1nat, args@.len() - k,
{
    lemma_grows_refl(reg);
    if k < args@.len() {
        lemma_build_grows(env, args@[k as int], ctx, reg, depth);
        let r1 = build(env, args@[k as int], ctx, reg, depth)->Ok_0;
        lemma_build_list_grows(env, args, k + 1, ctx, r1, depth);
        lemma_grows_trans(reg, r1, build_list(env, args, k + 1, ctx, r1, depth)->Ok_0);
    }
}

proof fn lemma_build_fields_grows(
    env: Seq<TypeDefinition>,
    fields: Seq<FieldSpec>,
    k: nat,
    ctx: Seq<Seq<char>>,
    reg: Entries,
    depth: nat,
)
    requires
        build_fields(env, fields, k, ctx, reg, depth) is Ok,
    ensures
        grows(reg, build_fields(env, fields, k, ctx, reg, depth)->Ok_0),
    decreases depth, 1nat, fields.len() - k,
{
    lemma_grows_refl(reg);
    if k < fields.len() {
        if fields[k as int].skipped || fields[k as int].schema_with is Some {
            lemma_build_fields_grows(env, fields, k + 1, ctx, reg, depth);
        } else {
            lemma_build_grows(env, fields[k as int].ty, ctx, reg, depth);
            let r1 = build(env, fields[k as int].ty, ctx, reg, depth)->Ok_0;
            lemma_build_fields_grows(env, fields, k + 1, ctx, r1, depth);
            lemma_grows_trans(reg, r1, build_fields(env, fields, k + 1, ctx, r1, depth)->Ok_0);
        }
    }
}

proof fn lemma_build_variants_grows(
    env: Seq<TypeDefinition>,
    vs: Seq<VariantSpec>,
    k: nat,
    ctx: Seq<Seq<char>>,
    reg: Entries,
    depth: nat,
)
    requires
        build_variants(env, vs, k, ctx, reg, depth) is Ok,
    ensures
        grows(reg, build_variants(env, vs, k, ctx, reg, depth)->Ok_0),
    decreases depth, 2nat, vs.len() - k,
{
    lemma_grows_refl(reg);
    if k < vs.len() {
        lemma_build_fields_grows(env, fields_of(vs[k as int].fields), 0, ctx, reg, depth);
        let r1 = build_fields(env, fields_of(vs[k as int].fields), 0, ctx, reg, depth)->Ok_0;
        lemma_build_variants_grows(env, vs, k + 1, ctx, r1, depth);
        lemma_grows_trans(reg, r1, build_variants(env, vs, k + 1, ctx, r1, depth)->Ok_0);
    }
}

proof fn lemma_build_def_grows(
    env: Seq<TypeDefinition>,
    d: TypeDefinition,
    ctx: Seq<Seq<char>>,
    reg: Entries,
    depth: nat,
)
    requires
        build_def(env, d, ctx, reg, depth) is Ok,
    ensures
        grows(reg, build_def(env, d, ctx, reg, depth)->Ok_0),
    decreases depth, 3nat, 0nat,
{
    match d {
        TypeDefinition::Struct(s) => lemma_build_fields_grows(env, fields_of(s.fields), 0, ctx, reg, depth),
        TypeDefinition::Union(u) => lemma_build_fields_grows(env, u.fields@, 0, ctx, reg, depth),
        TypeDefinition::Enum(e) => lemma_build_variants_grows(env, e.variants@, 0, ctx, reg, depth),
    }
}

/// A field type of a record named `name` that is a primitive or a sequence
/// of the record itself.
pub open spec fn primitive_or_self(ty: TypeExpr, name: Seq<char>) -> bool {
    match ty {
        TypeExpr::Scalar(_) => true,
        TypeExpr::Bytes => true,
        TypeExpr::Sequence(e) => match *e {
            TypeExpr::Named(n, args) => n@ == name && args@.len() == 0,
            _ => false,
        },
        _ => false,
    }
}

/// The declaration of a sequence of `name`.
pub open spec fn sequence_key(name: Seq<char>) -> Seq<char> {
    "Vec<"@ + name + ">"@
}

/// The registry so far for a self-referential record `name` with shape
/// `node`: the record's entry first and only there, and every entry for a
/// sequence of the record pointing back at the record's key.
pub open spec fn self_registry(reg: Entries, name: Seq<char>, node: NodeModel) -> bool {
    &&& reg.len() > 0
    &&& reg[0] == (name, node)
    &&& keys_unique(reg)
    &&& forall|j: int| 0 <= j < reg.len() && (#[trigger] reg[j]).0 == sequence_key(name) ==> reg[j].1
        == NodeModel::Sequence(name)
}

proof fn lemma_scalar_key_not_sequence(k: ScalarKind, name: Seq<char>)
    ensures
        scalar_name(k) != sequence_key(name),
{
    reveal_strlit("Vec<");
    reveal_strlit(">");
    reveal_strlit("u8");
    reveal_strlit("u16");
    reveal_strlit("u32");
    reveal_strlit("u64");
    reveal_strlit("u128");
    reveal_strlit("i8");
    reveal_strlit("i16");
    reveal_strlit("i32");
    reveal_strlit("i64");
    reveal_strlit("i128");
    reveal_strlit("f32");
    reveal_strlit("f64");
    reveal_strlit("bool");
    let key = sequence_key(name);
    assert(key[0] == 'V');
    assert(scalar_name(k)[0] != 'V');
}

proof fn lemma_bytes_key_not_sequence(name: Seq<char>)
    requires
        name != "u8"@,
    ensures
        "Vec<u8>"@ != sequence_key(name),
{
    reveal_strlit("Vec<");
    reveal_strlit(">");
    reveal_strlit("u8");
    reveal_strlit("Vec<u8>");
    let key = sequence_key(name);
    assert(key.len() == name.len() + 5);
    if "Vec<u8>"@ == key {
        assert(name.len() == 2);
        assert(name[0] == key[4]);
        assert(name[1] == key[5]);
        assert(name =~= "u8"@);
    }
}

proof fn lemma_no_conflict(fields: Seq<FieldSpec>, k: nat)
    requires
        forall|i: int| 0 <= i < fields.len() ==> !conflicting(#[trigger] fields[i]),
    ensures
        conflict_from(fields, k) is None,
    decreases fields.len() - k,
{
    if k < fields.len() {
        lemma_no_conflict(fields, k + 1);
    }
}

proof fn lemma_fields_model_contains(fields: Seq<FieldSpec>, ctx: Seq<Seq<char>>, n: nat, i: int)
    requires
        0 <= i < n <= fields.len(),
        !fields[i].skipped,
    ensures
        fields_model(fields, ctx, n).contains(field_entry(fields[i], ctx)),
    decreases n,
{
    let prev = fields_model(fields, ctx, (n - 1) as nat);
    if i < n - 1 {
        lemma_fields_model_contains(fields, ctx, (n - 1) as nat, i);
        let j = choose|j: int| 0 <= j < prev.len() && prev[j] == field_entry(fields[i], ctx);
        if !fields[n - 1].skipped {
            assert(prev.push(field_entry(fields[n - 1], ctx))[j] == prev[j]);
        }
    } else {
        assert(prev.push(field_entry(fields[i], ctx))[prev.len() as int] == field_entry(fields[i], ctx));
    }
}

proof fn lemma_self_fields(
    env: Seq<TypeDefinition>,
    fields: Seq<FieldSpec>,
    k: nat,
    reg: Entries,
    name: Seq<char>,
    node: NodeModel,
    depth: nat,
)
    requires
        k <= fields.len(),
        depth >= 2,
        name != "u8"@,
        self_registry(reg, name, node),
        forall|i: int| 0 <= i < fields.len() ==> primitive_or_self((#[trigger] fields[i]).ty, name),
    ensures
        build_fields(env, fields, k, Seq::empty(), reg, depth) is Ok,
        self_registry(build_fields(env, fields, k, Seq::empty(), reg, depth)->Ok_0, name, node),
        forall|i: int|
            k <= i < fields.len() && (#[trigger] fields[i]).ty is Sequence && !fields[i].skipped
                && fields[i].schema_with is None ==> has_key(build_fields(env, fields, k, Seq::empty(), reg, depth)->Ok_0, sequence_key(name)),
        has_key(reg, sequence_key(name)) ==> has_key(
            build_fields(env, fields, k, Seq::empty(), reg, depth)->Ok_0,
            sequence_key(name),
        ),
    decreases fields.len() - k,
{
    let ctx = Seq::<Seq<char>>::empty();
    let skey = sequence_key(name);
    if k < fields.len() {
        let f = fields[k as int];
        if f.skipped || f.schema_with is Some {
            lemma_self_fields(env, fields, k + 1, reg, name, node, depth);
        } else {
            let key = declaration(f.ty, ctx);
            let next = build(env, f.ty, ctx, reg, depth);
            assert(next is Ok && self_registry(next->Ok_0, name, node) && (f.ty is Sequence ==> has_key(
                next->Ok_0,
                skey,
            )) && (has_key(reg, skey) ==> has_key(next->Ok_0, skey))) by {
                match f.ty {
                    TypeExpr::Sequence(e) => {
                        assert(declaration(*e, ctx) =~= name);
                        assert(key == skey);
                        if !has_key(reg, key) {
                            let r1 = reg.push((key, NodeModel::Sequence(name)));
                            lemma_grows_push(reg, key, NodeModel::Sequence(name));
                            assert(r1[0] == reg[0]);
                            assert(has_key(r1, name)) by {
                                assert(r1[0].0 == name);
                            }
                            assert(build(env, *e, ctx, r1, (depth - 1) as nat) == Ok::<Entries, SchemaError>(r1));
                            assert(next == Ok::<Entries, SchemaError>(r1));
                            assert(r1[reg.len() as int].0 == skey);
                            assert forall|j: int| 0 <= j < r1.len() && (#[trigger] r1[j]).0 == skey implies r1[j].1
                                == NodeModel::Sequence(name) by {
                                if j < reg.len() {
                                    assert(r1[j] == reg[j]);
                                }
                            }
                        }
                    },
                    TypeExpr::Scalar(sk) => {
                        lemma_scalar_key_not_sequence(sk, name);
                        if !has_key(reg, key) {
                            let r1 = reg.push((key, NodeModel::Primitive));
                            lemma_grows_push(reg, key, NodeModel::Primitive);
                            assert(r1[0] == reg[0]);
                            assert forall|j: int| 0 <= j < r1.len() && (#[trigger] r1[j]).0 == skey implies r1[j].1
                                == NodeModel::Sequence(name) by {
                                if j < reg.len() {
                                    assert(r1[j] == reg[j]);
                                }
                            }
                            if has_key(reg, skey) {
                                let j = choose|j: int| 0 <= j < reg.len() && (#[trigger] reg[j]).0 == skey;
                                assert(r1[j] == reg[j]);
                            }
                        }
                    },
                    _ => {
                        lemma_bytes_key_not_sequence(name);
                        if !has_key(reg, key) {
                            let r1 = reg.push((key, NodeModel::Primitive));
                            lemma_grows_push(reg, key, NodeModel::Primitive);
                            assert(r1[0] == reg[0]);
                            assert forall|j: int| 0 <= j < r1.len() && (#[trigger] r1[j]).0 == skey implies r1[j].1
                                == NodeModel::Sequence(name) by {
                                if j < reg.len() {
                                    assert(r1[j] == reg[j]);
                                }
                            }
                            if has_key(reg, skey) {
                                let j = choose|j: int| 0 <= j < reg.len() && (#[trigger] reg[j]).0 == skey;
                                assert(r1[j] == reg[j]);
                            }
                        }
                    },
                }
            }
            lemma_self_fields(env, fields, k + 1, next->Ok_0, name, node, depth);
        }
    }
}

/// A record without conflicting options whose fields are primitives or
/// sequences of the record itself, built from an empty registry at a depth
/// of at least 3: building ends with success; the record has exactly one
/// entry, the first, holding its `Struct` shape; and a field that is a
/// sequence of the record, neither skipped nor overridden, refers to
/// `Vec<Name>`, whose entry points back at the record's own key.
pub proof fn lemma_self_referential_record(s: StructDefinition, root: TypeExpr, depth: nat)
    requires
        s.generics@.len() == 0,
        root matches TypeExpr::Named(n, args) && n@ == s.name@ && args@.len() == 0,
        forall|i: int|
            0 <= i < fields_of(s.fields).len() ==> primitive_or_self(
                (#[trigger] fields_of(s.fields)[i]).ty,
                s.name@,
            ),
        forall|i: int| 0 <= i < fields_of(s.fields).len() ==> !conflicting(#[trigger] fields_of(s.fields)[i]),
        s.name@ != "u8"@,
        depth >= 3,
    ensures
        ({
            let env = seq![TypeDefinition::Struct(s)];
            let r = build(env, root, Seq::empty(), Seq::empty(), depth);
            let node = NodeModel::Struct(schema_fields(fields_of(s.fields), Seq::empty()));
            &&& r is Ok
            &&& r->Ok_0[0] == (s.name@, node)
            &&& forall|j: int| 0 < j < r->Ok_0.len() ==> (#[trigger] r->Ok_0[j]).0 != s.name@
            &&& forall|i: int|
                0 <= i < fields_of(s.fields).len() && (#[trigger] fields_of(s.fields)[i]).ty is Sequence
                    && !fields_of(s.fields)[i].skipped && fields_of(s.fields)[i].schema_with is None
                    ==> schema_fields(fields_of(s.fields), Seq::empty()).contains(
                    (opt_view(fields_of(s.fields)[i].name), sequence_key(s.name@), None::<Seq<char>>),
                )
            &&& forall|i: int|
                0 <= i < fields_of(s.fields).len() && (#[trigger] fields_of(s.fields)[i]).ty is Sequence
                    && !fields_of(s.fields)[i].skipped && fields_of(s.fields)[i].schema_with is None
                    ==> exists|j: int|
                    0 <= j < r->Ok_0.len() && #[trigger] r->Ok_0[j] == (
                        sequence_key(s.name@),
                        NodeModel::Sequence(s.name@),
                    )
        }),
{
    let env = seq![TypeDefinition::Struct(s)];
    let ctx = Seq::<Seq<char>>::empty();
    let name = s.name@;
    let fields = fields_of(s.fields);
    let node = NodeModel::Struct(schema_fields(fields, ctx));
    lemma_no_conflict(fields, 0);
    let args = root->Named_1;
    assert(declaration(root, ctx) == name);
    assert(find_def(env, name, 0) == Some(0nat));
    let child = arg_texts(args@, ctx);
    assert(child =~= ctx);
    assert(def_node(env[0], child) == Ok::<NodeModel, SchemaError>(node));
    let r1 = Seq::<(Seq<char>, NodeModel)>::empty().push((name, node));
    reveal_strlit("Vec<");
    reveal_strlit(">");
    assert(sequence_key(name).len() == name.len() + 5);
    assert(r1[0].0 != sequence_key(name));
    assert(build_list(env, args, 0, ctx, r1, (depth - 1) as nat) == Ok::<Entries, SchemaError>(r1));
    assert(self_registry(r1, name, node));
    lemma_self_fields(env, fields, 0, r1, name, node, (depth - 1) as nat);
    assert(build_def(env, env[0], child, r1, (depth - 1) as nat) == build_fields(env, fields, 0, ctx, r1, (depth - 1) as nat));
    let r = build(env, root, ctx, Seq::empty(), depth)->Ok_0;
    assert(r == build_fields(env, fields, 0, ctx, r1, (depth - 1) as nat)->Ok_0);
    assert forall|i: int|
        0 <= i < fields.len() && (#[trigger] fields[i]).ty is Sequence && !fields[i].skipped
            && fields[i].schema_with is None implies schema_fields(fields, ctx).contains(
        (opt_view(fields[i].name), sequence_key(name), None::<Seq<char>>),
    ) by {
        let e = fields[i].ty->Sequence_0;
        assert(declaration(*e, ctx) =~= name);
        lemma_fields_model_contains(fields, ctx, fields.len(), i);
    }
    assert forall|i: int|
        0 <= i < fields.len() && (#[trigger] fields[i]).ty is Sequence && !fields[i].skipped
            && fields[i].schema_with is None implies exists|j: int|
        0 <= j < r.len() && #[trigger] r[j] == (sequence_key(name), NodeModel::Sequence(name)) by {
        let j = choose|j: int| 0 <= j < r.len() && (#[trigger] r[j]).0 == sequence_key(name);
        assert(r[j] == (sequence_key(name), NodeModel::Sequence(name)));
    }
    assert forall|j: int| 0 < j < r.len() implies (#[trigger] r[j]).0 != name by {
        assert(r[0].0 == name);
    }
}

/// A registry of shapes keyed by declaration, in order of registration; no
/// key appears twice.
#[derive(Debug, Clone, PartialEq, Eq)]
pub struct Registry {
    entries: Vec<Entry>,
}

impl View for Registry {
    type V = Entries;

    closed spec fn view(&self) -> Entries {
        self.entries@.map_values(|e: Entry| (e.key@, node_model(e.node)))
    }
}

impl Registry {
    pub open spec fn wf(&self) -> bool {
        keys_unique(self@)
    }

    /// An empty registry.
    pub fn new() -> (r: Registry)
        ensures
            r@ == Seq::<(Seq<char>, NodeModel)>::empty(),
            r.wf(),
    {
        let r = Registry { entries: Vec::new() };
        assert(r@ =~= Seq::<(Seq<char>, NodeModel)>::empty());
        r
    }

    /// The number of entries.
    pub fn len(&self) -> (r: usize)
        ensures
            r == self@.len(),
    {
        self.entries.len()
    }

    /// The entries, in order of registration.
    pub fn entries(&self) -> (r: &[Entry])
        ensures
            r@.map_values(|e: Entry| (e.key@, node_model(e.node))) == self@,
    {
        self.entries.as_slice()
    }

    /// Whether some entry has the key `key`.
    pub fn contains_key(&self, key: &String) -> (r: bool)
        ensures
            r == has_key(self@, key@),
    {
        let mut i: usize = 0;
        while i < self.entries.len()
            invariant
                i <= self.entries@.len(),
                forall|j: int| 0 <= j < i ==> (#[trigger] self@[j]).0 != key@,
            decreases self.entries@.len() - i,
        {
            if self.entries[i].key == *key {
                assert(self@[i as int].0 == key@);
                return true;
            }
            i = i + 1;
        }
        false
    }

    fn insert_new(&mut self, key: String, node: SchemaNode)
        requires
            old(self).wf(),
            !has_key(old(self)@, key@),
        ensures
            final(self)@ == old(self)@.push((key@, node_model(node))),
            final(self).wf(),
    {
        let ghost k = key@;
        let ghost m = node_model(node);
        self.entries.push(Entry { key, node });
        assert(self@ =~= old(self)@.push((k, m)));
        assert forall|i: int, j: int|
            0 <= i < self@.len() && 0 <= j < self@.len() && i != j implies self@[i].0 != self@[j].0 by {
            if i == old(self)@.len() as int {
                assert(old(self)@[j] == self@[j]);
            } else if j == old(self)@.len() as int {
                assert(old(self)@[i] == self@[i]);
            }
        }
    }
}

fn field_name(name: &Option<String>) -> (r: Option<String>)
    ensures
        opt_view(r) == opt_view(*name),
{
    match name {
        Some(s) => Some(s.clone()),
        None => None,
    }
}

fn field_schema(f: &FieldSpec, ctx: &Vec<String>) -> (r: FieldSchema)
    ensures
        field_model(r) == field_entry(*f, texts(ctx@)),
{
    match &f.schema_with {
        Some(o) => FieldSchema {
            name: field_name(&f.name),
            declaration: o.declaration.clone(),
            definitions: Some(o.definitions.clone()),
        },
        None => FieldSchema {
            name: field_name(&f.name),
            declaration: declaration_of(&f.ty, ctx),
            definitions: None,
        },
    }
}

fn fields_schema(fields: &Vec<FieldSpec>, ctx: &Vec<String>) -> (r: Vec<FieldSchema>)
    ensures
        r@.map_values(|f: FieldSchema| field_model(f)) == schema_fields(fields@, texts(ctx@)),
{
    let mut r: Vec<FieldSchema> = Vec::new();
    let mut i: usize = 0;
    assert(r@.map_values(|f: FieldSchema| field_model(f)) =~= fields_model(fields@, texts(ctx@), 0));
    while i < fields.len()
        invariant
            i <= fields@.len(),
            r@.map_values(|f: FieldSchema| field_model(f)) == fields_model(fields@, texts(ctx@), i as nat),
        decreases fields@.len() - i,
    {
        let f = &fields[i];
        let ghost before = r@;
        if !f.skipped {
            r.push(field_schema(f, ctx));
            assert(r@.map_values(|f: FieldSchema| field_model(f)) =~= before.map_values(
                |f: FieldSchema| field_model(f),
            ).push(field_entry(fields@[i as int], texts(ctx@))));
        }
        i = i + 1;
    }
    r
}

fn list_schema(fields: &Fields, ctx: &Vec<String>) -> (r: Vec<FieldSchema>)
    ensures
        r@.map_values(|f: FieldSchema| field_model(f)) == schema_fields(fields_of(*fields), texts(ctx@)),
{
    match fields {
        Fields::Named(f) => fields_schema(f, ctx),
        Fields::Unnamed(f) => fields_schema(f, ctx),
        Fields::Unit => {
            let r: Vec<FieldSchema> = Vec::new();
            assert(r@.map_values(|f: FieldSchema| field_model(f)) =~= schema_fields(
                fields_of(*fields),
                texts(ctx@),
            ));
            r
        },
    }
}

fn is_conflicting(f: &FieldSpec) -> (r: bool)
    ensures
        r == conflicting(*f),
{
    f.skipped && (f.serialize_with.is_some() || f.deserialize_with.is_some()
        || f.bound_serialize.is_some() || f.bound_deserialize.is_some() || f.schema_with.is_some())
}

fn conflict_of(fields: &Vec<FieldSpec>) -> (r: Option<usize>)
    ensures
        r is Some <==> conflict_from(fields@, 0) is Some,
        r is Some ==> conflict_from(fields@, 0) == Some(r->Some_0 as nat),
{
    let mut i: usize = 0;
    while i < fields.len()
        invariant
            i <= fields@.len(),
            conflict_from(fields@, 0) == conflict_from(fields@, i as nat),
        decreases fields@.len() - i,
    {
        if is_conflicting(&fields[i]) {
            return Some(i);
        }
        i = i + 1;
    }
    None
}

fn list_conflict(fields: &Fields) -> (r: Option<usize>)
    ensures
        r is Some <==> conflict_from(fields_of(*fields), 0) is Some,
        r is Some ==> conflict_from(fields_of(*fields), 0) == Some(r->Some_0 as nat),
{
    match fields {
        Fields::Named(f) => conflict_of(f),
        Fields::Unnamed(f) => conflict_of(f),
        Fields::Unit => None,
    }
}

fn variant_conflict(vs: &Vec<VariantSpec>) -> (r: Option<(usize, usize)>)
    ensures
        r is Some <==> variant_conflict_from(vs@, 0) is Some,
        r is Some ==> variant_conflict_from(vs@, 0) == Some((r->Some_0.0 as nat, r->Some_0.1 as nat)),
{
    let mut k: usize = 0;
    while k < vs.len()
        invariant
            k <= vs@.len(),
            variant_conflict_from(vs@, 0) == variant_conflict_from(vs@, k as nat),
        decreases vs@.len() - k,
    {
        if let Some(i) = list_conflict(&vs[k].fields) {
            return Some((k, i));
        }
        k = k + 1;
    }
    None
}

/// The shape that a definition describes, its generic parameters standing
/// for the declarations in `ctx`: an error for an overlay, for a field with
/// conflicting options, or for tags that do not resolve.
pub fn definition_node(d: &TypeDefinition, ctx: &Vec<String>) -> (r: Result<SchemaNode, SchemaError>)
    ensures
        match def_node(*d, texts(ctx@)) {
            Ok(n) => r is Ok && node_model(r->Ok_0) == n,
            Err(e) => r == Err::<SchemaNode, SchemaError>(e),
        },
{
    match d {
        TypeDefinition::Struct(s) => match list_conflict(&s.fields) {
            Some(i) => Err(
                SchemaError::Config(ConfigError::ConflictingFieldOptions { in_variant: None, field: i }),
            ),
            None => Ok(SchemaNode::Struct { fields: list_schema(&s.fields, ctx) }),
        },
        TypeDefinition::Union(_) => Err(SchemaError::UnionUnsupported),
        TypeDefinition::Enum(e) => {
            let tags = match resolve_tags(&e.variants, DiscriminantMode::from_flag(e.use_discriminant)) {
                Ok(t) => t,
                Err(c) => {
                    return Err(SchemaError::Config(c));
                },
            };
            proof {
                crate::discriminant::lemma_resolved_tags_distinct(e.variants@, mode_of_flag(e.use_discriminant));
            }
            if let Some((vi, i)) = variant_conflict(&e.variants) {
                return Err(
                    SchemaError::Config(
                        ConfigError::ConflictingFieldOptions { in_variant: Some(vi), field: i },
                    ),
                );
            }
            let ghost want = def_node(*d, texts(ctx@))->Ok_0->Enum_0;
            let mut variants: Vec<VariantSchema> = Vec::new();
            let mut i: usize = 0;
            while i < e.variants.len()
                invariant
                    i <= e.variants@.len() == tags@.len(),
                    want == def_node(*d, texts(ctx@))->Ok_0->Enum_0,
                    def_node(*d, texts(ctx@)) is Ok,
                    want.len() == e.variants@.len(),
                    variants@.len() == i,
                    forall|j: int| 0 <= j < i ==> variant_model(#[trigger] variants@[j]) == want[j],
                    resolution(e.variants@, mode_of_flag(e.use_discriminant)) == Ok::<Seq<u8>, ConfigError>(tags@),
                    d == TypeDefinition::Enum(*e),
                decreases e.variants@.len() - i,
            {
                let v = &e.variants[i];
                let fields = list_schema(&v.fields, ctx);
                variants.push(VariantSchema { name: v.name.clone(), tag: tags[i], fields });
                i = i + 1;
            }
            assert(variants@.map_values(|v: VariantSchema| variant_model(v)) =~= want);
            Ok(SchemaNode::Enum { variants })
        },
    }
}

/// Registers `root` (a closed type) and every shape reachable from it in
/// `reg`, the named types being those defined in `env`. A shape already in
/// the registry is not visited again, which ends every cycle; nesting deeper
/// than `max_depth` fails with `TooDeep`.
pub fn add_definitions(
    env: &Vec<TypeDefinition>,
    root: &TypeExpr,
    reg: &mut Registry,
    max_depth: usize,
) -> (r: Result<(), SchemaError>)
    requires
        old(reg).wf(),
    ensures
        final(reg).wf(),
        match build(env@, *root, Seq::empty(), old(reg)@, max_depth as nat) {
            Ok(after) => r is Ok && final(reg)@ == after,
            Err(e) => r == Err::<(), SchemaError>(e),
        },
{
    let ctx: Vec<String> = Vec::new();
    assert(texts(ctx@) =~= Seq::<Seq<char>>::empty());
    visit(env, root, &ctx, reg, max_depth)
}

/// The registry of `root` and every shape reachable from it, the named types
/// being those defined in `env`; nesting deeper than `max_depth` fails with
/// `TooDeep`.
pub fn borsh_schema(env: &Vec<TypeDefinition>, root: &TypeExpr, max_depth: usize) -> (r: Result<
    Registry,
    SchemaError,
>)
    ensures
        match build(env@, *root, Seq::empty(), Seq::empty(), max_depth as nat) {
            Ok(after) => r is Ok && r->Ok_0@ == after && r->Ok_0.wf(),
            Err(e) => r == Err::<Registry, SchemaError>(e),
        },
{
    let mut reg = Registry::new();
    match add_definitions(env, root, &mut reg, max_depth) {
        Ok(()) => Ok(reg),
        Err(e) => Err(e),
    }
}

fn find_def_of(env: &Vec<TypeDefinition>, name: &String) -> (r: Option<usize>)
    ensures
        r is Some <==> find_def(env@, name@, 0) is Some,
        r is Some ==> find_def(env@, name@, 0) == Some(r->Some_0 as nat) && r->Some_0 < env@.len(),
{
    let mut i: usize = 0;
    while i < env.len()
        invariant
            i <= env@.len(),
            find_def(env@, name@, 0) == find_def(env@, name@, i as nat),
        decreases env@.len() - i,
    {
        let n = match &env[i] {
            TypeDefinition::Struct(s) => &s.name,
            TypeDefinition::Enum(e) => &e.name,
            TypeDefinition::Union(u) => &u.name,
        };
        if *n == *name {
            return Some(i);
        }
        i = i + 1;
    }
    None
}

fn arity_of(d: &TypeDefinition) -> (r: usize)
    ensures
        r == def_arity(*d),
{
    match d {
        TypeDefinition::Struct(s) => s.generics.len(),
        TypeDefinition::Enum(e) => e.generics.len(),
        TypeDefinition::Union(u) => u.generics.len(),
    }
}

fn arg_texts_of(args: &Vec<TypeExpr>, ctx: &Vec<String>) -> (r: Vec<String>)
    ensures
        texts(r@) == arg_texts(args@, texts(ctx@)),
{
    let mut r: Vec<String> = Vec::new();
    let mut i: usize = 0;
    while i < args.len()
        invariant
            i <= args@.len(),
            r@.len() == i,
            forall|j: int| 0 <= j < i ==> (#[trigger] r@[j])@ == declaration(args@[j], texts(ctx@)),
        decreases args@.len() - i,
    {
        r.push(declaration_of(&args[i], ctx));
        i = i + 1;
    }
    assert(texts(r@) =~= arg_texts(args@, texts(ctx@)));
    r
}

/// Registers `ty` and everything reachable from it, as [`build`] says.
fn visit(
    env: &Vec<TypeDefinition>,
    ty: &TypeExpr,
    ctx: &Vec<String>,
    reg: &mut Registry,
    depth: usize,
) -> (r: Result<(), SchemaError>)
    requires
        old(reg).wf(),
    ensures
        final(reg).wf(),
        match build(env@, *ty, texts(ctx@), old(reg)@, depth as nat) {
            Ok(after) => r is Ok && final(reg)@ == after,
            Err(e) => r == Err::<(), SchemaError>(e),
        },
    decreases depth, 0usize, 0usize,
{
    if depth == 0 {
        return Err(SchemaError::TooDeep);
    }
    if let TypeExpr::Param(p) = ty {
        if *p < ctx.len() {
            return Ok(());
        }
        return Err(SchemaError::Malformed);
    }
    let key = declaration_of(ty, ctx);
    if reg.contains_key(&key) {
        return Ok(());
    }
    match ty {
        TypeExpr::Sequence(e) => {
            let element = declaration_of(e, ctx);
            reg.insert_new(key, SchemaNode::Sequence { element });
            visit(env, e, ctx, reg, depth - 1)
        },
        TypeExpr::Fixed(n, e) => {
            let element = declaration_of(e, ctx);
            reg.insert_new(key, SchemaNode::Fixed { length: *n, element });
            visit(env, e, ctx, reg, depth - 1)
        },
        TypeExpr::Named(name, args) => {
            let i = match find_def_of(env, name) {
                None => {
                    return Err(SchemaError::UnknownType { name: name.clone() });
                },
                Some(i) => i,
            };
            let d = &env[i];
            if arity_of(d) != args.len() {
                return Err(SchemaError::Malformed);
            }
            let child = arg_texts_of(args, ctx);
            let node = match definition_node(d, &child) {
                Err(e) => {
                    return Err(e);
                },
                Ok(n) => n,
            };
            reg.insert_new(key, node);
            match visit_list(env, args, 0, ctx, reg, depth - 1) {
                Err(e) => {
                    return Err(e);
                },
                Ok(()) => {},
            }
            visit_def(env, d, &child, reg, depth - 1)
        },
        _ => {
            reg.insert_new(key, SchemaNode::Primitive);
            Ok(())
        },
    }
}

fn visit_list(
    env: &Vec<TypeDefinition>,
    args: &Vec<TypeExpr>,
    k: usize,
    ctx: &Vec<String>,
    reg: &mut Registry,
    depth: usize,
) -> (r: Result<(), SchemaError>)
    requires
        old(reg).wf(),
        k <= args@.len(),
    ensures
        final(reg).wf(),
        match build_list(env@, *args, k as nat, texts(ctx@), old(reg)@, depth as nat) {
            Ok(after) => r is Ok && final(reg)@ == after,
            Err(e) => r == Err::<(), SchemaError>(e),
        },
    decreases depth, 1usize, args@.len() - k,
{
    if k >= args.len() {
        return Ok(());
    }
    match visit(env, &args[k], ctx, reg, depth) {
        Err(e) => Err(e),
        Ok(()) => visit_list(env, args, k + 1, ctx, reg, depth),
    }
}

fn visit_fields(
    env: &Vec<TypeDefinition>,
    fields: &Vec<FieldSpec>,
    k: usize,
    ctx: &Vec<String>,
    reg: &mut Registry,
    depth: usize,
) -> (r: Result<(), SchemaError>)
    requires
        old(reg).wf(),
        k <= fields@.len(),
    ensures
        final(reg).wf(),
        match build_fields(env@, fields@, k as nat, texts(ctx@), old(reg)@, depth as nat) {
            Ok(after) => r is Ok && final(reg)@ == after,
            Err(e) => r == Err::<(), SchemaError>(e),
        },
    decreases depth, 1usize, fields@.len() - k,
{
    if k >= fields.len() {
        return Ok(());
    }
    if fields[k].skipped || fields[k].schema_with.is_some() {
        return visit_fields(env, fields, k + 1, ctx, reg, depth);
    }
    match visit(env, &fields[k].ty, ctx, reg, depth) {
        Err(e) => Err(e),
        Ok(()) => visit_fields(env, fields, k + 1, ctx, reg, depth),
    }
}

fn visit_field_list(
    env: &Vec<TypeDefinition>,
    fields: &Fields,
    ctx: &Vec<String>,
    reg: &mut Registry,
    depth: usize,
) -> (r: Result<(), SchemaError>)
    requires
        old(reg).wf(),
    ensures
        final(reg).wf(),
        match build_fields(env@, fields_of(*fields), 0, texts(ctx@), old(reg)@, depth as nat) {
            Ok(after) => r is Ok && final(reg)@ == after,
            Err(e) => r == Err::<(), SchemaError>(e),
        },
    decreases depth, 2usize, 0usize,
{
    match fields {
        Fields::Named(f) => visit_fields(env, f, 0, ctx, reg, depth),
        Fields::Unnamed(f) => visit_fields(env, f, 0, ctx, reg, depth),
        Fields::Unit => Ok(()),
    }
}

fn visit_variants(
    env: &Vec<TypeDefinition>,
    vs: &Vec<VariantSpec>,
    k: usize,
    ctx: &Vec<String>,
    reg: &mut Registry,
    depth: usize,
) -> (r: Result<(), SchemaError>)
    requires
        old(reg).wf(),
        k <= vs@.len(),
    ensures
        final(reg).wf(),
        match build_variants(env@, vs@, k as nat, texts(ctx@), old(reg)@, depth as nat) {
            Ok(after) => r is Ok && final(reg)@ == after,
            Err(e) => r == Err::<(), SchemaError>(e),
        },
    decreases depth, 3usize, vs@.len() - k,
{
    if k >= vs.len() {
        return Ok(());
    }
    match visit_field_list(env, &vs[k].fields, ctx, reg, depth) {
        Err(e) => Err(e),
        Ok(()) => visit_variants(env, vs, k + 1, ctx, reg, depth),
    }
}

fn visit_def(
    env: &Vec<TypeDefinition>,
    d: &TypeDefinition,
    ctx: &Vec<String>,
    reg: &mut Registry,
    depth: usize,
) -> (r: Result<(), SchemaError>)
    requires
        old(reg).wf(),
    ensures
        final(reg).wf(),
        match build_def(env@, *d, texts(ctx@), old(reg)@, depth as nat) {
            Ok(after) => r is Ok && final(reg)@ == after,
            Err(e) => r == Err::<(), SchemaError>(e),
        },
    decreases depth, 4usize, 0usize,
{
    match d {
        TypeDefinition::Struct(s) => visit_field_list(env, &s.fields, ctx, reg, depth),
        TypeDefinition::Union(u) => visit_fields(env, &u.fields, 0, ctx, reg, depth),
        TypeDefinition::Enum(e) => visit_variants(env, &e.variants, 0, ctx, reg, depth),
    }
}

} // verus!

//! The high-level intermediate representation: names resolved, types checked.
//!
//! HIR is where "what did the author mean" is settled. Every expression carries its
//! type, so nothing downstream has to ask again.
//!
//! Two choices here are deliberate and worth knowing:
//!
//! - **There is no inference.** A `let` takes the type of its annotation, or of its
//!   initialiser. Nothing propagates backwards. The language's types stay few and
//!   concrete, so unification would cost a solver and return nothing.
//! - **Unknown attributes are errors.** A misspelled `#[tik]` that is quietly ignored
//!   is the class of silent failure minewell exists to remove.

use vstd::prelude::*;

use crate::map::TextMap;
use crate::syntax::ast::{BinaryOp, Borrow, UnaryOp};
use crate::syntax::lexer::Span;
use crate::text::same;

mod component;
mod copies;
mod lower;
pub mod model;
pub mod rules;
pub mod types;

pub use lower::{lower, toolchain_view};
pub use types::Types;

verus! {

#[derive(Debug, Clone, Copy, PartialEq, Eq, PartialOrd, Ord, Hash, Structural)]
pub struct FnId(pub u32);

/// Identifies a binding within one function.
#[derive(Debug, Clone, Copy, PartialEq, Eq, PartialOrd, Ord, Hash, Structural)]
pub struct LocalId(pub u32);

/// Identifies a `struct` definition within the program.
#[derive(Debug, Clone, Copy, PartialEq, Eq, PartialOrd, Ord, Hash, Structural)]
pub struct StructId(pub u32);

/// Marks that a name may stand for a `struct` or an `enum`.
#[derive(Debug, Clone, Copy, PartialEq, Eq, PartialOrd, Ord, Hash, Structural)]
pub struct StructOrEnum;

/// Identifies an `enum` definition within the program.
#[derive(Debug, Clone, Copy, PartialEq, Eq, PartialOrd, Ord, Hash, Structural)]
pub struct EnumId(pub u32);

/// Identifies one `Vec<T>`, interned by element type.
///
/// `Type` is `Copy`, so a type that contains another cannot hold it inline. Interning
/// keeps the id small and makes `Vec<i32> == Vec<i32>` a comparison of two numbers.
#[derive(Debug, Clone, Copy, PartialEq, Eq, PartialOrd, Ord, Hash, Structural)]
pub struct VecId(pub u32);

/// Identifies one `Option<T>`, interned by inner type the same way as a list.
#[derive(Debug, Clone, Copy, PartialEq, Eq, PartialOrd, Ord, Hash, Structural)]
pub struct OptionId(pub u32);

/// The scale of a `fix<S>`: a number, or the const parameter that will become one.
#[derive(Debug, Clone, Copy, PartialEq, Eq, Hash, Structural)]
pub enum Scale {
    Const(u32),
    Param(u32),
}

#[derive(Debug, Clone, Copy, PartialEq, Eq, Hash, Structural)]
pub enum Type {
    I32,
    Bool,
    /// Fixed point: an integer on the scoreboard, holding `S`ths of a unit.
    Fix(Scale),
    /// The NBT interop scalars. They live in storage, hold what vanilla wrote, and
    /// have no arithmetic: `Byte(1)` and `Int(1)` are different values to the game,
    /// and only a type can keep them apart.
    I8,
    I16,
    I64,
    F32,
    F64,
    /// A compile-time selector. It has no runtime representation: the only thing that
    /// can be done with one is hand it to `as`, `at` or `for`.
    Selector,
    /// `minecraft:stone`. Compile-time only.
    Resource,
    /// `pos!(~ ~1 ~)`. Compile-time only.
    Pos,
    /// `text!(..)`: chat JSON put together while compiling. Compile-time only, like a
    /// selector.
    Component,
    /// An immutable string in storage.
    Str,
    /// A composite value. It lives in storage rather than in a register, which is a
    /// third category: neither a score nor compile-time only.
    Struct(StructId),
    /// A tagged union, also in storage.
    Enum(EnumId),
    /// An NBT list in storage.
    Vec(VecId),
    /// Maybe a `T`, and the difference is whether the path exists at all.
    Option(OptionId),
    /// A view of an entity's NBT: fields that are places rather than values.
    /// Compile-time only, like a selector.
    View(StructId),
    /// A type parameter, inside a template that has not been instantiated yet. No
    /// value ever has this type: instantiation replaces it.
    Param(u32),
}

/// The type a name built into the language stands for. A selector is deliberately not
/// spellable: it is inferred from the literal, never declared.
pub open spec fn builtin_type(name: Seq<char>) -> Option<Type> {
    if name == "i32"@ {
        Some(Type::I32)
    } else if name == "i8"@ {
        Some(Type::I8)
    } else if name == "i16"@ {
        Some(Type::I16)
    } else if name == "i64"@ {
        Some(Type::I64)
    } else if name == "f32"@ {
        Some(Type::F32)
    } else if name == "f64"@ {
        Some(Type::F64)
    } else if name == "String"@ {
        Some(Type::Str)
    } else if name == "bool"@ {
        Some(Type::Bool)
    } else {
        None
    }
}

impl Type {
    pub(crate) fn parse(name: &str) -> (r: Option<Type>)
        ensures
            r == builtin_type(name@),
    {
        if same(name, "i32") {
            Some(Type::I32)
        } else if same(name, "i8") {
            Some(Type::I8)
        } else if same(name, "i16") {
            Some(Type::I16)
        } else if same(name, "i64") {
            Some(Type::I64)
        } else if same(name, "f32") {
            Some(Type::F32)
        } else if same(name, "f64") {
            Some(Type::F64)
        } else if same(name, "String") {
            Some(Type::Str)
        } else if same(name, "bool") {
            Some(Type::Bool)
        } else {
            None
        }
    }

    pub open spec fn compile_time(self) -> bool {
        self is Selector || self is Resource || self is Pos || self is Component || self is View
    }

    /// Whether the type exists only while compiling, with nothing to put in a
    /// register at runtime.
    pub fn is_compile_time(&self) -> (r: bool)
        ensures
            r == self.compile_time(),
    {
        match self {
            Type::Selector => true,
            Type::Resource => true,
            Type::Pos => true,
            Type::Component => true,
            Type::View(_) => true,
            _ => false,
        }
    }

    pub open spec fn storage(self) -> bool {
        self.compound() || self.storage_scalar() || self is Option
    }

    /// Whether values of this type live in storage rather than on the scoreboard.
    pub fn is_storage(&self) -> (r: bool)
        ensures
            r == self.storage(),
    {
        self.is_compound() || self.is_storage_scalar() || match self {
            Type::Option(_) => true,
            _ => false,
        }
    }

    pub open spec fn compound(self) -> bool {
        self is Struct || self is Enum || self is Vec
    }

    /// Whether this is a structure in storage, rather than one value in it.
    pub fn is_compound(&self) -> (r: bool)
        ensures
            r == self.compound(),
    {
        match self {
            Type::Struct(_) => true,
            Type::Enum(_) => true,
            Type::Vec(_) => true,
            _ => false,
        }
    }

    pub open spec fn storage_scalar(self) -> bool {
        self.nbt_scalar() || self is Str
    }

    /// Whether values of this type live in storage without being a structure: one
    /// tag, one value.
    pub fn is_storage_scalar(&self) -> (r: bool)
        ensures
            r == self.storage_scalar(),
    {
        self.is_nbt_scalar() || match self {
            Type::Str => true,
            _ => false,
        }
    }

    pub open spec fn nbt_scalar(self) -> bool {
        self is I8 || self is I16 || self is I64 || self is F32 || self is F64
    }

    /// Whether this is one of the types that exists to match an NBT tag exactly.
    pub fn is_nbt_scalar(&self) -> (r: bool)
        ensures
            r == self.nbt_scalar(),
    {
        match self {
            Type::I8 => true,
            Type::I16 => true,
            Type::I64 => true,
            Type::F32 => true,
            Type::F64 => true,
            _ => false,
        }
    }

    #[verifier::opaque]
    pub open spec fn name_text(self) -> Seq<char> {
        match self {
            Type::I32 => "i32"@,
            Type::Bool => "bool"@,
            Type::I8 => "i8"@,
            Type::I16 => "i16"@,
            Type::I64 => "i64"@,
            Type::F32 => "f32"@,
            Type::F64 => "f64"@,
            Type::Str => "String"@,
            Type::Fix(_) => "fix"@,
            Type::Selector => "selector"@,
            Type::Resource => "ResourceLocation"@,
            Type::Pos => "Pos"@,
            Type::Component => "TextComponent"@,
            Type::Struct(_) => "struct"@,
            Type::Enum(_) => "enum"@,
            Type::Vec(_) => "Vec"@,
            Type::Option(_) => "Option"@,
            Type::View(_) => "view"@,
            Type::Param(_) => "a type parameter"@,
        }
    }

    /// The name of the type as far as it needs no table; `Types::name_of` spells out the
    /// rest.
    pub fn name(&self) -> (r: &'static str)
        ensures
            r@ == self.name_text(),
    {
        proof {
            reveal(Type::name_text);
        }
        match self {
            Type::I32 => "i32",
            Type::Bool => "bool",
            Type::I8 => "i8",
            Type::I16 => "i16",
            Type::I64 => "i64",
            Type::F32 => "f32",
            Type::F64 => "f64",
            Type::Str => "String",
            Type::Fix(_) => "fix",
            Type::Selector => "selector",
            Type::Resource => "ResourceLocation",
            Type::Pos => "Pos",
            Type::Component => "TextComponent",
            Type::Struct(_) => "struct",
            Type::Enum(_) => "enum",
            Type::Vec(_) => "Vec",
            Type::Option(_) => "Option",
            Type::View(_) => "view",
            Type::Param(_) => "a type parameter",
        }
    }
}

/// A parameter as declared: its type, and whether it is borrowed rather than passed.
#[derive(Debug, Clone, Copy, PartialEq, Eq, Structural)]
pub struct ParamSig {
    pub ty: Type,
    /// `None` for an ordinary parameter, which is written before the call.
    pub borrow: Option<Borrow>,
}

/// The NBT tag a scalar field is stored as.
///
/// It has to be part of the type, not a detail of emission: vanilla treats `Byte(1)`
/// and `Int(1)` as different values and ignores the wrong one without a word.
#[derive(Debug, Clone, Copy, PartialEq, Eq, Structural)]
pub enum NbtTag {
    Byte,
    Short,
    Int,
    Long,
    Float,
    Double,
}

pub open spec fn tag_named(name: Seq<char>) -> Option<NbtTag> {
    if name == "byte"@ {
        Some(NbtTag::Byte)
    } else if name == "short"@ {
        Some(NbtTag::Short)
    } else if name == "int"@ {
        Some(NbtTag::Int)
    } else if name == "long"@ {
        Some(NbtTag::Long)
    } else if name == "float"@ {
        Some(NbtTag::Float)
    } else if name == "double"@ {
        Some(NbtTag::Double)
    } else {
        None
    }
}

/// The tag a type is written as when nothing says otherwise.
pub open spec fn default_tag(ty: Type) -> Option<NbtTag> {
    match ty {
        Type::I32 => Some(NbtTag::Int),
        Type::Fix(_) => Some(NbtTag::Int),
        Type::Bool => Some(NbtTag::Byte),
        Type::I8 => Some(NbtTag::Byte),
        Type::I16 => Some(NbtTag::Short),
        Type::I64 => Some(NbtTag::Long),
        Type::F32 => Some(NbtTag::Float),
        Type::F64 => Some(NbtTag::Double),
        _ => None,
    }
}

impl NbtTag {
    pub(crate) fn parse(name: &str) -> (r: Option<NbtTag>)
        ensures
            r == tag_named(name@),
    {
        if same(name, "byte") {
            Some(NbtTag::Byte)
        } else if same(name, "short") {
            Some(NbtTag::Short)
        } else if same(name, "int") {
            Some(NbtTag::Int)
        } else if same(name, "long") {
            Some(NbtTag::Long)
        } else if same(name, "float") {
            Some(NbtTag::Float)
        } else if same(name, "double") {
            Some(NbtTag::Double)
        } else {
            None
        }
    }

    pub open spec fn keyword_text(self) -> Seq<char> {
        match self {
            NbtTag::Byte => "byte"@,
            NbtTag::Short => "short"@,
            NbtTag::Int => "int"@,
            NbtTag::Long => "long"@,
            NbtTag::Float => "float"@,
            NbtTag::Double => "double"@,
        }
    }

    /// As `execute store result storage` spells it.
    pub fn keyword(self) -> (r: &'static str)
        ensures
            r@ == self.keyword_text(),
    {
        match self {
            NbtTag::Byte => "byte",
            NbtTag::Short => "short",
            NbtTag::Int => "int",
            NbtTag::Long => "long",
            NbtTag::Float => "float",
            NbtTag::Double => "double",
        }
    }

    pub open spec fn suffix_text(self) -> Seq<char> {
        match self {
            NbtTag::Byte => "b"@,
            NbtTag::Short => "s"@,
            NbtTag::Int => ""@,
            NbtTag::Long => "L"@,
            NbtTag::Float => "f"@,
            NbtTag::Double => "d"@,
        }
    }

    /// As SNBT spells a literal of this tag.
    pub fn suffix(self) -> (r: &'static str)
        ensures
            r@ == self.suffix_text(),
    {
        match self {
            NbtTag::Byte => "b",
            NbtTag::Short => "s",
            NbtTag::Int => "",
            NbtTag::Long => "L",
            NbtTag::Float => "f",
            NbtTag::Double => "d",
        }
    }

    /// The tag a type is written as when nothing says otherwise.
    pub fn default_for(ty: Type) -> (r: Option<NbtTag>)
        ensures
            r == default_tag(ty),
    {
        match ty {
            Type::I32 => Some(NbtTag::Int),
            Type::Fix(_) => Some(NbtTag::Int),
            Type::Bool => Some(NbtTag::Byte),
            Type::I8 => Some(NbtTag::Byte),
            Type::I16 => Some(NbtTag::Short),
            Type::I64 => Some(NbtTag::Long),
            Type::F32 => Some(NbtTag::Float),
            Type::F64 => Some(NbtTag::Double),
            _ => None,
        }
    }
}

/// A generic parameter as declared: its name, and whether it stands for a scale
/// rather than a type.
#[derive(Debug, Clone, PartialEq, Eq)]
pub struct GenericDef {
    pub name: String,
    pub is_const: bool,
}

impl GenericDef {
    pub open spec fn view(&self) -> model::Generic {
        model::Generic { name: self.name@, is_const: self.is_const }
    }
}

/// A generic `struct`, whose field types may mention `Type::Param`.
#[derive(Debug, Clone, PartialEq, Eq)]
pub struct StructTemplate {
    pub name: String,
    pub generics: Vec<GenericDef>,
    pub fields: Vec<Field>,
    pub span: Span,
}

impl StructTemplate {
    pub open spec fn view(&self) -> model::Template {
        model::Template {
            name: self.name@,
            generics: generics_view(self.generics@),
            fields: fields_view(self.fields@),
            span: self.span,
        }
    }
}

/// A value addressed by name: a binding, or a field reached from one.
///
/// Composite values live in storage, where "where is it" is a path rather than a
/// register, and a field is the same path with one more step.
#[derive(Debug, PartialEq, Eq)]
pub struct Place {
    pub root: Root,
    /// The steps from the root to the value, in order.
    pub steps: Vec<Step>,
    /// The type of the value addressed, which is the innermost step's.
    pub ty: Type,
    /// The tag it is stored as; `None` for a compound or a list.
    pub tag: Option<NbtTag>,
    /// Whether writing through this is allowed.
    pub mutable: bool,
    /// The name the source used, for diagnostics.
    pub via: String,
}

/// Where a place starts.
#[derive(Debug, Clone, PartialEq, Eq)]
pub enum Root {
    /// A binding of the function being lowered.
    Local(LocalId),
    /// An entity's NBT, reached through a view. The selector is compile-time text, so
    /// the whole path is written into the command.
    Entity { selector: String },
    /// A binding of the caller, lent by reference. Borrowing is a name for someone
    /// else's place, so the name of that place is what is carried.
    Lent {
        /// The function the binding belongs to.
        owner: String,
        local: String,
        /// Whether that binding lives in storage rather than in a register.
        storage: bool,
    },
}

impl Root {
    pub open spec fn view(&self) -> model::Root {
        match self {
            Root::Local(id) => model::Root::Local(*id),
            Root::Entity { selector } => model::Root::Entity(selector@),
            Root::Lent { owner, local, storage } => model::Root::Lent(owner@, local@, *storage),
        }
    }
}

/// One step of a path: into a field, or into a list.
#[derive(Debug, PartialEq, Eq)]
pub enum Step {
    /// An NBT key.
    Field(String),
    /// `v[2]`: known now, so it is part of the path.
    Index(i32),
    /// `v[i]`: known only at runtime, so the path has to be built by a macro. Allowed
    /// as the last step only.
    At(Box<Expr>),
}

/// A `struct` definition: an NBT compound with a known shape.
#[derive(Debug, Clone, PartialEq, Eq)]
pub struct StructDef {
    pub id: StructId,
    pub name: String,
    pub fields: Vec<Field>,
    pub span: Span,
    /// Which template and type arguments this came from, for a generic struct.
    pub from: Option<(usize, Vec<Type>)>,
}

impl StructDef {
    pub open spec fn view(&self) -> model::StructDef {
        model::StructDef {
            id: self.id,
            name: self.name@,
            fields: fields_view(self.fields@),
            span: self.span,
            from: match self.from {
                Some((index, args)) => Some((index, args@)),
                None => None,
            },
        }
    }

    /// The field of that name.
    pub fn field(&self, name: &str) -> (r: Option<&Field>)
        ensures
            match r {
                Some(field) => field_named(self@.fields, name@, 0) < self@.fields.len() && field@
                    == self@.fields[field_named(self@.fields, name@, 0)],
                None => field_named(self@.fields, name@, 0) == self@.fields.len(),
            },
    {
        let i = find_field(&self.fields, name);
        if i < self.fields.len() {
            Some(&self.fields[i])
        } else {
            None
        }
    }
}

#[derive(Debug, Clone, PartialEq, Eq)]
pub struct Field {
    /// The name the source writes.
    pub name: String,
    /// The key in the compound, which `#[nbt(rename = "..")]` can change.
    pub nbt: String,
    pub ty: Type,
    /// `None` for a composite field: a compound has no scalar tag.
    pub tag: Option<NbtTag>,
}

impl Field {
    pub open spec fn view(&self) -> model::Field {
        model::Field { name: self.name@, nbt: self.nbt@, ty: self.ty, tag: self.tag }
    }

    pub(crate) fn copy(&self) -> (r: Field)
        ensures
            r@ == self@,
    {
        Field { name: self.name.clone(), nbt: self.nbt.clone(), ty: self.ty, tag: self.tag }
    }
}

/// The position of the first field of that name from `i` on, or the number of fields.
pub open spec fn field_named(fields: Seq<model::Field>, name: Seq<char>, i: int) -> int
    decreases fields.len() - i,
{
    if i < 0 || i >= fields.len() {
        fields.len() as int
    } else if fields[i].name == name {
        i
    } else {
        field_named(fields, name, i + 1)
    }
}

pub(crate) fn find_field(fields: &Vec<Field>, name: &str) -> (r: usize)
    ensures
        r == field_named(fields_view(fields@), name@, 0),
        r <= fields@.len(),
{
    let mut i: usize = 0;
    while i < fields.len() && !same(fields[i].name.as_str(), name)
        invariant
            i <= fields@.len(),
            field_named(fields_view(fields@), name@, 0) == field_named(
                fields_view(fields@),
                name@,
                i as int,
            ),
        decreases fields.len() - i,
    {
        i += 1;
    }
    i
}

/// The position of the first field stored under that key from `i` on, or the number of
/// fields.
pub open spec fn field_keyed(fields: Seq<model::Field>, key: Seq<char>, i: int) -> int
    decreases fields.len() - i,
{
    if i < 0 || i >= fields.len() {
        fields.len() as int
    } else if fields[i].nbt == key {
        i
    } else {
        field_keyed(fields, key, i + 1)
    }
}

pub(crate) fn find_key(fields: &Vec<Field>, key: &str) -> (r: usize)
    ensures
        r == field_keyed(fields_view(fields@), key@, 0),
        r <= fields@.len(),
{
    let mut i: usize = 0;
    while i < fields.len() && !same(fields[i].nbt.as_str(), key)
        invariant
            i <= fields@.len(),
            field_keyed(fields_view(fields@), key@, 0) == field_keyed(
                fields_view(fields@),
                key@,
                i as int,
            ),
        decreases fields.len() - i,
    {
        i += 1;
    }
    i
}

pub(crate) fn copy_generics(v: &Vec<GenericDef>) -> (r: Vec<GenericDef>)
    ensures
        generics_view(r@) == generics_view(v@),
{
    let mut out: Vec<GenericDef> = Vec::new();
    let mut i: usize = 0;
    while i < v.len()
        invariant
            i <= v@.len(),
            out@.len() == i,
            forall|k: int| 0 <= k < i ==> (#[trigger] out@[k])@ == v@[k]@,
        decreases v.len() - i,
    {
        out.push(GenericDef { name: v[i].name.clone(), is_const: v[i].is_const });
        i += 1;
    }
    proof {
        assert(generics_view(out@) =~= generics_view(v@));
    }
    out
}

pub(crate) fn copy_fields(fields: &Vec<Field>) -> (r: Vec<Field>)
    ensures
        fields_view(r@) == fields_view(fields@),
{
    let mut out: Vec<Field> = Vec::new();
    let mut i: usize = 0;
    while i < fields.len()
        invariant
            i <= fields@.len(),
            out@.len() == i,
            forall|k: int| 0 <= k < i ==> (#[trigger] out@[k])@ == fields@[k]@,
        decreases fields.len() - i,
    {
        out.push(fields[i].copy());
        i += 1;
    }
    assert(fields_view(out@) =~= fields_view(fields@));
    out
}

/// An `enum` definition: a compound whose `tag` says which variant it holds.
#[derive(Debug, Clone, PartialEq, Eq)]
pub struct EnumDef {
    pub id: EnumId,
    pub name: String,
    pub variants: Vec<Variant>,
    pub span: Span,
}

#[derive(Debug, Clone, PartialEq, Eq)]
pub struct Variant {
    pub name: String,
    pub fields: Vec<Field>,
}

impl Variant {
    pub open spec fn view(&self) -> model::Variant {
        model::Variant { name: self.name@, fields: fields_view(self.fields@) }
    }
}

/// The position of the first variant of that name from `i` on, or the number of variants.
pub open spec fn variant_named(variants: Seq<model::Variant>, name: Seq<char>, i: int) -> int
    decreases variants.len() - i,
{
    if i < 0 || i >= variants.len() {
        variants.len() as int
    } else if variants[i].name == name {
        i
    } else {
        variant_named(variants, name, i + 1)
    }
}

impl EnumDef {
    pub open spec fn view(&self) -> model::EnumDef {
        model::EnumDef {
            id: self.id,
            name: self.name@,
            variants: variants_view(self.variants@),
            span: self.span,
        }
    }

    /// The variant of that name and its position.
    pub fn variant(&self, name: &str) -> (r: Option<(u32, &Variant)>)
        ensures
            ({
                let i = variant_named(self@.variants, name@, 0);
                match r {
                    Some((index, variant)) => i < self@.variants.len() && index == i as u32
                        && variant@ == self@.variants[i],
                    None => i == self@.variants.len(),
                }
            }),
    {
        let i = self.find_variant(name);
        if i < self.variants.len() {
            Some((i as u32, &self.variants[i]))
        } else {
            None
        }
    }

    pub(crate) fn find_variant(&self, name: &str) -> (r: usize)
        ensures
            r == variant_named(self@.variants, name@, 0),
            r <= self.variants@.len(),
    {
        let mut i: usize = 0;
        while i < self.variants.len() && !same(self.variants[i].name.as_str(), name)
            invariant
                i <= self.variants@.len(),
                variant_named(self@.variants, name@, 0) == variant_named(
                    self@.variants,
                    name@,
                    i as int,
                ),
            decreases self.variants.len() - i,
        {
            i += 1;
        }
        i
    }
}

/// The key a variant's name is stored under.
pub const TAG_KEY: &'static str = "tag";

/// A reference to something that has to exist somewhere in the pack.
#[derive(Debug, Clone, PartialEq, Eq)]
pub struct Reference {
    pub id: String,
    pub kind: RefKind,
    pub span: Span,
}

impl Reference {
    pub open spec fn view(&self) -> model::Reference {
        model::Reference { id: self.id@, kind: self.kind, span: self.span }
    }
}

#[derive(Debug, Clone, Copy, PartialEq, Eq, Structural)]
pub enum RefKind {
    Function,
}

impl RefKind {
    pub fn directory(&self) -> (r: &'static str)
        ensures
            r@ == "function"@,
    {
        "function"
    }

    pub fn extension(&self) -> (r: &'static str)
        ensures
            r@ == "mcfunction"@,
    {
        "mcfunction"
    }
}

/// A whole program.
#[derive(Debug, PartialEq, Eq)]
pub struct Hir {
    pub functions: Vec<Function>,
    pub types: Types,
    /// What the program names and the pack has to hold.
    pub references: Vec<Reference>,
}

impl Hir {
    pub open spec fn view(&self) -> model::Hir {
        model::Hir {
            functions: functions_view(self.functions@),
            types: self.types@,
            references: references_view(self.references@),
        }
    }
}

#[derive(Debug, PartialEq, Eq)]
pub struct Function {
    pub id: FnId,
    pub name: String,
    /// Where this lands in the datapack: `<namespace>:<path>`.
    pub path: String,
    pub attrs: Vec<Attr>,
    /// Parameters are locals the caller writes before calling, so they are the first
    /// entries in `locals`.
    pub params: Vec<LocalId>,
    pub ret: Option<Type>,
    pub locals: Vec<Local>,
    pub body: Vec<Stmt>,
    pub span: Span,
}

impl Function {
    pub open spec fn view(&self) -> model::Function {
        model::Function {
            id: self.id,
            name: self.name@,
            path: self.path@,
            attrs: attrs_view(self.attrs@),
            params: self.params@,
            ret: self.ret,
            locals: locals_view(self.locals@),
            body: stmts_view(self.body@),
            span: self.span,
        }
    }
}

#[derive(Debug, Clone, PartialEq, Eq)]
pub struct Local {
    pub id: LocalId,
    pub name: String,
    pub ty: Type,
    pub mutable: bool,
}

impl Local {
    pub open spec fn view(&self) -> model::Local {
        model::Local { id: self.id, name: self.name@, ty: self.ty, mutable: self.mutable }
    }
}

/// Whether a block was asked to be inlined into its guard, or split into its own
/// function. `Auto` lets the lowering decide.
#[derive(Debug, Clone, Copy, PartialEq, Eq, Structural)]
pub enum Inline {
    Auto,
    Always,
    Never,
}

#[allow(inconsistent_fields)]
#[derive(Debug, PartialEq, Eq)]
pub enum Stmt {
    Raw(RawCommand),
    If {
        cond: Expr,
        taken: Vec<Stmt>,
        otherwise: Option<Vec<Stmt>>,
        inline: Inline,
        span: Span,
    },
    /// `while` and `loop`; the latter has no condition.
    Loop { cond: Option<Expr>, body: Vec<Stmt>, inline: Inline, span: Span },
    /// A call written as a statement. Any value it returns is discarded.
    CallFor { callee: FnId, args: Vec<Expr>, span: Span },
    /// `match`: one arm per variant, each its own guarded block.
    Match { scrutinee: Scrutinee, arms: Vec<Arm>, span: Span },
    /// `for x in vec`: destructive iteration over a copy.
    ForVec { source: Place, binding: LocalId, body: Vec<Stmt>, span: Span },
    /// `as` / `at` / `for`. The body runs once per entity the selector finds.
    Context {
        kind: ContextKind,
        selector: Selector,
        body: Vec<Stmt>,
        inline: Inline,
        span: Span,
    },
    Break(Span),
    Continue(Span),
    Return { value: Option<Expr>, span: Span },
    Let { local: LocalId, value: Expr, span: Span },
    /// `debug_assert!(c, "m")`: nothing at all in a release build.
    Assert { cond: Expr, message: Option<String>, span: Span },
    /// `v.push(e)`.
    Push { place: Place, value: Expr, span: Span },
    Assign {
        place: Place,
        /// `None` for `=`; otherwise the arithmetic to apply first.
        op: Option<BinaryOp>,
        value: Expr,
        span: Span,
    },
}

/// One arm of a `match`.
#[derive(Debug, PartialEq, Eq)]
pub struct Arm {
    /// What has to hold for this arm to run.
    pub test: ArmTest,
    /// The name this arm is generated under, already safe as a datapack path.
    pub path: String,
    pub bindings: Vec<Binding>,
    pub body: Vec<Stmt>,
}

/// What is being matched on.
///
/// A compound has to be somewhere to be looked at, so an `enum` is always a place. An
/// option answers in registers as well (a call reports both halves of its outcome), so
/// it can be matched straight from the call.
#[derive(Debug, PartialEq, Eq)]
pub enum Scrutinee {
    Place(Place),
    Outcome(Expr),
}

impl Scrutinee {
    pub open spec fn view(&self) -> model::Scrutinee {
        match self {
            Scrutinee::Place(place) => model::Scrutinee::Place(place@),
            Scrutinee::Outcome(value) => model::Scrutinee::Outcome(value@),
        }
    }

    /// How the matched value is stored, where that is known.
    pub fn tag(&self) -> (r: Option<NbtTag>)
        ensures
            r == match self@ {
                model::Scrutinee::Place(place) => place.tag,
                model::Scrutinee::Outcome(_) => None,
            },
    {
        match self {
            Scrutinee::Place(place) => {
                proof {
                    place.unfold();
                }
                place.tag
            },
            Scrutinee::Outcome(_) => None,
        }
    }
}

/// What decides whether an arm runs.
#[derive(Debug, Clone, Copy, PartialEq, Eq, Structural)]
pub enum ArmTest {
    /// One variant of an `enum`, told apart by its tag.
    Variant(u32),
    /// An option that holds something, told apart by the path being there.
    Present,
    Absent,
    /// `_`: everything the arms above did not take.
    Other,
}

/// A payload field bound by a pattern, copied out of the compound on arm entry.
#[derive(Debug, Clone, PartialEq, Eq)]
pub struct Binding {
    pub local: LocalId,
    /// The key to read, under the scrutinee's path. Empty for an option, whose value
    /// is the scrutinee's path itself.
    pub nbt: String,
    pub ty: Type,
    /// How it is stored, which decides the scale a `fix<S>` is read with.
    pub tag: Option<NbtTag>,
}

impl Binding {
    pub open spec fn view(&self) -> model::Binding {
        model::Binding { local: self.local, nbt: self.nbt@, ty: self.ty, tag: self.tag }
    }
}

#[derive(Debug, Clone, Copy, PartialEq, Eq, Structural)]
pub enum ContextKind {
    As,
    At,
    For,
    /// `positioned <pos>`: the body runs once, somewhere else.
    Positioned,
}

/// A selector, resolved at compile time. `@s` is what a `for` binding means.
#[derive(Debug, Clone, PartialEq, Eq)]
pub struct Selector {
    pub text: String,
    pub span: Span,
}

impl Selector {
    pub open spec fn view(&self) -> model::Selector {
        model::Selector { text: self.text@, span: self.span }
    }
}

/// One piece of a `raw!` command.
///
/// A constant interpolation is already folded into the literal beside it; only a value
/// that is not known until runtime survives as a part of its own.
#[derive(Debug, PartialEq, Eq)]
pub enum RawPart {
    Lit(String),
    Value(Expr),
}

impl RawPart {
    pub open spec fn view(&self) -> model::RawPart {
        match self {
            RawPart::Lit(text) => model::RawPart::Lit(text@),
            RawPart::Value(value) => model::RawPart::Value(value@),
        }
    }
}

/// A `raw!` command, or a command of the game written as a call.
#[derive(Debug, PartialEq, Eq)]
pub struct RawCommand {
    pub parts: Vec<RawPart>,
    pub span: Span,
}

impl RawCommand {
    pub open spec fn view(&self) -> model::RawCommand {
        model::RawCommand { parts: parts_view(self.parts@), span: self.span }
    }

    pub fn literal(text: String, span: Span) -> (r: RawCommand)
        ensures
            r@ == (model::RawCommand { parts: seq![model::RawPart::Lit(text@)], span }),
    {
        let mut parts: Vec<RawPart> = Vec::new();
        parts.push(RawPart::Lit(text));
        let r = RawCommand { parts, span };
        assert(r@.parts =~= seq![model::RawPart::Lit(text@)]);
        r
    }

    /// The whole command, when nothing in it has to wait for runtime.
    pub fn as_text(&self) -> (r: Option<&str>)
        ensures
            match r {
                Some(text) => self@.parts == seq![model::RawPart::Lit(text@)],
                None => self@.parts.len() != 1 || self@.parts[0] is Value,
            },
    {
        if self.parts.len() == 1 {
            match &self.parts[0] {
                RawPart::Lit(text) => {
                    assert(self@.parts =~= seq![model::RawPart::Lit(text@)]);
                    Some(text.as_str())
                },
                RawPart::Value(_) => {
                    assert(self@.parts[0] is Value);
                    None
                },
            }
        } else {
            None
        }
    }
}

/// A chat component while it is being put together.
///
/// The members are already rendered as JSON values, so `"text"` maps to `"\"hi\""`
/// and `"bold"` to `true`. Keeping them by key is what lets `.red().bold()` add one
/// at a time, and what makes `.red().blue()` mean blue.
#[derive(Debug, PartialEq, Eq)]
pub struct Component {
    pub members: TextMap,
    /// The components appended after this one, which inherit its style.
    pub extra: Vec<Component>,
}

#[derive(Debug, PartialEq, Eq)]
pub struct Expr {
    pub kind: ExprKind,
    pub ty: Type,
    pub span: Span,
}

#[allow(inconsistent_fields)]
#[derive(Debug, PartialEq, Eq)]
pub enum ExprKind {
    Int(i32),
    Bool(bool),
    Str(String),
    Local(LocalId),
    Unary(UnaryOp, Box<Expr>),
    Binary(BinaryOp, Box<Expr>, Box<Expr>),
    Call { callee: FnId, args: Vec<Expr> },
    /// A compile-time selector. Never evaluated into a register.
    Selector(String),
    /// `block(pos!(..), minecraft:stone)`: is that block there? A condition in its own
    /// right, so it costs nothing to ask inside an `if`.
    Block { at: String, id: String },
    /// A chat component, fully built. Compile-time only: it ends up as JSON inside a
    /// command's text and costs nothing to run.
    Component(Component),
    Resource(String),
    Pos(String),
    /// A whole command, already rendered. One command, one line.
    Command(String),
    /// A composite value, its fields in declaration order.
    Struct { id: StructId, fields: Vec<Expr> },
    /// Reading a binding's field.
    Field(Place),
    /// A tagged union value: which variant, and that variant's fields in order.
    Enum { id: EnumId, variant: u32, fields: Vec<Expr> },
    /// `[1, 2, 3]`.
    List { elem: Type, values: Vec<Expr> },
    /// `v.len()`.
    Len(Place),
    /// Reading a number out of storage into a register, `S`ths of a unit at a time.
    /// The place holds an NBT scalar; the expression's type is what it is being read
    /// into.
    ReadScaled { place: Place, scale: u32 },
    /// The other direction: a register value written back as an NBT scalar. The
    /// expression's type is the tag it lands as.
    AsNbt { value: Box<Expr>, scale: u32 },
    /// `Some(e)`: the value, written where the option lives.
    Present(Box<Expr>),
    /// `None`: nothing at all. Writing it removes the path.
    Absent,
    /// `o?`: the value, having left the function already if there was none.
    Try(Box<Expr>),
    /// `o.expect("m")`: the value, and in a debug build a report when there was none.
    Expect { value: Box<Expr>, message: String },
    /// `Mob::of(@s)`: a name for an entity's NBT. Never lowered: the binding it goes
    /// into is an alias, and the fields are what get read.
    View(Place),
    /// `nbt!({ hp: 20 })`: a compound written out and checked against the type it is
    /// going into. Already SNBT, so it costs one `set value`.
    Nbt(String),
    /// `s.slice(1..3)`: a piece of a string, taken by `data modify ... set string`.
    /// Both bounds are known while compiling.
    Slice { place: Place, start: Option<i32>, end: Option<i32> },
}

#[derive(Debug, Clone, PartialEq, Eq)]
pub enum Attr {
    Tick,
    Load,
    /// `#[test]`: a function `mwl test` runs. Called with no executor, like a tag, and
    /// left out of a release build.
    Test,
    Inline,
    NoInline,
    /// What execution context this function requires of its caller.
    Ctx(Vec<Ctx>),
}

impl Attr {
    pub open spec fn view(&self) -> model::Attr {
        match self {
            Attr::Tick => model::Attr::Tick,
            Attr::Load => model::Attr::Load,
            Attr::Test => model::Attr::Test,
            Attr::Inline => model::Attr::Inline,
            Attr::NoInline => model::Attr::NoInline,
            Attr::Ctx(kinds) => model::Attr::Ctx(kinds@),
        }
    }

    pub(crate) fn parse(name: &str) -> (r: Option<Attr>)
        ensures
            attr_opt_view(r) == attr_named(name@),
    {
        if same(name, "tick") {
            Some(Attr::Tick)
        } else if same(name, "load") {
            Some(Attr::Load)
        } else if same(name, "test") {
            Some(Attr::Test)
        } else if same(name, "inline") {
            Some(Attr::Inline)
        } else if same(name, "no_inline") {
            Some(Attr::NoInline)
        } else {
            None
        }
    }
}

pub open spec fn attr_named(name: Seq<char>) -> Option<model::Attr> {
    if name == "tick"@ {
        Some(model::Attr::Tick)
    } else if name == "load"@ {
        Some(model::Attr::Load)
    } else if name == "test"@ {
        Some(model::Attr::Test)
    } else if name == "inline"@ {
        Some(model::Attr::Inline)
    } else if name == "no_inline"@ {
        Some(model::Attr::NoInline)
    } else {
        None
    }
}

/// Attributes the language will have but does not act on yet. Named so the diagnostic
/// can say "not implemented" rather than "unknown", which is a different problem.
pub open spec fn is_planned_attr(name: Seq<char>) -> bool {
    name == "score"@ || name == "storage"@ || name == "nbt"@ || name == "unroll"@ || name
        == "derive"@
}

pub(crate) fn planned_attr(name: &str) -> (r: bool)
    ensures
        r == is_planned_attr(name@),
{
    same(name, "score") || same(name, "storage") || same(name, "nbt") || same(name, "unroll")
        || same(name, "derive")
}

/// A kind of execution context. `dimension` is absent because there is no way to enter
/// one yet, and a requirement nothing can satisfy is not a requirement.
#[derive(Debug, Clone, Copy, PartialEq, Eq, PartialOrd, Ord, Structural)]
pub enum Ctx {
    Entity,
    Position,
}

pub open spec fn ctx_named(name: Seq<char>) -> Option<Ctx> {
    if name == "entity"@ {
        Some(Ctx::Entity)
    } else if name == "position"@ {
        Some(Ctx::Position)
    } else {
        None
    }
}

impl Ctx {
    pub(crate) fn parse(name: &str) -> (r: Option<Ctx>)
        ensures
            r == ctx_named(name@),
    {
        if same(name, "entity") {
            Some(Ctx::Entity)
        } else if same(name, "position") {
            Some(Ctx::Position)
        } else {
            None
        }
    }

    pub open spec fn name_text(self) -> Seq<char> {
        match self {
            Ctx::Entity => "entity"@,
            Ctx::Position => "position"@,
        }
    }

    pub fn name(&self) -> (r: &'static str)
        ensures
            r@ == self.name_text(),
    {
        match self {
            Ctx::Entity => "entity",
            Ctx::Position => "position",
        }
    }
}

// What expressions, places and statements say.

impl Component {
    #[verifier::opaque]
    pub open spec fn view(&self) -> model::Component
        decreases self,
    {
        model::Component {
            members: self.members@,
            extra: Seq::new(
                self.extra@.len(),
                |i: int|
                    if 0 <= i < self.extra@.len() {
                        self.extra@[i].view()
                    } else {
                        arbitrary()
                    },
            ),
        }
    }

    pub proof fn unfold(&self)
        ensures
            self@ == (model::Component {
                members: self.members@,
                extra: components_view(self.extra@),
            }),
    {
        reveal(Component::view);
        assert(self@.extra =~= components_view(self.extra@));
    }
}

impl Default for Component {
    /// Nothing to show.
    fn default() -> (r: Component)
        ensures
            r@ == (model::Component { members: seq![], extra: seq![] }),
    {
        let r = Component { members: TextMap::new(), extra: Vec::new() };
        proof {
            r.unfold();
            assert(components_view(r.extra@) =~= seq![]);
        }
        r
    }
}

impl Step {
    #[verifier::opaque]
    pub open spec fn view(&self) -> model::Step
        decreases self,
    {
        match self {
            Step::Field(name) => model::Step::Field(name@),
            Step::Index(index) => model::Step::Index(*index),
            Step::At(index) => model::Step::At(Box::new(index.view())),
        }
    }

    pub proof fn unfold(&self)
        ensures
            self@ == match self {
                Step::Field(name) => model::Step::Field(name@),
                Step::Index(index) => model::Step::Index(*index),
                Step::At(index) => model::Step::At(Box::new(index@)),
            },
    {
        reveal(Step::view);
    }
}

impl Place {
    #[verifier::opaque]
    pub open spec fn view(&self) -> model::Place
        decreases self,
    {
        model::Place {
            root: self.root@,
            steps: Seq::new(
                self.steps@.len(),
                |i: int|
                    if 0 <= i < self.steps@.len() {
                        self.steps@[i].view()
                    } else {
                        arbitrary()
                    },
            ),
            ty: self.ty,
            tag: self.tag,
            mutable: self.mutable,
            via: self.via@,
        }
    }

    /// What a place is, one level deep.
    pub proof fn unfold(&self)
        ensures
            self@ == (model::Place {
                root: self.root@,
                steps: steps_view(self.steps@),
                ty: self.ty,
                tag: self.tag,
                mutable: self.mutable,
                via: self.via@,
            }),
    {
        reveal(Place::view);
        reveal(Step::view);
        assert(self@.steps =~= steps_view(self.steps@));
    }
}

impl Expr {
    pub open spec fn view(&self) -> model::Expr
        decreases self,
    {
        model::Expr { kind: self.kind.view(), ty: self.ty, span: self.span }
    }

    /// What an expression is, one level deep.
    pub proof fn unfold(&self)
        ensures
            self@ == (model::Expr { kind: self.kind.shallow(), ty: self.ty, span: self.span }),
            self.kind@ == self.kind.shallow(),
    {
        self.kind.unfold();
        reveal(ExprKind::view);
    }

    /// An expression of that kind.
    pub(crate) fn of(kind: ExprKind, ty: Type, span: Span) -> (r: Expr)
        ensures
            r@ == (model::Expr { kind: kind.shallow(), ty, span }),
            r.ty == ty,
            r.span == span,
    {
        let r = Expr { kind, ty, span };
        proof {
            r.unfold();
        }
        r
    }
}

impl ExprKind {
    #[verifier::opaque]
    pub open spec fn view(&self) -> model::Kind
        decreases self,
    {
        match self {
            ExprKind::Int(n) => model::Kind::Int(*n),
            ExprKind::Bool(b) => model::Kind::Bool(*b),
            ExprKind::Str(text) => model::Kind::Str(text@),
            ExprKind::Local(local) => model::Kind::Local(*local),
            ExprKind::Unary(op, operand) => model::Kind::Unary(*op, Box::new(operand.view())),
            ExprKind::Binary(op, lhs, rhs) => model::Kind::Binary(
                *op,
                Box::new(lhs.view()),
                Box::new(rhs.view()),
            ),
            ExprKind::Call { callee, args } => model::Kind::Call(
                *callee,
                Seq::new(
                    args@.len(),
                    |i: int|
                        if 0 <= i < args@.len() {
                            args@[i].view()
                        } else {
                            arbitrary()
                        },
                ),
            ),
            ExprKind::Selector(text) => model::Kind::Selector(text@),
            ExprKind::Block { at, id } => model::Kind::Block(at@, id@),
            ExprKind::Component(component) => model::Kind::Component(component@),
            ExprKind::Resource(text) => model::Kind::Resource(text@),
            ExprKind::Pos(text) => model::Kind::Pos(text@),
            ExprKind::Command(text) => model::Kind::Command(text@),
            ExprKind::Struct { id, fields } => model::Kind::Struct(
                *id,
                Seq::new(
                    fields@.len(),
                    |i: int|
                        if 0 <= i < fields@.len() {
                            fields@[i].view()
                        } else {
                            arbitrary()
                        },
                ),
            ),
            ExprKind::Field(place) => model::Kind::Field(place.view()),
            ExprKind::Enum { id, variant, fields } => model::Kind::Enum(
                *id,
                *variant,
                Seq::new(
                    fields@.len(),
                    |i: int|
                        if 0 <= i < fields@.len() {
                            fields@[i].view()
                        } else {
                            arbitrary()
                        },
                ),
            ),
            ExprKind::List { elem, values } => model::Kind::List(
                *elem,
                Seq::new(
                    values@.len(),
                    |i: int|
                        if 0 <= i < values@.len() {
                            values@[i].view()
                        } else {
                            arbitrary()
                        },
                ),
            ),
            ExprKind::Len(place) => model::Kind::Len(place.view()),
            ExprKind::ReadScaled { place, scale } => model::Kind::ReadScaled(
                place.view(),
                *scale,
            ),
            ExprKind::AsNbt { value, scale } => model::Kind::AsNbt(
                Box::new(value.view()),
                *scale,
            ),
            ExprKind::Present(value) => model::Kind::Present(Box::new(value.view())),
            ExprKind::Absent => model::Kind::Absent,
            ExprKind::Try(value) => model::Kind::Try(Box::new(value.view())),
            ExprKind::Expect { value, message } => model::Kind::Expect(
                Box::new(value.view()),
                message@,
            ),
            ExprKind::View(place) => model::Kind::View(place.view()),
            ExprKind::Nbt(text) => model::Kind::Nbt(text@),
            ExprKind::Slice { place, start, end } => model::Kind::Slice(
                place.view(),
                *start,
                *end,
            ),
        }
    }

    /// What the kind of an expression is, one level deep.
    pub open spec fn shallow(self) -> model::Kind {
        match self {
            ExprKind::Int(n) => model::Kind::Int(n),
            ExprKind::Bool(b) => model::Kind::Bool(b),
            ExprKind::Str(text) => model::Kind::Str(text@),
            ExprKind::Local(local) => model::Kind::Local(local),
            ExprKind::Unary(op, operand) => model::Kind::Unary(op, Box::new(operand@)),
            ExprKind::Binary(op, lhs, rhs) => model::Kind::Binary(
                op,
                Box::new(lhs@),
                Box::new(rhs@),
            ),
            ExprKind::Call { callee, args } => model::Kind::Call(callee, exprs_view(args@)),
            ExprKind::Selector(text) => model::Kind::Selector(text@),
            ExprKind::Block { at, id } => model::Kind::Block(at@, id@),
            ExprKind::Component(component) => model::Kind::Component(component@),
            ExprKind::Resource(text) => model::Kind::Resource(text@),
            ExprKind::Pos(text) => model::Kind::Pos(text@),
            ExprKind::Command(text) => model::Kind::Command(text@),
            ExprKind::Struct { id, fields } => model::Kind::Struct(id, exprs_view(fields@)),
            ExprKind::Field(place) => model::Kind::Field(place@),
            ExprKind::Enum { id, variant, fields } => model::Kind::Enum(
                id,
                variant,
                exprs_view(fields@),
            ),
            ExprKind::List { elem, values } => model::Kind::List(elem, exprs_view(values@)),
            ExprKind::Len(place) => model::Kind::Len(place@),
            ExprKind::ReadScaled { place, scale } => model::Kind::ReadScaled(place@, scale),
            ExprKind::AsNbt { value, scale } => model::Kind::AsNbt(Box::new(value@), scale),
            ExprKind::Present(value) => model::Kind::Present(Box::new(value@)),
            ExprKind::Absent => model::Kind::Absent,
            ExprKind::Try(value) => model::Kind::Try(Box::new(value@)),
            ExprKind::Expect { value, message } => model::Kind::Expect(
                Box::new(value@),
                message@,
            ),
            ExprKind::View(place) => model::Kind::View(place@),
            ExprKind::Nbt(text) => model::Kind::Nbt(text@),
            ExprKind::Slice { place, start, end } => model::Kind::Slice(place@, start, end),
        }
    }

    pub proof fn unfold(&self)
        ensures
            self@ == self.shallow(),
    {
        reveal(ExprKind::view);
        reveal(Place::view);
        match *self {
            ExprKind::Call { callee, args } => assert(self@->Call_1 =~= exprs_view(args@)),
            ExprKind::Struct { id, fields } => assert(self@->Struct_1 =~= exprs_view(fields@)),
            ExprKind::Enum { id, variant, fields } => assert(self@->Enum_2 =~= exprs_view(
                fields@,
            )),
            ExprKind::List { elem, values } => assert(self@->List_1 =~= exprs_view(values@)),
            _ => {},
        }
    }
}

impl Arm {
    #[verifier::opaque]
    pub open spec fn view(&self) -> model::Arm
        decreases self,
    {
        model::Arm {
            test: self.test,
            path: self.path@,
            bindings: bindings_view(self.bindings@),
            body: Seq::new(
                self.body@.len(),
                |i: int|
                    if 0 <= i < self.body@.len() {
                        self.body@[i].view()
                    } else {
                        arbitrary()
                    },
            ),
        }
    }

    pub proof fn unfold(&self)
        ensures
            self@ == (model::Arm {
                test: self.test,
                path: self.path@,
                bindings: bindings_view(self.bindings@),
                body: stmts_view(self.body@),
            }),
    {
        reveal(Arm::view);
        reveal(Stmt::view);
        assert(self@.body =~= stmts_view(self.body@));
    }
}

impl Stmt {
    #[verifier::opaque]
    pub open spec fn view(&self) -> model::Stmt
        decreases self,
    {
        match self {
            Stmt::Raw(raw) => model::Stmt::Raw(raw@),
            Stmt::If { cond, taken, otherwise, inline, span } => model::Stmt::If(
                cond@,
                Seq::new(
                    taken@.len(),
                    |i: int|
                        if 0 <= i < taken@.len() {
                            taken@[i].view()
                        } else {
                            arbitrary()
                        },
                ),
                match otherwise {
                    Some(branch) => Some(
                        Seq::new(
                            branch@.len(),
                            |i: int|
                                if 0 <= i < branch@.len() {
                                    branch@[i].view()
                                } else {
                                    arbitrary()
                                },
                        ),
                    ),
                    None => None,
                },
                *inline,
                *span,
            ),
            Stmt::Loop { cond, body, inline, span } => model::Stmt::Loop(
                expr_opt_view(*cond),
                Seq::new(
                    body@.len(),
                    |i: int|
                        if 0 <= i < body@.len() {
                            body@[i].view()
                        } else {
                            arbitrary()
                        },
                ),
                *inline,
                *span,
            ),
            Stmt::CallFor { callee, args, span } => model::Stmt::CallFor(
                *callee,
                exprs_view(args@),
                *span,
            ),
            Stmt::Match { scrutinee, arms, span } => model::Stmt::Match(
                scrutinee@,
                Seq::new(
                    arms@.len(),
                    |i: int|
                        if 0 <= i < arms@.len() {
                            arms@[i].view()
                        } else {
                            arbitrary()
                        },
                ),
                *span,
            ),
            Stmt::ForVec { source, binding, body, span } => model::Stmt::ForVec(
                source@,
                *binding,
                Seq::new(
                    body@.len(),
                    |i: int|
                        if 0 <= i < body@.len() {
                            body@[i].view()
                        } else {
                            arbitrary()
                        },
                ),
                *span,
            ),
            Stmt::Context { kind, selector, body, inline, span } => model::Stmt::Context(
                *kind,
                selector@,
                Seq::new(
                    body@.len(),
                    |i: int|
                        if 0 <= i < body@.len() {
                            body@[i].view()
                        } else {
                            arbitrary()
                        },
                ),
                *inline,
                *span,
            ),
            Stmt::Break(span) => model::Stmt::Break(*span),
            Stmt::Continue(span) => model::Stmt::Continue(*span),
            Stmt::Return { value, span } => model::Stmt::Return(expr_opt_view(*value), *span),
            Stmt::Let { local, value, span } => model::Stmt::Let(*local, value@, *span),
            Stmt::Assert { cond, message, span } => model::Stmt::Assert(
                cond@,
                crate::syntax::ast::text_opt_view(*message),
                *span,
            ),
            Stmt::Push { place, value, span } => model::Stmt::Push(place@, value@, *span),
            Stmt::Assign { place, op, value, span } => model::Stmt::Assign(
                place@,
                *op,
                value@,
                *span,
            ),
        }
    }

    /// What a statement is, one level deep.
    #[verifier::spinoff_prover]
    pub proof fn unfold(&self)
        ensures
            self@ == match *self {
                Stmt::Raw(raw) => model::Stmt::Raw(raw@),
                Stmt::If { cond, taken, otherwise, inline, span } => model::Stmt::If(
                    cond@,
                    stmts_view(taken@),
                    stmts_opt_view(otherwise),
                    inline,
                    span,
                ),
                Stmt::Loop { cond, body, inline, span } => model::Stmt::Loop(
                    expr_opt_view(cond),
                    stmts_view(body@),
                    inline,
                    span,
                ),
                Stmt::CallFor { callee, args, span } => model::Stmt::CallFor(
                    callee,
                    exprs_view(args@),
                    span,
                ),
                Stmt::Match { scrutinee, arms, span } => model::Stmt::Match(
                    scrutinee@,
                    arms_view(arms@),
                    span,
                ),
                Stmt::ForVec { source, binding, body, span } => model::Stmt::ForVec(
                    source@,
                    binding,
                    stmts_view(body@),
                    span,
                ),
                Stmt::Context { kind, selector, body, inline, span } => model::Stmt::Context(
                    kind,
                    selector@,
                    stmts_view(body@),
                    inline,
                    span,
                ),
                Stmt::Break(span) => model::Stmt::Break(span),
                Stmt::Continue(span) => model::Stmt::Continue(span),
                Stmt::Return { value, span } => model::Stmt::Return(expr_opt_view(value), span),
                Stmt::Let { local, value, span } => model::Stmt::Let(local, value@, span),
                Stmt::Assert { cond, message, span } => model::Stmt::Assert(
                    cond@,
                    crate::syntax::ast::text_opt_view(message),
                    span,
                ),
                Stmt::Push { place, value, span } => model::Stmt::Push(place@, value@, span),
                Stmt::Assign { place, op, value, span } => model::Stmt::Assign(
                    place@,
                    op,
                    value@,
                    span,
                ),
            },
    {
        reveal(Stmt::view);
        reveal(Arm::view);
        match *self {
            Stmt::If { cond, taken, otherwise, inline, span } => {
                assert(self@->If_1 =~= stmts_view(taken@));
                if let Some(branch) = otherwise {
                    assert(self@->If_2->0 =~= stmts_view(branch@));
                }
            },
            Stmt::Loop { cond, body, inline, span } => assert(self@->Loop_1 =~= stmts_view(
                body@,
            )),
            Stmt::Match { scrutinee, arms, span } => assert(self@->Match_1 =~= arms_view(arms@)),
            Stmt::ForVec { source, binding, body, span } => assert(self@->ForVec_2
                =~= stmts_view(body@)),
            Stmt::Context { kind, selector, body, inline, span } => assert(self@->Context_2
                =~= stmts_view(body@)),
            _ => {},
        }
    }
}

// What lists and optional parts say.

pub open spec fn generics_view(v: Seq<GenericDef>) -> Seq<model::Generic> {
    Seq::new(v.len(), |i: int| v[i]@)
}

pub open spec fn fields_view(v: Seq<Field>) -> Seq<model::Field> {
    Seq::new(v.len(), |i: int| v[i]@)
}

pub open spec fn variants_view(v: Seq<Variant>) -> Seq<model::Variant> {
    Seq::new(v.len(), |i: int| v[i]@)
}

pub open spec fn components_view(v: Seq<Component>) -> Seq<model::Component> {
    Seq::new(v.len(), |i: int| v[i]@)
}

pub open spec fn steps_view(v: Seq<Step>) -> Seq<model::Step> {
    Seq::new(v.len(), |i: int| v[i]@)
}

pub open spec fn exprs_view(v: Seq<Expr>) -> Seq<model::Expr> {
    Seq::new(v.len(), |i: int| v[i]@)
}

pub open spec fn attrs_view(v: Seq<Attr>) -> Seq<model::Attr> {
    Seq::new(v.len(), |i: int| v[i]@)
}

pub open spec fn locals_view(v: Seq<Local>) -> Seq<model::Local> {
    Seq::new(v.len(), |i: int| v[i]@)
}

pub open spec fn parts_view(v: Seq<RawPart>) -> Seq<model::RawPart> {
    Seq::new(v.len(), |i: int| v[i]@)
}

pub open spec fn bindings_view(v: Seq<Binding>) -> Seq<model::Binding> {
    Seq::new(v.len(), |i: int| v[i]@)
}

pub open spec fn arms_view(v: Seq<Arm>) -> Seq<model::Arm> {
    Seq::new(v.len(), |i: int| v[i]@)
}

pub open spec fn stmts_view(v: Seq<Stmt>) -> Seq<model::Stmt> {
    Seq::new(v.len(), |i: int| v[i]@)
}

pub open spec fn references_view(v: Seq<Reference>) -> Seq<model::Reference> {
    Seq::new(v.len(), |i: int| v[i]@)
}

pub open spec fn functions_view(v: Seq<Function>) -> Seq<model::Function> {
    Seq::new(v.len(), |i: int| v[i]@)
}

pub open spec fn templates_view(v: Seq<StructTemplate>) -> Seq<model::Template> {
    Seq::new(v.len(), |i: int| v[i]@)
}

pub open spec fn structs_view(v: Seq<StructDef>) -> Seq<model::StructDef> {
    Seq::new(v.len(), |i: int| v[i]@)
}

pub open spec fn enums_view(v: Seq<EnumDef>) -> Seq<model::EnumDef> {
    Seq::new(v.len(), |i: int| v[i]@)
}

pub open spec fn attr_opt_view(o: Option<Attr>) -> Option<model::Attr> {
    match o {
        Some(x) => Some(x@),
        None => None,
    }
}

pub open spec fn expr_opt_view(o: Option<Expr>) -> Option<model::Expr> {
    match o {
        Some(x) => Some(x@),
        None => None,
    }
}

pub open spec fn place_opt_view(o: Option<Place>) -> Option<model::Place> {
    match o {
        Some(x) => Some(x@),
        None => None,
    }
}

pub open spec fn stmt_opt_view(o: Option<Stmt>) -> Option<model::Stmt> {
    match o {
        Some(x) => Some(x@),
        None => None,
    }
}

pub open spec fn stmts_opt_view(o: Option<Vec<Stmt>>) -> Option<Seq<model::Stmt>> {
    match o {
        Some(x) => Some(stmts_view(x@)),
        None => None,
    }
}

pub open spec fn exprs_opt_view(o: Option<Vec<Expr>>) -> Option<Seq<model::Expr>> {
    match o {
        Some(x) => Some(exprs_view(x@)),
        None => None,
    }
}

pub open spec fn component_opt_view(o: Option<Component>) -> Option<model::Component> {
    match o {
        Some(x) => Some(x@),
        None => None,
    }
}

pub open spec fn raw_opt_view(o: Option<RawCommand>) -> Option<model::RawCommand> {
    match o {
        Some(x) => Some(x@),
        None => None,
    }
}

} // verus!

//! What the high-level representation says, as mathematical values.

use vstd::prelude::*;

use crate::hir::{
    ArmTest, ContextKind, Ctx, EnumId, FnId, Inline, LocalId, NbtTag, RefKind, StructId, Type,
};
use crate::syntax::ast::{BinaryOp, UnaryOp};
use crate::syntax::lexer::Span;

verus! {

pub struct Generic {
    pub name: Seq<char>,
    pub is_const: bool,
}

pub struct Field {
    pub name: Seq<char>,
    pub nbt: Seq<char>,
    pub ty: Type,
    pub tag: Option<NbtTag>,
}

pub struct Template {
    pub name: Seq<char>,
    pub generics: Seq<Generic>,
    pub fields: Seq<Field>,
    pub span: Span,
}

pub struct StructDef {
    pub id: StructId,
    pub name: Seq<char>,
    pub fields: Seq<Field>,
    pub span: Span,
    pub from: Option<(usize, Seq<Type>)>,
}

pub struct Variant {
    pub name: Seq<char>,
    pub fields: Seq<Field>,
}

pub struct EnumDef {
    pub id: EnumId,
    pub name: Seq<char>,
    pub variants: Seq<Variant>,
    pub span: Span,
}

/// Every type a program defines, and the names they answer to.
pub struct Types {
    pub structs: Seq<StructDef>,
    pub enums: Seq<EnumDef>,
    pub templates: Seq<Template>,
    pub by_name: Seq<(Seq<char>, Type)>,
    pub template_by_name: Seq<(Seq<char>, usize)>,
    pub vecs: Seq<Type>,
    pub options: Seq<Type>,
}

pub enum Root {
    Local(LocalId),
    Entity(Seq<char>),
    Lent(Seq<char>, Seq<char>, bool),
}

pub enum Step {
    Field(Seq<char>),
    Index(i32),
    At(Box<Expr>),
}

pub struct Place {
    pub root: Root,
    pub steps: Seq<Step>,
    pub ty: Type,
    pub tag: Option<NbtTag>,
    pub mutable: bool,
    pub via: Seq<char>,
}

/// A chat component: its members in the order of their keys, and what is appended.
pub struct Component {
    pub members: Seq<(Seq<char>, Seq<char>)>,
    pub extra: Seq<Component>,
}

pub struct Expr {
    pub kind: Kind,
    pub ty: Type,
    pub span: Span,
}

pub enum Kind {
    Int(i32),
    Bool(bool),
    Str(Seq<char>),
    Local(LocalId),
    Unary(UnaryOp, Box<Expr>),
    Binary(BinaryOp, Box<Expr>, Box<Expr>),
    Call(FnId, Seq<Expr>),
    Selector(Seq<char>),
    Block(Seq<char>, Seq<char>),
    Component(Component),
    Resource(Seq<char>),
    Pos(Seq<char>),
    Command(Seq<char>),
    Struct(StructId, Seq<Expr>),
    Field(Place),
    Enum(EnumId, u32, Seq<Expr>),
    List(Type, Seq<Expr>),
    Len(Place),
    ReadScaled(Place, u32),
    AsNbt(Box<Expr>, u32),
    Present(Box<Expr>),
    Absent,
    Try(Box<Expr>),
    Expect(Box<Expr>, Seq<char>),
    View(Place),
    Nbt(Seq<char>),
    Slice(Place, Option<i32>, Option<i32>),
}

pub struct Reference {
    pub id: Seq<char>,
    pub kind: RefKind,
    pub span: Span,
}

pub enum Attr {
    Tick,
    Load,
    Test,
    Inline,
    NoInline,
    Ctx(Seq<Ctx>),
}

pub struct Local {
    pub id: LocalId,
    pub name: Seq<char>,
    pub ty: Type,
    pub mutable: bool,
}

pub struct Selector {
    pub text: Seq<char>,
    pub span: Span,
}

pub enum RawPart {
    Lit(Seq<char>),
    Value(Expr),
}

pub struct RawCommand {
    pub parts: Seq<RawPart>,
    pub span: Span,
}

pub enum Scrutinee {
    Place(Place),
    Outcome(Expr),
}

pub struct Binding {
    pub local: LocalId,
    pub nbt: Seq<char>,
    pub ty: Type,
    pub tag: Option<NbtTag>,
}

pub struct Arm {
    pub test: ArmTest,
    pub path: Seq<char>,
    pub bindings: Seq<Binding>,
    pub body: Seq<Stmt>,
}

pub enum Stmt {
    Raw(RawCommand),
    If(Expr, Seq<Stmt>, Option<Seq<Stmt>>, Inline, Span),
    Loop(Option<Expr>, Seq<Stmt>, Inline, Span),
    CallFor(FnId, Seq<Expr>, Span),
    Match(Scrutinee, Seq<Arm>, Span),
    ForVec(Place, LocalId, Seq<Stmt>, Span),
    Context(ContextKind, Selector, Seq<Stmt>, Inline, Span),
    Break(Span),
    Continue(Span),
    Return(Option<Expr>, Span),
    Let(LocalId, Expr, Span),
    Assert(Expr, Option<Seq<char>>, Span),
    Push(Place, Expr, Span),
    Assign(Place, Option<BinaryOp>, Expr, Span),
}

pub struct Function {
    pub id: FnId,
    pub name: Seq<char>,
    pub path: Seq<char>,
    pub attrs: Seq<Attr>,
    pub params: Seq<LocalId>,
    pub ret: Option<Type>,
    pub locals: Seq<Local>,
    pub body: Seq<Stmt>,
    pub span: Span,
}

pub struct Hir {
    pub functions: Seq<Function>,
    pub types: Types,
    pub references: Seq<Reference>,
}

} // verus!

//! What tokens, syntax trees and faults say, as mathematical values.
//!
//! Every executable type of this module's siblings has its counterpart here, with
//! sequences in place of vectors and strings. The contracts of the lexer, the parser
//! and the stages behind them are stated over these.

use vstd::prelude::*;

use crate::syntax::ast::{BinaryOp, Borrow, ContextKind, Receiver, UnaryOp};
use crate::syntax::lexer::{Keyword, Punct, Span};

verus! {

/// A problem, and where it is.
pub struct Fault {
    pub span: Span,
    pub message: Seq<char>,
}

pub struct Token {
    pub kind: TokenKind,
    pub span: Span,
}

pub enum TokenKind {
    Ident(Seq<char>),
    Keyword(Keyword),
    Reserved(Seq<char>),
    Int(i32),
    Str(Seq<char>),
    Selector(Seq<char>),
    Resource(Seq<char>),
    Punct(Punct),
}

pub struct Ident {
    pub name: Seq<char>,
    pub span: Span,
}

pub struct Attribute {
    pub tokens: Seq<Token>,
    pub span: Span,
}

pub struct Item {
    pub attrs: Seq<Attribute>,
    pub kind: ItemKind,
    pub span: Span,
}

pub enum ItemKind {
    Fn(FnItem),
    Impl(Ident, Seq<Item>),
    Struct(StructItem),
    Enum(EnumItem),
}

pub struct EnumItem {
    pub name: Ident,
    pub variants: Seq<VariantDef>,
}

pub struct VariantDef {
    pub name: Ident,
    pub fields: Seq<FieldDef>,
    pub span: Span,
}

pub struct StructItem {
    pub name: Ident,
    pub generics: Seq<GenericParam>,
    pub fields: Seq<FieldDef>,
}

pub struct FieldDef {
    pub attrs: Seq<Attribute>,
    pub name: Ident,
    pub ty: TypeName,
    pub span: Span,
}

pub struct FnItem {
    pub name: Ident,
    pub generics: Seq<GenericParam>,
    pub receiver: Option<Receiver>,
    pub params: Seq<Param>,
    pub ret: Option<TypeName>,
    pub body: Block,
}

pub struct Param {
    pub name: Ident,
    pub ty: TypeName,
    pub span: Span,
}

pub struct GenericParam {
    pub name: Ident,
    pub is_const: bool,
}

pub enum ScaleArg {
    Int(i32, Span),
    Param(Ident),
}

pub struct TypeName {
    pub borrow: Option<Borrow>,
    pub name: Seq<char>,
    pub args: Seq<TypeName>,
    pub scale: Option<ScaleArg>,
    pub span: Span,
}

pub struct Block {
    pub stmts: Seq<Stmt>,
    pub span: Span,
}

pub enum Stmt {
    Let(LetStmt),
    Expr(Expr),
    If(IfStmt),
    Loop(LoopStmt),
    Context(ContextStmt),
    Match(MatchStmt),
    Break(Span),
    Continue(Span),
    Return(Option<Expr>, Span),
}

pub struct LetStmt {
    pub mutable: bool,
    pub name: Ident,
    pub ty: Option<TypeName>,
    pub value: Expr,
    pub span: Span,
}

pub struct IfStmt {
    pub attrs: Seq<Attribute>,
    pub cond: Expr,
    pub taken: Block,
    pub otherwise: Option<Box<Else>>,
    pub span: Span,
}

pub enum Else {
    Block(Block),
    If(IfStmt),
}

pub struct LoopStmt {
    pub attrs: Seq<Attribute>,
    pub cond: Option<Expr>,
    pub body: Block,
    pub span: Span,
}

pub struct ContextStmt {
    pub attrs: Seq<Attribute>,
    pub kind: ContextKind,
    pub binding: Option<Ident>,
    pub selector: Expr,
    pub body: Block,
    pub span: Span,
}

pub struct MatchStmt {
    pub scrutinee: Expr,
    pub arms: Seq<MatchArm>,
    pub span: Span,
}

pub struct MatchArm {
    pub pattern: Pattern,
    pub body: Block,
    pub span: Span,
}

pub enum Pattern {
    Variant(Ident, Ident, Seq<Ident>, Span),
    Present(Ident, Span),
    Absent(Span),
    Wildcard(Span),
}

pub struct FieldInit {
    pub name: Ident,
    pub value: Expr,
    pub span: Span,
}

pub struct StructLit {
    pub name: Ident,
    pub variant: Option<Ident>,
    pub fields: Seq<FieldInit>,
    pub span: Span,
}

pub enum Expr {
    Int(i32, Span),
    Bool(bool, Span),
    Str(Seq<char>, Span),
    Path(Ident),
    Unary(UnaryOp, Box<Expr>, Span),
    Binary(BinaryOp, Box<Expr>, Box<Expr>, Span),
    Assign(Option<BinaryOp>, Box<Expr>, Box<Expr>, Span),
    Call(Ident, Seq<Expr>, Span),
    Selector(Seq<char>, Span),
    Resource(Seq<char>, Span),
    Macro(Ident, Seq<Token>, Span),
    Struct(StructLit),
    Field(Box<Expr>, Ident, Span),
    List(Seq<Expr>, Span),
    Index(Box<Expr>, Box<Expr>, Span),
    Method(Box<Expr>, Ident, Seq<Expr>, Span),
    Borrow(Borrow, Box<Expr>, Span),
    Fix(ScaleArg, Box<Expr>, Span),
    Range(Option<Box<Expr>>, Option<Box<Expr>>, Span),
    Try(Box<Expr>, Span),
    ViewOf(Ident, Box<Expr>, Span),
    Assert(Box<Expr>, Option<Seq<char>>, Span),
    Text(Seq<Expr>, Span),
}

impl Expr {
    /// Where the expression stands.
    #[verifier::opaque]
    pub open spec fn span(self) -> Span {
        match self {
            Expr::Int(_, span) => span,
            Expr::Bool(_, span) => span,
            Expr::Str(_, span) => span,
            Expr::Path(name) => name.span,
            Expr::Unary(_, _, span) => span,
            Expr::Binary(_, _, _, span) => span,
            Expr::Assign(_, _, _, span) => span,
            Expr::Call(_, _, span) => span,
            Expr::Selector(_, span) => span,
            Expr::Resource(_, span) => span,
            Expr::Macro(_, _, span) => span,
            Expr::Struct(lit) => lit.span,
            Expr::Field(_, _, span) => span,
            Expr::List(_, span) => span,
            Expr::Index(_, _, span) => span,
            Expr::Method(_, _, _, span) => span,
            Expr::Borrow(_, _, span) => span,
            Expr::Fix(_, _, span) => span,
            Expr::Range(_, _, span) => span,
            Expr::Try(_, span) => span,
            Expr::ViewOf(_, _, span) => span,
            Expr::Assert(_, _, span) => span,
            Expr::Text(_, span) => span,
        }
    }
}

impl Pattern {
    pub open spec fn span(self) -> Span {
        match self {
            Pattern::Variant(_, _, _, span) => span,
            Pattern::Present(_, span) => span,
            Pattern::Absent(span) => span,
            Pattern::Wildcard(span) => span,
        }
    }
}

impl ScaleArg {
    pub open spec fn span(self) -> Span {
        match self {
            ScaleArg::Int(_, span) => span,
            ScaleArg::Param(name) => name.span,
        }
    }
}

} // verus!

//! The abstract syntax tree.
//!
//! Every node carries a span, because diagnostics and the `# src/foo.mwl:42` comments
//! in debug output both need one. Every type's `view` is its counterpart in `model`.

use vstd::prelude::*;

use crate::syntax::lexer::{tokens_view, Span, Token};
use crate::syntax::model;

verus! {

#[derive(Debug, PartialEq, Eq)]
pub struct SourceFile {
    pub items: Vec<Item>,
}

impl SourceFile {
    pub open spec fn view(&self) -> Seq<model::Item> {
        items_view(self.items@)
    }
}

#[derive(Debug, PartialEq, Eq)]
pub struct Item {
    pub attrs: Vec<Attribute>,
    pub kind: ItemKind,
    pub span: Span,
}

impl Item {
    pub open spec fn view(&self) -> model::Item
        decreases self,
    {
        model::Item { attrs: attrs_view(self.attrs@), kind: self.kind.view(), span: self.span }
    }
}

#[derive(Debug, PartialEq, Eq)]
pub enum ItemKind {
    Fn(FnItem),
    /// `impl Point { fn bump(&mut self) { .. } }`. Inherent methods only.
    Impl(ImplItem),
    Struct(StructItem),
    Enum(EnumItem),
}

impl ItemKind {
    pub open spec fn view(&self) -> model::ItemKind
        decreases self,
    {
        match self {
            ItemKind::Fn(f) => model::ItemKind::Fn(f@),
            ItemKind::Impl(block) => model::ItemKind::Impl(
                block.ty@,
                Seq::new(
                    block.methods@.len(),
                    |i: int|
                        if 0 <= i < block.methods@.len() {
                            block.methods@[i].view()
                        } else {
                            arbitrary()
                        },
                ),
            ),
            ItemKind::Struct(s) => model::ItemKind::Struct(s@),
            ItemKind::Enum(e) => model::ItemKind::Enum(e@),
        }
    }
}

/// `enum State { Idle, Chasing { target: i32 } }`.
#[derive(Debug, PartialEq, Eq)]
pub struct EnumItem {
    pub name: Ident,
    pub variants: Vec<VariantDef>,
}

impl EnumItem {
    pub open spec fn view(&self) -> model::EnumItem {
        model::EnumItem { name: self.name@, variants: variants_view(self.variants@) }
    }
}

#[derive(Debug, PartialEq, Eq)]
pub struct VariantDef {
    pub name: Ident,
    /// Empty for a unit variant. Variants name their fields; there is no tuple form.
    pub fields: Vec<FieldDef>,
    pub span: Span,
}

impl VariantDef {
    pub open spec fn view(&self) -> model::VariantDef {
        model::VariantDef { name: self.name@, fields: fields_view(self.fields@), span: self.span }
    }
}

#[derive(Debug, PartialEq, Eq)]
pub struct ImplItem {
    pub ty: Ident,
    pub methods: Vec<Item>,
}

/// `struct Point { x: i32, y: i32 }`.
#[derive(Debug, PartialEq, Eq)]
pub struct StructItem {
    pub name: Ident,
    /// Type parameters, monomorphised at every use.
    pub generics: Vec<GenericParam>,
    pub fields: Vec<FieldDef>,
}

impl StructItem {
    pub open spec fn view(&self) -> model::StructItem {
        model::StructItem {
            name: self.name@,
            generics: generics_view(self.generics@),
            fields: fields_view(self.fields@),
        }
    }
}

#[derive(Debug, PartialEq, Eq)]
pub struct FieldDef {
    /// `#[nbt(..)]` and friends. Carried so an unknown one can be reported.
    pub attrs: Vec<Attribute>,
    pub name: Ident,
    pub ty: TypeName,
    pub span: Span,
}

impl FieldDef {
    pub open spec fn view(&self) -> model::FieldDef {
        model::FieldDef {
            attrs: attrs_view(self.attrs@),
            name: self.name@,
            ty: self.ty@,
            span: self.span,
        }
    }
}

#[derive(Debug, PartialEq, Eq)]
pub struct FnItem {
    pub name: Ident,
    pub generics: Vec<GenericParam>,
    /// The receiver, for a method: `&self`, `&mut self` or `self`.
    pub receiver: Option<Receiver>,
    pub params: Vec<Param>,
    pub ret: Option<TypeName>,
    pub body: Block,
}

impl FnItem {
    pub open spec fn view(&self) -> model::FnItem {
        model::FnItem {
            name: self.name@,
            generics: generics_view(self.generics@),
            receiver: self.receiver,
            params: params_view(self.params@),
            ret: type_opt_view(self.ret),
            body: self.body@,
        }
    }
}

#[derive(Debug, Clone, Copy, PartialEq, Eq, Structural)]
pub struct Receiver {
    /// `None` means `self` by value, which is a copy.
    pub borrow: Option<Borrow>,
    pub span: Span,
}

#[derive(Debug, PartialEq, Eq)]
pub struct Param {
    pub name: Ident,
    pub ty: TypeName,
    pub span: Span,
}

impl Param {
    pub open spec fn view(&self) -> model::Param {
        model::Param { name: self.name@, ty: self.ty@, span: self.span }
    }
}

#[derive(Debug, PartialEq, Eq)]
pub struct Block {
    pub stmts: Vec<Stmt>,
    pub span: Span,
}

impl Block {
    pub open spec fn view(&self) -> model::Block
        decreases self,
    {
        model::Block {
            stmts: Seq::new(
                self.stmts@.len(),
                |i: int|
                    if 0 <= i < self.stmts@.len() {
                        self.stmts@[i].view()
                    } else {
                        arbitrary()
                    },
            ),
            span: self.span,
        }
    }
}

#[derive(Debug, PartialEq, Eq)]
pub enum Stmt {
    Let(LetStmt),
    Expr(Expr),
    If(IfStmt),
    /// `while c { .. }` and `loop { .. }`; the latter has no condition.
    Loop(LoopStmt),
    /// `as <sel> { }`, `at <sel> { }`, `positioned <pos> { }` and
    /// `for e in <sel> { }`.
    Context(ContextStmt),
    Match(MatchStmt),
    Break(Span),
    Continue(Span),
    Return { value: Option<Expr>, span: Span },
}

impl Stmt {
    pub open spec fn view(&self) -> model::Stmt
        decreases self,
    {
        match self {
            Stmt::Let(s) => model::Stmt::Let(s@),
            Stmt::Expr(e) => model::Stmt::Expr(e@),
            Stmt::If(s) => model::Stmt::If(s.view()),
            Stmt::Loop(s) => model::Stmt::Loop(s.view()),
            Stmt::Context(s) => model::Stmt::Context(s.view()),
            Stmt::Match(s) => model::Stmt::Match(s.view()),
            Stmt::Break(span) => model::Stmt::Break(*span),
            Stmt::Continue(span) => model::Stmt::Continue(*span),
            Stmt::Return { value, span } => model::Stmt::Return(expr_opt_view(*value), *span),
        }
    }
}

/// `match s { State::Idle => { .. } _ => { .. } }`.
#[derive(Debug, PartialEq, Eq)]
pub struct MatchStmt {
    pub scrutinee: Expr,
    pub arms: Vec<MatchArm>,
    pub span: Span,
}

impl MatchStmt {
    pub open spec fn view(&self) -> model::MatchStmt
        decreases self,
    {
        model::MatchStmt {
            scrutinee: self.scrutinee@,
            arms: Seq::new(
                self.arms@.len(),
                |i: int|
                    if 0 <= i < self.arms@.len() {
                        self.arms@[i].view()
                    } else {
                        arbitrary()
                    },
            ),
            span: self.span,
        }
    }
}

#[derive(Debug, PartialEq, Eq)]
pub struct MatchArm {
    pub pattern: Pattern,
    pub body: Block,
    pub span: Span,
}

impl MatchArm {
    pub open spec fn view(&self) -> model::MatchArm
        decreases self,
    {
        model::MatchArm { pattern: self.pattern@, body: self.body.view(), span: self.span }
    }
}

#[derive(Debug, PartialEq, Eq)]
pub enum Pattern {
    /// `State::Chasing { target }`: the variant, and the payload fields to bind.
    Variant { ty: Ident, variant: Ident, binds: Vec<Ident>, span: Span },
    /// `Some(x)`: built in, because `Option` is.
    Present { bind: Ident, span: Span },
    /// `None`.
    Absent(Span),
    Wildcard(Span),
}

impl Pattern {
    pub open spec fn view(&self) -> model::Pattern {
        match self {
            Pattern::Variant { ty, variant, binds, span } => model::Pattern::Variant(
                ty@,
                variant@,
                idents_view(binds@),
                *span,
            ),
            Pattern::Present { bind, span } => model::Pattern::Present(bind@, *span),
            Pattern::Absent(span) => model::Pattern::Absent(*span),
            Pattern::Wildcard(span) => model::Pattern::Wildcard(*span),
        }
    }

    pub fn span(&self) -> (r: Span)
        ensures
            r == self@.span(),
    {
        match self {
            Pattern::Variant { span, .. } => *span,
            Pattern::Present { span, .. } => *span,
            Pattern::Absent(span) => *span,
            Pattern::Wildcard(span) => *span,
        }
    }
}

#[derive(Debug, PartialEq, Eq)]
pub struct IfStmt {
    pub attrs: Vec<Attribute>,
    pub cond: Expr,
    pub taken: Block,
    pub otherwise: Option<Box<Else>>,
    pub span: Span,
}

impl IfStmt {
    pub open spec fn view(&self) -> model::IfStmt
        decreases self,
    {
        model::IfStmt {
            attrs: attrs_view(self.attrs@),
            cond: self.cond@,
            taken: self.taken.view(),
            otherwise: match self.otherwise {
                Some(branch) => Some(Box::new(branch.view())),
                None => None,
            },
            span: self.span,
        }
    }
}

#[derive(Debug, PartialEq, Eq)]
pub enum Else {
    Block(Block),
    If(IfStmt),
}

impl Else {
    pub open spec fn view(&self) -> model::Else
        decreases self,
    {
        match self {
            Else::Block(block) => model::Else::Block(block.view()),
            Else::If(nested) => model::Else::If(nested.view()),
        }
    }
}

#[derive(Debug, PartialEq, Eq)]
pub struct ContextStmt {
    pub attrs: Vec<Attribute>,
    pub kind: ContextKind,
    /// The binding `for` introduces.
    pub binding: Option<Ident>,
    pub selector: Expr,
    pub body: Block,
    pub span: Span,
}

impl ContextStmt {
    pub open spec fn view(&self) -> model::ContextStmt
        decreases self,
    {
        model::ContextStmt {
            attrs: attrs_view(self.attrs@),
            kind: self.kind,
            binding: ident_opt_view(self.binding),
            selector: self.selector@,
            body: self.body.view(),
            span: self.span,
        }
    }
}

#[derive(Debug, Clone, Copy, PartialEq, Eq, Structural)]
pub enum ContextKind {
    As,
    At,
    For,
    /// `positioned <pos>`: a position with no entity behind it.
    Positioned,
}

#[derive(Debug, PartialEq, Eq)]
pub struct LoopStmt {
    pub attrs: Vec<Attribute>,
    pub cond: Option<Expr>,
    pub body: Block,
    pub span: Span,
}

impl LoopStmt {
    pub open spec fn view(&self) -> model::LoopStmt
        decreases self,
    {
        model::LoopStmt {
            attrs: attrs_view(self.attrs@),
            cond: expr_opt_view(self.cond),
            body: self.body.view(),
            span: self.span,
        }
    }
}

#[derive(Debug, PartialEq, Eq)]
pub struct LetStmt {
    pub mutable: bool,
    pub name: Ident,
    pub ty: Option<TypeName>,
    pub value: Expr,
    pub span: Span,
}

impl LetStmt {
    pub open spec fn view(&self) -> model::LetStmt {
        model::LetStmt {
            mutable: self.mutable,
            name: self.name@,
            ty: type_opt_view(self.ty),
            value: self.value@,
            span: self.span,
        }
    }
}

/// A generic parameter as written: a type, or a `const` one that stands for a scale.
#[derive(Debug, PartialEq, Eq)]
pub struct GenericParam {
    pub name: Ident,
    /// `<const S: i32>`. A const parameter is only ever a scale, so it has no type of
    /// its own to carry.
    pub is_const: bool,
}

impl GenericParam {
    pub open spec fn view(&self) -> model::GenericParam {
        model::GenericParam { name: self.name@, is_const: self.is_const }
    }
}

/// `fix<1000>` / `fix<S>`: the scale of a fixed-point type, and the only const
/// argument the language has.
#[derive(Debug, PartialEq, Eq)]
pub enum ScaleArg {
    Int(IntLit),
    Param(Ident),
}

impl ScaleArg {
    pub open spec fn view(&self) -> model::ScaleArg {
        match self {
            ScaleArg::Int(lit) => model::ScaleArg::Int(lit.value, lit.span),
            ScaleArg::Param(name) => model::ScaleArg::Param(name@),
        }
    }

    pub fn span(&self) -> (r: Span)
        ensures
            r == self@.span(),
    {
        match self {
            ScaleArg::Int(lit) => lit.span,
            ScaleArg::Param(name) => name.span,
        }
    }
}

/// A written type. Resolved to a real type in HIR.
#[derive(Debug, PartialEq, Eq)]
pub struct TypeName {
    /// `&T` / `&mut T`: compile-time only, and legal on a parameter alone.
    pub borrow: Option<Borrow>,
    pub name: String,
    /// `Vec<i32>`: the arguments between the angle brackets.
    pub args: Vec<TypeName>,
    /// `fix<1000>`: the scale, for the one type that takes a const argument.
    pub scale: Option<ScaleArg>,
    pub span: Span,
}

impl TypeName {
    pub open spec fn view(&self) -> model::TypeName
        decreases self,
    {
        model::TypeName {
            borrow: self.borrow,
            name: self.name@,
            args: Seq::new(
                self.args@.len(),
                |i: int|
                    if 0 <= i < self.args@.len() {
                        self.args@[i].view()
                    } else {
                        arbitrary()
                    },
            ),
            scale: scale_opt_view(self.scale),
            span: self.span,
        }
    }
}

/// How something is borrowed. There is no runtime difference; the distinction is what
/// lets a write through a shared borrow be an error.
#[derive(Debug, Clone, Copy, PartialEq, Eq, Structural)]
pub enum Borrow {
    Shared,
    Mutable,
}

#[derive(Debug, PartialEq, Eq)]
pub enum Expr {
    Int(IntLit),
    Bool(BoolLit),
    Str(StrLit),
    /// A reference to a binding.
    Path(Ident),
    Unary(UnaryExpr),
    Binary(BinaryExpr),
    Assign(AssignExpr),
    Call(CallExpr),
    Selector(SelectorLit),
    Resource(ResourceLit),
    Macro(MacroCall),
    Struct(StructLit),
    Field(FieldExpr),
    List(ListLit),
    Index(IndexExpr),
    Method(MethodCall),
    /// `&p` / `&mut p`, which only an argument can be.
    Borrow(BorrowExpr),
    /// `fix::<1000>(1500)`.
    Fix(FixExpr),
    /// `1..3`, which only `slice` takes.
    Range(RangeExpr),
    /// `o?`: the value, or leave the function with nothing.
    Try(TryExpr),
    /// `Mob::of(@s)`: a view of an entity's NBT.
    ViewOf(ViewOfExpr),
    /// `debug_assert!(c, "m")`: a check that only debug builds carry.
    Assert(AssertExpr),
    /// `text!(a, b)`: a chat component put together while compiling.
    Text(TextMacro),
}

#[derive(Debug, PartialEq, Eq)]
pub struct TextMacro {
    pub args: Vec<Expr>,
    pub span: Span,
}

#[derive(Debug, PartialEq, Eq)]
pub struct AssertExpr {
    pub cond: Box<Expr>,
    pub message: Option<String>,
    pub span: Span,
}

#[derive(Debug, PartialEq, Eq)]
pub struct ViewOfExpr {
    pub ty: Ident,
    pub selector: Box<Expr>,
    pub span: Span,
}

#[derive(Debug, PartialEq, Eq)]
pub struct TryExpr {
    pub value: Box<Expr>,
    pub span: Span,
}

/// `a..b`, with either end able to be left out.
#[derive(Debug, PartialEq, Eq)]
pub struct RangeExpr {
    pub start: Option<Box<Expr>>,
    pub end: Option<Box<Expr>>,
    pub span: Span,
}

/// `fix::<S>(e)`: the only way to make a fixed-point value.
#[derive(Debug, PartialEq, Eq)]
pub struct FixExpr {
    pub scale: ScaleArg,
    pub value: Box<Expr>,
    pub span: Span,
}

#[derive(Debug, PartialEq, Eq)]
pub struct BorrowExpr {
    pub borrow: Borrow,
    pub place: Box<Expr>,
    pub span: Span,
}

/// `[1, 2, 3]`.
#[derive(Debug, PartialEq, Eq)]
pub struct ListLit {
    pub values: Vec<Expr>,
    pub span: Span,
}

/// `v[i]`.
#[derive(Debug, PartialEq, Eq)]
pub struct IndexExpr {
    pub base: Box<Expr>,
    pub index: Box<Expr>,
    pub span: Span,
}

/// `v.push(x)`.
#[derive(Debug, PartialEq, Eq)]
pub struct MethodCall {
    pub receiver: Box<Expr>,
    pub name: Ident,
    pub args: Vec<Expr>,
    pub span: Span,
}

/// `p.x`, and `o.inner.a` by nesting. The base is an expression so that the parser
/// stays simple; HIR is where "only a binding can be addressed" is decided.
#[derive(Debug, PartialEq, Eq)]
pub struct FieldExpr {
    pub base: Box<Expr>,
    pub name: Ident,
    pub span: Span,
}

/// `Point { x: 1, y: 2 }`, and `State::Chasing { target: 3 }` with a variant.
#[derive(Debug, PartialEq, Eq)]
pub struct StructLit {
    pub name: Ident,
    /// The variant, for an `enum`. `None` means the type itself.
    pub variant: Option<Ident>,
    pub fields: Vec<FieldInit>,
    pub span: Span,
}

impl StructLit {
    #[verifier::opaque]
    pub open spec fn view(&self) -> model::StructLit
        decreases self,
    {
        model::StructLit {
            name: self.name@,
            variant: ident_opt_view(self.variant),
            fields: Seq::new(
                self.fields@.len(),
                |i: int|
                    if 0 <= i < self.fields@.len() {
                        self.fields@[i].view()
                    } else {
                        arbitrary()
                    },
            ),
            span: self.span,
        }
    }

    /// What a literal is, one level deep.
    pub proof fn unfold(&self)
        ensures
            self@ == (model::StructLit {
                name: self.name@,
                variant: ident_opt_view(self.variant),
                fields: inits_view(self.fields@),
                span: self.span,
            }),
    {
        reveal(StructLit::view);
        reveal(FieldInit::view);
        assert(self@.fields =~= inits_view(self.fields@));
    }
}

#[derive(Debug, PartialEq, Eq)]
pub struct FieldInit {
    pub name: Ident,
    pub value: Expr,
    pub span: Span,
}

impl FieldInit {
    #[verifier::opaque]
    pub open spec fn view(&self) -> model::FieldInit
        decreases self,
    {
        model::FieldInit { name: self.name@, value: self.value.view(), span: self.span }
    }

    pub proof fn unfold(&self)
        ensures
            self@ == (model::FieldInit {
                name: self.name@,
                value: self.value@,
                span: self.span,
            }),
    {
        reveal(FieldInit::view);
        reveal(Expr::view);
    }
}

/// `@e[type=zombie]`, body verbatim. Its contents are the game's grammar, not this
/// language's, so they are carried through untouched.
#[derive(Debug, PartialEq, Eq)]
pub struct SelectorLit {
    pub text: String,
    pub span: Span,
}

/// `minecraft:stone`.
#[derive(Debug, PartialEq, Eq)]
pub struct ResourceLit {
    pub text: String,
    pub span: Span,
}

#[derive(Debug, PartialEq, Eq)]
pub struct CallExpr {
    pub callee: Ident,
    pub args: Vec<Expr>,
    pub span: Span,
}

impl Expr {
    #[verifier::opaque]
    pub open spec fn view(&self) -> model::Expr
        decreases self,
    {
        match self {
            Expr::Int(e) => model::Expr::Int(e.value, e.span),
            Expr::Bool(e) => model::Expr::Bool(e.value, e.span),
            Expr::Str(e) => model::Expr::Str(e.value@, e.span),
            Expr::Path(e) => model::Expr::Path(e@),
            Expr::Unary(e) => model::Expr::Unary(e.op, Box::new(e.operand.view()), e.span),
            Expr::Binary(e) => model::Expr::Binary(
                e.op,
                Box::new(e.lhs.view()),
                Box::new(e.rhs.view()),
                e.span,
            ),
            Expr::Assign(e) => model::Expr::Assign(
                e.op,
                Box::new(e.target.view()),
                Box::new(e.value.view()),
                e.span,
            ),
            Expr::Call(e) => model::Expr::Call(
                e.callee@,
                Seq::new(
                    e.args@.len(),
                    |i: int|
                        if 0 <= i < e.args@.len() {
                            e.args@[i].view()
                        } else {
                            arbitrary()
                        },
                ),
                e.span,
            ),
            Expr::Selector(e) => model::Expr::Selector(e.text@, e.span),
            Expr::Resource(e) => model::Expr::Resource(e.text@, e.span),
            Expr::Macro(e) => model::Expr::Macro(e.name@, tokens_view(e.tokens@), e.span),
            Expr::Struct(e) => model::Expr::Struct(e.view()),
            Expr::Field(e) => model::Expr::Field(Box::new(e.base.view()), e.name@, e.span),
            Expr::List(e) => model::Expr::List(
                Seq::new(
                    e.values@.len(),
                    |i: int|
                        if 0 <= i < e.values@.len() {
                            e.values@[i].view()
                        } else {
                            arbitrary()
                        },
                ),
                e.span,
            ),
            Expr::Index(e) => model::Expr::Index(
                Box::new(e.base.view()),
                Box::new(e.index.view()),
                e.span,
            ),
            Expr::Method(e) => model::Expr::Method(
                Box::new(e.receiver.view()),
                e.name@,
                Seq::new(
                    e.args@.len(),
                    |i: int|
                        if 0 <= i < e.args@.len() {
                            e.args@[i].view()
                        } else {
                            arbitrary()
                        },
                ),
                e.span,
            ),
            Expr::Borrow(e) => model::Expr::Borrow(e.borrow, Box::new(e.place.view()), e.span),
            Expr::Fix(e) => model::Expr::Fix(e.scale@, Box::new(e.value.view()), e.span),
            Expr::Range(e) => model::Expr::Range(
                match e.start {
                    Some(bound) => Some(Box::new(bound.view())),
                    None => None,
                },
                match e.end {
                    Some(bound) => Some(Box::new(bound.view())),
                    None => None,
                },
                e.span,
            ),
            Expr::Try(e) => model::Expr::Try(Box::new(e.value.view()), e.span),
            Expr::ViewOf(e) => model::Expr::ViewOf(e.ty@, Box::new(e.selector.view()), e.span),
            Expr::Assert(e) => model::Expr::Assert(
                Box::new(e.cond.view()),
                text_opt_view(e.message),
                e.span,
            ),
            Expr::Text(e) => model::Expr::Text(
                Seq::new(
                    e.args@.len(),
                    |i: int|
                        if 0 <= i < e.args@.len() {
                            e.args@[i].view()
                        } else {
                            arbitrary()
                        },
                ),
                e.span,
            ),
        }
    }

    /// What an expression is, one level deep.
    #[verifier::spinoff_prover]
    pub proof fn unfold(&self)
        ensures
            self@ == match *self {
                Expr::Int(e) => model::Expr::Int(e.value, e.span),
                Expr::Bool(e) => model::Expr::Bool(e.value, e.span),
                Expr::Str(e) => model::Expr::Str(e.value@, e.span),
                Expr::Path(e) => model::Expr::Path(e@),
                Expr::Unary(e) => model::Expr::Unary(e.op, Box::new(e.operand@), e.span),
                Expr::Binary(e) => model::Expr::Binary(
                    e.op,
                    Box::new(e.lhs@),
                    Box::new(e.rhs@),
                    e.span,
                ),
                Expr::Assign(e) => model::Expr::Assign(
                    e.op,
                    Box::new(e.target@),
                    Box::new(e.value@),
                    e.span,
                ),
                Expr::Call(e) => model::Expr::Call(
                    e.callee@,
                    exprs_view(e.args@),
                    e.span,
                ),
                Expr::Selector(e) => model::Expr::Selector(e.text@, e.span),
                Expr::Resource(e) => model::Expr::Resource(e.text@, e.span),
                Expr::Macro(e) => model::Expr::Macro(e.name@, tokens_view(e.tokens@), e.span),
                Expr::Struct(e) => model::Expr::Struct(e@),
                Expr::Field(e) => model::Expr::Field(Box::new(e.base@), e.name@, e.span),
                Expr::List(e) => model::Expr::List(
                    exprs_view(e.values@),
                    e.span,
                ),
                Expr::Index(e) => model::Expr::Index(
                    Box::new(e.base@),
                    Box::new(e.index@),
                    e.span,
                ),
                Expr::Method(e) => model::Expr::Method(
                    Box::new(e.receiver@),
                    e.name@,
                    exprs_view(e.args@),
                    e.span,
                ),
                Expr::Borrow(e) => model::Expr::Borrow(e.borrow, Box::new(e.place@), e.span),
                Expr::Fix(e) => model::Expr::Fix(e.scale@, Box::new(e.value@), e.span),
                Expr::Range(e) => model::Expr::Range(
                    match e.start {
                        Some(bound) => Some(Box::new(bound@)),
                        None => None,
                    },
                    match e.end {
                        Some(bound) => Some(Box::new(bound@)),
                        None => None,
                    },
                    e.span,
                ),
                Expr::Try(e) => model::Expr::Try(Box::new(e.value@), e.span),
                Expr::ViewOf(e) => model::Expr::ViewOf(e.ty@, Box::new(e.selector@), e.span),
                Expr::Assert(e) => model::Expr::Assert(
                    Box::new(e.cond@),
                    text_opt_view(e.message),
                    e.span,
                ),
                Expr::Text(e) => model::Expr::Text(
                    exprs_view(e.args@),
                    e.span,
                ),
            },
    {
        reveal(Expr::view);
        reveal(StructLit::view);
        match *self {
            Expr::Call(e) => assert(self@->Call_1 =~= exprs_view(e.args@)),
            Expr::Method(e) => assert(self@->Method_2 =~= exprs_view(e.args@)),
            Expr::List(e) => assert(self@->List_0 =~= exprs_view(e.values@)),
            Expr::Text(e) => assert(self@->Text_0 =~= exprs_view(e.args@)),
            _ => {},
        }
    }

    pub fn span(&self) -> (r: Span)
        ensures
            r == self@.span(),
    {
        proof {
            self.unfold();
            reveal(StructLit::view);
            reveal(model::Expr::span);
        }
        match self {
            Expr::Int(e) => e.span,
            Expr::Fix(e) => e.span,
            Expr::Range(e) => e.span,
            Expr::Try(e) => e.span,
            Expr::ViewOf(e) => e.span,
            Expr::Assert(e) => e.span,
            Expr::Text(e) => e.span,
            Expr::Bool(e) => e.span,
            Expr::Str(e) => e.span,
            Expr::Path(e) => e.span,
            Expr::Unary(e) => e.span,
            Expr::Binary(e) => e.span,
            Expr::Assign(e) => e.span,
            Expr::Call(e) => e.span,
            Expr::Selector(e) => e.span,
            Expr::Resource(e) => e.span,
            Expr::Macro(e) => e.span,
            Expr::Struct(e) => e.span,
            Expr::Field(e) => e.span,
            Expr::List(e) => e.span,
            Expr::Index(e) => e.span,
            Expr::Method(e) => e.span,
            Expr::Borrow(e) => e.span,
        }
    }
}

#[derive(Debug, PartialEq, Eq)]
pub struct IntLit {
    pub value: i32,
    pub span: Span,
}

#[derive(Debug, PartialEq, Eq)]
pub struct BoolLit {
    pub value: bool,
    pub span: Span,
}

#[derive(Debug, PartialEq, Eq)]
pub struct StrLit {
    pub value: String,
    pub span: Span,
}

#[derive(Debug, PartialEq, Eq)]
pub struct UnaryExpr {
    pub op: UnaryOp,
    pub operand: Box<Expr>,
    pub span: Span,
}

#[derive(Debug, Clone, Copy, PartialEq, Eq, Structural)]
pub enum UnaryOp {
    Neg,
    Not,
}

#[derive(Debug, PartialEq, Eq)]
pub struct BinaryExpr {
    pub op: BinaryOp,
    pub lhs: Box<Expr>,
    pub rhs: Box<Expr>,
    pub span: Span,
}

#[derive(Debug, Clone, Copy, PartialEq, Eq, Structural)]
pub enum BinaryOp {
    Add,
    Sub,
    Mul,
    Div,
    Rem,
    Eq,
    Ne,
    Lt,
    Le,
    Gt,
    Ge,
    And,
    Or,
}

#[derive(Debug, PartialEq, Eq)]
pub struct AssignExpr {
    /// `None` for plain `=`; otherwise the arithmetic to apply first.
    pub op: Option<BinaryOp>,
    /// A binding, or a field reached from one. Checked in HIR.
    pub target: Box<Expr>,
    pub value: Box<Expr>,
    pub span: Span,
}

/// The arguments are kept as tokens. Each built-in macro has its own grammar, so
/// there is nothing general to parse them into.
#[derive(Debug, PartialEq, Eq)]
pub struct MacroCall {
    pub name: Ident,
    pub tokens: Vec<Token>,
    pub span: Span,
}

#[derive(Debug, PartialEq, Eq)]
pub struct Attribute {
    pub tokens: Vec<Token>,
    pub span: Span,
}

impl Attribute {
    pub open spec fn view(&self) -> model::Attribute {
        model::Attribute { tokens: tokens_view(self.tokens@), span: self.span }
    }
}

#[derive(Debug, PartialEq, Eq)]
pub struct Ident {
    pub name: String,
    pub span: Span,
}

impl Ident {
    pub open spec fn view(&self) -> model::Ident {
        model::Ident { name: self.name@, span: self.span }
    }

    pub(crate) fn copy(&self) -> (r: Ident)
        ensures
            r@ == self@,
    {
        Ident { name: self.name.clone(), span: self.span }
    }
}

// What lists and optional parts say.

pub open spec fn items_view(v: Seq<Item>) -> Seq<model::Item> {
    Seq::new(v.len(), |i: int| v[i]@)
}

pub open spec fn attrs_view(v: Seq<Attribute>) -> Seq<model::Attribute> {
    Seq::new(v.len(), |i: int| v[i]@)
}

pub open spec fn variants_view(v: Seq<VariantDef>) -> Seq<model::VariantDef> {
    Seq::new(v.len(), |i: int| v[i]@)
}

pub open spec fn fields_view(v: Seq<FieldDef>) -> Seq<model::FieldDef> {
    Seq::new(v.len(), |i: int| v[i]@)
}

pub open spec fn generics_view(v: Seq<GenericParam>) -> Seq<model::GenericParam> {
    Seq::new(v.len(), |i: int| v[i]@)
}

pub open spec fn params_view(v: Seq<Param>) -> Seq<model::Param> {
    Seq::new(v.len(), |i: int| v[i]@)
}

pub open spec fn idents_view(v: Seq<Ident>) -> Seq<model::Ident> {
    Seq::new(v.len(), |i: int| v[i]@)
}

pub open spec fn types_view(v: Seq<TypeName>) -> Seq<model::TypeName> {
    Seq::new(v.len(), |i: int| v[i]@)
}

pub open spec fn exprs_view(v: Seq<Expr>) -> Seq<model::Expr> {
    Seq::new(v.len(), |i: int| v[i]@)
}

pub open spec fn stmts_view(v: Seq<Stmt>) -> Seq<model::Stmt> {
    Seq::new(v.len(), |i: int| v[i]@)
}

pub open spec fn arms_view(v: Seq<MatchArm>) -> Seq<model::MatchArm> {
    Seq::new(v.len(), |i: int| v[i]@)
}

pub open spec fn inits_view(v: Seq<FieldInit>) -> Seq<model::FieldInit> {
    Seq::new(v.len(), |i: int| v[i]@)
}

pub open spec fn ident_opt_view(o: Option<Ident>) -> Option<model::Ident> {
    match o {
        Some(x) => Some(x@),
        None => None,
    }
}

pub open spec fn type_opt_view(o: Option<TypeName>) -> Option<model::TypeName> {
    match o {
        Some(x) => Some(x@),
        None => None,
    }
}

pub open spec fn scale_opt_view(o: Option<ScaleArg>) -> Option<model::ScaleArg> {
    match o {
        Some(x) => Some(x@),
        None => None,
    }
}

pub open spec fn text_opt_view(o: Option<String>) -> Option<Seq<char>> {
    match o {
        Some(x) => Some(x@),
        None => None,
    }
}

pub open spec fn expr_opt_view(o: Option<Expr>) -> Option<model::Expr> {
    match o {
        Some(x) => Some(x@),
        None => None,
    }
}

pub open spec fn args_opt_view(o: Option<Vec<Expr>>) -> Option<Seq<model::Expr>> {
    match o {
        Some(x) => Some(exprs_view(x@)),
        None => None,
    }
}

pub open spec fn types_opt_view(o: Option<Vec<TypeName>>) -> Option<Seq<model::TypeName>> {
    match o {
        Some(x) => Some(types_view(x@)),
        None => None,
    }
}

pub open spec fn generic_params_opt_view(o: Option<Vec<GenericParam>>) -> Option<Seq<model::GenericParam>> {
    match o {
        Some(x) => Some(generics_view(x@)),
        None => None,
    }
}

pub open spec fn field_defs_opt_view(o: Option<Vec<FieldDef>>) -> Option<Seq<model::FieldDef>> {
    match o {
        Some(x) => Some(fields_view(x@)),
        None => None,
    }
}

pub open spec fn params_opt_view(o: Option<Vec<Param>>) -> Option<Seq<model::Param>> {
    match o {
        Some(x) => Some(params_view(x@)),
        None => None,
    }
}

pub open spec fn variant_defs_opt_view(o: Option<Vec<VariantDef>>) -> Option<Seq<model::VariantDef>> {
    match o {
        Some(x) => Some(variants_view(x@)),
        None => None,
    }
}

pub open spec fn inits_opt_view(o: Option<Vec<FieldInit>>) -> Option<Seq<model::FieldInit>> {
    match o {
        Some(x) => Some(inits_view(x@)),
        None => None,
    }
}

pub open spec fn stmts_opt_view(o: Option<Vec<Stmt>>) -> Option<Seq<model::Stmt>> {
    match o {
        Some(x) => Some(stmts_view(x@)),
        None => None,
    }
}

pub open spec fn match_arms_opt_view(o: Option<Vec<MatchArm>>) -> Option<Seq<model::MatchArm>> {
    match o {
        Some(x) => Some(arms_view(x@)),
        None => None,
    }
}

pub open spec fn binds_opt_view(o: Option<Vec<Ident>>) -> Option<Seq<model::Ident>> {
    match o {
        Some(x) => Some(idents_view(x@)),
        None => None,
    }
}

pub open spec fn methods_opt_view(o: Option<Vec<Item>>) -> Option<Seq<model::Item>> {
    match o {
        Some(x) => Some(items_view(x@)),
        None => None,
    }
}

pub open spec fn generic_opt_view(o: Option<GenericParam>) -> Option<model::GenericParam> {
    match o {
        Some(x) => Some(x@),
        None => None,
    }
}

pub open spec fn field_opt_view(o: Option<FieldDef>) -> Option<model::FieldDef> {
    match o {
        Some(x) => Some(x@),
        None => None,
    }
}

pub open spec fn param_opt_view(o: Option<Param>) -> Option<model::Param> {
    match o {
        Some(x) => Some(x@),
        None => None,
    }
}

pub open spec fn variant_def_opt_view(o: Option<VariantDef>) -> Option<model::VariantDef> {
    match o {
        Some(x) => Some(x@),
        None => None,
    }
}

pub open spec fn block_opt_view(o: Option<Block>) -> Option<model::Block> {
    match o {
        Some(x) => Some(x@),
        None => None,
    }
}

pub open spec fn stmt_opt_view(o: Option<Stmt>) -> Option<model::Stmt> {
    match o {
        Some(x) => Some(x@),
        None => None,
    }
}

pub open spec fn let_opt_view(o: Option<LetStmt>) -> Option<model::LetStmt> {
    match o {
        Some(x) => Some(x@),
        None => None,
    }
}

pub open spec fn if_opt_view(o: Option<IfStmt>) -> Option<model::IfStmt> {
    match o {
        Some(x) => Some(x@),
        None => None,
    }
}

pub open spec fn loop_opt_view(o: Option<LoopStmt>) -> Option<model::LoopStmt> {
    match o {
        Some(x) => Some(x@),
        None => None,
    }
}

pub open spec fn context_opt_view(o: Option<ContextStmt>) -> Option<model::ContextStmt> {
    match o {
        Some(x) => Some(x@),
        None => None,
    }
}

pub open spec fn match_opt_view(o: Option<MatchStmt>) -> Option<model::MatchStmt> {
    match o {
        Some(x) => Some(x@),
        None => None,
    }
}

pub open spec fn match_arm_opt_view(o: Option<MatchArm>) -> Option<model::MatchArm> {
    match o {
        Some(x) => Some(x@),
        None => None,
    }
}

pub open spec fn pattern_opt_view(o: Option<Pattern>) -> Option<model::Pattern> {
    match o {
        Some(x) => Some(x@),
        None => None,
    }
}

pub open spec fn item_opt_view(o: Option<Item>) -> Option<model::Item> {
    match o {
        Some(x) => Some(x@),
        None => None,
    }
}

pub open spec fn else_opt_view(o: Option<Box<Else>>) -> Option<Box<model::Else>> {
    match o {
        Some(x) => Some(Box::new(x@)),
        None => None,
    }
}

} // verus!

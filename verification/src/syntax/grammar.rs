//! The grammar: which tree a run of tokens is read as, and which faults are found on
//! the way.
//!
//! Every function here takes the state of a reading and gives the state after it,
//! together with what was read. Where nothing was read, the faults say why. One mistake
//! costs one diagnostic: at item level reading goes on at the next thing that could
//! begin an item, and inside a block after the end of the offending statement.

use vstd::prelude::*;

use crate::syntax::ast::{BinaryOp, Borrow, ContextKind, Receiver, UnaryOp};
use crate::syntax::lexer::{lexed, Keyword, Punct, Span};
use crate::syntax::model::{
    Attribute, Block, ContextStmt, Else, EnumItem, Expr, Fault, FieldDef, FieldInit, FnItem,
    GenericParam, Ident, IfStmt, Item, ItemKind, LetStmt, LoopStmt, MatchArm, MatchStmt, Param,
    Pattern, ScaleArg, Stmt, StructItem, StructLit, Token, TokenKind, TypeName, VariantDef,
};
use crate::text::{offset, split_once};

verus! {

/// The state of a reading.
pub struct Reading {
    pub toks: Seq<Token>,
    /// The length of the source in bytes, which is where the end of input is.
    pub end: usize,
    /// How many tokens are read.
    pub at: int,
    pub errs: Seq<Fault>,
    /// Whether a `{` here starts a block rather than a struct literal.
    pub no_struct_lit: bool,
}

impl Reading {
    /// How many tokens are left.
    pub open spec fn left(self) -> int {
        if self.at <= self.toks.len() {
            self.toks.len() - self.at
        } else {
            0
        }
    }

    pub open spec fn kind_at(self, i: int) -> Option<TokenKind> {
        if 0 <= i < self.toks.len() {
            Some(self.toks[i].kind)
        } else {
            None
        }
    }

    pub open spec fn kind(self) -> Option<TokenKind> {
        self.kind_at(self.at)
    }

    pub open spec fn is_punct(self, punct: Punct) -> bool {
        self.kind() == Some(TokenKind::Punct(punct))
    }

    pub open spec fn is_keyword(self, keyword: Keyword) -> bool {
        self.kind() == Some(TokenKind::Keyword(keyword))
    }

    /// The current token's span, or a zero-width span at the end of input.
    pub open spec fn span(self) -> Span {
        if 0 <= self.at < self.toks.len() {
            self.toks[self.at].span
        } else {
            Span { start: self.end, end: self.end }
        }
    }

    /// Where the token before the current one ends.
    pub open spec fn prev_end(self) -> usize {
        if 0 <= self.at - 1 < self.toks.len() {
            self.toks[self.at - 1].span.end
        } else {
            self.end
        }
    }

    /// The span from `start` to the end of what was read.
    pub open spec fn since(self, start: usize) -> Span {
        Span { start, end: self.prev_end() }
    }

    pub open spec fn bump(self) -> Reading {
        Reading { at: self.at + 1, ..self }
    }

    pub open spec fn fault_at(self, span: Span, message: Seq<char>) -> Reading {
        Reading { errs: self.errs.push(Fault { span, message }), ..self }
    }

    pub open spec fn fault(self, message: Seq<char>) -> Reading {
        self.fault_at(self.span(), message)
    }

    pub open spec fn heading(self, no_struct_lit: bool) -> Reading {
        Reading { no_struct_lit, ..self }
    }
}

/// A reading that began at `p` never goes back. This is the identity on what the
/// functions below give; it is what their recursion rests on.
pub open spec fn onward<T>(p: Reading, r: (Reading, T)) -> (Reading, T) {
    (
        Reading {
            toks: p.toks,
            at: if r.0.at >= p.at {
                r.0.at
            } else {
                p.at
            },
            ..r.0
        },
        r.1,
    )
}

pub open spec fn eat_punct(p: Reading, punct: Punct) -> (Reading, bool) {
    if p.is_punct(punct) {
        (p.bump(), true)
    } else {
        (p, false)
    }
}

pub open spec fn eat_keyword(p: Reading, keyword: Keyword) -> (Reading, bool) {
    if p.is_keyword(keyword) {
        (p.bump(), true)
    } else {
        (p, false)
    }
}

/// One punctuation that has to be there.
pub open spec fn expect(p: Reading, punct: Punct, shown: Seq<char>) -> (Reading, bool) {
    if p.is_punct(punct) {
        (p.bump(), true)
    } else {
        (p.fault("expected '"@ + shown + "'"@), false)
    }
}

pub open spec fn ident(p: Reading) -> (Reading, Option<Ident>) {
    match p.kind() {
        Some(TokenKind::Ident(name)) => (p.bump(), Some(Ident { name, span: p.span() })),
        Some(TokenKind::Reserved(word)) => (
            p.fault("'"@ + word + "' is reserved and cannot be used as a name"@),
            None,
        ),
        _ => (p.fault("expected a name"@), None),
    }
}

/// The name in a `let`, a field or a parameter, with the one lexical trap spelled out:
/// `x:i32` without a space is a single resource location.
pub open spec fn binding_name(p: Reading) -> (Reading, Option<Ident>) {
    match p.kind() {
        Some(TokenKind::Resource(text)) => match split_once(text, ':') {
            Some((name, ty)) => (
                p.fault(
                    "a type annotation needs a space after the colon: write '"@ + name + ": "@ + ty
                        + "'"@,
                ).bump(),
                None,
            ),
            None => ident(p),
        },
        _ => ident(p),
    }
}

/// The rest of a bracketed group that is `depth` levels open, after the tokens `acc`.
pub open spec fn group_rest(
    p: Reading,
    open: Punct,
    close: Punct,
    depth: int,
    acc: Seq<Token>,
) -> (Reading, Option<Seq<Token>>)
    decreases p.left(),
{
    if p.kind() is None || p.at < 0 {
        (p.fault("unterminated bracket"@), None)
    } else if p.is_punct(open) {
        group_rest(p.bump(), open, close, depth + 1, acc.push(p.toks[p.at]))
    } else if p.is_punct(close) {
        if depth - 1 == 0 {
            (p.bump(), Some(acc))
        } else {
            group_rest(p.bump(), open, close, depth - 1, acc.push(p.toks[p.at]))
        }
    } else {
        group_rest(p.bump(), open, close, depth, acc.push(p.toks[p.at]))
    }
}

pub open spec fn closing(open: Punct) -> Punct {
    match open {
        Punct::LParen => Punct::RParen,
        Punct::LBracket => Punct::RBracket,
        _ => Punct::RBrace,
    }
}

/// A bracketed run of tokens: the ones inside it.
pub open spec fn group(p: Reading, open: Punct) -> (Reading, Option<Seq<Token>>) {
    if p.is_punct(open) {
        group_rest(p.bump(), open, closing(open), 1, seq![])
    } else {
        (p.fault("expected an opening bracket"@), None)
    }
}

#[verifier::opaque]
pub open spec fn attributes(p: Reading, acc: Seq<Attribute>) -> (Reading, Seq<Attribute>)
    decreases p.left(),
{
    if p.is_punct(Punct::Hash) {
        let start = p.span().start;
        match onward(p.bump(), group(p.bump(), Punct::LBracket)) {
            (p1, Some(tokens)) => attributes(
                p1,
                acc.push(Attribute { tokens, span: p1.since(start) }),
            ),
            (p1, None) => (p1.fault("expected '[' after '#'"@), acc),
        }
    } else {
        (p, acc)
    }
}

// Types and declarations.

#[verifier::opaque]
pub open spec fn scale_arg(p: Reading) -> (Reading, Option<ScaleArg>) {
    match p.kind() {
        Some(TokenKind::Int(value)) => (p.bump(), Some(ScaleArg::Int(value, p.span()))),
        Some(TokenKind::Ident(_)) => match ident(p) {
            (p1, Some(name)) => (p1, Some(ScaleArg::Param(name))),
            (p1, None) => (p1, None),
        },
        _ => (p.fault("a scale is an integer, as in 'fix<1000>'"@), None),
    }
}

/// `&T`, `&mut T` or neither.
pub open spec fn borrow(p: Reading) -> (Reading, Option<Borrow>) {
    if p.is_punct(Punct::And) {
        if p.bump().is_keyword(Keyword::Mut) {
            (p.bump().bump(), Some(Borrow::Mutable))
        } else {
            (p.bump(), Some(Borrow::Shared))
        }
    } else {
        (p, None)
    }
}

#[verifier::opaque]
pub open spec fn written_type(p: Reading) -> (Reading, Option<TypeName>)
    decreases p.left(), 1int,
{
    let start = p.span().start;
    let (p1, borrow) = onward(p, borrow(p));
    match onward(p1, ident(p1)) {
        (p2, None) => (p2, None),
        (p2, Some(name)) => if name.name == "fix"@ {
            match onward(p2, expect(p2, Punct::Lt, "<"@)) {
                (p3, false) => (p3, None),
                (p3, true) => match onward(p3, scale_arg(p3)) {
                    (p4, None) => (p4, None),
                    (p4, Some(scale)) => match expect(p4, Punct::Gt, ">"@) {
                        (p5, false) => (p5, None),
                        (p5, true) => (
                            p5,
                            Some(
                                TypeName {
                                    borrow,
                                    name: name.name,
                                    args: seq![],
                                    scale: Some(scale),
                                    span: p5.since(start),
                                },
                            ),
                        ),
                    },
                },
            }
        } else if p2.is_punct(Punct::Lt) {
            match type_args(p2.bump(), seq![]) {
                (p3, None) => (p3, None),
                (p3, Some(args)) => match expect(p3, Punct::Gt, ">"@) {
                    (p4, false) => (p4, None),
                    (p4, true) => (
                        p4,
                        Some(
                            TypeName {
                                borrow,
                                name: name.name,
                                args,
                                scale: None,
                                span: p4.since(start),
                            },
                        ),
                    ),
                },
            }
        } else {
            (
                p2,
                Some(
                    TypeName {
                        borrow,
                        name: name.name,
                        args: seq![],
                        scale: None,
                        span: p2.since(start),
                    },
                ),
            )
        },
    }
}

/// The types between angle brackets, up to the `>`.
#[verifier::opaque]
pub open spec fn type_args(p: Reading, acc: Seq<TypeName>) -> (Reading, Option<Seq<TypeName>>)
    decreases p.left(), 2int,
{
    if p.is_punct(Punct::Gt) {
        (p, Some(acc))
    } else {
        match onward(p, written_type(p)) {
            (p1, None) => (p1, None),
            (p1, Some(ty)) => if p1.is_punct(Punct::Comma) {
                type_args(p1.bump(), acc.push(ty))
            } else {
                (p1, Some(acc.push(ty)))
            },
        }
    }
}

/// The parameters between angle brackets, up to the `>`.
#[verifier::opaque]
pub open spec fn generic_params(p: Reading, acc: Seq<GenericParam>) -> (
    Reading,
    Option<Seq<GenericParam>>,
)
    decreases p.left(),
{
    if p.is_punct(Punct::Gt) {
        (p, Some(acc))
    } else {
        match onward(p, generic_param(p)) {
            (p1, None) => (p1, None),
            (p1, Some(param)) => if p1.is_punct(Punct::Comma) {
                generic_params(p1.bump(), acc.push(param))
            } else {
                (p1, Some(acc.push(param)))
            },
        }
    }
}

/// `T` or `const S: i32`. A const parameter is always a scale, so `i32` is the only type
/// it can have.
#[verifier::opaque]
pub open spec fn generic_param(p: Reading) -> (Reading, Option<GenericParam>) {
    let (p1, is_const) = eat_keyword(p, Keyword::Const);
    match ident(p1) {
        (p2, None) => (p2, None),
        (p2, Some(name)) => if is_const {
            match expect(p2, Punct::Colon, ":"@) {
                (p3, false) => (p3, None),
                (p3, true) => match ident(p3) {
                    (p4, None) => (p4, None),
                    (p4, Some(ty)) => if ty.name != "i32"@ {
                        (p4.fault("a const parameter is a scale, so its type is i32"@), None)
                    } else {
                        (p4, Some(GenericParam { name, is_const }))
                    },
                },
            }
        } else {
            (p2, Some(GenericParam { name, is_const }))
        },
    }
}

/// `<T, const S: i32>` after a name. Empty when there are none.
#[verifier::opaque]
pub open spec fn generics(p: Reading) -> (Reading, Option<Seq<GenericParam>>) {
    if p.is_punct(Punct::Lt) {
        match generic_params(p.bump(), seq![]) {
            (p1, None) => (p1, None),
            (p1, Some(params)) => match expect(p1, Punct::Gt, ">"@) {
                (p2, false) => (p2, None),
                (p2, true) => (p2, Some(params)),
            },
        }
    } else {
        (p, Some(seq![]))
    }
}

#[verifier::opaque]
pub open spec fn field_def(p: Reading) -> (Reading, Option<FieldDef>) {
    let start = p.span().start;
    let (p1, attrs) = attributes(p, seq![]);
    match binding_name(p1) {
        (p2, None) => (p2, None),
        (p2, Some(name)) => match expect(p2, Punct::Colon, ":"@) {
            (p3, false) => (p3, None),
            (p3, true) => match written_type(p3) {
                (p4, None) => (p4, None),
                (p4, Some(ty)) => (
                    p4,
                    Some(FieldDef { attrs, name, ty, span: p4.since(start) }),
                ),
            },
        },
    }
}

/// The fields between braces, up to the `}`.
#[verifier::opaque]
pub open spec fn field_defs(p: Reading, acc: Seq<FieldDef>) -> (Reading, Option<Seq<FieldDef>>)
    decreases p.left(),
{
    if p.is_punct(Punct::RBrace) {
        (p, Some(acc))
    } else {
        match onward(p, field_def(p)) {
            (p1, None) => (p1, None),
            (p1, Some(field)) => if p1.is_punct(Punct::Comma) {
                field_defs(p1.bump(), acc.push(field))
            } else {
                (p1, Some(acc.push(field)))
            },
        }
    }
}

/// `&self` / `&mut self` / `self` at the head of a parameter list.
#[verifier::opaque]
pub open spec fn receiver(p: Reading) -> (Reading, Option<Receiver>) {
    let start = p.span().start;
    if p.is_keyword(Keyword::SelfValue) {
        (p.bump(), Some(Receiver { borrow: None, span: p.bump().since(start) }))
    } else if p.is_punct(Punct::And) {
        let mutable = p.kind_at(p.at + 1) == Some(TokenKind::Keyword(Keyword::Mut));
        let after = if mutable {
            2int
        } else {
            1int
        };
        if p.kind_at(p.at + after) == Some(TokenKind::Keyword(Keyword::SelfValue)) {
            let p1 = Reading { at: p.at + after + 1, ..p };
            let borrow = if mutable {
                Borrow::Mutable
            } else {
                Borrow::Shared
            };
            (p1, Some(Receiver { borrow: Some(borrow), span: p1.since(start) }))
        } else {
            (p, None)
        }
    } else {
        (p, None)
    }
}

#[verifier::opaque]
pub open spec fn param(p: Reading) -> (Reading, Option<Param>) {
    let start = p.span().start;
    match binding_name(p) {
        (p1, None) => (p1, None),
        (p1, Some(name)) => match expect(p1, Punct::Colon, ":"@) {
            (p2, false) => (p2, None),
            (p2, true) => match written_type(p2) {
                (p3, None) => (p3, None),
                (p3, Some(ty)) => (p3, Some(Param { name, ty, span: p3.since(start) })),
            },
        },
    }
}

/// The parameters of a function, up to the `)`.
#[verifier::opaque]
pub open spec fn params(p: Reading, acc: Seq<Param>) -> (Reading, Option<Seq<Param>>)
    decreases p.left(),
{
    if p.is_punct(Punct::RParen) {
        (p, Some(acc))
    } else {
        match onward(p, param(p)) {
            (p1, None) => (p1, None),
            (p1, Some(one)) => if p1.is_punct(Punct::Comma) {
                params(p1.bump(), acc.push(one))
            } else {
                (p1, Some(acc.push(one)))
            },
        }
    }
}

#[verifier::opaque]
pub open spec fn variant_def(p: Reading) -> (Reading, Option<VariantDef>) {
    let start = p.span().start;
    match ident(p) {
        (p1, None) => (p1, None),
        (p1, Some(name)) => if p1.is_punct(Punct::LParen) {
            (p1.fault("a variant names its fields: write 'V { field: i32 }'"@), None)
        } else if p1.is_punct(Punct::LBrace) {
            match field_defs(p1.bump(), seq![]) {
                (p2, None) => (p2, None),
                (p2, Some(fields)) => match expect(p2, Punct::RBrace, "}"@) {
                    (p3, false) => (p3, None),
                    (p3, true) => (
                        p3,
                        Some(VariantDef { name, fields, span: p3.since(start) }),
                    ),
                },
            }
        } else {
            (p1, Some(VariantDef { name, fields: seq![], span: p1.since(start) }))
        },
    }
}

/// The variants between braces, up to the `}`.
#[verifier::opaque]
pub open spec fn variant_defs(p: Reading, acc: Seq<VariantDef>) -> (
    Reading,
    Option<Seq<VariantDef>>,
)
    decreases p.left(),
{
    if p.is_punct(Punct::RBrace) {
        (p, Some(acc))
    } else {
        match onward(p, variant_def(p)) {
            (p1, None) => (p1, None),
            (p1, Some(one)) => if p1.is_punct(Punct::Comma) {
                variant_defs(p1.bump(), acc.push(one))
            } else {
                (p1, Some(acc.push(one)))
            },
        }
    }
}

// Expressions.

pub open spec fn binary(op: BinaryOp, lhs: Expr, rhs: Expr) -> Expr {
    Expr::Binary(
        op,
        Box::new(lhs),
        Box::new(rhs),
        Span { start: lhs.span().start, end: rhs.span().end },
    )
}

#[verifier::opaque]
pub open spec fn expr(p: Reading) -> (Reading, Option<Expr>)
    decreases p.left(), 15int,
{
    assign(p)
}

/// An expression read with the struct literal rule set to `no_struct_lit`, which holds
/// for that expression alone.
#[verifier::opaque]
pub open spec fn expr_under(p: Reading, no_struct_lit: bool) -> (Reading, Option<Expr>)
    decreases p.left(), 16int,
{
    let (p1, e) = expr(p.heading(no_struct_lit));
    (p1.heading(p.no_struct_lit), e)
}

/// The operator of an assignment: `None` for plain `=`.
pub open spec fn assign_op(kind: Option<TokenKind>) -> Option<Option<BinaryOp>> {
    match kind {
        Some(TokenKind::Punct(Punct::Eq)) => Some(None),
        Some(TokenKind::Punct(Punct::PlusEq)) => Some(Some(BinaryOp::Add)),
        Some(TokenKind::Punct(Punct::MinusEq)) => Some(Some(BinaryOp::Sub)),
        Some(TokenKind::Punct(Punct::StarEq)) => Some(Some(BinaryOp::Mul)),
        Some(TokenKind::Punct(Punct::SlashEq)) => Some(Some(BinaryOp::Div)),
        Some(TokenKind::Punct(Punct::PercentEq)) => Some(Some(BinaryOp::Rem)),
        _ => None,
    }
}

/// Right associative: `a = b = c` is `a = (b = c)`.
#[verifier::opaque]
pub open spec fn assign(p: Reading) -> (Reading, Option<Expr>)
    decreases p.left(), 14int,
{
    match onward(p, range(p)) {
        (p1, None) => (p1, None),
        (p1, Some(lhs)) => match assign_op(p1.kind()) {
            None => (p1, Some(lhs)),
            Some(op) => match assign(p1.bump()) {
                (p2, None) => (p2, None),
                (p2, Some(value)) => if lhs is Path || lhs is Field || lhs is Index {
                    (
                        p2,
                        Some(
                            Expr::Assign(
                                op,
                                Box::new(lhs),
                                Box::new(value),
                                Span { start: lhs.span().start, end: value.span().end },
                            ),
                        ),
                    )
                } else {
                    (
                        p2.fault_at(
                            p1.span(),
                            "the left side of an assignment must be a binding, a field or an element"@,
                        ),
                        None,
                    )
                },
            },
        },
    }
}

/// `a..b`.
#[verifier::opaque]
pub open spec fn range(p: Reading) -> (Reading, Option<Expr>)
    decreases p.left(), 13int,
{
    match onward(p, or(p)) {
        (p1, None) => (p1, None),
        (p1, Some(start)) => if p1.is_punct(Punct::DotDot) {
            let p2 = p1.bump();
            if p2.is_punct(Punct::RParen) || p2.is_punct(Punct::Comma) {
                (
                    p2,
                    Some(
                        Expr::Range(Some(Box::new(start)), None, p2.since(start.span().start)),
                    ),
                )
            } else {
                match or(p2) {
                    (p3, None) => (p3, None),
                    (p3, Some(end)) => (
                        p3,
                        Some(
                            Expr::Range(
                                Some(Box::new(start)),
                                Some(Box::new(end)),
                                p3.since(start.span().start),
                            ),
                        ),
                    ),
                }
            }
        } else {
            (p1, Some(start))
        },
    }
}

#[verifier::opaque]
pub open spec fn or(p: Reading) -> (Reading, Option<Expr>)
    decreases p.left(), 12int,
{
    match onward(p, and(p)) {
        (p1, None) => (p1, None),
        (p1, Some(lhs)) => or_rest(p1, lhs),
    }
}

#[verifier::opaque]
pub open spec fn or_rest(p: Reading, lhs: Expr) -> (Reading, Option<Expr>)
    decreases p.left(), 11int,
{
    if p.is_punct(Punct::OrOr) {
        match onward(p.bump(), and(p.bump())) {
            (p1, None) => (p1, None),
            (p1, Some(rhs)) => or_rest(p1, binary(BinaryOp::Or, lhs, rhs)),
        }
    } else {
        (p, Some(lhs))
    }
}

#[verifier::opaque]
pub open spec fn and(p: Reading) -> (Reading, Option<Expr>)
    decreases p.left(), 10int,
{
    match onward(p, compare(p)) {
        (p1, None) => (p1, None),
        (p1, Some(lhs)) => and_rest(p1, lhs),
    }
}

#[verifier::opaque]
pub open spec fn and_rest(p: Reading, lhs: Expr) -> (Reading, Option<Expr>)
    decreases p.left(), 9int,
{
    if p.is_punct(Punct::AndAnd) {
        match onward(p.bump(), compare(p.bump())) {
            (p1, None) => (p1, None),
            (p1, Some(rhs)) => and_rest(p1, binary(BinaryOp::And, lhs, rhs)),
        }
    } else {
        (p, Some(lhs))
    }
}

pub open spec fn compare_op(kind: Option<TokenKind>) -> Option<BinaryOp> {
    match kind {
        Some(TokenKind::Punct(Punct::EqEq)) => Some(BinaryOp::Eq),
        Some(TokenKind::Punct(Punct::Ne)) => Some(BinaryOp::Ne),
        Some(TokenKind::Punct(Punct::Lt)) => Some(BinaryOp::Lt),
        Some(TokenKind::Punct(Punct::Le)) => Some(BinaryOp::Le),
        Some(TokenKind::Punct(Punct::Gt)) => Some(BinaryOp::Gt),
        Some(TokenKind::Punct(Punct::Ge)) => Some(BinaryOp::Ge),
        _ => None,
    }
}

/// Comparisons do not chain: `a < b < c` is an error.
#[verifier::opaque]
pub open spec fn compare(p: Reading) -> (Reading, Option<Expr>)
    decreases p.left(), 8int,
{
    match onward(p, sum(p)) {
        (p1, None) => (p1, None),
        (p1, Some(lhs)) => match compare_op(p1.kind()) {
            None => (p1, Some(lhs)),
            Some(op) => match sum(p1.bump()) {
                (p2, None) => (p2, None),
                (p2, Some(rhs)) => if compare_op(p2.kind()) is Some {
                    (
                        p2.fault(
                            "comparisons do not chain; parenthesise if that is what you meant"@,
                        ),
                        None,
                    )
                } else {
                    (p2, Some(binary(op, lhs, rhs)))
                },
            },
        },
    }
}

pub open spec fn sum_op(kind: Option<TokenKind>) -> Option<BinaryOp> {
    match kind {
        Some(TokenKind::Punct(Punct::Plus)) => Some(BinaryOp::Add),
        Some(TokenKind::Punct(Punct::Minus)) => Some(BinaryOp::Sub),
        _ => None,
    }
}

#[verifier::opaque]
pub open spec fn sum(p: Reading) -> (Reading, Option<Expr>)
    decreases p.left(), 7int,
{
    match onward(p, product(p)) {
        (p1, None) => (p1, None),
        (p1, Some(lhs)) => sum_rest(p1, lhs),
    }
}

#[verifier::opaque]
pub open spec fn sum_rest(p: Reading, lhs: Expr) -> (Reading, Option<Expr>)
    decreases p.left(), 6int,
{
    match sum_op(p.kind()) {
        Some(op) => match onward(p.bump(), product(p.bump())) {
            (p1, None) => (p1, None),
            (p1, Some(rhs)) => sum_rest(p1, binary(op, lhs, rhs)),
        },
        None => (p, Some(lhs)),
    }
}

pub open spec fn product_op(kind: Option<TokenKind>) -> Option<BinaryOp> {
    match kind {
        Some(TokenKind::Punct(Punct::Star)) => Some(BinaryOp::Mul),
        Some(TokenKind::Punct(Punct::Slash)) => Some(BinaryOp::Div),
        Some(TokenKind::Punct(Punct::Percent)) => Some(BinaryOp::Rem),
        _ => None,
    }
}

#[verifier::opaque]
pub open spec fn product(p: Reading) -> (Reading, Option<Expr>)
    decreases p.left(), 5int,
{
    match onward(p, unary(p)) {
        (p1, None) => (p1, None),
        (p1, Some(lhs)) => product_rest(p1, lhs),
    }
}

#[verifier::opaque]
pub open spec fn product_rest(p: Reading, lhs: Expr) -> (Reading, Option<Expr>)
    decreases p.left(), 4int,
{
    match product_op(p.kind()) {
        Some(op) => match onward(p.bump(), unary(p.bump())) {
            (p1, None) => (p1, None),
            (p1, Some(rhs)) => product_rest(p1, binary(op, lhs, rhs)),
        },
        None => (p, Some(lhs)),
    }
}

pub open spec fn unary_op(kind: Option<TokenKind>) -> Option<UnaryOp> {
    match kind {
        Some(TokenKind::Punct(Punct::Minus)) => Some(UnaryOp::Neg),
        Some(TokenKind::Punct(Punct::Bang)) => Some(UnaryOp::Not),
        _ => None,
    }
}

#[verifier::opaque]
pub open spec fn unary(p: Reading) -> (Reading, Option<Expr>)
    decreases p.left(), 3int,
{
    match unary_op(p.kind()) {
        Some(op) => match unary(p.bump()) {
            (p1, None) => (p1, None),
            (p1, Some(operand)) => (
                p1,
                Some(
                    Expr::Unary(
                        op,
                        Box::new(operand),
                        Span { start: p.span().start, end: operand.span().end },
                    ),
                ),
            ),
        },
        None => primary(p),
    }
}

/// A primary expression and the accesses that follow it: fields, indices, methods.
#[verifier::opaque]
pub open spec fn primary(p: Reading) -> (Reading, Option<Expr>)
    decreases p.left(), 2int,
{
    match onward(p, atom(p)) {
        (p1, None) => (p1, None),
        (p1, Some(e)) => primary_rest(p1, e),
    }
}

#[verifier::opaque]
pub open spec fn primary_rest(p: Reading, e: Expr) -> (Reading, Option<Expr>)
    decreases p.left(), 1int,
{
    let start = e.span().start;
    if p.is_punct(Punct::Dot) {
        match onward(p.bump(), access(p.bump(), e)) {
            (p1, None) => (p1, None),
            (p1, Some(e1)) => primary_rest(p1, e1),
        }
    } else if p.is_punct(Punct::LBracket) {
        match onward(p.bump(), expr_under(p.bump(), false)) {
            (p1, None) => (p1, None),
            (p1, Some(index)) => match onward(p1, expect(p1, Punct::RBracket, "]"@)) {
                (p2, false) => (p2, None),
                (p2, true) => primary_rest(
                    p2,
                    Expr::Index(Box::new(e), Box::new(index), p2.since(start)),
                ),
            },
        }
    } else if p.is_punct(Punct::Question) {
        primary_rest(p.bump(), Expr::Try(Box::new(e), p.bump().since(start)))
    } else {
        (p, Some(e))
    }
}

/// The field or method named after a `.`.
#[verifier::opaque]
pub open spec fn access(p: Reading, e: Expr) -> (Reading, Option<Expr>)
    decreases p.left(), 21int,
{
    let start = e.span().start;
    match onward(p, ident(p)) {
        (p1, None) => (p1, None),
        (p1, Some(name)) => if p1.is_punct(Punct::LParen) {
            match call_args(p1) {
                (p2, None) => (p2, None),
                (p2, Some(args)) => (
                    p2,
                    Some(Expr::Method(Box::new(e), name, args, p2.since(start))),
                ),
            }
        } else {
            (p1, Some(Expr::Field(Box::new(e), name, p1.since(start))))
        },
    }
}

#[verifier::opaque]
pub open spec fn atom(p: Reading) -> (Reading, Option<Expr>)
    decreases p.left(), 0int,
{
    let span = p.span();
    match p.kind() {
        Some(TokenKind::Int(value)) => (p.bump(), Some(Expr::Int(value, span))),
        Some(TokenKind::Keyword(Keyword::True)) => (p.bump(), Some(Expr::Bool(true, span))),
        Some(TokenKind::Keyword(Keyword::False)) => (p.bump(), Some(Expr::Bool(false, span))),
        Some(TokenKind::Keyword(Keyword::SelfValue)) => (
            p.bump(),
            Some(Expr::Path(Ident { name: "self"@, span })),
        ),
        Some(TokenKind::Str(text)) => (p.bump(), Some(Expr::Str(text, span))),
        Some(TokenKind::Resource(text)) => (p.bump(), Some(Expr::Resource(text, span))),
        Some(TokenKind::Selector(text)) => (p.bump(), Some(Expr::Selector(text, span))),
        Some(TokenKind::Punct(Punct::LParen)) => match onward(
            p.bump(),
            expr_under(p.bump(), false),
        ) {
            (p1, None) => (p1, None),
            (p1, Some(inner)) => match expect(p1, Punct::RParen, ")"@) {
                (p2, false) => (p2, None),
                (p2, true) => (p2, Some(inner)),
            },
        },
        Some(TokenKind::Punct(Punct::And)) => {
            let (p1, mutable) = onward(p.bump(), eat_keyword(p.bump(), Keyword::Mut));
            match primary(p1) {
                (p2, None) => (p2, None),
                (p2, Some(place)) => (
                    p2,
                    Some(
                        Expr::Borrow(
                            if mutable {
                                Borrow::Mutable
                            } else {
                                Borrow::Shared
                            },
                            Box::new(place),
                            Span { start: span.start, end: place.span().end },
                        ),
                    ),
                ),
            }
        },
        Some(TokenKind::Punct(Punct::LBracket)) => match list_values(
            p.bump().heading(false),
            seq![],
        ) {
            (p1, None) => (p1.heading(p.no_struct_lit), None),
            (p1, Some(values)) => match expect(
                p1.heading(p.no_struct_lit),
                Punct::RBracket,
                "]"@,
            ) {
                (p2, false) => (p2, None),
                (p2, true) => (p2, Some(Expr::List(values, p2.since(span.start)))),
            },
        },
        Some(TokenKind::Ident(name)) => named(p.bump(), Ident { name, span }),
        _ => (p.fault("expected an expression"@), None),
    }
}

/// The values of a list literal, up to the `]`.
#[verifier::opaque]
pub open spec fn list_values(p: Reading, acc: Seq<Expr>) -> (Reading, Option<Seq<Expr>>)
    decreases p.left(), 19int,
{
    if p.is_punct(Punct::RBracket) {
        (p, Some(acc))
    } else {
        match onward(p, expr(p)) {
            (p1, None) => (p1, None),
            (p1, Some(value)) => if p1.is_punct(Punct::Comma) {
                list_values(p1.bump(), acc.push(value))
            } else {
                (p1, Some(acc.push(value)))
            },
        }
    }
}

/// The expression that begins with a name: a macro, a call, a literal or a binding.
#[verifier::opaque]
pub open spec fn named(p: Reading, name: Ident) -> (Reading, Option<Expr>)
    decreases p.left(), 23int,
{
    if p.is_punct(Punct::Bang) {
        macro_call(p.bump(), name)
    } else if p.is_punct(Punct::LParen) {
        match call_args(p) {
            (p1, None) => (p1, None),
            (p1, Some(args)) => (
                p1,
                Some(Expr::Call(name, args, p1.since(name.span.start))),
            ),
        }
    } else if p.is_punct(Punct::LBrace) && !p.no_struct_lit {
        struct_lit(p.bump(), name, None)
    } else if p.is_punct(Punct::ColonColon) {
        qualified(p.bump(), name)
    } else {
        (p, Some(Expr::Path(name)))
    }
}

/// What follows `name::`: the scale of a `fix`, a view or a variant.
#[verifier::opaque]
pub open spec fn qualified(p: Reading, name: Ident) -> (Reading, Option<Expr>)
    decreases p.left(), 22int,
{
    if p.is_punct(Punct::Lt) {
        fix_cast(p, name)
    } else {
        match onward(p, ident(p)) {
            (p1, None) => (p1, None),
            (p1, Some(variant)) => if p1.is_punct(Punct::LParen) {
                if variant.name != "of"@ {
                    (p1.fault("the only associated function is 'of'"@), None)
                } else {
                    match onward(p1.bump(), expr(p1.bump())) {
                        (p2, None) => (p2, None),
                        (p2, Some(selector)) => match expect(p2, Punct::RParen, ")"@) {
                            (p3, false) => (p3, None),
                            (p3, true) => (
                                p3,
                                Some(
                                    Expr::ViewOf(
                                        name,
                                        Box::new(selector),
                                        p3.since(name.span.start),
                                    ),
                                ),
                            ),
                        },
                    }
                }
            } else if p1.is_punct(Punct::LBrace) && !p1.no_struct_lit {
                struct_lit(p1.bump(), name, Some(variant))
            } else {
                (
                    p1,
                    Some(
                        Expr::Struct(
                            StructLit {
                                name,
                                variant: Some(variant),
                                fields: seq![],
                                span: Span { start: name.span.start, end: variant.span.end },
                            },
                        ),
                    ),
                )
            },
        }
    }
}

/// `fix::<1000>(1500)`, from the `<` onwards.
#[verifier::opaque]
pub open spec fn fix_cast(p: Reading, name: Ident) -> (Reading, Option<Expr>)
    decreases p.left(), 21int,
{
    if name.name != "fix"@ {
        (p.fault("only 'fix' takes an argument in angle brackets here"@), None)
    } else {
        match onward(p, expect(p, Punct::Lt, "<"@)) {
            (p1, false) => (p1, None),
            (p1, true) => match onward(p1, scale_arg(p1)) {
                (p2, None) => (p2, None),
                (p2, Some(scale)) => match onward(p2, expect(p2, Punct::Gt, ">"@)) {
                    (p3, false) => (p3, None),
                    (p3, true) => match onward(p3, expect(p3, Punct::LParen, "("@)) {
                        (p4, false) => (p4, None),
                        (p4, true) => match onward(p4, expr(p4)) {
                            (p5, None) => (p5, None),
                            (p5, Some(value)) => match expect(p5, Punct::RParen, ")"@) {
                                (p6, false) => (p6, None),
                                (p6, true) => (
                                    p6,
                                    Some(
                                        Expr::Fix(
                                            scale,
                                            Box::new(value),
                                            p6.since(name.span.start),
                                        ),
                                    ),
                                ),
                            },
                        },
                    },
                },
            },
        }
    }
}

/// `Point { x: 1, y: 2 }`, from after the `{`.
#[verifier::opaque]
pub open spec fn struct_lit(p: Reading, name: Ident, variant: Option<Ident>) -> (
    Reading,
    Option<Expr>,
)
    decreases p.left(), 21int,
{
    match field_inits(p, seq![]) {
        (p1, None) => (p1, None),
        (p1, Some(fields)) => match expect(p1, Punct::RBrace, "}"@) {
            (p2, false) => (p2, None),
            (p2, true) => (
                p2,
                Some(
                    Expr::Struct(
                        StructLit { name, variant, fields, span: p2.since(name.span.start) },
                    ),
                ),
            ),
        },
    }
}

/// The fields of a struct literal, up to the `}`.
#[verifier::opaque]
pub open spec fn field_inits(p: Reading, acc: Seq<FieldInit>) -> (
    Reading,
    Option<Seq<FieldInit>>,
)
    decreases p.left(), 20int,
{
    if p.is_punct(Punct::RBrace) {
        (p, Some(acc))
    } else {
        let start = p.span().start;
        match onward(p, ident(p)) {
            (p1, None) => (p1, None),
            (p1, Some(name)) => match onward(p1, expect(p1, Punct::Colon, ":"@)) {
                (p2, false) => (p2, None),
                (p2, true) => match onward(p2, expr_under(p2, false)) {
                    (p3, None) => (p3, None),
                    (p3, Some(value)) => {
                        let fields = acc.push(FieldInit { name, value, span: p3.since(start) });
                        if p3.is_punct(Punct::Comma) {
                            field_inits(p3.bump(), fields)
                        } else {
                            (p3, Some(fields))
                        }
                    },
                },
            },
        }
    }
}

/// The bracketed argument list of a call, from the `(` onwards.
#[verifier::opaque]
pub open spec fn call_args(p: Reading) -> (Reading, Option<Seq<Expr>>)
    decreases p.left(), 20int,
{
    match onward(p, expect(p, Punct::LParen, "("@)) {
        (p1, false) => (p1, None),
        (p1, true) => match onward(p1, args(p1, seq![])) {
            (p2, None) => (p2, None),
            (p2, Some(values)) => match expect(p2, Punct::RParen, ")"@) {
                (p3, false) => (p3, None),
                (p3, true) => (p3, Some(values)),
            },
        },
    }
}

/// Arguments, up to the `)`. A brace in one opens a value, not a block.
#[verifier::opaque]
pub open spec fn args(p: Reading, acc: Seq<Expr>) -> (Reading, Option<Seq<Expr>>)
    decreases p.left(), 19int,
{
    if p.is_punct(Punct::RParen) {
        (p, Some(acc))
    } else {
        match onward(p, expr_under(p, false)) {
            (p1, None) => (p1, None),
            (p1, Some(value)) => if p1.is_punct(Punct::Comma) {
                args(p1.bump(), acc.push(value))
            } else {
                (p1, Some(acc.push(value)))
            },
        }
    }
}

/// A macro call, from after the `!`. `debug_assert!` and `text!` take expressions; the
/// arguments of every other macro stay tokens.
#[verifier::opaque]
pub open spec fn macro_call(p: Reading, name: Ident) -> (Reading, Option<Expr>)
    decreases p.left(), 22int,
{
    if name.name == "debug_assert"@ {
        assertion(p, name)
    } else if name.name == "text"@ {
        match call_args(p) {
            (p1, None) => (p1, None),
            (p1, Some(values)) => (p1, Some(Expr::Text(values, p1.since(name.span.start)))),
        }
    } else if p.is_punct(Punct::LParen) || p.is_punct(Punct::LBracket) || p.is_punct(
        Punct::LBrace,
    ) {
        match group(p, p.kind()->0->Punct_0) {
            (p1, None) => (p1, None),
            (p1, Some(tokens)) => (
                p1,
                Some(Expr::Macro(name, tokens, p1.since(name.span.start))),
            ),
        }
    } else {
        (p.fault("expected '(', '[' or '{' after a macro name"@), None)
    }
}

/// `debug_assert!(c)` and `debug_assert!(c, "m")`, from the `(` onwards.
#[verifier::opaque]
pub open spec fn assertion(p: Reading, name: Ident) -> (Reading, Option<Expr>)
    decreases p.left(), 21int,
{
    match onward(p, expect(p, Punct::LParen, "("@)) {
        (p1, false) => (p1, None),
        (p1, true) => match onward(p1, expr(p1)) {
            (p2, None) => (p2, None),
            (p2, Some(cond)) => match assertion_message(p2) {
                (p3, None) => (p3, None),
                (p3, Some(message)) => match expect(p3, Punct::RParen, ")"@) {
                    (p4, false) => (p4, None),
                    (p4, true) => (
                        p4,
                        Some(
                            Expr::Assert(Box::new(cond), message, p4.since(name.span.start)),
                        ),
                    ),
                },
            },
        },
    }
}

/// The optional message of a `debug_assert!`.
#[verifier::opaque]
pub open spec fn assertion_message(p: Reading) -> (Reading, Option<Option<Seq<char>>>) {
    if p.is_punct(Punct::Comma) {
        match p.bump().kind() {
            Some(TokenKind::Str(text)) => (p.bump().bump(), Some(Some(text))),
            _ => (p.bump().fault("a message is a string literal"@), None),
        }
    } else {
        (p, Some(None))
    }
}

/// The expression before a block: a condition, or a selector. A struct literal cannot
/// appear here, because `if p { .. }` would otherwise not say whether the brace opens a
/// block or a value.
pub open spec fn head_expr(p: Reading) -> (Reading, Option<Expr>) {
    expr_under(p, true)
}

// Statements.

#[verifier::opaque]
pub open spec fn recover_to_statement_end(p: Reading) -> Reading
    decreases p.left(),
{
    if p.kind() is None || p.at < 0 {
        p
    } else if p.is_punct(Punct::Semi) {
        p.bump()
    } else if p.is_punct(Punct::RBrace) {
        p
    } else {
        recover_to_statement_end(p.bump())
    }
}

#[verifier::opaque]
pub open spec fn block(p: Reading) -> (Reading, Option<Block>)
    decreases p.left(), 5int,
{
    let start = p.span().start;
    match onward(p, expect(p, Punct::LBrace, "{"@)) {
        (p1, false) => (p1, None),
        (p1, true) => match onward(p1, stmts(p1, seq![])) {
            (p2, None) => (p2, None),
            (p2, Some(stmts)) => (p2, Some(Block { stmts, span: p2.since(start) })),
        },
    }
}

/// The statements of a block, and the `}` that closes it.
#[verifier::opaque]
pub open spec fn stmts(p: Reading, acc: Seq<Stmt>) -> (Reading, Option<Seq<Stmt>>)
    decreases p.left(), 4int,
{
    if p.kind() is None {
        (p.fault("unterminated block: expected '}'"@), None)
    } else if p.is_punct(Punct::RBrace) {
        (p.bump(), Some(acc))
    } else {
        let (p1, found) = onward(p, stmt(p));
        match found {
            Some(one) => if p1.left() < p.left() {
                stmts(p1, acc.push(one))
            } else {
                (p1, None)
            },
            None => {
                let p2 = recover_to_statement_end(p1);
                if p2.toks == p.toks && p2.left() < p.left() {
                    stmts(p2, acc)
                } else {
                    (p2, None)
                }
            },
        }
    }
}

pub open spec fn misplaced_attribute() -> Seq<char> {
    "attributes here only apply to 'if', 'while' and 'loop'"@
}

#[verifier::opaque]
pub open spec fn stmt(p: Reading) -> (Reading, Option<Stmt>)
    decreases p.left(), 3int,
{
    let (p1, attrs) = onward(p, attributes(p, seq![]));
    if p1.is_keyword(Keyword::If) && p1.kind_at(p1.at + 1) == Some(
        TokenKind::Keyword(Keyword::Let),
    ) {
        // An `if let` is a `match`, which carries no attributes.
        let p2 = if attrs.len() > 0 {
            p1.fault_at(attrs[0].span, misplaced_attribute())
        } else {
            p1
        };
        match if_let_stmt(p2) {
            (p3, None) => (p3, None),
            (p3, Some(s)) => (p3, Some(Stmt::Match(s))),
        }
    } else if p1.is_keyword(Keyword::If) {
        match if_stmt(p1, attrs) {
            (p2, None) => (p2, None),
            (p2, Some(s)) => (p2, Some(Stmt::If(s))),
        }
    } else if p1.is_keyword(Keyword::While) || p1.is_keyword(Keyword::Loop) {
        match loop_stmt(p1, attrs) {
            (p2, None) => (p2, None),
            (p2, Some(s)) => (p2, Some(Stmt::Loop(s))),
        }
    } else if p1.is_keyword(Keyword::As) || p1.is_keyword(Keyword::At) || p1.is_keyword(
        Keyword::For,
    ) || p1.is_keyword(Keyword::Positioned) {
        match context_stmt(p1, attrs) {
            (p2, None) => (p2, None),
            (p2, Some(s)) => (p2, Some(Stmt::Context(s))),
        }
    } else if attrs.len() > 0 {
        (p1.fault_at(attrs[0].span, misplaced_attribute()), None)
    } else if p1.is_keyword(Keyword::Match) {
        match match_stmt(p1) {
            (p2, None) => (p2, None),
            (p2, Some(s)) => (p2, Some(Stmt::Match(s))),
        }
    } else {
        simple_stmt(p1)
    }
}

/// A statement that ends in `;`.
#[verifier::opaque]
pub open spec fn simple_stmt(p: Reading) -> (Reading, Option<Stmt>) {
    let span = p.span();
    if p.is_keyword(Keyword::Let) {
        match let_stmt(p) {
            (p1, None) => (p1, None),
            (p1, Some(s)) => (p1, Some(Stmt::Let(s))),
        }
    } else if p.is_keyword(Keyword::Break) {
        match expect(p.bump(), Punct::Semi, ";"@) {
            (p1, false) => (p1, None),
            (p1, true) => (p1, Some(Stmt::Break(span))),
        }
    } else if p.is_keyword(Keyword::Continue) {
        match expect(p.bump(), Punct::Semi, ";"@) {
            (p1, false) => (p1, None),
            (p1, true) => (p1, Some(Stmt::Continue(span))),
        }
    } else if p.is_keyword(Keyword::Return) {
        if p.bump().is_punct(Punct::Semi) {
            (p.bump().bump(), Some(Stmt::Return(None, span)))
        } else {
            match expr(p.bump()) {
                (p1, None) => (p1, None),
                (p1, Some(value)) => match expect(p1, Punct::Semi, ";"@) {
                    (p2, false) => (p2, None),
                    (p2, true) => (p2, Some(Stmt::Return(Some(value), span))),
                },
            }
        }
    } else {
        match expr(p) {
            (p1, None) => (p1, None),
            (p1, Some(e)) => match expect(p1, Punct::Semi, ";"@) {
                (p2, false) => (p2, None),
                (p2, true) => (p2, Some(Stmt::Expr(e))),
            },
        }
    }
}

#[verifier::opaque]
pub open spec fn let_stmt(p: Reading) -> (Reading, Option<LetStmt>) {
    let start = p.span().start;
    let (p1, mutable) = eat_keyword(p.bump(), Keyword::Mut);
    match binding_name(p1) {
        (p2, None) => (p2, None),
        (p2, Some(name)) => match let_type(p2) {
            (p3, None) => (p3, None),
            (p3, Some(ty)) => match expect(p3, Punct::Eq, "="@) {
                (p4, false) => (p4, None),
                (p4, true) => match expr(p4) {
                    (p5, None) => (p5, None),
                    (p5, Some(value)) => match expect(p5, Punct::Semi, ";"@) {
                        (p6, false) => (p6, None),
                        (p6, true) => (
                            p6,
                            Some(LetStmt { mutable, name, ty, value, span: p6.since(start) }),
                        ),
                    },
                },
            },
        },
    }
}

/// The optional annotation of a `let`.
#[verifier::opaque]
pub open spec fn let_type(p: Reading) -> (Reading, Option<Option<TypeName>>) {
    if p.is_punct(Punct::Colon) {
        match written_type(p.bump()) {
            (p1, None) => (p1, None),
            (p1, Some(ty)) => (p1, Some(Some(ty))),
        }
    } else {
        (p, Some(None))
    }
}

#[verifier::opaque]
pub open spec fn if_stmt(p: Reading, attrs: Seq<Attribute>) -> (Reading, Option<IfStmt>)
    decreases p.left(), 2int,
{
    let start = p.span().start;
    if p.kind() is None {
        (p, None)
    } else {
        match onward(p.bump(), head_expr(p.bump())) {
            (p1, None) => (p1, None),
            (p1, Some(cond)) => match onward(p1, block(p1)) {
                (p2, None) => (p2, None),
                (p2, Some(taken)) => match onward(p2, else_branch(p2)) {
                    (p3, None) => (p3, None),
                    (p3, Some(otherwise)) => (
                        p3,
                        Some(IfStmt { attrs, cond, taken, otherwise, span: p3.since(start) }),
                    ),
                },
            },
        }
    }
}

/// The optional `else` of an `if`.
#[verifier::opaque]
pub open spec fn else_branch(p: Reading) -> (Reading, Option<Option<Box<Else>>>)
    decreases p.left(), 1int,
{
    if p.is_keyword(Keyword::Else) {
        if p.bump().is_keyword(Keyword::If) {
            match if_stmt(p.bump(), seq![]) {
                (p1, None) => (p1, None),
                (p1, Some(nested)) => (p1, Some(Some(Box::new(Else::If(nested))))),
            }
        } else {
            match block(p.bump()) {
                (p1, None) => (p1, None),
                (p1, Some(b)) => (p1, Some(Some(Box::new(Else::Block(b))))),
            }
        }
    } else {
        (p, Some(None))
    }
}

/// `if let Some(x) = o { .. } else { .. }`, as the `match` it is.
#[verifier::opaque]
pub open spec fn if_let_stmt(p: Reading) -> (Reading, Option<MatchStmt>)
    decreases p.left(), 2int,
{
    let start = p.span().start;
    if p.left() < 2 {
        (p, None)
    } else {
        match onward(p.bump().bump(), pattern(p.bump().bump())) {
            (p1, None) => (p1, None),
            (p1, Some(pattern)) => match onward(p1, expect(p1, Punct::Eq, "="@)) {
                (p2, false) => (p2, None),
                (p2, true) => match onward(p2, head_expr(p2)) {
                    (p3, None) => (p3, None),
                    (p3, Some(scrutinee)) => match onward(p3, block(p3)) {
                        (p4, None) => (p4, None),
                        (p4, Some(taken)) => match onward(p4, else_block(p4, taken.span)) {
                            (p5, None) => (p5, None),
                            (p5, Some(otherwise)) => (
                                p5,
                                Some(
                                    MatchStmt {
                                        scrutinee,
                                        arms: seq![
                                            MatchArm {
                                                pattern,
                                                body: taken,
                                                span: pattern.span(),
                                            },
                                            MatchArm {
                                                pattern: Pattern::Wildcard(otherwise.span),
                                                body: otherwise,
                                                span: taken.span,
                                            },
                                        ],
                                        span: p5.since(start),
                                    },
                                ),
                            ),
                        },
                    },
                },
            },
        }
    }
}

/// The `else` of an `if let`, or an empty block at `span`.
#[verifier::opaque]
pub open spec fn else_block(p: Reading, span: Span) -> (Reading, Option<Block>)
    decreases p.left(), 1int,
{
    if p.is_keyword(Keyword::Else) {
        block(p.bump())
    } else {
        (p, Some(Block { stmts: seq![], span }))
    }
}

/// `match s { State::Idle => { .. } _ => { .. } }`.
#[verifier::opaque]
pub open spec fn match_stmt(p: Reading) -> (Reading, Option<MatchStmt>)
    decreases p.left(), 2int,
{
    let start = p.span().start;
    if p.kind() is None {
        (p, None)
    } else {
        match onward(p.bump(), head_expr(p.bump())) {
            (p1, None) => (p1, None),
            (p1, Some(scrutinee)) => match onward(p1, expect(p1, Punct::LBrace, "{"@)) {
                (p2, false) => (p2, None),
                (p2, true) => match onward(p2, match_arms(p2, seq![])) {
                    (p3, None) => (p3, None),
                    (p3, Some(arms)) => match expect(p3, Punct::RBrace, "}"@) {
                        (p4, false) => (p4, None),
                        (p4, true) => (
                            p4,
                            Some(MatchStmt { scrutinee, arms, span: p4.since(start) }),
                        ),
                    },
                },
            },
        }
    }
}

/// The arms of a `match`, up to the `}`. A comma between arms is allowed but not
/// required.
#[verifier::opaque]
pub open spec fn match_arms(p: Reading, acc: Seq<MatchArm>) -> (Reading, Option<Seq<MatchArm>>)
    decreases p.left(), 7int,
{
    if p.is_punct(Punct::RBrace) {
        (p, Some(acc))
    } else {
        match onward(p, match_arm(p)) {
            (p1, None) => (p1, None),
            (p1, Some(arm)) => {
                let (p2, _) = onward(p1, eat_punct(p1, Punct::Comma));
                if p2.left() < p.left() {
                    match_arms(p2, acc.push(arm))
                } else {
                    (p2, None)
                }
            },
        }
    }
}

#[verifier::opaque]
pub open spec fn match_arm(p: Reading) -> (Reading, Option<MatchArm>)
    decreases p.left(), 6int,
{
    let start = p.span().start;
    match onward(p, pattern(p)) {
        (p1, None) => (p1, None),
        (p1, Some(pattern)) => match onward(p1, expect(p1, Punct::FatArrow, "=>"@)) {
            (p2, false) => (p2, None),
            (p2, true) => match block(p2) {
                (p3, None) => (p3, None),
                (p3, Some(body)) => (
                    p3,
                    Some(MatchArm { pattern, body, span: p3.since(start) }),
                ),
            },
        },
    }
}

/// A pattern. `Some(x)` and `None` are built in, because `Option` is.
#[verifier::opaque]
pub open spec fn pattern(p: Reading) -> (Reading, Option<Pattern>) {
    let start = p.span().start;
    if p.is_punct(Punct::Underscore) {
        (p.bump(), Some(Pattern::Wildcard(p.bump().since(start))))
    } else {
        match ident(p) {
            (p1, None) => (p1, None),
            (p1, Some(ty)) => if ty.name == "None"@ {
                (p1, Some(Pattern::Absent(p1.since(start))))
            } else if ty.name == "Some"@ {
                match expect(p1, Punct::LParen, "("@) {
                    (p2, false) => (p2, None),
                    (p2, true) => match ident(p2) {
                        (p3, None) => (p3, None),
                        (p3, Some(bind)) => match expect(p3, Punct::RParen, ")"@) {
                            (p4, false) => (p4, None),
                            (p4, true) => (p4, Some(Pattern::Present(bind, p4.since(start)))),
                        },
                    },
                }
            } else if p1.is_punct(Punct::ColonColon) {
                variant_pattern(p1.bump(), ty, start)
            } else {
                (p1.fault("expected a variant, as in 'State::Idle'"@), None)
            },
        }
    }
}

/// The variant named after `State::`, and the payload fields it binds.
#[verifier::opaque]
pub open spec fn variant_pattern(p: Reading, ty: Ident, start: usize) -> (
    Reading,
    Option<Pattern>,
) {
    match ident(p) {
        (p1, None) => (p1, None),
        (p1, Some(variant)) => if p1.is_punct(Punct::LBrace) {
            match idents(p1.bump(), seq![]) {
                (p2, None) => (p2, None),
                (p2, Some(binds)) => match expect(p2, Punct::RBrace, "}"@) {
                    (p3, false) => (p3, None),
                    (p3, true) => (
                        p3,
                        Some(Pattern::Variant(ty, variant, binds, p3.since(start))),
                    ),
                },
            }
        } else {
            (p1, Some(Pattern::Variant(ty, variant, seq![], p1.since(start))))
        },
    }
}

/// Names, up to the `}`.
#[verifier::opaque]
pub open spec fn idents(p: Reading, acc: Seq<Ident>) -> (Reading, Option<Seq<Ident>>)
    decreases p.left(),
{
    if p.is_punct(Punct::RBrace) {
        (p, Some(acc))
    } else {
        match onward(p, ident(p)) {
            (p1, None) => (p1, None),
            (p1, Some(one)) => if p1.is_punct(Punct::Comma) {
                idents(p1.bump(), acc.push(one))
            } else {
                (p1, Some(acc.push(one)))
            },
        }
    }
}

pub open spec fn context_kind(kind: Option<TokenKind>) -> ContextKind {
    match kind {
        Some(TokenKind::Keyword(Keyword::As)) => ContextKind::As,
        Some(TokenKind::Keyword(Keyword::At)) => ContextKind::At,
        Some(TokenKind::Keyword(Keyword::Positioned)) => ContextKind::Positioned,
        _ => ContextKind::For,
    }
}

/// The name a `for` binds, and the `in` after it. The other context statements bind
/// none.
#[verifier::opaque]
pub open spec fn context_binding(p: Reading, kind: ContextKind) -> (
    Reading,
    Option<Option<Ident>>,
) {
    if kind == ContextKind::For {
        match ident(p) {
            (p1, None) => (p1, None),
            (p1, Some(name)) => if p1.is_keyword(Keyword::In) {
                (p1.bump(), Some(Some(name)))
            } else {
                (p1.fault("expected 'in'"@), None)
            },
        }
    } else {
        (p, Some(None))
    }
}

#[verifier::opaque]
pub open spec fn context_stmt(p: Reading, attrs: Seq<Attribute>) -> (Reading, Option<ContextStmt>)
    decreases p.left(), 2int,
{
    let start = p.span().start;
    let kind = context_kind(p.kind());
    if p.kind() is None {
        (p, None)
    } else {
        match onward(p.bump(), context_binding(p.bump(), kind)) {
            (p1, None) => (p1, None),
            (p1, Some(binding)) => match onward(p1, head_expr(p1)) {
                (p2, None) => (p2, None),
                (p2, Some(selector)) => match onward(p2, block(p2)) {
                    (p3, None) => (p3, None),
                    (p3, Some(body)) => (
                        p3,
                        Some(
                            ContextStmt {
                                attrs,
                                kind,
                                binding,
                                selector,
                                body,
                                span: p3.since(start),
                            },
                        ),
                    ),
                },
            },
        }
    }
}

/// The condition of a `while`; a `loop` has none.
#[verifier::opaque]
pub open spec fn loop_cond(p: Reading, conditional: bool) -> (Reading, Option<Option<Expr>>) {
    if conditional {
        match head_expr(p) {
            (p1, None) => (p1, None),
            (p1, Some(cond)) => (p1, Some(Some(cond))),
        }
    } else {
        (p, Some(None))
    }
}

#[verifier::opaque]
pub open spec fn loop_stmt(p: Reading, attrs: Seq<Attribute>) -> (Reading, Option<LoopStmt>)
    decreases p.left(), 2int,
{
    let start = p.span().start;
    let conditional = p.is_keyword(Keyword::While);
    if p.kind() is None {
        (p, None)
    } else {
        match onward(p.bump(), loop_cond(p.bump(), conditional)) {
            (p1, None) => (p1, None),
            (p1, Some(cond)) => match onward(p1, block(p1)) {
                (p2, None) => (p2, None),
                (p2, Some(body)) => (
                    p2,
                    Some(LoopStmt { attrs, cond, body, span: p2.since(start) }),
                ),
            },
        }
    }
}

// Items.

/// Whether an item could begin here.
pub open spec fn begins_item(p: Reading) -> bool {
    p.is_keyword(Keyword::Fn) || p.is_keyword(Keyword::Struct) || p.is_keyword(Keyword::Enum)
        || p.is_keyword(Keyword::Impl) || p.is_punct(Punct::Hash)
}

#[verifier::opaque]
pub open spec fn recover_to_item(p: Reading) -> Reading
    decreases p.left(),
{
    if p.kind() is None || p.at < 0 || begins_item(p) {
        p
    } else {
        recover_to_item(p.bump())
    }
}

/// `fn name<..>(..) -> T { .. }`, from after the `fn`.
#[verifier::opaque]
pub open spec fn fn_item(p: Reading, attrs: Seq<Attribute>, start: usize) -> (
    Reading,
    Option<Item>,
) {
    match ident(p) {
        (p1, None) => (p1, None),
        (p1, Some(name)) => match generics(p1) {
            (p2, None) => (p2, None),
            (p2, Some(generics)) => match expect(p2, Punct::LParen, "("@) {
                (p3, false) => (p3, None),
                (p3, true) => {
                    let (p4, receiver) = receiver(p3);
                    let p5 = if receiver is Some {
                        eat_punct(p4, Punct::Comma).0
                    } else {
                        p4
                    };
                    match params(p5, seq![]) {
                        (p6, None) => (p6, None),
                        (p6, Some(params)) => match expect(p6, Punct::RParen, ")"@) {
                            (p7, false) => (p7, None),
                            (p7, true) => match fn_return(p7) {
                                (p8, None) => (p8, None),
                                (p8, Some(ret)) => match block(p8) {
                                    (p9, None) => (p9, None),
                                    (p9, Some(body)) => (
                                        p9,
                                        Some(
                                            Item {
                                                attrs,
                                                kind: ItemKind::Fn(
                                                    FnItem {
                                                        name,
                                                        generics,
                                                        receiver,
                                                        params,
                                                        ret,
                                                        body,
                                                    },
                                                ),
                                                span: Span { start, end: body.span.end },
                                            },
                                        ),
                                    ),
                                },
                            },
                        },
                    }
                },
            },
        },
    }
}

/// The optional return type of a function.
#[verifier::opaque]
pub open spec fn fn_return(p: Reading) -> (Reading, Option<Option<TypeName>>) {
    if p.is_punct(Punct::Arrow) {
        match written_type(p.bump()) {
            (p1, None) => (p1, None),
            (p1, Some(ty)) => (p1, Some(Some(ty))),
        }
    } else {
        (p, Some(None))
    }
}

/// `struct Point { x: i32, y: i32 }`, from after the `struct`.
#[verifier::opaque]
pub open spec fn struct_item(p: Reading, attrs: Seq<Attribute>, start: usize) -> (
    Reading,
    Option<Item>,
) {
    match ident(p) {
        (p1, None) => (p1, None),
        (p1, Some(name)) => match generics(p1) {
            (p2, None) => (p2, None),
            (p2, Some(generics)) => match expect(p2, Punct::LBrace, "{"@) {
                (p3, false) => (p3, None),
                (p3, true) => match field_defs(p3, seq![]) {
                    (p4, None) => (p4, None),
                    (p4, Some(fields)) => match expect(p4, Punct::RBrace, "}"@) {
                        (p5, false) => (p5, None),
                        (p5, true) => (
                            p5,
                            Some(
                                Item {
                                    attrs,
                                    kind: ItemKind::Struct(
                                        StructItem { name, generics, fields },
                                    ),
                                    span: p5.since(start),
                                },
                            ),
                        ),
                    },
                },
            },
        },
    }
}

/// `enum State { Idle, Chasing { target: i32 } }`, from after the `enum`.
#[verifier::opaque]
pub open spec fn enum_item(p: Reading, attrs: Seq<Attribute>, start: usize) -> (
    Reading,
    Option<Item>,
) {
    match ident(p) {
        (p1, None) => (p1, None),
        (p1, Some(name)) => match expect(p1, Punct::LBrace, "{"@) {
            (p2, false) => (p2, None),
            (p2, true) => match variant_defs(p2, seq![]) {
                (p3, None) => (p3, None),
                (p3, Some(variants)) => match expect(p3, Punct::RBrace, "}"@) {
                    (p4, false) => (p4, None),
                    (p4, true) => (
                        p4,
                        Some(
                            Item {
                                attrs,
                                kind: ItemKind::Enum(EnumItem { name, variants }),
                                span: p4.since(start),
                            },
                        ),
                    ),
                },
            },
        },
    }
}

#[verifier::opaque]
pub open spec fn item(p: Reading) -> (Reading, Option<Item>)
    decreases p.left(), 1int,
{
    let start = p.span().start;
    let (p1, attrs) = onward(p, attributes(p, seq![]));
    if p1.is_keyword(Keyword::Fn) {
        fn_item(p1.bump(), attrs, start)
    } else if p1.is_keyword(Keyword::Struct) {
        struct_item(p1.bump(), attrs, start)
    } else if p1.is_keyword(Keyword::Enum) {
        enum_item(p1.bump(), attrs, start)
    } else if p1.is_keyword(Keyword::Impl) {
        impl_item(p1.bump(), attrs, start)
    } else {
        match p1.kind() {
            Some(TokenKind::Reserved(word)) => (
                p1.fault(
                    "'"@ + word + "' is reserved for a future version of minewell and cannot be used"@,
                ),
                None,
            ),
            _ => (p1.fault("expected an item"@), None),
        }
    }
}

/// `impl Point { fn bump(&mut self) { .. } }`, from after the `impl`.
#[verifier::opaque]
pub open spec fn impl_item(p: Reading, attrs: Seq<Attribute>, start: usize) -> (
    Reading,
    Option<Item>,
)
    decreases p.left(), 3int,
{
    match onward(p, ident(p)) {
        (p1, None) => (p1, None),
        (p1, Some(ty)) => match onward(p1, expect(p1, Punct::LBrace, "{"@)) {
            (p2, false) => (p2, None),
            (p2, true) => match onward(p2, methods(p2, seq![])) {
                (p3, None) => (p3, None),
                (p3, Some(methods)) => match expect(p3, Punct::RBrace, "}"@) {
                    (p4, false) => (p4, None),
                    (p4, true) => (
                        p4,
                        Some(
                            Item {
                                attrs,
                                kind: ItemKind::Impl(ty, methods),
                                span: p4.since(start),
                            },
                        ),
                    ),
                },
            },
        },
    }
}

/// The items of an `impl`, up to the `}`.
#[verifier::opaque]
pub open spec fn methods(p: Reading, acc: Seq<Item>) -> (Reading, Option<Seq<Item>>)
    decreases p.left(), 2int,
{
    if p.is_punct(Punct::RBrace) {
        (p, Some(acc))
    } else {
        match onward(p, item(p)) {
            (p1, None) => (p1, None),
            (p1, Some(one)) => if p1.left() < p.left() {
                methods(p1, acc.push(one))
            } else {
                (p1, None)
            },
        }
    }
}

/// The items of a file.
#[verifier::opaque]
pub open spec fn items(p: Reading, acc: Seq<Item>) -> (Reading, Seq<Item>)
    decreases p.left(),
{
    if p.kind() is None {
        (p, acc)
    } else {
        let (p1, found) = onward(p, item(p));
        match found {
            Some(one) => if p1.left() < p.left() {
                items(p1, acc.push(one))
            } else {
                (p1, acc)
            },
            None => {
                let p2 = recover_to_item(p1);
                if p2.toks == p.toks && p2.left() < p.left() {
                    items(p2, acc)
                } else {
                    (p2, acc)
                }
            },
        }
    }
}

/// The state in which the reading of a text begins.
pub open spec fn opening(src: Seq<char>) -> Reading {
    Reading {
        toks: lexed(src).0,
        end: offset(src, src.len() as int) as usize,
        at: 0,
        errs: lexed(src).1,
        no_struct_lit: false,
    }
}

/// The items of a text and everything wrong with its syntax.
pub open spec fn parsed(src: Seq<char>) -> (Seq<Item>, Seq<Fault>) {
    let (p, found) = items(opening(src), seq![]);
    (found, p.errs)
}

} // verus!

//! Tokens to syntax tree.
//!
//! Parsing collects errors and recovers rather than stopping. What it reads is what
//! `grammar` says: every function here follows the function of the same name there.

use vstd::prelude::*;

mod exprs;
mod items;
mod stmts;

use crate::syntax::ast::{
    attrs_view, field_defs_opt_view, field_opt_view, fields_view, generic_opt_view,
    generic_params_opt_view, generics_view, ident_opt_view, param_opt_view, params_opt_view,
    params_view, scale_opt_view, type_opt_view, types_opt_view, types_view, variant_def_opt_view,
    variant_defs_opt_view, variants_view, Attribute, BinaryExpr, BinaryOp, Borrow, Expr, FieldDef,
    GenericParam, Ident, IntLit, Param, Receiver, ScaleArg, SourceFile, TypeName, VariantDef,
};
use crate::syntax::grammar;
use crate::syntax::grammar::Reading;
use crate::syntax::lexer::{
    lex, tokens_opt_view, tokens_view, Keyword, Punct, Span, Token, TokenKind,
};
use crate::syntax::model;
use crate::syntax::{faults, SyntaxError};
use crate::text::{cat3, cat5, own, same};

verus! {

/// Reads a file: its items, and everything wrong with its syntax.
pub fn parse(src: &str) -> (r: (SourceFile, Vec<SyntaxError>))
    ensures
        (r.0@, faults(r.1@)) == grammar::parsed(src@),
{
    let (tokens, errors) = lex(src);
    let end: usize = src.as_bytes().len();
    proof {
        crate::syntax::lexer::lemma_offset_is_byte_length(src@);
    }
    let mut parser = Parser { tokens, at: 0, errors, end, no_struct_lit: false };
    // The tokens can be counted in a `usize`, and so can where reading stands.
    let _count: usize = parser.tokens.len();
    let items = parser.items();
    (SourceFile { items }, parser.errors)
}

pub(crate) struct Parser {
    pub(super) tokens: Vec<Token>,
    pub(super) at: usize,
    pub(super) errors: Vec<SyntaxError>,
    pub(super) end: usize,
    /// Whether a `{` here starts a block rather than a struct literal. True while
    /// parsing the head of an `if`, `while`, `as`, `at` or `for`.
    pub(super) no_struct_lit: bool,
}

pub(super) fn binary(op: BinaryOp, lhs: Expr, rhs: Expr) -> (r: Expr)
    ensures
        r@ == grammar::binary(op, lhs@, rhs@),
{
    let span = Span { start: lhs.span().start, end: rhs.span().end };
    let r = Expr::Binary(BinaryExpr { op, lhs: Box::new(lhs), rhs: Box::new(rhs), span });
    proof {
        r.unfold();
    }
    r
}

impl Parser {
    /// Where the reading stands.
    pub(super) open spec fn st(&self) -> Reading {
        Reading {
            toks: tokens_view(self.tokens@),
            end: self.end,
            at: self.at as int,
            errs: faults(self.errors@),
            no_struct_lit: self.no_struct_lit,
        }
    }

    pub(super) open spec fn wf(&self) -> bool {
        self.at <= self.tokens@.len() <= usize::MAX
    }

    /// Whether `next` is this parser, some tokens on.
    pub(super) open spec fn leads_to(&self, next: &Parser) -> bool {
        &&& next.wf()
        &&& next.tokens == self.tokens
        &&& next.end == self.end
        &&& self.at <= next.at
    }

    pub(super) fn kind(&self) -> (r: Option<&TokenKind>)
        ensures
            match r {
                Some(kind) => self.at < self.tokens@.len() && self.st().kind() == Some(kind@),
                None => self.st().kind() is None && self.at >= self.tokens@.len(),
            },
    {
        self.kind_at(0)
    }

    pub(super) fn kind_at(&self, ahead: usize) -> (r: Option<&TokenKind>)
        ensures
            match r {
                Some(kind) => self.at + ahead < self.tokens@.len() && self.st().kind_at(
                    self.at + ahead,
                ) == Some(kind@),
                None => self.st().kind_at(self.at + ahead) is None && self.at + ahead
                    >= self.tokens@.len(),
            },
    {
        if self.at < self.tokens.len() && ahead < self.tokens.len() - self.at {
            Some(&self.tokens[self.at + ahead].kind)
        } else {
            None
        }
    }

    pub(super) fn is_punct_at(&self, ahead: usize, punct: Punct) -> (r: bool)
        ensures
            r == (self.st().kind_at(self.at + ahead) == Some(model::TokenKind::Punct(punct))),
            r ==> self.at + ahead < self.tokens@.len(),
    {
        match self.kind_at(ahead) {
            Some(TokenKind::Punct(found)) => *found == punct,
            _ => false,
        }
    }

    pub(super) fn is_punct(&self, punct: Punct) -> (r: bool)
        ensures
            r == self.st().is_punct(punct),
            r ==> self.at < self.tokens@.len(),
    {
        self.is_punct_at(0, punct)
    }

    pub(super) fn is_keyword_at(&self, ahead: usize, keyword: Keyword) -> (r: bool)
        ensures
            r == (self.st().kind_at(self.at + ahead) == Some(
                model::TokenKind::Keyword(keyword),
            )),
            r ==> self.at + ahead < self.tokens@.len(),
    {
        match self.kind_at(ahead) {
            Some(TokenKind::Keyword(found)) => *found == keyword,
            _ => false,
        }
    }

    pub(super) fn is_keyword(&self, keyword: Keyword) -> (r: bool)
        ensures
            r == self.st().is_keyword(keyword),
            r ==> self.at < self.tokens@.len(),
    {
        self.is_keyword_at(0, keyword)
    }

    /// The current token's span, or a zero-width span at end of input.
    pub(super) fn span(&self) -> (r: Span)
        ensures
            r == self.st().span(),
    {
        if self.at < self.tokens.len() {
            self.tokens[self.at].span
        } else {
            Span { start: self.end, end: self.end }
        }
    }

    pub(super) fn since(&self, start: usize) -> (r: Span)
        ensures
            r == self.st().since(start),
    {
        let end: usize = if self.at >= 1 && self.at - 1 < self.tokens.len() {
            self.tokens[self.at - 1].span.end
        } else {
            self.end
        };
        Span { start, end }
    }

    pub(super) fn bump(&mut self)
        requires
            old(self).wf(),
            old(self).at < old(self).tokens@.len(),
        ensures
            final(self).st() == old(self).st().bump(),
            old(self).leads_to(final(self)),
            final(self).at == old(self).at + 1,
    {
        self.at += 1;
    }

    pub(super) fn fault_at(&mut self, span: Span, message: String)
        requires
            old(self).wf(),
        ensures
            final(self).st() == old(self).st().fault_at(span, message@),
            old(self).leads_to(final(self)),
            final(self).at == old(self).at,
    {
        let ghost before = faults(self.errors@);
        let error = SyntaxError { span, message };
        let ghost shown = error@;
        self.errors.push(error);
        proof {
            assert(faults(self.errors@) =~= before.push(shown));
        }
    }

    pub(super) fn fault(&mut self, message: String)
        requires
            old(self).wf(),
        ensures
            final(self).st() == old(self).st().fault(message@),
            old(self).leads_to(final(self)),
            final(self).at == old(self).at,
    {
        let span = self.span();
        self.fault_at(span, message);
    }

    pub(super) fn eat_punct(&mut self, punct: Punct) -> (r: bool)
        requires
            old(self).wf(),
        ensures
            (final(self).st(), r) == grammar::eat_punct(old(self).st(), punct),
            old(self).leads_to(final(self)),
            r ==> final(self).at > old(self).at,
    {
        if self.is_punct(punct) {
            self.bump();
            true
        } else {
            false
        }
    }

    pub(super) fn eat_keyword(&mut self, keyword: Keyword) -> (r: bool)
        requires
            old(self).wf(),
        ensures
            (final(self).st(), r) == grammar::eat_keyword(old(self).st(), keyword),
            old(self).leads_to(final(self)),
            r ==> final(self).at > old(self).at,
    {
        if self.is_keyword(keyword) {
            self.bump();
            true
        } else {
            false
        }
    }

    pub(super) fn expect(&mut self, punct: Punct, shown: &str) -> (r: bool)
        requires
            old(self).wf(),
        ensures
            (final(self).st(), r) == grammar::expect(old(self).st(), punct, shown@),
            old(self).leads_to(final(self)),
            r ==> final(self).at > old(self).at,
    {
        if self.is_punct(punct) {
            self.bump();
            true
        } else {
            self.fault(cat3("expected '", shown, "'"));
            false
        }
    }

    pub(super) fn ident(&mut self) -> (r: Option<Ident>)
        requires
            old(self).wf(),
        ensures
            (final(self).st(), ident_opt_view(r)) == grammar::ident(old(self).st()),
            old(self).leads_to(final(self)),
            r is Some ==> final(self).at > old(self).at,
    {
        match self.kind() {
            Some(TokenKind::Ident(name)) => {
                let name = name.clone();
                let span = self.span();
                self.bump();
                Some(Ident { name, span })
            },
            Some(TokenKind::Reserved(word)) => {
                let message = cat3("'", word.as_str(), "' is reserved and cannot be used as a name");
                self.fault(message);
                None
            },
            _ => {
                self.fault(own("expected a name"));
                None
            },
        }
    }

    pub(super) fn binding_name(&mut self) -> (r: Option<Ident>)
        requires
            old(self).wf(),
        ensures
            (final(self).st(), ident_opt_view(r)) == grammar::binding_name(old(self).st()),
            old(self).leads_to(final(self)),
            r is Some ==> final(self).at > old(self).at,
    {
        if let Some(TokenKind::Resource(text)) = self.kind() {
            if let Some((name, ty)) = crate::text::cut_once(text.as_str(), ':') {
                let message = cat5(
                    "a type annotation needs a space after the colon: write '",
                    name.as_str(),
                    ": ",
                    ty.as_str(),
                    "'",
                );
                self.fault(message);
                self.bump();
                return None;
            }
        }
        self.ident()
    }

    /// Consumes a bracketed run of tokens and returns the ones inside it.
    pub(super) fn group(&mut self, open: Punct) -> (r: Option<Vec<Token>>)
        requires
            old(self).wf(),
            open == Punct::LParen || open == Punct::LBracket || open == Punct::LBrace,
        ensures
            (final(self).st(), tokens_opt_view(r)) == grammar::group(old(self).st(), open),
            old(self).leads_to(final(self)),
            r is Some ==> final(self).at > old(self).at,
    {
        let close = match open {
            Punct::LParen => Punct::RParen,
            Punct::LBracket => Punct::RBracket,
            _ => Punct::RBrace,
        };
        if !self.is_punct(open) {
            self.fault(own("expected an opening bracket"));
            return None;
        }
        self.bump();
        let mut depth: usize = 1;
        let mut tokens: Vec<Token> = Vec::new();
        proof {
            assert(tokens_view(tokens@) =~= seq![]);
        }
        loop
            invariant
                old(self).leads_to(self),
                self.at > old(self).at,
                1 <= depth <= self.at,
                open != close,
                close == grammar::closing(open),
                old(self).st().is_punct(open),
                grammar::group_rest(old(self).st().bump(), open, close, 1, seq![])
                    == grammar::group_rest(
                    self.st(),
                    open,
                    close,
                    depth as int,
                    tokens_view(tokens@),
                ),
            decreases self.tokens.len() - self.at,
        {
            if self.at >= self.tokens.len() {
                self.fault(own("unterminated bracket"));
                return None;
            }
            if self.is_punct(open) {
                depth += 1;
            } else if self.is_punct(close) {
                depth -= 1;
                if depth == 0 {
                    self.bump();
                    return Some(tokens);
                }
            }
            let token = self.tokens[self.at].copy();
            let ghost before = tokens_view(tokens@);
            let ghost shown = token@;
            tokens.push(token);
            proof {
                assert(tokens_view(tokens@) =~= before.push(shown));
            }
            self.bump();
        }
    }

    pub(super) fn attributes(&mut self) -> (r: Vec<Attribute>)
        requires
            old(self).wf(),
        ensures
            (final(self).st(), attrs_view(r@)) == grammar::attributes(old(self).st(), seq![]),
            old(self).leads_to(final(self)),
            old(self).st().is_punct(Punct::Hash) ==> final(self).at > old(self).at,
    {
        let mut attrs: Vec<Attribute> = Vec::new();
        proof {
            assert(attrs_view(attrs@) =~= seq![]);
        }
        loop
            invariant
                old(self).leads_to(self),
                grammar::attributes(old(self).st(), seq![]) == grammar::attributes(
                    self.st(),
                    attrs_view(attrs@),
                ),
                self.at == old(self).at ==> self.st() == old(self).st(),
            decreases self.tokens.len() - self.at,
        {
            proof {
                reveal(grammar::attributes);
            }
            if !self.is_punct(Punct::Hash) {
                return attrs;
            }
            let start: usize = self.span().start;
            self.bump();
            match self.group(Punct::LBracket) {
                Some(tokens) => {
                    let ghost before = attrs_view(attrs@);
                    let attr = Attribute { tokens, span: self.since(start) };
                    let ghost shown = attr@;
                    attrs.push(attr);
                    proof {
                        assert(attrs_view(attrs@) =~= before.push(shown));
                    }
                },
                None => {
                    self.fault(own("expected '[' after '#'"));
                    return attrs;
                },
            }
        }
    }

    // Types and declarations.

    /// The `1000` of `fix<1000>`, or the name of a const parameter.
    pub(super) fn scale_arg(&mut self) -> (r: Option<ScaleArg>)
        requires
            old(self).wf(),
        ensures
            (final(self).st(), scale_opt_view(r)) == grammar::scale_arg(old(self).st()),
            old(self).leads_to(final(self)),
            r is Some ==> final(self).at > old(self).at,
    {
        proof {
            reveal(grammar::scale_arg);
        }
        let span = self.span();
        match self.kind() {
            Some(TokenKind::Int(value)) => {
                let value: i32 = *value;
                self.bump();
                Some(ScaleArg::Int(IntLit { value, span }))
            },
            Some(TokenKind::Ident(_)) => match self.ident() {
                Some(name) => Some(ScaleArg::Param(name)),
                None => None,
            },
            _ => {
                self.fault(own("a scale is an integer, as in 'fix<1000>'"));
                None
            },
        }
    }

    pub(super) fn borrow(&mut self) -> (r: Option<Borrow>)
        requires
            old(self).wf(),
        ensures
            (final(self).st(), r) == grammar::borrow(old(self).st()),
            old(self).leads_to(final(self)),
    {
        if self.eat_punct(Punct::And) {
            if self.eat_keyword(Keyword::Mut) {
                Some(Borrow::Mutable)
            } else {
                Some(Borrow::Shared)
            }
        } else {
            None
        }
    }

    pub(super) fn written_type(&mut self) -> (r: Option<TypeName>)
        requires
            old(self).wf(),
        ensures
            (final(self).st(), type_opt_view(r)) == grammar::written_type(old(self).st()),
            old(self).leads_to(final(self)),
            r is Some ==> final(self).at > old(self).at,
        decreases old(self).st().left(), 1int,
    {
        proof {
            reveal(grammar::written_type);
            reveal(grammar::type_args);
        }
        let start: usize = self.span().start;
        let borrow = self.borrow();
        let name = match self.ident() {
            Some(name) => name.name,
            None => return None,
        };
        let mut args: Vec<TypeName> = Vec::new();
        proof {
            assert(types_view(args@) =~= seq![]);
        }
        let mut scale: Option<ScaleArg> = None;
        if same(name.as_str(), "fix") {
            if !self.expect(Punct::Lt, "<") {
                return None;
            }
            match self.scale_arg() {
                Some(found) => scale = Some(found),
                None => return None,
            }
            if !self.expect(Punct::Gt, ">") {
                return None;
            }
        } else if self.eat_punct(Punct::Lt) {
            match self.type_args() {
                Some(found) => args = found,
                None => return None,
            }
            if !self.expect(Punct::Gt, ">") {
                return None;
            }
        }
        let span = self.since(start);
        let ghost shown = types_view(args@);
        let r = TypeName { borrow, name, args, scale, span };
        proof {
            assert(r@.args =~= shown);
        }
        Some(r)
    }

    pub(super) fn type_args(&mut self) -> (r: Option<Vec<TypeName>>)
        requires
            old(self).wf(),
        ensures
            (final(self).st(), types_opt_view(r)) == grammar::type_args(old(self).st(), seq![]),
            old(self).leads_to(final(self)),
        decreases old(self).st().left(), 2int,
    {
        let mut list: Vec<TypeName> = Vec::new();
        proof {
            assert(types_view(list@) =~= seq![]);
        }
        loop
            invariant
                old(self).leads_to(self),
                grammar::type_args(old(self).st(), seq![]) == grammar::type_args(
                    self.st(),
                    types_view(list@),
                ),
            decreases self.tokens.len() - self.at,
        {
            proof {
                reveal(grammar::type_args);
                reveal(grammar::written_type);
            }
            if self.is_punct(Punct::Gt) {
                return Some(list);
            }
            match self.written_type() {
                Some(one) => {
                    let ghost before = types_view(list@);
                    let ghost shown = one@;
                    list.push(one);
                    proof {
                        assert(types_view(list@) =~= before.push(shown));
                    }
                },
                None => return None,
            }
            if !self.eat_punct(Punct::Comma) {
                return Some(list);
            }
        }
    }

    pub(super) fn generic_param(&mut self) -> (r: Option<GenericParam>)
        requires
            old(self).wf(),
        ensures
            (final(self).st(), generic_opt_view(r)) == grammar::generic_param(old(self).st()),
            old(self).leads_to(final(self)),
            r is Some ==> final(self).at > old(self).at,
    {
        proof {
            reveal(grammar::generic_param);
        }
        let is_const = self.eat_keyword(Keyword::Const);
        let name = match self.ident() {
            Some(name) => name,
            None => return None,
        };
        if is_const {
            if !self.expect(Punct::Colon, ":") {
                return None;
            }
            match self.ident() {
                Some(ty) => {
                    if !same(ty.name.as_str(), "i32") {
                        self.fault(own("a const parameter is a scale, so its type is i32"));
                        return None;
                    }
                },
                None => return None,
            }
        }
        Some(GenericParam { name, is_const })
    }

    pub(super) fn generic_params(&mut self) -> (r: Option<Vec<GenericParam>>)
        requires
            old(self).wf(),
        ensures
            (final(self).st(), generic_params_opt_view(r)) == grammar::generic_params(old(self).st(), seq![]),
            old(self).leads_to(final(self)),
    {
        let mut list: Vec<GenericParam> = Vec::new();
        proof {
            assert(generics_view(list@) =~= seq![]);
        }
        loop
            invariant
                old(self).leads_to(self),
                grammar::generic_params(old(self).st(), seq![]) == grammar::generic_params(
                    self.st(),
                    generics_view(list@),
                ),
            decreases self.tokens.len() - self.at,
        {
            proof {
                reveal(grammar::generic_params);
            }
            if self.is_punct(Punct::Gt) {
                return Some(list);
            }
            match self.generic_param() {
                Some(one) => {
                    let ghost before = generics_view(list@);
                    let ghost shown = one@;
                    list.push(one);
                    proof {
                        assert(generics_view(list@) =~= before.push(shown));
                    }
                },
                None => return None,
            }
            if !self.eat_punct(Punct::Comma) {
                return Some(list);
            }
        }
    }

    /// `<T, const S: i32>` after a name. Empty when there are none.
    pub(super) fn generics(&mut self) -> (r: Option<Vec<GenericParam>>)
        requires
            old(self).wf(),
        ensures
            (final(self).st(), generic_params_opt_view(r)) == grammar::generics(old(self).st()),
            old(self).leads_to(final(self)),
    {
        proof {
            reveal(grammar::generics);
        }
        if !self.eat_punct(Punct::Lt) {
            let none: Vec<GenericParam> = Vec::new();
            proof {
                assert(generics_view(none@) =~= seq![]);
            }
            return Some(none);
        }
        match self.generic_params() {
            Some(params) => {
                if !self.expect(Punct::Gt, ">") {
                    return None;
                }
                Some(params)
            },
            None => None,
        }
    }

    pub(super) fn field_def(&mut self) -> (r: Option<FieldDef>)
        requires
            old(self).wf(),
        ensures
            (final(self).st(), field_opt_view(r)) == grammar::field_def(old(self).st()),
            old(self).leads_to(final(self)),
            r is Some ==> final(self).at > old(self).at,
    {
        proof {
            reveal(grammar::field_def);
        }
        let start: usize = self.span().start;
        let attrs = self.attributes();
        let name = match self.binding_name() {
            Some(name) => name,
            None => return None,
        };
        if !self.expect(Punct::Colon, ":") {
            return None;
        }
        let ty = match self.written_type() {
            Some(ty) => ty,
            None => return None,
        };
        let span = self.since(start);
        Some(FieldDef { attrs, name, ty, span })
    }

    pub(super) fn field_defs(&mut self) -> (r: Option<Vec<FieldDef>>)
        requires
            old(self).wf(),
        ensures
            (final(self).st(), field_defs_opt_view(r)) == grammar::field_defs(old(self).st(), seq![]),
            old(self).leads_to(final(self)),
    {
        let mut list: Vec<FieldDef> = Vec::new();
        proof {
            assert(fields_view(list@) =~= seq![]);
        }
        loop
            invariant
                old(self).leads_to(self),
                grammar::field_defs(old(self).st(), seq![]) == grammar::field_defs(
                    self.st(),
                    fields_view(list@),
                ),
            decreases self.tokens.len() - self.at,
        {
            proof {
                reveal(grammar::field_defs);
            }
            if self.is_punct(Punct::RBrace) {
                return Some(list);
            }
            match self.field_def() {
                Some(one) => {
                    let ghost before = fields_view(list@);
                    let ghost shown = one@;
                    list.push(one);
                    proof {
                        assert(fields_view(list@) =~= before.push(shown));
                    }
                },
                None => return None,
            }
            if !self.eat_punct(Punct::Comma) {
                return Some(list);
            }
        }
    }

    /// `&self` / `&mut self` / `self` at the head of a parameter list.
    pub(super) fn receiver(&mut self) -> (r: Option<Receiver>)
        requires
            old(self).wf(),
        ensures
            (final(self).st(), r) == grammar::receiver(old(self).st()),
            old(self).leads_to(final(self)),
            r is Some ==> final(self).at > old(self).at,
    {
        proof {
            reveal(grammar::receiver);
        }
        let start: usize = self.span().start;
        if self.is_keyword(Keyword::SelfValue) {
            self.bump();
            let span = self.since(start);
            return Some(Receiver { borrow: None, span });
        }
        if !self.is_punct(Punct::And) {
            return None;
        }
        // `& self` / `& mut self`; anything else is a parameter type.
        let mutable = self.is_keyword_at(1, Keyword::Mut);
        let after: usize = if mutable {
            2
        } else {
            1
        };
        if !self.is_keyword_at(after, Keyword::SelfValue) {
            return None;
        }
        self.bump();
        if mutable {
            self.bump();
        }
        self.bump();
        let borrow = if mutable {
            Borrow::Mutable
        } else {
            Borrow::Shared
        };
        let span = self.since(start);
        Some(Receiver { borrow: Some(borrow), span })
    }

    pub(super) fn param(&mut self) -> (r: Option<Param>)
        requires
            old(self).wf(),
        ensures
            (final(self).st(), param_opt_view(r)) == grammar::param(old(self).st()),
            old(self).leads_to(final(self)),
            r is Some ==> final(self).at > old(self).at,
    {
        proof {
            reveal(grammar::param);
        }
        let start: usize = self.span().start;
        let name = match self.binding_name() {
            Some(name) => name,
            None => return None,
        };
        if !self.expect(Punct::Colon, ":") {
            return None;
        }
        let ty = match self.written_type() {
            Some(ty) => ty,
            None => return None,
        };
        let span = self.since(start);
        Some(Param { name, ty, span })
    }

    pub(super) fn params(&mut self) -> (r: Option<Vec<Param>>)
        requires
            old(self).wf(),
        ensures
            (final(self).st(), params_opt_view(r)) == grammar::params(old(self).st(), seq![]),
            old(self).leads_to(final(self)),
    {
        let mut list: Vec<Param> = Vec::new();
        proof {
            assert(params_view(list@) =~= seq![]);
        }
        loop
            invariant
                old(self).leads_to(self),
                grammar::params(old(self).st(), seq![]) == grammar::params(
                    self.st(),
                    params_view(list@),
                ),
            decreases self.tokens.len() - self.at,
        {
            proof {
                reveal(grammar::params);
            }
            if self.is_punct(Punct::RParen) {
                return Some(list);
            }
            match self.param() {
                Some(one) => {
                    let ghost before = params_view(list@);
                    let ghost shown = one@;
                    list.push(one);
                    proof {
                        assert(params_view(list@) =~= before.push(shown));
                    }
                },
                None => return None,
            }
            if !self.eat_punct(Punct::Comma) {
                return Some(list);
            }
        }
    }

    pub(super) fn variant_def(&mut self) -> (r: Option<VariantDef>)
        requires
            old(self).wf(),
        ensures
            (final(self).st(), variant_def_opt_view(r)) == grammar::variant_def(old(self).st()),
            old(self).leads_to(final(self)),
            r is Some ==> final(self).at > old(self).at,
    {
        proof {
            reveal(grammar::variant_def);
        }
        let start: usize = self.span().start;
        let name = match self.ident() {
            Some(name) => name,
            None => return None,
        };
        if self.is_punct(Punct::LParen) {
            self.fault(own("a variant names its fields: write 'V { field: i32 }'"));
            return None;
        }
        let mut fields: Vec<FieldDef> = Vec::new();
        proof {
            assert(fields_view(fields@) =~= seq![]);
        }
        if self.eat_punct(Punct::LBrace) {
            match self.field_defs() {
                Some(found) => fields = found,
                None => return None,
            }
            if !self.expect(Punct::RBrace, "}") {
                return None;
            }
        }
        let span = self.since(start);
        Some(VariantDef { name, fields, span })
    }

    pub(super) fn variant_defs(&mut self) -> (r: Option<Vec<VariantDef>>)
        requires
            old(self).wf(),
        ensures
            (final(self).st(), variant_defs_opt_view(r)) == grammar::variant_defs(old(self).st(), seq![]),
            old(self).leads_to(final(self)),
    {
        let mut list: Vec<VariantDef> = Vec::new();
        proof {
            assert(variants_view(list@) =~= seq![]);
        }
        loop
            invariant
                old(self).leads_to(self),
                grammar::variant_defs(old(self).st(), seq![]) == grammar::variant_defs(
                    self.st(),
                    variants_view(list@),
                ),
            decreases self.tokens.len() - self.at,
        {
            proof {
                reveal(grammar::variant_defs);
            }
            if self.is_punct(Punct::RBrace) {
                return Some(list);
            }
            match self.variant_def() {
                Some(one) => {
                    let ghost before = variants_view(list@);
                    let ghost shown = one@;
                    list.push(one);
                    proof {
                        assert(variants_view(list@) =~= before.push(shown));
                    }
                },
                None => return None,
            }
            if !self.eat_punct(Punct::Comma) {
                return Some(list);
            }
        }
    }
}

/// What the tree of an expression looks like is what its variant says.
pub(super) proof fn lemma_shape(e: Expr)
    ensures
        e@ is Path <==> e is Path,
        e@ is Field <==> e is Field,
        e@ is Index <==> e is Index,
{
    e.unfold();
}

} // verus!

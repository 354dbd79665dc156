//! Statements and patterns.

use vstd::prelude::*;
use crate::syntax::ast::{
    arms_view, attrs_view, block_opt_view, binds_opt_view, context_opt_view, else_opt_view,
    expr_opt_view, ident_opt_view, idents_view, if_opt_view, let_opt_view, loop_opt_view,
    match_arm_opt_view, match_arms_opt_view, match_opt_view, pattern_opt_view, stmt_opt_view,
    stmts_opt_view, stmts_view, type_opt_view, Attribute, Block, ContextKind, ContextStmt, Else,
    Expr, Ident, IfStmt, LetStmt, LoopStmt, MatchArm, MatchStmt, Pattern, Stmt, TypeName,
};
use crate::syntax::grammar;
use crate::syntax::lexer::{Keyword, Punct, Span};
use crate::text::{own, same};
use crate::syntax::parser::Parser;

verus! {

impl Parser {
    pub(super) fn recover_to_statement_end(&mut self)
        requires
            old(self).wf(),
        ensures
            final(self).st() == grammar::recover_to_statement_end(old(self).st()),
            old(self).leads_to(final(self)),
            old(self).at < old(self).tokens@.len() && !old(self).st().is_punct(Punct::RBrace)
                ==> final(self).at > old(self).at,
    {
        while self.at < self.tokens.len()
            invariant
                old(self).leads_to(self),
                self.at == old(self).at ==> self.st() == old(self).st(),
                grammar::recover_to_statement_end(old(self).st())
                    == grammar::recover_to_statement_end(self.st()),
            decreases self.tokens.len() - self.at,
        {
            proof {
                reveal(grammar::recover_to_statement_end);
            }
            if self.is_punct(Punct::Semi) {
                self.bump();
                return;
            }
            if self.is_punct(Punct::RBrace) {
                return;
            }
            self.bump();
        }
        proof {
            reveal(grammar::recover_to_statement_end);
        }
    }

    pub(super) fn block(&mut self) -> (r: Option<Block>)
        requires
            old(self).wf(),
        ensures
            (final(self).st(), block_opt_view(r)) == grammar::block(old(self).st()),
            old(self).leads_to(final(self)),
            r is Some ==> final(self).at > old(self).at,
        decreases old(self).st().left(), 5int,
    {
        proof {
            reveal(grammar::block);
            reveal(grammar::stmts);
        }
        let start: usize = self.span().start;
        if !self.expect(Punct::LBrace, "{") {
            return None;
        }
        match self.stmts() {
            Some(stmts) => {
                let span = self.since(start);
                let ghost shown = stmts_view(stmts@);
                let r = Block { stmts, span };
                proof {
                    assert(r@.stmts =~= shown);
                }
                Some(r)
            },
            None => None,
        }
    }

    pub(super) fn stmts(&mut self) -> (r: Option<Vec<Stmt>>)
        requires
            old(self).wf(),
        ensures
            (final(self).st(), stmts_opt_view(r)) == grammar::stmts(old(self).st(), seq![]),
            old(self).leads_to(final(self)),
        decreases old(self).st().left(), 4int,
    {
        let mut list: Vec<Stmt> = Vec::new();
        proof {
            assert(stmts_view(list@) =~= seq![]);
        }
        loop
            invariant
                old(self).leads_to(self),
                grammar::stmts(old(self).st(), seq![]) == grammar::stmts(
                    self.st(),
                    stmts_view(list@),
                ),
            decreases self.tokens.len() - self.at,
        {
            proof {
                reveal(grammar::stmts);
                reveal(grammar::stmt);
            }
            if self.at >= self.tokens.len() {
                self.fault(own("unterminated block: expected '}'"));
                return None;
            }
            if self.is_punct(Punct::RBrace) {
                self.bump();
                return Some(list);
            }
            let ghost before = *self;
            match self.stmt() {
                Some(one) => {
                    let ghost kept = stmts_view(list@);
                    let ghost shown = one@;
                    list.push(one);
                    proof {
                        assert(stmts_view(list@) =~= kept.push(shown));
                    }
                },
                None => {
                    let ghost stuck = *self;
                    self.recover_to_statement_end();
                    proof {
                        assert(stuck.at == before.at ==> stuck.st().kind() == before.st().kind());
                    }
                },
            }
        }
    }

    pub(super) fn stmt(&mut self) -> (r: Option<Stmt>)
        requires
            old(self).wf(),
        ensures
            (final(self).st(), stmt_opt_view(r)) == grammar::stmt(old(self).st()),
            old(self).leads_to(final(self)),
            r is Some ==> final(self).at > old(self).at,
        decreases old(self).st().left(), 3int,
    {
        proof {
            reveal(grammar::stmt);
            reveal(grammar::if_stmt);
            reveal(grammar::if_let_stmt);
            reveal(grammar::match_stmt);
            reveal(grammar::context_stmt);
            reveal(grammar::loop_stmt);
        }
        let attrs = self.attributes();
        if self.is_keyword(Keyword::If) && self.is_keyword_at(1, Keyword::Let) {
            if attrs.len() > 0 {
                let span = attrs[0].span;
                self.fault_at(
                    span,
                    own("attributes here only apply to 'if', 'while' and 'loop'"),
                );
            }
            return match self.if_let_stmt() {
                Some(s) => Some(Stmt::Match(s)),
                None => None,
            };
        }
        if self.is_keyword(Keyword::If) {
            return match self.if_stmt(attrs) {
                Some(s) => Some(Stmt::If(s)),
                None => None,
            };
        }
        if self.is_keyword(Keyword::While) || self.is_keyword(Keyword::Loop) {
            return match self.loop_stmt(attrs) {
                Some(s) => Some(Stmt::Loop(s)),
                None => None,
            };
        }
        if self.is_keyword(Keyword::As) || self.is_keyword(Keyword::At) || self.is_keyword(
            Keyword::For,
        ) || self.is_keyword(Keyword::Positioned) {
            return match self.context_stmt(attrs) {
                Some(s) => Some(Stmt::Context(s)),
                None => None,
            };
        }
        if attrs.len() > 0 {
            let span = attrs[0].span;
            self.fault_at(span, own("attributes here only apply to 'if', 'while' and 'loop'"));
            return None;
        }
        if self.is_keyword(Keyword::Match) {
            return match self.match_stmt() {
                Some(s) => Some(Stmt::Match(s)),
                None => None,
            };
        }
        self.simple_stmt()
    }

    /// A statement that ends in `;`.
    pub(super) fn simple_stmt(&mut self) -> (r: Option<Stmt>)
        requires
            old(self).wf(),
        ensures
            (final(self).st(), stmt_opt_view(r)) == grammar::simple_stmt(old(self).st()),
            old(self).leads_to(final(self)),
            r is Some ==> final(self).at > old(self).at,
    {
        proof {
            reveal(grammar::simple_stmt);
        }
        let span = self.span();
        if self.is_keyword(Keyword::Let) {
            return match self.let_stmt() {
                Some(s) => Some(Stmt::Let(s)),
                None => None,
            };
        }
        if self.is_keyword(Keyword::Break) {
            self.bump();
            if !self.expect(Punct::Semi, ";") {
                return None;
            }
            return Some(Stmt::Break(span));
        }
        if self.is_keyword(Keyword::Continue) {
            self.bump();
            if !self.expect(Punct::Semi, ";") {
                return None;
            }
            return Some(Stmt::Continue(span));
        }
        if self.is_keyword(Keyword::Return) {
            self.bump();
            if self.is_punct(Punct::Semi) {
                self.bump();
                return Some(Stmt::Return { value: None, span });
            }
            let value = match self.expr() {
                Some(value) => value,
                None => return None,
            };
            if !self.expect(Punct::Semi, ";") {
                return None;
            }
            return Some(Stmt::Return { value: Some(value), span });
        }
        let e = match self.expr() {
            Some(e) => e,
            None => return None,
        };
        if !self.expect(Punct::Semi, ";") {
            return None;
        }
        Some(Stmt::Expr(e))
    }

    pub(super) fn let_stmt(&mut self) -> (r: Option<LetStmt>)
        requires
            old(self).wf(),
            old(self).at < old(self).tokens@.len(),
        ensures
            (final(self).st(), let_opt_view(r)) == grammar::let_stmt(old(self).st()),
            old(self).leads_to(final(self)),
            r is Some ==> final(self).at > old(self).at,
    {
        proof {
            reveal(grammar::let_stmt);
        }
        let start: usize = self.span().start;
        self.bump();
        let mutable = self.eat_keyword(Keyword::Mut);
        let name = match self.binding_name() {
            Some(name) => name,
            None => return None,
        };
        let ty = match self.let_type() {
            Some(ty) => ty,
            None => return None,
        };
        if !self.expect(Punct::Eq, "=") {
            return None;
        }
        let value = match self.expr() {
            Some(value) => value,
            None => return None,
        };
        if !self.expect(Punct::Semi, ";") {
            return None;
        }
        let span = self.since(start);
        Some(LetStmt { mutable, name, ty, value, span })
    }

    /// The optional annotation of a `let`.
    pub(super) fn let_type(&mut self) -> (r: Option<Option<TypeName>>)
        requires
            old(self).wf(),
        ensures
            (
                final(self).st(),
                match r {
                    Some(ty) => Some(type_opt_view(ty)),
                    None => None,
                },
            ) == grammar::let_type(old(self).st()),
            old(self).leads_to(final(self)),
    {
        proof {
            reveal(grammar::let_type);
        }
        if !self.eat_punct(Punct::Colon) {
            return Some(None);
        }
        match self.written_type() {
            Some(ty) => Some(Some(ty)),
            None => None,
        }
    }

    pub(super) fn if_stmt(&mut self, attrs: Vec<Attribute>) -> (r: Option<IfStmt>)
        requires
            old(self).wf(),
            old(self).at < old(self).tokens@.len(),
        ensures
            (final(self).st(), if_opt_view(r)) == grammar::if_stmt(old(self).st(), attrs_view(attrs@)),
            old(self).leads_to(final(self)),
            r is Some ==> final(self).at > old(self).at,
        decreases old(self).st().left(), 2int,
    {
        proof {
            reveal(grammar::if_stmt);
            reveal(grammar::block);
            reveal(grammar::else_branch);
        }
        let start: usize = self.span().start;
        self.bump();
        let cond = match self.head_expr() {
            Some(cond) => cond,
            None => return None,
        };
        let taken = match self.block() {
            Some(taken) => taken,
            None => return None,
        };
        let otherwise = match self.else_branch() {
            Some(otherwise) => otherwise,
            None => return None,
        };
        let span = self.since(start);
        Some(IfStmt { attrs, cond, taken, otherwise, span })
    }

    /// The optional `else` of an `if`.
    pub(super) fn else_branch(&mut self) -> (r: Option<Option<Box<Else>>>)
        requires
            old(self).wf(),
        ensures
            (
                final(self).st(),
                match r {
                    Some(branch) => Some(else_opt_view(branch)),
                    None => None,
                },
            ) == grammar::else_branch(old(self).st()),
            old(self).leads_to(final(self)),
        decreases old(self).st().left(), 1int,
    {
        proof {
            reveal(grammar::else_branch);
            reveal(grammar::block);
            reveal(grammar::if_stmt);
        }
        if !self.is_keyword(Keyword::Else) {
            return Some(None);
        }
        self.bump();
        if self.is_keyword(Keyword::If) {
            let attrs: Vec<Attribute> = Vec::new();
            proof {
                assert(attrs_view(attrs@) =~= seq![]);
            }
            match self.if_stmt(attrs) {
                Some(nested) => Some(Some(Box::new(Else::If(nested)))),
                None => None,
            }
        } else {
            match self.block() {
                Some(block) => Some(Some(Box::new(Else::Block(block)))),
                None => None,
            }
        }
    }

    /// `if let Some(x) = o { .. } else { .. }`, as the `match` it is.
    pub(super) fn if_let_stmt(&mut self) -> (r: Option<MatchStmt>)
        requires
            old(self).wf(),
            old(self).at + 1 < old(self).tokens@.len(),
        ensures
            (final(self).st(), match_opt_view(r)) == grammar::if_let_stmt(old(self).st()),
            old(self).leads_to(final(self)),
            r is Some ==> final(self).at > old(self).at,
        decreases old(self).st().left(), 2int,
    {
        proof {
            reveal(grammar::if_let_stmt);
            reveal(grammar::block);
            reveal(grammar::else_block);
        }
        let start: usize = self.span().start;
        self.bump();
        self.bump();
        let pattern = match self.pattern() {
            Some(pattern) => pattern,
            None => return None,
        };
        if !self.expect(Punct::Eq, "=") {
            return None;
        }
        let scrutinee = match self.head_expr() {
            Some(scrutinee) => scrutinee,
            None => return None,
        };
        let taken = match self.block() {
            Some(taken) => taken,
            None => return None,
        };
        let taken_span = taken.span;
        let otherwise = match self.else_block(taken_span) {
            Some(otherwise) => otherwise,
            None => return None,
        };
        let else_span = otherwise.span;
        let span = self.since(start);
        let first = MatchArm { span: pattern.span(), pattern, body: taken };
        // Everything the first arm did not take, which for an option is the other one
        // of the two.
        let second = MatchArm {
            pattern: Pattern::Wildcard(else_span),
            body: otherwise,
            span: taken_span,
        };
        let ghost shown = seq![first@, second@];
        let mut arms: Vec<MatchArm> = Vec::new();
        arms.push(first);
        arms.push(second);
        let r = MatchStmt { scrutinee, arms, span };
        proof {
            assert(r@.arms =~= shown);
        }
        Some(r)
    }

    pub(super) fn else_block(&mut self, span: Span) -> (r: Option<Block>)
        requires
            old(self).wf(),
        ensures
            (final(self).st(), block_opt_view(r)) == grammar::else_block(old(self).st(), span),
            old(self).leads_to(final(self)),
        decreases old(self).st().left(), 1int,
    {
        proof {
            reveal(grammar::else_block);
            reveal(grammar::block);
        }
        if self.is_keyword(Keyword::Else) {
            self.bump();
            return self.block();
        }
        let stmts: Vec<Stmt> = Vec::new();
        let r = Block { stmts, span };
        proof {
            assert(r@.stmts =~= seq![]);
        }
        Some(r)
    }

    pub(super) fn match_stmt(&mut self) -> (r: Option<MatchStmt>)
        requires
            old(self).wf(),
            old(self).at < old(self).tokens@.len(),
        ensures
            (final(self).st(), match_opt_view(r)) == grammar::match_stmt(old(self).st()),
            old(self).leads_to(final(self)),
            r is Some ==> final(self).at > old(self).at,
        decreases old(self).st().left(), 2int,
    {
        proof {
            reveal(grammar::match_stmt);
            reveal(grammar::match_arms);
        }
        let start: usize = self.span().start;
        self.bump();
        let scrutinee = match self.head_expr() {
            Some(scrutinee) => scrutinee,
            None => return None,
        };
        if !self.expect(Punct::LBrace, "{") {
            return None;
        }
        let arms = match self.match_arms() {
            Some(arms) => arms,
            None => return None,
        };
        if !self.expect(Punct::RBrace, "}") {
            return None;
        }
        let span = self.since(start);
        let ghost shown = arms_view(arms@);
        let r = MatchStmt { scrutinee, arms, span };
        proof {
            assert(r@.arms =~= shown);
        }
        Some(r)
    }

    pub(super) fn match_arms(&mut self) -> (r: Option<Vec<MatchArm>>)
        requires
            old(self).wf(),
        ensures
            (final(self).st(), match_arms_opt_view(r)) == grammar::match_arms(
                old(self).st(),
                seq![],
            ),
            old(self).leads_to(final(self)),
        decreases old(self).st().left(), 7int,
    {
        let mut list: Vec<MatchArm> = Vec::new();
        proof {
            assert(arms_view(list@) =~= seq![]);
        }
        loop
            invariant
                old(self).leads_to(self),
                grammar::match_arms(old(self).st(), seq![]) == grammar::match_arms(
                    self.st(),
                    arms_view(list@),
                ),
            decreases self.tokens.len() - self.at,
        {
            proof {
                reveal(grammar::match_arms);
                reveal(grammar::match_arm);
            }
            if self.is_punct(Punct::RBrace) {
                return Some(list);
            }
            match self.match_arm() {
                Some(one) => {
                    let ghost before = arms_view(list@);
                    let ghost shown = one@;
                    list.push(one);
                    proof {
                        assert(arms_view(list@) =~= before.push(shown));
                    }
                },
                None => return None,
            }
            // A comma between arms is allowed but not required, as in Rust.
            let _comma = self.eat_punct(Punct::Comma);
        }
    }

    pub(super) fn match_arm(&mut self) -> (r: Option<MatchArm>)
        requires
            old(self).wf(),
        ensures
            (final(self).st(), match_arm_opt_view(r)) == grammar::match_arm(old(self).st()),
            old(self).leads_to(final(self)),
            r is Some ==> final(self).at > old(self).at,
        decreases old(self).st().left(), 6int,
    {
        proof {
            reveal(grammar::match_arm);
            reveal(grammar::block);
        }
        let start: usize = self.span().start;
        let pattern = match self.pattern() {
            Some(pattern) => pattern,
            None => return None,
        };
        if !self.expect(Punct::FatArrow, "=>") {
            return None;
        }
        let body = match self.block() {
            Some(body) => body,
            None => return None,
        };
        let span = self.since(start);
        Some(MatchArm { pattern, body, span })
    }

    pub(super) fn pattern(&mut self) -> (r: Option<Pattern>)
        requires
            old(self).wf(),
        ensures
            (final(self).st(), pattern_opt_view(r)) == grammar::pattern(old(self).st()),
            old(self).leads_to(final(self)),
            r is Some ==> final(self).at > old(self).at,
    {
        proof {
            reveal(grammar::pattern);
        }
        let start: usize = self.span().start;
        if self.eat_punct(Punct::Underscore) {
            return Some(Pattern::Wildcard(self.since(start)));
        }
        let ty = match self.ident() {
            Some(ty) => ty,
            None => return None,
        };
        if same(ty.name.as_str(), "None") {
            return Some(Pattern::Absent(self.since(start)));
        }
        if same(ty.name.as_str(), "Some") {
            if !self.expect(Punct::LParen, "(") {
                return None;
            }
            let bind = match self.ident() {
                Some(bind) => bind,
                None => return None,
            };
            if !self.expect(Punct::RParen, ")") {
                return None;
            }
            let span = self.since(start);
            return Some(Pattern::Present { bind, span });
        }
        if !self.eat_punct(Punct::ColonColon) {
            self.fault(own("expected a variant, as in 'State::Idle'"));
            return None;
        }
        self.variant_pattern(ty, start)
    }

    /// The variant named after `State::`, and the payload fields it binds.
    pub(super) fn variant_pattern(&mut self, ty: Ident, start: usize) -> (r: Option<Pattern>)
        requires
            old(self).wf(),
        ensures
            (final(self).st(), pattern_opt_view(r)) == grammar::variant_pattern(old(self).st(), ty@, start),
            old(self).leads_to(final(self)),
            r is Some ==> final(self).at > old(self).at,
    {
        proof {
            reveal(grammar::variant_pattern);
        }
        let variant = match self.ident() {
            Some(variant) => variant,
            None => return None,
        };
        let mut binds: Vec<Ident> = Vec::new();
        proof {
            assert(idents_view(binds@) =~= seq![]);
        }
        if self.eat_punct(Punct::LBrace) {
            match self.idents() {
                Some(found) => binds = found,
                None => return None,
            }
            if !self.expect(Punct::RBrace, "}") {
                return None;
            }
        }
        let span = self.since(start);
        Some(Pattern::Variant { ty, variant, binds, span })
    }

    pub(super) fn idents(&mut self) -> (r: Option<Vec<Ident>>)
        requires
            old(self).wf(),
        ensures
            (final(self).st(), binds_opt_view(r)) == grammar::idents(old(self).st(), seq![]),
            old(self).leads_to(final(self)),
    {
        let mut list: Vec<Ident> = Vec::new();
        proof {
            assert(idents_view(list@) =~= seq![]);
        }
        loop
            invariant
                old(self).leads_to(self),
                grammar::idents(old(self).st(), seq![]) == grammar::idents(
                    self.st(),
                    idents_view(list@),
                ),
            decreases self.tokens.len() - self.at,
        {
            proof {
                reveal(grammar::idents);
            }
            if self.is_punct(Punct::RBrace) {
                return Some(list);
            }
            match self.ident() {
                Some(one) => {
                    let ghost before = idents_view(list@);
                    let ghost shown = one@;
                    list.push(one);
                    proof {
                        assert(idents_view(list@) =~= before.push(shown));
                    }
                },
                None => return None,
            }
            if !self.eat_punct(Punct::Comma) {
                return Some(list);
            }
        }
    }

    /// The name a `for` binds, and the `in` after it.
    pub(super) fn context_binding(&mut self, kind: ContextKind) -> (r: Option<Option<Ident>>)
        requires
            old(self).wf(),
        ensures
            (
                final(self).st(),
                match r {
                    Some(name) => Some(ident_opt_view(name)),
                    None => None,
                },
            ) == grammar::context_binding(old(self).st(), kind),
            old(self).leads_to(final(self)),
    {
        proof {
            reveal(grammar::context_binding);
        }
        if kind != ContextKind::For {
            return Some(None);
        }
        let name = match self.ident() {
            Some(name) => name,
            None => return None,
        };
        if !self.eat_keyword(Keyword::In) {
            self.fault(own("expected 'in'"));
            return None;
        }
        Some(Some(name))
    }

    pub(super) fn context_stmt(&mut self, attrs: Vec<Attribute>) -> (r: Option<ContextStmt>)
        requires
            old(self).wf(),
            old(self).at < old(self).tokens@.len(),
        ensures
            (final(self).st(), context_opt_view(r)) == grammar::context_stmt(old(self).st(), attrs_view(attrs@)),
            old(self).leads_to(final(self)),
            r is Some ==> final(self).at > old(self).at,
        decreases old(self).st().left(), 2int,
    {
        proof {
            reveal(grammar::context_stmt);
            reveal(grammar::block);
        }
        let start: usize = self.span().start;
        let kind = if self.is_keyword(Keyword::As) {
            ContextKind::As
        } else if self.is_keyword(Keyword::At) {
            ContextKind::At
        } else if self.is_keyword(Keyword::Positioned) {
            ContextKind::Positioned
        } else {
            ContextKind::For
        };
        self.bump();
        let binding = match self.context_binding(kind) {
            Some(binding) => binding,
            None => return None,
        };
        let selector = match self.head_expr() {
            Some(selector) => selector,
            None => return None,
        };
        let body = match self.block() {
            Some(body) => body,
            None => return None,
        };
        let span = self.since(start);
        Some(ContextStmt { attrs, kind, binding, selector, body, span })
    }

    /// The condition of a `while`; a `loop` has none.
    pub(super) fn loop_cond(&mut self, conditional: bool) -> (r: Option<Option<Expr>>)
        requires
            old(self).wf(),
        ensures
            (
                final(self).st(),
                match r {
                    Some(cond) => Some(expr_opt_view(cond)),
                    None => None,
                },
            ) == grammar::loop_cond(old(self).st(), conditional),
            old(self).leads_to(final(self)),
    {
        proof {
            reveal(grammar::loop_cond);
        }
        if !conditional {
            return Some(None);
        }
        match self.head_expr() {
            Some(cond) => Some(Some(cond)),
            None => None,
        }
    }

    pub(super) fn loop_stmt(&mut self, attrs: Vec<Attribute>) -> (r: Option<LoopStmt>)
        requires
            old(self).wf(),
            old(self).at < old(self).tokens@.len(),
        ensures
            (final(self).st(), loop_opt_view(r)) == grammar::loop_stmt(old(self).st(), attrs_view(attrs@)),
            old(self).leads_to(final(self)),
            r is Some ==> final(self).at > old(self).at,
        decreases old(self).st().left(), 2int,
    {
        proof {
            reveal(grammar::loop_stmt);
            reveal(grammar::block);
        }
        let start: usize = self.span().start;
        let conditional = self.is_keyword(Keyword::While);
        self.bump();
        let cond = match self.loop_cond(conditional) {
            Some(cond) => cond,
            None => return None,
        };
        let body = match self.block() {
            Some(body) => body,
            None => return None,
        };
        let span = self.since(start);
        Some(LoopStmt { attrs, cond, body, span })
    }
}

} // verus!

//! Expressions.

use vstd::prelude::*;
use crate::syntax::ast::{
    args_opt_view, expr_opt_view, exprs_view, ident_opt_view, inits_opt_view, inits_view,
    text_opt_view, AssertExpr, AssignExpr, BinaryOp, BoolLit, Borrow, BorrowExpr, CallExpr, Expr,
    FieldExpr, FieldInit, FixExpr, Ident, IndexExpr, IntLit, ListLit, MacroCall, MethodCall,
    RangeExpr, ResourceLit, SelectorLit, StrLit, StructLit, TextMacro, TryExpr, UnaryExpr,
    UnaryOp, ViewOfExpr,
};
use crate::syntax::grammar;
use crate::syntax::lexer::{Keyword, Punct, Span, TokenKind};
use crate::text::{own, same};
use crate::syntax::parser::{binary, lemma_shape, Parser};

verus! {

impl Parser {
    #[verifier::spinoff_prover]
    pub(super) fn expr(&mut self) -> (r: Option<Expr>)
        requires
            old(self).wf(),
        ensures
            (final(self).st(), expr_opt_view(r)) == grammar::expr(old(self).st()),
            old(self).leads_to(final(self)),
            r is Some ==> final(self).at > old(self).at,
        decreases old(self).st().left(), 15int,
    {
        proof {
            reveal(grammar::expr);
            reveal(grammar::assign);
        }
        self.assign()
    }

    /// An expression under one struct literal rule, which holds for it alone.
    #[verifier::spinoff_prover]
    pub(super) fn expr_under(&mut self, no_struct_lit: bool) -> (r: Option<Expr>)
        requires
            old(self).wf(),
        ensures
            (final(self).st(), expr_opt_view(r)) == grammar::expr_under(old(self).st(), no_struct_lit),
            old(self).leads_to(final(self)),
            r is Some ==> final(self).at > old(self).at,
        decreases old(self).st().left(), 16int,
    {
        proof {
            reveal(grammar::expr_under);
            reveal(grammar::expr);
        }
        let outer = self.no_struct_lit;
        self.no_struct_lit = no_struct_lit;
        let e = self.expr();
        self.no_struct_lit = outer;
        e
    }

    #[verifier::spinoff_prover]
    pub(super) fn head_expr(&mut self) -> (r: Option<Expr>)
        requires
            old(self).wf(),
        ensures
            (final(self).st(), expr_opt_view(r)) == grammar::head_expr(old(self).st()),
            old(self).leads_to(final(self)),
            r is Some ==> final(self).at > old(self).at,
    {
        self.expr_under(true)
    }

    #[verifier::spinoff_prover]
    pub(super) fn assign_op(&self) -> (r: Option<Option<BinaryOp>>)
        ensures
            r == grammar::assign_op(self.st().kind()),
            r is Some ==> self.at < self.tokens@.len(),
    {
        match self.kind() {
            Some(TokenKind::Punct(punct)) => match punct {
                Punct::Eq => Some(None),
                Punct::PlusEq => Some(Some(BinaryOp::Add)),
                Punct::MinusEq => Some(Some(BinaryOp::Sub)),
                Punct::StarEq => Some(Some(BinaryOp::Mul)),
                Punct::SlashEq => Some(Some(BinaryOp::Div)),
                Punct::PercentEq => Some(Some(BinaryOp::Rem)),
                _ => None,
            },
            _ => None,
        }
    }

    #[verifier::spinoff_prover]
    pub(super) fn compare_op(&self) -> (r: Option<BinaryOp>)
        ensures
            r == grammar::compare_op(self.st().kind()),
            r is Some ==> self.at < self.tokens@.len(),
    {
        match self.kind() {
            Some(TokenKind::Punct(punct)) => match punct {
                Punct::EqEq => Some(BinaryOp::Eq),
                Punct::Ne => Some(BinaryOp::Ne),
                Punct::Lt => Some(BinaryOp::Lt),
                Punct::Le => Some(BinaryOp::Le),
                Punct::Gt => Some(BinaryOp::Gt),
                Punct::Ge => Some(BinaryOp::Ge),
                _ => None,
            },
            _ => None,
        }
    }

    #[verifier::spinoff_prover]
    pub(super) fn sum_op(&self) -> (r: Option<BinaryOp>)
        ensures
            r == grammar::sum_op(self.st().kind()),
            r is Some ==> self.at < self.tokens@.len(),
    {
        match self.kind() {
            Some(TokenKind::Punct(punct)) => match punct {
                Punct::Plus => Some(BinaryOp::Add),
                Punct::Minus => Some(BinaryOp::Sub),
                _ => None,
            },
            _ => None,
        }
    }

    #[verifier::spinoff_prover]
    pub(super) fn product_op(&self) -> (r: Option<BinaryOp>)
        ensures
            r == grammar::product_op(self.st().kind()),
            r is Some ==> self.at < self.tokens@.len(),
    {
        match self.kind() {
            Some(TokenKind::Punct(punct)) => match punct {
                Punct::Star => Some(BinaryOp::Mul),
                Punct::Slash => Some(BinaryOp::Div),
                Punct::Percent => Some(BinaryOp::Rem),
                _ => None,
            },
            _ => None,
        }
    }

    #[verifier::spinoff_prover]
    pub(super) fn unary_op(&self) -> (r: Option<UnaryOp>)
        ensures
            r == grammar::unary_op(self.st().kind()),
            r is Some ==> self.at < self.tokens@.len(),
    {
        match self.kind() {
            Some(TokenKind::Punct(punct)) => match punct {
                Punct::Minus => Some(UnaryOp::Neg),
                Punct::Bang => Some(UnaryOp::Not),
                _ => None,
            },
            _ => None,
        }
    }

    #[verifier::spinoff_prover]
    pub(super) fn assign(&mut self) -> (r: Option<Expr>)
        requires
            old(self).wf(),
        ensures
            (final(self).st(), expr_opt_view(r)) == grammar::assign(old(self).st()),
            old(self).leads_to(final(self)),
            r is Some ==> final(self).at > old(self).at,
        decreases old(self).st().left(), 14int,
    {
        proof {
            reveal(grammar::assign);
            reveal(grammar::range);
        }
        let lhs = match self.range() {
            Some(lhs) => lhs,
            None => return None,
        };
        let op = match self.assign_op() {
            Some(op) => op,
            None => return Some(lhs),
        };
        let op_span = self.span();
        self.bump();
        let value = match self.assign() {
            Some(value) => value,
            None => return None,
        };
        let assignable = match &lhs {
            Expr::Path(_) => true,
            Expr::Field(_) => true,
            Expr::Index(_) => true,
            _ => false,
        };
        proof {
            lemma_shape(lhs);
        }
        if !assignable {
            self.fault_at(
                op_span,
                own("the left side of an assignment must be a binding, a field or an element"),
            );
            return None;
        }
        let span = Span { start: lhs.span().start, end: value.span().end };
        let r = Expr::Assign(
            AssignExpr { op, target: Box::new(lhs), value: Box::new(value), span },
        );
        proof {
            r.unfold();
        }
        Some(r)
    }

    /// `a..b`. Only `slice` takes one.
    #[verifier::spinoff_prover]
    pub(super) fn range(&mut self) -> (r: Option<Expr>)
        requires
            old(self).wf(),
        ensures
            (final(self).st(), expr_opt_view(r)) == grammar::range(old(self).st()),
            old(self).leads_to(final(self)),
            r is Some ==> final(self).at > old(self).at,
        decreases old(self).st().left(), 13int,
    {
        proof {
            reveal(grammar::range);
            reveal(grammar::or);
        }
        let start = match self.or() {
            Some(start) => start,
            None => return None,
        };
        if !self.is_punct(Punct::DotDot) {
            return Some(start);
        }
        let from: usize = start.span().start;
        self.bump();
        if self.is_punct(Punct::RParen) || self.is_punct(Punct::Comma) {
            let span = self.since(from);
            let r = Expr::Range(RangeExpr { start: Some(Box::new(start)), end: None, span });
            proof {
                r.unfold();
            }
            return Some(r);
        }
        match self.or() {
            Some(end) => {
                let span = self.since(from);
                let r = Expr::Range(
                    RangeExpr { start: Some(Box::new(start)), end: Some(Box::new(end)), span },
                );
                proof {
                    r.unfold();
                }
                Some(r)
            },
            None => None,
        }
    }

    #[verifier::spinoff_prover]
    pub(super) fn or(&mut self) -> (r: Option<Expr>)
        requires
            old(self).wf(),
        ensures
            (final(self).st(), expr_opt_view(r)) == grammar::or(old(self).st()),
            old(self).leads_to(final(self)),
            r is Some ==> final(self).at > old(self).at,
        decreases old(self).st().left(), 12int,
    {
        proof {
            reveal(grammar::or);
            reveal(grammar::or_rest);
            reveal(grammar::and);
        }
        let mut lhs = match self.and() {
            Some(lhs) => lhs,
            None => return None,
        };
        let ghost from = self.st();
        let ghost first = lhs@;
        loop
            invariant
                old(self).leads_to(self),
                old(self).at < self.at,
                grammar::or(old(self).st()) == grammar::or_rest(from, first),
                grammar::or_rest(from, first) == grammar::or_rest(self.st(), lhs@),
            decreases self.tokens.len() - self.at,
        {
            proof {
                reveal(grammar::or_rest);
                reveal(grammar::and);
            }
            if !self.is_punct(Punct::OrOr) {
                return Some(lhs);
            }
            self.bump();
            match self.and() {
                Some(rhs) => {
                    lhs = binary(BinaryOp::Or, lhs, rhs);
                },
                None => return None,
            }
        }
    }

    #[verifier::spinoff_prover]
    pub(super) fn and(&mut self) -> (r: Option<Expr>)
        requires
            old(self).wf(),
        ensures
            (final(self).st(), expr_opt_view(r)) == grammar::and(old(self).st()),
            old(self).leads_to(final(self)),
            r is Some ==> final(self).at > old(self).at,
        decreases old(self).st().left(), 10int,
    {
        proof {
            reveal(grammar::and);
            reveal(grammar::and_rest);
            reveal(grammar::compare);
        }
        let mut lhs = match self.compare() {
            Some(lhs) => lhs,
            None => return None,
        };
        let ghost from = self.st();
        let ghost first = lhs@;
        loop
            invariant
                old(self).leads_to(self),
                old(self).at < self.at,
                grammar::and(old(self).st()) == grammar::and_rest(from, first),
                grammar::and_rest(from, first) == grammar::and_rest(self.st(), lhs@),
            decreases self.tokens.len() - self.at,
        {
            proof {
                reveal(grammar::and_rest);
                reveal(grammar::compare);
            }
            if !self.is_punct(Punct::AndAnd) {
                return Some(lhs);
            }
            self.bump();
            match self.compare() {
                Some(rhs) => {
                    lhs = binary(BinaryOp::And, lhs, rhs);
                },
                None => return None,
            }
        }
    }

    /// Comparisons do not chain: `a < b < c` is an error, as in Rust.
    #[verifier::spinoff_prover]
    pub(super) fn compare(&mut self) -> (r: Option<Expr>)
        requires
            old(self).wf(),
        ensures
            (final(self).st(), expr_opt_view(r)) == grammar::compare(old(self).st()),
            old(self).leads_to(final(self)),
            r is Some ==> final(self).at > old(self).at,
        decreases old(self).st().left(), 8int,
    {
        proof {
            reveal(grammar::compare);
            reveal(grammar::sum);
        }
        let lhs = match self.sum() {
            Some(lhs) => lhs,
            None => return None,
        };
        let op = match self.compare_op() {
            Some(op) => op,
            None => return Some(lhs),
        };
        self.bump();
        let rhs = match self.sum() {
            Some(rhs) => rhs,
            None => return None,
        };
        if self.compare_op().is_some() {
            self.fault(own("comparisons do not chain; parenthesise if that is what you meant"));
            return None;
        }
        Some(binary(op, lhs, rhs))
    }

    #[verifier::spinoff_prover]
    pub(super) fn sum(&mut self) -> (r: Option<Expr>)
        requires
            old(self).wf(),
        ensures
            (final(self).st(), expr_opt_view(r)) == grammar::sum(old(self).st()),
            old(self).leads_to(final(self)),
            r is Some ==> final(self).at > old(self).at,
        decreases old(self).st().left(), 7int,
    {
        proof {
            reveal(grammar::sum);
            reveal(grammar::sum_rest);
            reveal(grammar::product);
        }
        let mut lhs = match self.product() {
            Some(lhs) => lhs,
            None => return None,
        };
        let ghost from = self.st();
        let ghost first = lhs@;
        loop
            invariant
                old(self).leads_to(self),
                old(self).at < self.at,
                grammar::sum(old(self).st()) == grammar::sum_rest(from, first),
                grammar::sum_rest(from, first) == grammar::sum_rest(self.st(), lhs@),
            decreases self.tokens.len() - self.at,
        {
            proof {
                reveal(grammar::sum_rest);
                reveal(grammar::product);
            }
            let op = match self.sum_op() {
                Some(op) => op,
                None => return Some(lhs),
            };
            self.bump();
            match self.product() {
                Some(rhs) => {
                    lhs = binary(op, lhs, rhs);
                },
                None => return None,
            }
        }
    }

    #[verifier::spinoff_prover]
    pub(super) fn product(&mut self) -> (r: Option<Expr>)
        requires
            old(self).wf(),
        ensures
            (final(self).st(), expr_opt_view(r)) == grammar::product(old(self).st()),
            old(self).leads_to(final(self)),
            r is Some ==> final(self).at > old(self).at,
        decreases old(self).st().left(), 5int,
    {
        proof {
            reveal(grammar::product);
            reveal(grammar::product_rest);
            reveal(grammar::unary);
        }
        let mut lhs = match self.unary() {
            Some(lhs) => lhs,
            None => return None,
        };
        let ghost from = self.st();
        let ghost first = lhs@;
        loop
            invariant
                old(self).leads_to(self),
                old(self).at < self.at,
                grammar::product(old(self).st()) == grammar::product_rest(from, first),
                grammar::product_rest(from, first) == grammar::product_rest(self.st(), lhs@),
            decreases self.tokens.len() - self.at,
        {
            proof {
                reveal(grammar::product_rest);
                reveal(grammar::unary);
            }
            let op = match self.product_op() {
                Some(op) => op,
                None => return Some(lhs),
            };
            self.bump();
            match self.unary() {
                Some(rhs) => {
                    lhs = binary(op, lhs, rhs);
                },
                None => return None,
            }
        }
    }

    #[verifier::spinoff_prover]
    pub(super) fn unary(&mut self) -> (r: Option<Expr>)
        requires
            old(self).wf(),
        ensures
            (final(self).st(), expr_opt_view(r)) == grammar::unary(old(self).st()),
            old(self).leads_to(final(self)),
            r is Some ==> final(self).at > old(self).at,
        decreases old(self).st().left(), 3int,
    {
        proof {
            reveal(grammar::unary);
            reveal(grammar::primary);
        }
        let start: usize = self.span().start;
        let op = match self.unary_op() {
            Some(op) => op,
            None => return self.primary(),
        };
        self.bump();
        match self.unary() {
            Some(operand) => {
                let span = Span { start, end: operand.span().end };
                let r = Expr::Unary(UnaryExpr { op, operand: Box::new(operand), span });
                proof {
                    r.unfold();
                }
                Some(r)
            },
            None => None,
        }
    }

    /// A primary expression and the accesses that follow it: fields, indices, methods.
    #[verifier::spinoff_prover]
    pub(super) fn primary(&mut self) -> (r: Option<Expr>)
        requires
            old(self).wf(),
        ensures
            (final(self).st(), expr_opt_view(r)) == grammar::primary(old(self).st()),
            old(self).leads_to(final(self)),
            r is Some ==> final(self).at > old(self).at,
        decreases old(self).st().left(), 2int,
    {
        proof {
            reveal(grammar::primary);
            reveal(grammar::primary_rest);
            reveal(grammar::atom);
        }
        let mut e = match self.atom() {
            Some(e) => e,
            None => return None,
        };
        let ghost from = self.st();
        let ghost first = e@;
        loop
            invariant
                old(self).leads_to(self),
                old(self).at < self.at,
                grammar::primary(old(self).st()) == grammar::primary_rest(from, first),
                grammar::primary_rest(from, first) == grammar::primary_rest(self.st(), e@),
            decreases self.tokens.len() - self.at,
        {
            proof {
                reveal(grammar::primary_rest);
                reveal(grammar::expr_under);
                reveal(grammar::access);
            }
            let start: usize = e.span().start;
            if self.is_punct(Punct::Dot) {
                self.bump();
                match self.access(e) {
                    Some(next) => e = next,
                    None => return None,
                }
            } else if self.is_punct(Punct::LBracket) {
                self.bump();
                let index = match self.expr_under(false) {
                    Some(index) => index,
                    None => return None,
                };
                if !self.expect(Punct::RBracket, "]") {
                    return None;
                }
                let span = self.since(start);
                e = Expr::Index(IndexExpr { base: Box::new(e), index: Box::new(index), span });
                proof {
                    e.unfold();
                }
            } else if self.is_punct(Punct::Question) {
                self.bump();
                let span = self.since(start);
                e = Expr::Try(TryExpr { value: Box::new(e), span });
                proof {
                    e.unfold();
                }
            } else {
                return Some(e);
            }
        }
    }

    /// The field or method named after a `.`.
    #[verifier::spinoff_prover]
    pub(super) fn access(&mut self, e: Expr) -> (r: Option<Expr>)
        requires
            old(self).wf(),
        ensures
            (final(self).st(), expr_opt_view(r)) == grammar::access(old(self).st(), e@),
            old(self).leads_to(final(self)),
            r is Some ==> final(self).at > old(self).at,
        decreases old(self).st().left(), 21int,
    {
        proof {
            reveal(grammar::access);
            reveal(grammar::call_args);
        }
        let start: usize = e.span().start;
        let name = match self.ident() {
            Some(name) => name,
            None => return None,
        };
        if self.is_punct(Punct::LParen) {
            let args = match self.call_args() {
                Some(args) => args,
                None => return None,
            };
            let span = self.since(start);
            let r = Expr::Method(MethodCall { receiver: Box::new(e), name, args, span });
            proof {
                r.unfold();
            }
            return Some(r);
        }
        let span = self.since(start);
        let r = Expr::Field(FieldExpr { base: Box::new(e), name, span });
        proof {
            r.unfold();
        }
        Some(r)
    }

    #[verifier::spinoff_prover]
    pub(super) fn atom(&mut self) -> (r: Option<Expr>)
        requires
            old(self).wf(),
        ensures
            (final(self).st(), expr_opt_view(r)) == grammar::atom(old(self).st()),
            old(self).leads_to(final(self)),
            r is Some ==> final(self).at > old(self).at,
        decreases old(self).st().left(), 0int,
    {
        proof {
            reveal(grammar::atom);
            reveal(grammar::expr_under);
            reveal(grammar::primary);
            reveal(grammar::list_values);
            reveal(grammar::named);
        }
        let span = self.span();
        match self.kind() {
            Some(TokenKind::Int(value)) => {
                let value: i32 = *value;
                self.bump();
                let r = Expr::Int(IntLit { value, span });
                proof {
                    r.unfold();
                }
                Some(r)
            },
            Some(TokenKind::Str(text)) => {
                let value = text.clone();
                self.bump();
                let r = Expr::Str(StrLit { value, span });
                proof {
                    r.unfold();
                }
                Some(r)
            },
            Some(TokenKind::Resource(text)) => {
                let text = text.clone();
                self.bump();
                let r = Expr::Resource(ResourceLit { text, span });
                proof {
                    r.unfold();
                }
                Some(r)
            },
            Some(TokenKind::Selector(text)) => {
                let text = text.clone();
                self.bump();
                let r = Expr::Selector(SelectorLit { text, span });
                proof {
                    r.unfold();
                }
                Some(r)
            },
            Some(TokenKind::Ident(name)) => {
                let name = Ident { name: name.clone(), span };
                self.bump();
                self.named(name)
            },
            Some(TokenKind::Keyword(Keyword::True)) => {
                self.bump();
                let r = Expr::Bool(BoolLit { value: true, span });
                proof {
                    r.unfold();
                }
                Some(r)
            },
            Some(TokenKind::Keyword(Keyword::False)) => {
                self.bump();
                let r = Expr::Bool(BoolLit { value: false, span });
                proof {
                    r.unfold();
                }
                Some(r)
            },
            Some(TokenKind::Keyword(Keyword::SelfValue)) => {
                self.bump();
                let r = Expr::Path(Ident { name: own("self"), span });
                proof {
                    r.unfold();
                }
                Some(r)
            },
            Some(TokenKind::Punct(Punct::LParen)) => {
                self.bump();
                // Inside brackets there is no block to be confused with.
                let inner = match self.expr_under(false) {
                    Some(inner) => inner,
                    None => return None,
                };
                if !self.expect(Punct::RParen, ")") {
                    return None;
                }
                Some(inner)
            },
            Some(TokenKind::Punct(Punct::And)) => {
                self.bump();
                let borrow = if self.eat_keyword(Keyword::Mut) {
                    Borrow::Mutable
                } else {
                    Borrow::Shared
                };
                match self.primary() {
                    Some(place) => {
                        let span = Span { start: span.start, end: place.span().end };
                        let r = Expr::Borrow(BorrowExpr { borrow, place: Box::new(place), span });
                        proof {
                            r.unfold();
                        }
                        Some(r)
                    },
                    None => None,
                }
            },
            Some(TokenKind::Punct(Punct::LBracket)) => {
                self.bump();
                let outer = self.no_struct_lit;
                self.no_struct_lit = false;
                let values = self.list_values();
                self.no_struct_lit = outer;
                let values = match values {
                    Some(values) => values,
                    None => return None,
                };
                if !self.expect(Punct::RBracket, "]") {
                    return None;
                }
                let span = self.since(span.start);
                let r = Expr::List(ListLit { values, span });
                proof {
                    r.unfold();
                }
                Some(r)
            },
            _ => {
                self.fault(own("expected an expression"));
                None
            },
        }
    }

    #[verifier::spinoff_prover]
    pub(super) fn list_values(&mut self) -> (r: Option<Vec<Expr>>)
        requires
            old(self).wf(),
        ensures
            (final(self).st(), args_opt_view(r)) == grammar::list_values(old(self).st(), seq![]),
            old(self).leads_to(final(self)),
        decreases old(self).st().left(), 19int,
    {
        let mut list: Vec<Expr> = Vec::new();
        proof {
            assert(exprs_view(list@) =~= seq![]);
        }
        loop
            invariant
                old(self).leads_to(self),
                grammar::list_values(old(self).st(), seq![]) == grammar::list_values(
                    self.st(),
                    exprs_view(list@),
                ),
            decreases self.tokens.len() - self.at,
        {
            proof {
                reveal(grammar::list_values);
                reveal(grammar::expr);
            }
            if self.is_punct(Punct::RBracket) {
                return Some(list);
            }
            match self.expr() {
                Some(one) => {
                    let ghost before = exprs_view(list@);
                    let ghost shown = one@;
                    list.push(one);
                    proof {
                        assert(exprs_view(list@) =~= before.push(shown));
                    }
                },
                None => return None,
            }
            if !self.eat_punct(Punct::Comma) {
                return Some(list);
            }
        }
    }

    /// The expression that begins with a name: a macro, a call, a literal or a binding.
    #[verifier::spinoff_prover]
    pub(super) fn named(&mut self, name: Ident) -> (r: Option<Expr>)
        requires
            old(self).wf(),
        ensures
            (final(self).st(), expr_opt_view(r)) == grammar::named(old(self).st(), name@),
            old(self).leads_to(final(self)),
        decreases old(self).st().left(), 23int,
    {
        proof {
            reveal(grammar::named);
            reveal(grammar::qualified);
            reveal(grammar::struct_lit);
            reveal(grammar::call_args);
            reveal(grammar::macro_call);
        }
        let start: usize = name.span.start;
        if self.is_punct(Punct::Bang) {
            self.bump();
            return self.macro_call(name);
        }
        if self.is_punct(Punct::LParen) {
            let args = match self.call_args() {
                Some(args) => args,
                None => return None,
            };
            let span = self.since(start);
            let r = Expr::Call(CallExpr { callee: name, args, span });
            proof {
                r.unfold();
            }
            return Some(r);
        }
        if self.is_punct(Punct::LBrace) && !self.no_struct_lit {
            self.bump();
            return self.struct_lit(name, None);
        }
        if self.is_punct(Punct::ColonColon) {
            self.bump();
            return self.qualified(name);
        }
        let r = Expr::Path(name);
        proof {
            r.unfold();
        }
        Some(r)
    }

    /// What follows `name::`: the scale of a `fix`, a view or a variant.
    #[verifier::spinoff_prover]
    pub(super) fn qualified(&mut self, name: Ident) -> (r: Option<Expr>)
        requires
            old(self).wf(),
        ensures
            (final(self).st(), expr_opt_view(r)) == grammar::qualified(old(self).st(), name@),
            old(self).leads_to(final(self)),
            r is Some ==> final(self).at > old(self).at,
        decreases old(self).st().left(), 22int,
    {
        proof {
            reveal(grammar::qualified);
            reveal(grammar::expr);
            reveal(grammar::fix_cast);
            reveal(grammar::struct_lit);
        }
        if self.is_punct(Punct::Lt) {
            return self.fix_cast(name);
        }
        let variant = match self.ident() {
            Some(variant) => variant,
            None => return None,
        };
        if self.is_punct(Punct::LParen) {
            if !same(variant.name.as_str(), "of") {
                self.fault(own("the only associated function is 'of'"));
                return None;
            }
            self.bump();
            let selector = match self.expr() {
                Some(selector) => selector,
                None => return None,
            };
            if !self.expect(Punct::RParen, ")") {
                return None;
            }
            let span = self.since(name.span.start);
            let r = Expr::ViewOf(ViewOfExpr { ty: name, selector: Box::new(selector), span });
            proof {
                r.unfold();
            }
            return Some(r);
        }
        if self.is_punct(Punct::LBrace) && !self.no_struct_lit {
            self.bump();
            return self.struct_lit(name, Some(variant));
        }
        let span = Span { start: name.span.start, end: variant.span.end };
        let fields: Vec<FieldInit> = Vec::new();
        let lit = StructLit { name, variant: Some(variant), fields, span };
        proof {
            lit.unfold();
            assert(inits_view(fields@) =~= seq![]);
        }
        let r = Expr::Struct(lit);
        proof {
            r.unfold();
        }
        Some(r)
    }

    /// `fix::<1000>(1500)`, from the `<` onwards.
    #[verifier::spinoff_prover]
    pub(super) fn fix_cast(&mut self, name: Ident) -> (r: Option<Expr>)
        requires
            old(self).wf(),
        ensures
            (final(self).st(), expr_opt_view(r)) == grammar::fix_cast(old(self).st(), name@),
            old(self).leads_to(final(self)),
            r is Some ==> final(self).at > old(self).at,
        decreases old(self).st().left(), 21int,
    {
        proof {
            reveal(grammar::fix_cast);
            reveal(grammar::expr);
        }
        if !same(name.name.as_str(), "fix") {
            self.fault(own("only 'fix' takes an argument in angle brackets here"));
            return None;
        }
        if !self.expect(Punct::Lt, "<") {
            return None;
        }
        let scale = match self.scale_arg() {
            Some(scale) => scale,
            None => return None,
        };
        if !self.expect(Punct::Gt, ">") {
            return None;
        }
        if !self.expect(Punct::LParen, "(") {
            return None;
        }
        let value = match self.expr() {
            Some(value) => value,
            None => return None,
        };
        if !self.expect(Punct::RParen, ")") {
            return None;
        }
        let span = self.since(name.span.start);
        let r = Expr::Fix(FixExpr { scale, value: Box::new(value), span });
        proof {
            r.unfold();
        }
        Some(r)
    }

    /// `Point { x: 1, y: 2 }`, from after the `{`.
    #[verifier::spinoff_prover]
    pub(super) fn struct_lit(&mut self, name: Ident, variant: Option<Ident>) -> (r: Option<Expr>)
        requires
            old(self).wf(),
        ensures
            (final(self).st(), expr_opt_view(r)) == grammar::struct_lit(old(self).st(), name@, ident_opt_view(variant)),
            old(self).leads_to(final(self)),
            r is Some ==> final(self).at > old(self).at,
        decreases old(self).st().left(), 21int,
    {
        proof {
            reveal(grammar::struct_lit);
            reveal(grammar::field_inits);
        }
        let start: usize = name.span.start;
        let fields = match self.field_inits() {
            Some(fields) => fields,
            None => return None,
        };
        if !self.expect(Punct::RBrace, "}") {
            return None;
        }
        let span = self.since(start);
        let lit = StructLit { name, variant, fields, span };
        proof {
            lit.unfold();
        }
        let r = Expr::Struct(lit);
        proof {
            r.unfold();
        }
        Some(r)
    }

    #[verifier::spinoff_prover]
    pub(super) fn field_inits(&mut self) -> (r: Option<Vec<FieldInit>>)
        requires
            old(self).wf(),
        ensures
            (final(self).st(), inits_opt_view(r)) == grammar::field_inits(
                old(self).st(),
                seq![],
            ),
            old(self).leads_to(final(self)),
        decreases old(self).st().left(), 20int,
    {
        let mut list: Vec<FieldInit> = Vec::new();
        proof {
            assert(inits_view(list@) =~= seq![]);
        }
        loop
            invariant
                old(self).leads_to(self),
                grammar::field_inits(old(self).st(), seq![]) == grammar::field_inits(
                    self.st(),
                    inits_view(list@),
                ),
            decreases self.tokens.len() - self.at,
        {
            proof {
                reveal(grammar::field_inits);
                reveal(grammar::expr_under);
            }
            if self.is_punct(Punct::RBrace) {
                return Some(list);
            }
            let start: usize = self.span().start;
            let name = match self.ident() {
                Some(name) => name,
                None => return None,
            };
            if !self.expect(Punct::Colon, ":") {
                return None;
            }
            let value = match self.expr_under(false) {
                Some(value) => value,
                None => return None,
            };
            let span = self.since(start);
            let one = FieldInit { name, value, span };
            proof {
                one.unfold();
            }
            let ghost before = inits_view(list@);
            let ghost shown = one@;
            list.push(one);
            proof {
                assert(inits_view(list@) =~= before.push(shown));
            }
            if !self.eat_punct(Punct::Comma) {
                return Some(list);
            }
        }
    }

    /// The bracketed argument list of a call, from the `(` onwards.
    #[verifier::spinoff_prover]
    pub(super) fn call_args(&mut self) -> (r: Option<Vec<Expr>>)
        requires
            old(self).wf(),
        ensures
            (final(self).st(), args_opt_view(r)) == grammar::call_args(old(self).st()),
            old(self).leads_to(final(self)),
            r is Some ==> final(self).at > old(self).at,
        decreases old(self).st().left(), 20int,
    {
        proof {
            reveal(grammar::call_args);
            reveal(grammar::args);
        }
        if !self.expect(Punct::LParen, "(") {
            return None;
        }
        let values = match self.args() {
            Some(values) => values,
            None => return None,
        };
        if !self.expect(Punct::RParen, ")") {
            return None;
        }
        Some(values)
    }

    #[verifier::spinoff_prover]
    pub(super) fn args(&mut self) -> (r: Option<Vec<Expr>>)
        requires
            old(self).wf(),
        ensures
            (final(self).st(), args_opt_view(r)) == grammar::args(old(self).st(), seq![]),
            old(self).leads_to(final(self)),
        decreases old(self).st().left(), 19int,
    {
        let mut list: Vec<Expr> = Vec::new();
        proof {
            assert(exprs_view(list@) =~= seq![]);
        }
        loop
            invariant
                old(self).leads_to(self),
                grammar::args(old(self).st(), seq![]) == grammar::args(
                    self.st(),
                    exprs_view(list@),
                ),
            decreases self.tokens.len() - self.at,
        {
            proof {
                reveal(grammar::args);
                reveal(grammar::expr_under);
            }
            if self.is_punct(Punct::RParen) {
                return Some(list);
            }
            match self.expr_under(false) {
                Some(one) => {
                    let ghost before = exprs_view(list@);
                    let ghost shown = one@;
                    list.push(one);
                    proof {
                        assert(exprs_view(list@) =~= before.push(shown));
                    }
                },
                None => return None,
            }
            if !self.eat_punct(Punct::Comma) {
                return Some(list);
            }
        }
    }

    /// A macro call, from after the `!`.
    #[verifier::spinoff_prover]
    pub(super) fn macro_call(&mut self, name: Ident) -> (r: Option<Expr>)
        requires
            old(self).wf(),
        ensures
            (final(self).st(), expr_opt_view(r)) == grammar::macro_call(old(self).st(), name@),
            old(self).leads_to(final(self)),
            r is Some ==> final(self).at > old(self).at,
        decreases old(self).st().left(), 22int,
    {
        proof {
            reveal(grammar::macro_call);
            reveal(grammar::call_args);
            reveal(grammar::assertion);
        }
        let start: usize = name.span.start;
        if same(name.name.as_str(), "debug_assert") {
            return self.assertion(name);
        }
        if same(name.name.as_str(), "text") {
            let args = match self.call_args() {
                Some(args) => args,
                None => return None,
            };
            let span = self.since(start);
            let r = Expr::Text(TextMacro { args, span });
            proof {
                r.unfold();
            }
            return Some(r);
        }
        let open = if self.is_punct(Punct::LParen) {
            Punct::LParen
        } else if self.is_punct(Punct::LBracket) {
            Punct::LBracket
        } else if self.is_punct(Punct::LBrace) {
            Punct::LBrace
        } else {
            self.fault(own("expected '(', '[' or '{' after a macro name"));
            return None;
        };
        match self.group(open) {
            Some(tokens) => {
                let span = self.since(start);
                let r = Expr::Macro(MacroCall { name, tokens, span });
                proof {
                    r.unfold();
                }
                Some(r)
            },
            None => None,
        }
    }

    #[verifier::spinoff_prover]
    pub(super) fn assertion(&mut self, name: Ident) -> (r: Option<Expr>)
        requires
            old(self).wf(),
        ensures
            (final(self).st(), expr_opt_view(r)) == grammar::assertion(old(self).st(), name@),
            old(self).leads_to(final(self)),
            r is Some ==> final(self).at > old(self).at,
        decreases old(self).st().left(), 21int,
    {
        proof {
            reveal(grammar::assertion);
            reveal(grammar::expr);
        }
        let start: usize = name.span.start;
        if !self.expect(Punct::LParen, "(") {
            return None;
        }
        let cond = match self.expr() {
            Some(cond) => cond,
            None => return None,
        };
        let message = match self.assertion_message() {
            Some(message) => message,
            None => return None,
        };
        if !self.expect(Punct::RParen, ")") {
            return None;
        }
        let span = self.since(start);
        let r = Expr::Assert(AssertExpr { cond: Box::new(cond), message, span });
        proof {
            r.unfold();
        }
        Some(r)
    }

    #[verifier::spinoff_prover]
    pub(super) fn assertion_message(&mut self) -> (r: Option<Option<String>>)
        requires
            old(self).wf(),
        ensures
            (
                final(self).st(),
                match r {
                    Some(message) => Some(text_opt_view(message)),
                    None => None,
                },
            ) == grammar::assertion_message(old(self).st()),
            old(self).leads_to(final(self)),
    {
        proof {
            reveal(grammar::assertion_message);
        }
        if !self.eat_punct(Punct::Comma) {
            return Some(None);
        }
        match self.kind() {
            Some(TokenKind::Str(text)) => {
                let text = text.clone();
                self.bump();
                Some(Some(text))
            },
            _ => {
                self.fault(own("a message is a string literal"));
                None
            },
        }
    }
}

} // verus!

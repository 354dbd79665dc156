//! What reading a text into a syntax tree leaves alone, and that it always goes on.

use vstd::prelude::*;

use crate::syntax::ast::{BinaryOp, ContextKind};
use crate::syntax::grammar::{
    access, and, and_rest, args, assertion, assertion_message, assign, assign_op, atom, attributes,
    begins_item, misplaced_attribute, binary, binding_name, block, borrow, call_args, closing, compare, compare_op, context_binding,
    context_kind, context_stmt, eat_keyword, eat_punct, else_block, else_branch, enum_item, expect,
    expr, expr_under, field_def, field_defs, field_inits, fix_cast, fn_item, fn_return,
    generic_param, generic_params, generics, group, group_rest, head_expr, ident, idents,
    if_let_stmt, if_stmt, impl_item, item, items, let_stmt, let_type, list_values, loop_cond,
    loop_stmt, macro_call, match_arm, match_arms, match_stmt, methods, named, onward, opening, or,
    or_rest, param, params, parsed, pattern, primary, primary_rest, product, product_op,
    product_rest, qualified, range, receiver, recover_to_item, recover_to_statement_end, scale_arg,
    simple_stmt, stmt, stmts, struct_item, struct_lit, sum, sum_op, sum_rest, type_args, unary,
    unary_op, variant_def, variant_defs, variant_pattern, written_type, Reading,
};
use crate::syntax::laws::{grows, grows_facts_for};
use crate::syntax::lexer::{lexed, Keyword, Punct, Span};
use crate::syntax::model::{
    Attribute, Else, Expr, Fault, FieldDef, FieldInit, GenericParam, Ident, Item, MatchArm, Param,
    Stmt, Token, TokenKind, TypeName, VariantDef,
};
use crate::text::split_once;

verus! {

/// Whether a reading went on from `a` to `b`: over the same tokens, never back, under the
/// same rule for struct literals, and without forgetting a problem.
pub open spec fn goes_on(a: Reading, b: Reading) -> bool {
    &&& b.toks == a.toks
    &&& b.end == a.end
    &&& b.at >= a.at
    &&& b.no_struct_lit == a.no_struct_lit
    &&& grows(a.errs, b.errs)
}

proof fn eat_punct_goes_on(p: Reading, punct: Punct)
    ensures
        goes_on(p, eat_punct(p, punct).0),
{
    grows_facts_for::<Fault>();
}

proof fn eat_keyword_goes_on(p: Reading, keyword: Keyword)
    ensures
        goes_on(p, eat_keyword(p, keyword).0),
{
    grows_facts_for::<Fault>();
}

proof fn expect_goes_on(p: Reading, punct: Punct, shown: Seq<char>)
    ensures
        goes_on(p, expect(p, punct, shown).0),
{
    grows_facts_for::<Fault>();
}

proof fn ident_goes_on(p: Reading)
    ensures
        goes_on(p, ident(p).0),
        ident(p).1 is Some ==> p.at < ident(p).0.at,
{
    grows_facts_for::<Fault>();
}

proof fn binding_name_goes_on(p: Reading)
    ensures
        goes_on(p, binding_name(p).0),
        binding_name(p).1 is Some ==> p.at < binding_name(p).0.at,
{
    grows_facts_for::<Fault>();
    match p.kind() {
        Some(TokenKind::Resource(text)) => {
            match split_once(text, ':') {
                None => {
                    ident_goes_on(p);
                },
                _ => {},
            }
        },
        _ => {
            ident_goes_on(p);
        },
    }
}

proof fn group_rest_goes_on(p: Reading, open: Punct, close: Punct, depth: int, acc: Seq<Token>)
    ensures
        goes_on(p, group_rest(p, open, close, depth, acc).0),
    decreases p.left(),
{
    grows_facts_for::<Fault>();
    if !(p.kind() is None) && p.at >= 0 {
        if p.is_punct(open) {
            group_rest_goes_on(p.bump(), open, close, depth + 1, acc.push(p.toks[p.at]));
        } else if p.is_punct(close) {
            if depth - 1 != 0 {
                group_rest_goes_on(p.bump(), open, close, depth - 1, acc.push(p.toks[p.at]));
            }
        } else {
            group_rest_goes_on(p.bump(), open, close, depth, acc.push(p.toks[p.at]));
        }
    }
}

proof fn group_goes_on(p: Reading, open: Punct)
    ensures
        goes_on(p, group(p, open).0),
{
    grows_facts_for::<Fault>();
    if p.is_punct(open) {
        group_rest_goes_on(p.bump(), open, closing(open), 1, seq![]);
    }
}

proof fn attributes_goes_on(p: Reading, acc: Seq<Attribute>)
    ensures
        goes_on(p, attributes(p, acc).0),
    decreases p.left(),
{
    grows_facts_for::<Fault>();
    reveal(attributes);
    if p.is_punct(Punct::Hash) {
        let start = p.span().start;
        group_goes_on(p.bump(), Punct::LBracket);
        match onward(p.bump(), group(p.bump(), Punct::LBracket)) {
            (p1, Some(tokens)) => {
                attributes_goes_on(p1, acc.push(Attribute { tokens, span: p1.since(start) }));
            },
            _ => {},
        }
    }
}

proof fn scale_arg_goes_on(p: Reading)
    ensures
        goes_on(p, scale_arg(p).0),
{
    grows_facts_for::<Fault>();
    reveal(scale_arg);
    match p.kind() {
        Some(TokenKind::Ident(_)) => {
            ident_goes_on(p);
        },
        _ => {},
    }
}

proof fn borrow_goes_on(p: Reading)
    ensures
        goes_on(p, borrow(p).0),
{
    grows_facts_for::<Fault>();
}

#[verifier::spinoff_prover]
proof fn written_type_goes_on(p: Reading)
    ensures
        goes_on(p, written_type(p).0),
        written_type(p).1 is Some ==> p.at < written_type(p).0.at,
    decreases p.left(), 1int,
{
    grows_facts_for::<Fault>();
    reveal(written_type);
    reveal(type_args);
    borrow_goes_on(p);
    let (p1, borrow) = onward(p, borrow(p));
    ident_goes_on(p1);
    match onward(p1, ident(p1)) {
        (p2, Some(name)) => {
            if name.name == "fix"@ {
                expect_goes_on(p2, Punct::Lt, "<"@);
                match onward(p2, expect(p2, Punct::Lt, "<"@)) {
                    (p3, true) => {
                        scale_arg_goes_on(p3);
                        match onward(p3, scale_arg(p3)) {
                            (p4, Some(scale)) => {
                                expect_goes_on(p4, Punct::Gt, ">"@);
                            },
                            _ => {},
                        }
                    },
                    _ => {},
                }
            } else if p2.is_punct(Punct::Lt) {
                type_args_goes_on(p2.bump(), seq![]);
                match type_args(p2.bump(), seq![]) {
                    (p3, Some(args)) => {
                        expect_goes_on(p3, Punct::Gt, ">"@);
                    },
                    _ => {},
                }
            }
        },
        _ => {},
    }
}

#[verifier::spinoff_prover]
proof fn type_args_goes_on(p: Reading, acc: Seq<TypeName>)
    ensures
        goes_on(p, type_args(p, acc).0),
    decreases p.left(), 2int,
{
    grows_facts_for::<Fault>();
    reveal(type_args);
    reveal(written_type);
    if !p.is_punct(Punct::Gt) {
        written_type_goes_on(p);
        match onward(p, written_type(p)) {
            (p1, Some(ty)) => {
                if p1.is_punct(Punct::Comma) {
                    type_args_goes_on(p1.bump(), acc.push(ty));
                }
            },
            _ => {},
        }
    }
}

proof fn generic_params_goes_on(p: Reading, acc: Seq<GenericParam>)
    ensures
        goes_on(p, generic_params(p, acc).0),
    decreases p.left(),
{
    grows_facts_for::<Fault>();
    reveal(generic_params);
    if !p.is_punct(Punct::Gt) {
        generic_param_goes_on(p);
        match onward(p, generic_param(p)) {
            (p1, Some(param)) => {
                if p1.is_punct(Punct::Comma) {
                    generic_params_goes_on(p1.bump(), acc.push(param));
                }
            },
            _ => {},
        }
    }
}

proof fn generic_param_goes_on(p: Reading)
    ensures
        goes_on(p, generic_param(p).0),
        generic_param(p).1 is Some ==> p.at < generic_param(p).0.at,
{
    grows_facts_for::<Fault>();
    reveal(generic_param);
    eat_keyword_goes_on(p, Keyword::Const);
    let (p1, is_const) = eat_keyword(p, Keyword::Const);
    ident_goes_on(p1);
    match ident(p1) {
        (p2, Some(name)) => {
            if is_const {
                expect_goes_on(p2, Punct::Colon, ":"@);
                match expect(p2, Punct::Colon, ":"@) {
                    (p3, true) => {
                        ident_goes_on(p3);
                    },
                    _ => {},
                }
            }
        },
        _ => {},
    }
}

proof fn generics_goes_on(p: Reading)
    ensures
        goes_on(p, generics(p).0),
{
    grows_facts_for::<Fault>();
    reveal(generics);
    if p.is_punct(Punct::Lt) {
        generic_params_goes_on(p.bump(), seq![]);
        match generic_params(p.bump(), seq![]) {
            (p1, Some(params)) => {
                expect_goes_on(p1, Punct::Gt, ">"@);
            },
            _ => {},
        }
    }
}

proof fn field_def_goes_on(p: Reading)
    ensures
        goes_on(p, field_def(p).0),
        field_def(p).1 is Some ==> p.at < field_def(p).0.at,
{
    grows_facts_for::<Fault>();
    reveal(field_def);
    attributes_goes_on(p, seq![]);
    let (p1, attrs) = attributes(p, seq![]);
    binding_name_goes_on(p1);
    match binding_name(p1) {
        (p2, Some(name)) => {
            expect_goes_on(p2, Punct::Colon, ":"@);
            match expect(p2, Punct::Colon, ":"@) {
                (p3, true) => {
                    written_type_goes_on(p3);
                },
                _ => {},
            }
        },
        _ => {},
    }
}

proof fn field_defs_goes_on(p: Reading, acc: Seq<FieldDef>)
    ensures
        goes_on(p, field_defs(p, acc).0),
    decreases p.left(),
{
    grows_facts_for::<Fault>();
    reveal(field_defs);
    if !p.is_punct(Punct::RBrace) {
        field_def_goes_on(p);
        match onward(p, field_def(p)) {
            (p1, Some(field)) => {
                if p1.is_punct(Punct::Comma) {
                    field_defs_goes_on(p1.bump(), acc.push(field));
                }
            },
            _ => {},
        }
    }
}

proof fn receiver_goes_on(p: Reading)
    ensures
        goes_on(p, receiver(p).0),
{
    grows_facts_for::<Fault>();
    reveal(receiver);
}

proof fn param_goes_on(p: Reading)
    ensures
        goes_on(p, param(p).0),
        param(p).1 is Some ==> p.at < param(p).0.at,
{
    grows_facts_for::<Fault>();
    reveal(param);
    binding_name_goes_on(p);
    match binding_name(p) {
        (p1, Some(name)) => {
            expect_goes_on(p1, Punct::Colon, ":"@);
            match expect(p1, Punct::Colon, ":"@) {
                (p2, true) => {
                    written_type_goes_on(p2);
                },
                _ => {},
            }
        },
        _ => {},
    }
}

proof fn params_goes_on(p: Reading, acc: Seq<Param>)
    ensures
        goes_on(p, params(p, acc).0),
    decreases p.left(),
{
    grows_facts_for::<Fault>();
    reveal(params);
    if !p.is_punct(Punct::RParen) {
        param_goes_on(p);
        match onward(p, param(p)) {
            (p1, Some(one)) => {
                if p1.is_punct(Punct::Comma) {
                    params_goes_on(p1.bump(), acc.push(one));
                }
            },
            _ => {},
        }
    }
}

proof fn variant_def_goes_on(p: Reading)
    ensures
        goes_on(p, variant_def(p).0),
        variant_def(p).1 is Some ==> p.at < variant_def(p).0.at,
{
    grows_facts_for::<Fault>();
    reveal(variant_def);
    ident_goes_on(p);
    match ident(p) {
        (p1, Some(name)) => {
            if !p1.is_punct(Punct::LParen) {
                if p1.is_punct(Punct::LBrace) {
                    field_defs_goes_on(p1.bump(), seq![]);
                    match field_defs(p1.bump(), seq![]) {
                        (p2, Some(fields)) => {
                            expect_goes_on(p2, Punct::RBrace, "}"@);
                        },
                        _ => {},
                    }
                }
            }
        },
        _ => {},
    }
}

proof fn variant_defs_goes_on(p: Reading, acc: Seq<VariantDef>)
    ensures
        goes_on(p, variant_defs(p, acc).0),
    decreases p.left(),
{
    grows_facts_for::<Fault>();
    reveal(variant_defs);
    if !p.is_punct(Punct::RBrace) {
        variant_def_goes_on(p);
        match onward(p, variant_def(p)) {
            (p1, Some(one)) => {
                if p1.is_punct(Punct::Comma) {
                    variant_defs_goes_on(p1.bump(), acc.push(one));
                }
            },
            _ => {},
        }
    }
}

#[verifier::spinoff_prover]
proof fn expr_goes_on(p: Reading)
    ensures
        goes_on(p, expr(p).0),
        expr(p).1 is Some ==> p.at < expr(p).0.at,
    decreases p.left(), 15int,
{
    grows_facts_for::<Fault>();
    reveal(expr);
    reveal(assign);
    assign_goes_on(p);
}

#[verifier::spinoff_prover]
proof fn expr_under_goes_on(p: Reading, no_struct_lit: bool)
    ensures
        goes_on(p, expr_under(p, no_struct_lit).0),
        expr_under(p, no_struct_lit).1 is Some ==> p.at < expr_under(p, no_struct_lit).0.at,
    decreases p.left(), 16int,
{
    grows_facts_for::<Fault>();
    reveal(expr_under);
    reveal(expr);
    expr_goes_on(p.heading(no_struct_lit));
}

#[verifier::spinoff_prover]
proof fn assign_goes_on(p: Reading)
    ensures
        goes_on(p, assign(p).0),
        assign(p).1 is Some ==> p.at < assign(p).0.at,
    decreases p.left(), 14int,
{
    grows_facts_for::<Fault>();
    reveal(assign);
    reveal(range);
    range_goes_on(p);
    match onward(p, range(p)) {
        (p1, Some(lhs)) => {
            match assign_op(p1.kind()) {
                Some(op) => {
                    assign_goes_on(p1.bump());
                },
                _ => {},
            }
        },
        _ => {},
    }
}

#[verifier::spinoff_prover]
proof fn range_goes_on(p: Reading)
    ensures
        goes_on(p, range(p).0),
        range(p).1 is Some ==> p.at < range(p).0.at,
    decreases p.left(), 13int,
{
    grows_facts_for::<Fault>();
    reveal(range);
    reveal(or);
    or_goes_on(p);
    match onward(p, or(p)) {
        (p1, Some(start)) => {
            if p1.is_punct(Punct::DotDot) {
                let p2 = p1.bump();
                if !p2.is_punct(Punct::RParen) && !p2.is_punct(Punct::Comma) {
                    or_goes_on(p2);
                }
            }
        },
        _ => {},
    }
}

#[verifier::spinoff_prover]
proof fn or_goes_on(p: Reading)
    ensures
        goes_on(p, or(p).0),
        or(p).1 is Some ==> p.at < or(p).0.at,
    decreases p.left(), 12int,
{
    grows_facts_for::<Fault>();
    reveal(or);
    reveal(and);
    reveal(or_rest);
    and_goes_on(p);
    match onward(p, and(p)) {
        (p1, Some(lhs)) => {
            or_rest_goes_on(p1, lhs);
        },
        _ => {},
    }
}

#[verifier::spinoff_prover]
proof fn or_rest_goes_on(p: Reading, lhs: Expr)
    ensures
        goes_on(p, or_rest(p, lhs).0),
    decreases p.left(), 11int,
{
    grows_facts_for::<Fault>();
    reveal(or_rest);
    reveal(and);
    if p.is_punct(Punct::OrOr) {
        and_goes_on(p.bump());
        match onward(p.bump(), and(p.bump())) {
            (p1, Some(rhs)) => {
                or_rest_goes_on(p1, binary(BinaryOp::Or, lhs, rhs));
            },
            _ => {},
        }
    }
}

#[verifier::spinoff_prover]
proof fn and_goes_on(p: Reading)
    ensures
        goes_on(p, and(p).0),
        and(p).1 is Some ==> p.at < and(p).0.at,
    decreases p.left(), 10int,
{
    grows_facts_for::<Fault>();
    reveal(and);
    reveal(compare);
    reveal(and_rest);
    compare_goes_on(p);
    match onward(p, compare(p)) {
        (p1, Some(lhs)) => {
            and_rest_goes_on(p1, lhs);
        },
        _ => {},
    }
}

#[verifier::spinoff_prover]
proof fn and_rest_goes_on(p: Reading, lhs: Expr)
    ensures
        goes_on(p, and_rest(p, lhs).0),
    decreases p.left(), 9int,
{
    grows_facts_for::<Fault>();
    reveal(and_rest);
    reveal(compare);
    if p.is_punct(Punct::AndAnd) {
        compare_goes_on(p.bump());
        match onward(p.bump(), compare(p.bump())) {
            (p1, Some(rhs)) => {
                and_rest_goes_on(p1, binary(BinaryOp::And, lhs, rhs));
            },
            _ => {},
        }
    }
}

#[verifier::spinoff_prover]
proof fn compare_goes_on(p: Reading)
    ensures
        goes_on(p, compare(p).0),
        compare(p).1 is Some ==> p.at < compare(p).0.at,
    decreases p.left(), 8int,
{
    grows_facts_for::<Fault>();
    reveal(compare);
    reveal(sum);
    sum_goes_on(p);
    match onward(p, sum(p)) {
        (p1, Some(lhs)) => {
            match compare_op(p1.kind()) {
                Some(op) => {
                    sum_goes_on(p1.bump());
                },
                _ => {},
            }
        },
        _ => {},
    }
}

#[verifier::spinoff_prover]
proof fn sum_goes_on(p: Reading)
    ensures
        goes_on(p, sum(p).0),
        sum(p).1 is Some ==> p.at < sum(p).0.at,
    decreases p.left(), 7int,
{
    grows_facts_for::<Fault>();
    reveal(sum);
    reveal(product);
    reveal(sum_rest);
    product_goes_on(p);
    match onward(p, product(p)) {
        (p1, Some(lhs)) => {
            sum_rest_goes_on(p1, lhs);
        },
        _ => {},
    }
}

#[verifier::spinoff_prover]
proof fn sum_rest_goes_on(p: Reading, lhs: Expr)
    ensures
        goes_on(p, sum_rest(p, lhs).0),
    decreases p.left(), 6int,
{
    grows_facts_for::<Fault>();
    reveal(sum_rest);
    reveal(product);
    match sum_op(p.kind()) {
        Some(op) => {
            product_goes_on(p.bump());
            match onward(p.bump(), product(p.bump())) {
                (p1, Some(rhs)) => {
                    sum_rest_goes_on(p1, binary(op, lhs, rhs));
                },
                _ => {},
            }
        },
        _ => {},
    }
}

#[verifier::spinoff_prover]
proof fn product_goes_on(p: Reading)
    ensures
        goes_on(p, product(p).0),
        product(p).1 is Some ==> p.at < product(p).0.at,
    decreases p.left(), 5int,
{
    grows_facts_for::<Fault>();
    reveal(product);
    reveal(unary);
    reveal(product_rest);
    unary_goes_on(p);
    match onward(p, unary(p)) {
        (p1, Some(lhs)) => {
            product_rest_goes_on(p1, lhs);
        },
        _ => {},
    }
}

#[verifier::spinoff_prover]
proof fn product_rest_goes_on(p: Reading, lhs: Expr)
    ensures
        goes_on(p, product_rest(p, lhs).0),
    decreases p.left(), 4int,
{
    grows_facts_for::<Fault>();
    reveal(product_rest);
    reveal(unary);
    match product_op(p.kind()) {
        Some(op) => {
            unary_goes_on(p.bump());
            match onward(p.bump(), unary(p.bump())) {
                (p1, Some(rhs)) => {
                    product_rest_goes_on(p1, binary(op, lhs, rhs));
                },
                _ => {},
            }
        },
        _ => {},
    }
}

#[verifier::spinoff_prover]
proof fn unary_goes_on(p: Reading)
    ensures
        goes_on(p, unary(p).0),
        unary(p).1 is Some ==> p.at < unary(p).0.at,
    decreases p.left(), 3int,
{
    grows_facts_for::<Fault>();
    reveal(unary);
    reveal(primary);
    match unary_op(p.kind()) {
        Some(op) => {
            unary_goes_on(p.bump());
        },
        None => {
            primary_goes_on(p);
        },
    }
}

#[verifier::spinoff_prover]
proof fn primary_goes_on(p: Reading)
    ensures
        goes_on(p, primary(p).0),
        primary(p).1 is Some ==> p.at < primary(p).0.at,
    decreases p.left(), 2int,
{
    grows_facts_for::<Fault>();
    reveal(primary);
    reveal(atom);
    reveal(primary_rest);
    atom_goes_on(p);
    match onward(p, atom(p)) {
        (p1, Some(e)) => {
            primary_rest_goes_on(p1, e);
        },
        _ => {},
    }
}

#[verifier::spinoff_prover]
proof fn primary_rest_goes_on(p: Reading, e: Expr)
    ensures
        goes_on(p, primary_rest(p, e).0),
    decreases p.left(), 1int,
{
    grows_facts_for::<Fault>();
    reveal(primary_rest);
    reveal(access);
    reveal(expr_under);
    let start = e.span().start;
    if p.is_punct(Punct::Dot) {
        access_goes_on(p.bump(), e);
        match onward(p.bump(), access(p.bump(), e)) {
            (p1, Some(e1)) => {
                primary_rest_goes_on(p1, e1);
            },
            _ => {},
        }
    } else if p.is_punct(Punct::LBracket) {
        expr_under_goes_on(p.bump(), false);
        match onward(p.bump(), expr_under(p.bump(), false)) {
            (p1, Some(index)) => {
                expect_goes_on(p1, Punct::RBracket, "]"@);
                match onward(p1, expect(p1, Punct::RBracket, "]"@)) {
                    (p2, true) => {
                        primary_rest_goes_on(
                            p2,
                            Expr::Index(Box::new(e), Box::new(index), p2.since(start)),
                        );
                    },
                    _ => {},
                }
            },
            _ => {},
        }
    } else if p.is_punct(Punct::Question) {
        primary_rest_goes_on(p.bump(), Expr::Try(Box::new(e), p.bump().since(start)));
    }
}

#[verifier::spinoff_prover]
proof fn access_goes_on(p: Reading, e: Expr)
    ensures
        goes_on(p, access(p, e).0),
    decreases p.left(), 21int,
{
    grows_facts_for::<Fault>();
    reveal(access);
    reveal(call_args);
    ident_goes_on(p);
    match onward(p, ident(p)) {
        (p1, Some(name)) => {
            if p1.is_punct(Punct::LParen) {
                call_args_goes_on(p1);
            }
        },
        _ => {},
    }
}

#[verifier::spinoff_prover]
proof fn atom_goes_on(p: Reading)
    ensures
        goes_on(p, atom(p).0),
        atom(p).1 is Some ==> p.at < atom(p).0.at,
    decreases p.left(), 0int,
{
    grows_facts_for::<Fault>();
    reveal(atom);
    reveal(expr_under);
    reveal(primary);
    reveal(list_values);
    reveal(named);
    let span = p.span();
    match p.kind() {
        Some(TokenKind::Punct(Punct::LParen)) => {
            expr_under_goes_on(p.bump(), false);
            match onward(p.bump(), expr_under(p.bump(), false)) {
                (p1, Some(inner)) => {
                    expect_goes_on(p1, Punct::RParen, ")"@);
                },
                _ => {},
            }
        },
        Some(TokenKind::Punct(Punct::And)) => {
            eat_keyword_goes_on(p.bump(), Keyword::Mut);
            let (p1, mutable) = onward(p.bump(), eat_keyword(p.bump(), Keyword::Mut));
            primary_goes_on(p1);
        },
        Some(TokenKind::Punct(Punct::LBracket)) => {
            list_values_goes_on(p.bump().heading(false), seq![]);
            match list_values(p.bump().heading(false), seq![]) {
                (p1, Some(values)) => {
                    expect_goes_on(p1.heading(p.no_struct_lit), Punct::RBracket, "]"@);
                },
                _ => {},
            }
        },
        Some(TokenKind::Ident(name)) => {
            named_goes_on(p.bump(), Ident { name, span });
        },
        _ => {},
    }
}

#[verifier::spinoff_prover]
proof fn list_values_goes_on(p: Reading, acc: Seq<Expr>)
    ensures
        goes_on(p, list_values(p, acc).0),
    decreases p.left(), 19int,
{
    grows_facts_for::<Fault>();
    reveal(list_values);
    reveal(expr);
    if !p.is_punct(Punct::RBracket) {
        expr_goes_on(p);
        match onward(p, expr(p)) {
            (p1, Some(value)) => {
                if p1.is_punct(Punct::Comma) {
                    list_values_goes_on(p1.bump(), acc.push(value));
                }
            },
            _ => {},
        }
    }
}

#[verifier::spinoff_prover]
proof fn named_goes_on(p: Reading, name: Ident)
    ensures
        goes_on(p, named(p, name).0),
    decreases p.left(), 23int,
{
    grows_facts_for::<Fault>();
    reveal(named);
    reveal(macro_call);
    reveal(call_args);
    reveal(struct_lit);
    reveal(qualified);
    if p.is_punct(Punct::Bang) {
        macro_call_goes_on(p.bump(), name);
    } else if p.is_punct(Punct::LParen) {
        call_args_goes_on(p);
    } else if p.is_punct(Punct::LBrace) && !p.no_struct_lit {
        struct_lit_goes_on(p.bump(), name, None);
    } else if p.is_punct(Punct::ColonColon) {
        qualified_goes_on(p.bump(), name);
    }
}

#[verifier::spinoff_prover]
proof fn qualified_goes_on(p: Reading, name: Ident)
    ensures
        goes_on(p, qualified(p, name).0),
    decreases p.left(), 22int,
{
    grows_facts_for::<Fault>();
    reveal(qualified);
    reveal(fix_cast);
    reveal(expr);
    reveal(struct_lit);
    if p.is_punct(Punct::Lt) {
        fix_cast_goes_on(p, name);
    } else {
        ident_goes_on(p);
        match onward(p, ident(p)) {
            (p1, Some(variant)) => {
                if p1.is_punct(Punct::LParen) {
                    if variant.name == "of"@ {
                        expr_goes_on(p1.bump());
                        match onward(p1.bump(), expr(p1.bump())) {
                            (p2, Some(selector)) => {
                                expect_goes_on(p2, Punct::RParen, ")"@);
                            },
                            _ => {},
                        }
                    }
                } else if p1.is_punct(Punct::LBrace) && !p1.no_struct_lit {
                    struct_lit_goes_on(p1.bump(), name, Some(variant));
                }
            },
            _ => {},
        }
    }
}

#[verifier::spinoff_prover]
proof fn fix_cast_goes_on(p: Reading, name: Ident)
    ensures
        goes_on(p, fix_cast(p, name).0),
    decreases p.left(), 21int,
{
    grows_facts_for::<Fault>();
    reveal(fix_cast);
    reveal(expr);
    if name.name == "fix"@ {
        expect_goes_on(p, Punct::Lt, "<"@);
        match onward(p, expect(p, Punct::Lt, "<"@)) {
            (p1, true) => {
                scale_arg_goes_on(p1);
                match onward(p1, scale_arg(p1)) {
                    (p2, Some(scale)) => {
                        expect_goes_on(p2, Punct::Gt, ">"@);
                        match onward(p2, expect(p2, Punct::Gt, ">"@)) {
                            (p3, true) => {
                                expect_goes_on(p3, Punct::LParen, "("@);
                                match onward(p3, expect(p3, Punct::LParen, "("@)) {
                                    (p4, true) => {
                                        expr_goes_on(p4);
                                        match onward(p4, expr(p4)) {
                                            (p5, Some(value)) => {
                                                expect_goes_on(p5, Punct::RParen, ")"@);
                                            },
                                            _ => {},
                                        }
                                    },
                                    _ => {},
                                }
                            },
                            _ => {},
                        }
                    },
                    _ => {},
                }
            },
            _ => {},
        }
    }
}

#[verifier::spinoff_prover]
proof fn struct_lit_goes_on(p: Reading, name: Ident, variant: Option<Ident>)
    ensures
        goes_on(p, struct_lit(p, name, variant).0),
    decreases p.left(), 21int,
{
    grows_facts_for::<Fault>();
    reveal(struct_lit);
    reveal(field_inits);
    field_inits_goes_on(p, seq![]);
    match field_inits(p, seq![]) {
        (p1, Some(fields)) => {
            expect_goes_on(p1, Punct::RBrace, "}"@);
        },
        _ => {},
    }
}

#[verifier::spinoff_prover]
proof fn field_inits_goes_on(p: Reading, acc: Seq<FieldInit>)
    ensures
        goes_on(p, field_inits(p, acc).0),
    decreases p.left(), 20int,
{
    grows_facts_for::<Fault>();
    reveal(field_inits);
    reveal(expr_under);
    if !p.is_punct(Punct::RBrace) {
        let start = p.span().start;
        ident_goes_on(p);
        match onward(p, ident(p)) {
            (p1, Some(name)) => {
                expect_goes_on(p1, Punct::Colon, ":"@);
                match onward(p1, expect(p1, Punct::Colon, ":"@)) {
                    (p2, true) => {
                        expr_under_goes_on(p2, false);
                        match onward(p2, expr_under(p2, false)) {
                            (p3, Some(value)) => {
                                let fields = acc.push(
                                    FieldInit { name, value, span: p3.since(start) },
                                );
                                if p3.is_punct(Punct::Comma) {
                                    field_inits_goes_on(p3.bump(), fields);
                                }
                            },
                            _ => {},
                        }
                    },
                    _ => {},
                }
            },
            _ => {},
        }
    }
}

#[verifier::spinoff_prover]
proof fn call_args_goes_on(p: Reading)
    ensures
        goes_on(p, call_args(p).0),
    decreases p.left(), 20int,
{
    grows_facts_for::<Fault>();
    reveal(call_args);
    reveal(args);
    expect_goes_on(p, Punct::LParen, "("@);
    match onward(p, expect(p, Punct::LParen, "("@)) {
        (p1, true) => {
            args_goes_on(p1, seq![]);
            match onward(p1, args(p1, seq![])) {
                (p2, Some(values)) => {
                    expect_goes_on(p2, Punct::RParen, ")"@);
                },
                _ => {},
            }
        },
        _ => {},
    }
}

#[verifier::spinoff_prover]
proof fn args_goes_on(p: Reading, acc: Seq<Expr>)
    ensures
        goes_on(p, args(p, acc).0),
    decreases p.left(), 19int,
{
    grows_facts_for::<Fault>();
    reveal(args);
    reveal(expr_under);
    if !p.is_punct(Punct::RParen) {
        expr_under_goes_on(p, false);
        match onward(p, expr_under(p, false)) {
            (p1, Some(value)) => {
                if p1.is_punct(Punct::Comma) {
                    args_goes_on(p1.bump(), acc.push(value));
                }
            },
            _ => {},
        }
    }
}

#[verifier::spinoff_prover]
proof fn macro_call_goes_on(p: Reading, name: Ident)
    ensures
        goes_on(p, macro_call(p, name).0),
    decreases p.left(), 22int,
{
    grows_facts_for::<Fault>();
    reveal(macro_call);
    reveal(assertion);
    reveal(call_args);
    if name.name == "debug_assert"@ {
        assertion_goes_on(p, name);
    } else if name.name == "text"@ {
        call_args_goes_on(p);
    } else if p.is_punct(Punct::LParen) || p.is_punct(Punct::LBracket)
        || p.is_punct(Punct::LBrace) {
        group_goes_on(p, p.kind()->0->Punct_0);
    }
}

#[verifier::spinoff_prover]
proof fn assertion_goes_on(p: Reading, name: Ident)
    ensures
        goes_on(p, assertion(p, name).0),
    decreases p.left(), 21int,
{
    grows_facts_for::<Fault>();
    reveal(assertion);
    reveal(expr);
    expect_goes_on(p, Punct::LParen, "("@);
    match onward(p, expect(p, Punct::LParen, "("@)) {
        (p1, true) => {
            expr_goes_on(p1);
            match onward(p1, expr(p1)) {
                (p2, Some(cond)) => {
                    assertion_message_goes_on(p2);
                    match assertion_message(p2) {
                        (p3, Some(message)) => {
                            expect_goes_on(p3, Punct::RParen, ")"@);
                        },
                        _ => {},
                    }
                },
                _ => {},
            }
        },
        _ => {},
    }
}

proof fn assertion_message_goes_on(p: Reading)
    ensures
        goes_on(p, assertion_message(p).0),
{
    grows_facts_for::<Fault>();
    reveal(assertion_message);
}

proof fn head_expr_goes_on(p: Reading)
    ensures
        goes_on(p, head_expr(p).0),
        head_expr(p).1 is Some ==> p.at < head_expr(p).0.at,
{
    grows_facts_for::<Fault>();
    expr_under_goes_on(p, true);
}

proof fn recover_to_statement_end_goes_on(p: Reading)
    ensures
        goes_on(p, recover_to_statement_end(p)),
    decreases p.left(),
{
    grows_facts_for::<Fault>();
    reveal(recover_to_statement_end);
    if !(p.kind() is None) && p.at >= 0 {
        if !p.is_punct(Punct::Semi) {
            if !p.is_punct(Punct::RBrace) {
                recover_to_statement_end_goes_on(p.bump());
            }
        }
    }
}

#[verifier::spinoff_prover]
proof fn block_goes_on(p: Reading)
    ensures
        goes_on(p, block(p).0),
        block(p).1 is Some ==> p.at < block(p).0.at,
    decreases p.left(), 5int,
{
    grows_facts_for::<Fault>();
    reveal(block);
    reveal(stmts);
    expect_goes_on(p, Punct::LBrace, "{"@);
    match onward(p, expect(p, Punct::LBrace, "{"@)) {
        (p1, true) => {
            stmts_goes_on(p1, seq![]);
        },
        _ => {},
    }
}

#[verifier::spinoff_prover]
proof fn stmts_goes_on(p: Reading, acc: Seq<Stmt>)
    ensures
        goes_on(p, stmts(p, acc).0),
    decreases p.left(), 4int,
{
    grows_facts_for::<Fault>();
    reveal(stmts);
    reveal(stmt);
    if !(p.kind() is None) {
        if !p.is_punct(Punct::RBrace) {
            stmt_goes_on(p);
            let (p1, found) = onward(p, stmt(p));
            match found {
                Some(one) => {
                    if p1.left() < p.left() {
                        stmts_goes_on(p1, acc.push(one));
                    }
                },
                None => {
                    recover_to_statement_end_goes_on(p1);
                    let p2 = recover_to_statement_end(p1);
                    if p2.toks == p.toks && p2.left() < p.left() {
                        stmts_goes_on(p2, acc);
                    }
                },
            }
        }
    }
}

#[verifier::spinoff_prover]
proof fn stmt_goes_on(p: Reading)
    ensures
        goes_on(p, stmt(p).0),
        stmt(p).1 is Some ==> p.at < stmt(p).0.at,
    decreases p.left(), 3int,
{
    grows_facts_for::<Fault>();
    reveal(stmt);
    reveal(if_let_stmt);
    reveal(if_stmt);
    reveal(loop_stmt);
    reveal(context_stmt);
    reveal(match_stmt);
    attributes_goes_on(p, seq![]);
    let (p1, attrs) = onward(p, attributes(p, seq![]));
    if p1.is_keyword(Keyword::If)
        && p1.kind_at(p1.at + 1) == Some(TokenKind::Keyword(Keyword::Let)) {
        let p2 = if attrs.len() > 0 {
            p1.fault_at(attrs[0].span, misplaced_attribute())
        } else {
            p1
        };
        if_let_stmt_goes_on(p2);
    } else if p1.is_keyword(Keyword::If) {
        if_stmt_goes_on(p1, attrs);
    } else if p1.is_keyword(Keyword::While) || p1.is_keyword(Keyword::Loop) {
        loop_stmt_goes_on(p1, attrs);
    } else if p1.is_keyword(Keyword::As) || p1.is_keyword(Keyword::At)
        || p1.is_keyword(Keyword::For) || p1.is_keyword(Keyword::Positioned) {
        context_stmt_goes_on(p1, attrs);
    } else if attrs.len() <= 0 {
        if p1.is_keyword(Keyword::Match) {
            match_stmt_goes_on(p1);
        } else {
            simple_stmt_goes_on(p1);
        }
    }
}

proof fn simple_stmt_goes_on(p: Reading)
    ensures
        goes_on(p, simple_stmt(p).0),
        simple_stmt(p).1 is Some ==> p.at < simple_stmt(p).0.at,
{
    grows_facts_for::<Fault>();
    reveal(simple_stmt);
    if p.is_keyword(Keyword::Let) {
        let_stmt_goes_on(p);
    } else if p.is_keyword(Keyword::Break) {
        expect_goes_on(p.bump(), Punct::Semi, ";"@);
    } else if p.is_keyword(Keyword::Continue) {
        expect_goes_on(p.bump(), Punct::Semi, ";"@);
    } else if p.is_keyword(Keyword::Return) {
        if !p.bump().is_punct(Punct::Semi) {
            expr_goes_on(p.bump());
            match expr(p.bump()) {
                (p1, Some(value)) => {
                    expect_goes_on(p1, Punct::Semi, ";"@);
                },
                _ => {},
            }
        }
    } else {
        expr_goes_on(p);
        match expr(p) {
            (p1, Some(e)) => {
                expect_goes_on(p1, Punct::Semi, ";"@);
            },
            _ => {},
        }
    }
}

proof fn let_stmt_goes_on(p: Reading)
    ensures
        goes_on(p, let_stmt(p).0),
        let_stmt(p).1 is Some ==> p.at < let_stmt(p).0.at,
{
    grows_facts_for::<Fault>();
    reveal(let_stmt);
    eat_keyword_goes_on(p.bump(), Keyword::Mut);
    let (p1, mutable) = eat_keyword(p.bump(), Keyword::Mut);
    binding_name_goes_on(p1);
    match binding_name(p1) {
        (p2, Some(name)) => {
            let_type_goes_on(p2);
            match let_type(p2) {
                (p3, Some(ty)) => {
                    expect_goes_on(p3, Punct::Eq, "="@);
                    match expect(p3, Punct::Eq, "="@) {
                        (p4, true) => {
                            expr_goes_on(p4);
                            match expr(p4) {
                                (p5, Some(value)) => {
                                    expect_goes_on(p5, Punct::Semi, ";"@);
                                },
                                _ => {},
                            }
                        },
                        _ => {},
                    }
                },
                _ => {},
            }
        },
        _ => {},
    }
}

proof fn let_type_goes_on(p: Reading)
    ensures
        goes_on(p, let_type(p).0),
{
    grows_facts_for::<Fault>();
    reveal(let_type);
    if p.is_punct(Punct::Colon) {
        written_type_goes_on(p.bump());
    }
}

#[verifier::spinoff_prover]
proof fn if_stmt_goes_on(p: Reading, attrs: Seq<Attribute>)
    ensures
        goes_on(p, if_stmt(p, attrs).0),
        if_stmt(p, attrs).1 is Some ==> p.at < if_stmt(p, attrs).0.at,
    decreases p.left(), 2int,
{
    grows_facts_for::<Fault>();
    reveal(if_stmt);
    reveal(block);
    reveal(else_branch);
    if !(p.kind() is None) {
        head_expr_goes_on(p.bump());
        match onward(p.bump(), head_expr(p.bump())) {
            (p1, Some(cond)) => {
                block_goes_on(p1);
                match onward(p1, block(p1)) {
                    (p2, Some(taken)) => {
                        else_branch_goes_on(p2);
                    },
                    _ => {},
                }
            },
            _ => {},
        }
    }
}

#[verifier::spinoff_prover]
proof fn else_branch_goes_on(p: Reading)
    ensures
        goes_on(p, else_branch(p).0),
    decreases p.left(), 1int,
{
    grows_facts_for::<Fault>();
    reveal(else_branch);
    reveal(if_stmt);
    reveal(block);
    if p.is_keyword(Keyword::Else) {
        if p.bump().is_keyword(Keyword::If) {
            if_stmt_goes_on(p.bump(), seq![]);
        } else {
            block_goes_on(p.bump());
        }
    }
}

#[verifier::spinoff_prover]
proof fn if_let_stmt_goes_on(p: Reading)
    ensures
        goes_on(p, if_let_stmt(p).0),
        if_let_stmt(p).1 is Some ==> p.at < if_let_stmt(p).0.at,
    decreases p.left(), 2int,
{
    grows_facts_for::<Fault>();
    reveal(if_let_stmt);
    reveal(block);
    reveal(else_block);
    if p.left() >= 2 {
        pattern_goes_on(p.bump().bump());
        match onward(p.bump().bump(), pattern(p.bump().bump())) {
            (p1, Some(pattern)) => {
                expect_goes_on(p1, Punct::Eq, "="@);
                match onward(p1, expect(p1, Punct::Eq, "="@)) {
                    (p2, true) => {
                        head_expr_goes_on(p2);
                        match onward(p2, head_expr(p2)) {
                            (p3, Some(scrutinee)) => {
                                block_goes_on(p3);
                                match onward(p3, block(p3)) {
                                    (p4, Some(taken)) => {
                                        else_block_goes_on(p4, taken.span);
                                    },
                                    _ => {},
                                }
                            },
                            _ => {},
                        }
                    },
                    _ => {},
                }
            },
            _ => {},
        }
    }
}

#[verifier::spinoff_prover]
proof fn else_block_goes_on(p: Reading, span: Span)
    ensures
        goes_on(p, else_block(p, span).0),
    decreases p.left(), 1int,
{
    grows_facts_for::<Fault>();
    reveal(else_block);
    reveal(block);
    if p.is_keyword(Keyword::Else) {
        block_goes_on(p.bump());
    }
}

#[verifier::spinoff_prover]
proof fn match_stmt_goes_on(p: Reading)
    ensures
        goes_on(p, match_stmt(p).0),
        match_stmt(p).1 is Some ==> p.at < match_stmt(p).0.at,
    decreases p.left(), 2int,
{
    grows_facts_for::<Fault>();
    reveal(match_stmt);
    reveal(match_arms);
    if !(p.kind() is None) {
        head_expr_goes_on(p.bump());
        match onward(p.bump(), head_expr(p.bump())) {
            (p1, Some(scrutinee)) => {
                expect_goes_on(p1, Punct::LBrace, "{"@);
                match onward(p1, expect(p1, Punct::LBrace, "{"@)) {
                    (p2, true) => {
                        match_arms_goes_on(p2, seq![]);
                        match onward(p2, match_arms(p2, seq![])) {
                            (p3, Some(arms)) => {
                                expect_goes_on(p3, Punct::RBrace, "}"@);
                            },
                            _ => {},
                        }
                    },
                    _ => {},
                }
            },
            _ => {},
        }
    }
}

#[verifier::spinoff_prover]
proof fn match_arms_goes_on(p: Reading, acc: Seq<MatchArm>)
    ensures
        goes_on(p, match_arms(p, acc).0),
    decreases p.left(), 7int,
{
    grows_facts_for::<Fault>();
    reveal(match_arms);
    reveal(match_arm);
    if !p.is_punct(Punct::RBrace) {
        match_arm_goes_on(p);
        match onward(p, match_arm(p)) {
            (p1, Some(arm)) => {
                eat_punct_goes_on(p1, Punct::Comma);
                let (p2, _) = onward(p1, eat_punct(p1, Punct::Comma));
                if p2.left() < p.left() {
                    match_arms_goes_on(p2, acc.push(arm));
                }
            },
            _ => {},
        }
    }
}

#[verifier::spinoff_prover]
proof fn match_arm_goes_on(p: Reading)
    ensures
        goes_on(p, match_arm(p).0),
        match_arm(p).1 is Some ==> p.at < match_arm(p).0.at,
    decreases p.left(), 6int,
{
    grows_facts_for::<Fault>();
    reveal(match_arm);
    reveal(block);
    pattern_goes_on(p);
    match onward(p, pattern(p)) {
        (p1, Some(pattern)) => {
            expect_goes_on(p1, Punct::FatArrow, "=>"@);
            match onward(p1, expect(p1, Punct::FatArrow, "=>"@)) {
                (p2, true) => {
                    block_goes_on(p2);
                },
                _ => {},
            }
        },
        _ => {},
    }
}

proof fn pattern_goes_on(p: Reading)
    ensures
        goes_on(p, pattern(p).0),
        pattern(p).1 is Some ==> p.at < pattern(p).0.at,
{
    grows_facts_for::<Fault>();
    reveal(pattern);
    let start = p.span().start;
    if !p.is_punct(Punct::Underscore) {
        ident_goes_on(p);
        match ident(p) {
            (p1, Some(ty)) => {
                if ty.name != "None"@ {
                    if ty.name == "Some"@ {
                        expect_goes_on(p1, Punct::LParen, "("@);
                        match expect(p1, Punct::LParen, "("@) {
                            (p2, true) => {
                                ident_goes_on(p2);
                                match ident(p2) {
                                    (p3, Some(bind)) => {
                                        expect_goes_on(p3, Punct::RParen, ")"@);
                                    },
                                    _ => {},
                                }
                            },
                            _ => {},
                        }
                    } else if p1.is_punct(Punct::ColonColon) {
                        variant_pattern_goes_on(p1.bump(), ty, start);
                    }
                }
            },
            _ => {},
        }
    }
}

proof fn variant_pattern_goes_on(p: Reading, ty: Ident, start: usize)
    ensures
        goes_on(p, variant_pattern(p, ty, start).0),
{
    grows_facts_for::<Fault>();
    reveal(variant_pattern);
    ident_goes_on(p);
    match ident(p) {
        (p1, Some(variant)) => {
            if p1.is_punct(Punct::LBrace) {
                idents_goes_on(p1.bump(), seq![]);
                match idents(p1.bump(), seq![]) {
                    (p2, Some(binds)) => {
                        expect_goes_on(p2, Punct::RBrace, "}"@);
                    },
                    _ => {},
                }
            }
        },
        _ => {},
    }
}

proof fn idents_goes_on(p: Reading, acc: Seq<Ident>)
    ensures
        goes_on(p, idents(p, acc).0),
    decreases p.left(),
{
    grows_facts_for::<Fault>();
    reveal(idents);
    if !p.is_punct(Punct::RBrace) {
        ident_goes_on(p);
        match onward(p, ident(p)) {
            (p1, Some(one)) => {
                if p1.is_punct(Punct::Comma) {
                    idents_goes_on(p1.bump(), acc.push(one));
                }
            },
            _ => {},
        }
    }
}

proof fn context_binding_goes_on(p: Reading, kind: ContextKind)
    ensures
        goes_on(p, context_binding(p, kind).0),
{
    grows_facts_for::<Fault>();
    reveal(context_binding);
    if kind == ContextKind::For {
        ident_goes_on(p);
    }
}

#[verifier::spinoff_prover]
proof fn context_stmt_goes_on(p: Reading, attrs: Seq<Attribute>)
    ensures
        goes_on(p, context_stmt(p, attrs).0),
        context_stmt(p, attrs).1 is Some ==> p.at < context_stmt(p, attrs).0.at,
    decreases p.left(), 2int,
{
    grows_facts_for::<Fault>();
    reveal(context_stmt);
    reveal(block);
    let kind = context_kind(p.kind());
    if !(p.kind() is None) {
        context_binding_goes_on(p.bump(), kind);
        match onward(p.bump(), context_binding(p.bump(), kind)) {
            (p1, Some(binding)) => {
                head_expr_goes_on(p1);
                match onward(p1, head_expr(p1)) {
                    (p2, Some(selector)) => {
                        block_goes_on(p2);
                    },
                    _ => {},
                }
            },
            _ => {},
        }
    }
}

proof fn loop_cond_goes_on(p: Reading, conditional: bool)
    ensures
        goes_on(p, loop_cond(p, conditional).0),
{
    grows_facts_for::<Fault>();
    reveal(loop_cond);
    if conditional {
        head_expr_goes_on(p);
    }
}

#[verifier::spinoff_prover]
proof fn loop_stmt_goes_on(p: Reading, attrs: Seq<Attribute>)
    ensures
        goes_on(p, loop_stmt(p, attrs).0),
        loop_stmt(p, attrs).1 is Some ==> p.at < loop_stmt(p, attrs).0.at,
    decreases p.left(), 2int,
{
    grows_facts_for::<Fault>();
    reveal(loop_stmt);
    reveal(block);
    let conditional = p.is_keyword(Keyword::While);
    if !(p.kind() is None) {
        loop_cond_goes_on(p.bump(), conditional);
        match onward(p.bump(), loop_cond(p.bump(), conditional)) {
            (p1, Some(cond)) => {
                block_goes_on(p1);
            },
            _ => {},
        }
    }
}

proof fn recover_to_item_goes_on(p: Reading)
    ensures
        goes_on(p, recover_to_item(p)),
    decreases p.left(),
{
    grows_facts_for::<Fault>();
    reveal(recover_to_item);
    if !(p.kind() is None) && p.at >= 0 && !p.is_keyword(Keyword::Fn) && !p.is_punct(Punct::Hash) {
        recover_to_item_goes_on(p.bump());
    }
}

proof fn fn_item_goes_on(p: Reading, attrs: Seq<Attribute>, start: usize)
    ensures
        goes_on(p, fn_item(p, attrs, start).0),
{
    grows_facts_for::<Fault>();
    reveal(fn_item);
    ident_goes_on(p);
    match ident(p) {
        (p1, Some(name)) => {
            generics_goes_on(p1);
            match generics(p1) {
                (p2, Some(generics)) => {
                    expect_goes_on(p2, Punct::LParen, "("@);
                    match expect(p2, Punct::LParen, "("@) {
                        (p3, true) => {
                            receiver_goes_on(p3);
                            let (p4, receiver) = receiver(p3);
                            if receiver is Some {
                                eat_punct_goes_on(p4, Punct::Comma);
                            }
                            let p5 = if receiver is Some {
                                eat_punct(p4, Punct::Comma).0
                            } else {
                                p4
                            };
                            params_goes_on(p5, seq![]);
                            match params(p5, seq![]) {
                                (p6, Some(params)) => {
                                    expect_goes_on(p6, Punct::RParen, ")"@);
                                    match expect(p6, Punct::RParen, ")"@) {
                                        (p7, true) => {
                                            fn_return_goes_on(p7);
                                            match fn_return(p7) {
                                                (p8, Some(ret)) => {
                                                    block_goes_on(p8);
                                                },
                                                _ => {},
                                            }
                                        },
                                        _ => {},
                                    }
                                },
                                _ => {},
                            }
                        },
                        _ => {},
                    }
                },
                _ => {},
            }
        },
        _ => {},
    }
}

proof fn fn_return_goes_on(p: Reading)
    ensures
        goes_on(p, fn_return(p).0),
{
    grows_facts_for::<Fault>();
    reveal(fn_return);
    if p.is_punct(Punct::Arrow) {
        written_type_goes_on(p.bump());
    }
}

proof fn struct_item_goes_on(p: Reading, attrs: Seq<Attribute>, start: usize)
    ensures
        goes_on(p, struct_item(p, attrs, start).0),
{
    grows_facts_for::<Fault>();
    reveal(struct_item);
    ident_goes_on(p);
    match ident(p) {
        (p1, Some(name)) => {
            generics_goes_on(p1);
            match generics(p1) {
                (p2, Some(generics)) => {
                    expect_goes_on(p2, Punct::LBrace, "{"@);
                    match expect(p2, Punct::LBrace, "{"@) {
                        (p3, true) => {
                            field_defs_goes_on(p3, seq![]);
                            match field_defs(p3, seq![]) {
                                (p4, Some(fields)) => {
                                    expect_goes_on(p4, Punct::RBrace, "}"@);
                                },
                                _ => {},
                            }
                        },
                        _ => {},
                    }
                },
                _ => {},
            }
        },
        _ => {},
    }
}

proof fn enum_item_goes_on(p: Reading, attrs: Seq<Attribute>, start: usize)
    ensures
        goes_on(p, enum_item(p, attrs, start).0),
{
    grows_facts_for::<Fault>();
    reveal(enum_item);
    ident_goes_on(p);
    match ident(p) {
        (p1, Some(name)) => {
            expect_goes_on(p1, Punct::LBrace, "{"@);
            match expect(p1, Punct::LBrace, "{"@) {
                (p2, true) => {
                    variant_defs_goes_on(p2, seq![]);
                    match variant_defs(p2, seq![]) {
                        (p3, Some(variants)) => {
                            expect_goes_on(p3, Punct::RBrace, "}"@);
                        },
                        _ => {},
                    }
                },
                _ => {},
            }
        },
        _ => {},
    }
}

#[verifier::spinoff_prover]
proof fn item_goes_on(p: Reading)
    ensures
        goes_on(p, item(p).0),
        item(p).1 is Some ==> p.at < item(p).0.at,
    decreases p.left(), 1int,
{
    grows_facts_for::<Fault>();
    reveal(item);
    reveal(impl_item);
    let start = p.span().start;
    attributes_goes_on(p, seq![]);
    let (p1, attrs) = onward(p, attributes(p, seq![]));
    if p1.is_keyword(Keyword::Fn) {
        fn_item_goes_on(p1.bump(), attrs, start);
    } else if p1.is_keyword(Keyword::Struct) {
        struct_item_goes_on(p1.bump(), attrs, start);
    } else if p1.is_keyword(Keyword::Enum) {
        enum_item_goes_on(p1.bump(), attrs, start);
    } else if p1.is_keyword(Keyword::Impl) {
        impl_item_goes_on(p1.bump(), attrs, start);
    }
}

#[verifier::spinoff_prover]
proof fn impl_item_goes_on(p: Reading, attrs: Seq<Attribute>, start: usize)
    ensures
        goes_on(p, impl_item(p, attrs, start).0),
    decreases p.left(), 3int,
{
    grows_facts_for::<Fault>();
    reveal(impl_item);
    reveal(methods);
    ident_goes_on(p);
    match onward(p, ident(p)) {
        (p1, Some(ty)) => {
            expect_goes_on(p1, Punct::LBrace, "{"@);
            match onward(p1, expect(p1, Punct::LBrace, "{"@)) {
                (p2, true) => {
                    methods_goes_on(p2, seq![]);
                    match onward(p2, methods(p2, seq![])) {
                        (p3, Some(methods)) => {
                            expect_goes_on(p3, Punct::RBrace, "}"@);
                        },
                        _ => {},
                    }
                },
                _ => {},
            }
        },
        _ => {},
    }
}

#[verifier::spinoff_prover]
proof fn methods_goes_on(p: Reading, acc: Seq<Item>)
    ensures
        goes_on(p, methods(p, acc).0),
    decreases p.left(), 2int,
{
    grows_facts_for::<Fault>();
    reveal(methods);
    reveal(item);
    if !p.is_punct(Punct::RBrace) {
        item_goes_on(p);
        match onward(p, item(p)) {
            (p1, Some(one)) => {
                if p1.left() < p.left() {
                    methods_goes_on(p1, acc.push(one));
                }
            },
            _ => {},
        }
    }
}

proof fn items_goes_on(p: Reading, acc: Seq<Item>)
    ensures
        goes_on(p, items(p, acc).0),
    decreases p.left(),
{
    grows_facts_for::<Fault>();
    reveal(items);
    if !(p.kind() is None) {
        item_goes_on(p);
        let (p1, found) = onward(p, item(p));
        match found {
            Some(one) => {
                if p1.left() < p.left() {
                    items_goes_on(p1, acc.push(one));
                }
            },
            None => {
                recover_to_item_goes_on(p1);
                let p2 = recover_to_item(p1);
                if p2.toks == p.toks && p2.left() < p.left() {
                    items_goes_on(p2, acc);
                }
            },
        }
    }
}

/// Skipping to the next item stops at one, or where nothing is left.
proof fn lemma_recovery_finds_an_item(p: Reading)
    requires
        p.at >= 0,
    ensures
        ({
            let q = recover_to_item(p);
            q.kind() is None || begins_item(q)
        }),
    decreases p.left(),
{
    reveal(recover_to_item);
    if !(p.kind() is None || begins_item(p)) {
        lemma_recovery_finds_an_item(p.bump());
    }
}

/// Where an item begins, trying to read it takes at least one token.
proof fn lemma_an_item_takes_its_first_token(p: Reading)
    requires
        begins_item(p),
    ensures
        item(p).0.at > p.at,
{
    reveal(item);
    reveal(impl_item);
    let start = p.span().start;
    if p.is_punct(Punct::Hash) {
        lemma_attributes_take_something(p, seq![]);
    }
    attributes_goes_on(p, seq![]);
    let (p1, attrs) = onward(p, attributes(p, seq![]));
    if !p.is_punct(Punct::Hash) {
        reveal(attributes);
    }
    fn_item_goes_on(p1.bump(), attrs, start);
    struct_item_goes_on(p1.bump(), attrs, start);
    enum_item_goes_on(p1.bump(), attrs, start);
    impl_item_goes_on(p1.bump(), attrs, start);
}

/// Whatever is wrong with an item, what comes after it is read too: reading goes on until
/// nothing is left.
pub proof fn lemma_everything_is_read(p: Reading, acc: Seq<Item>)
    requires
        p.at >= 0,
    ensures
        items(p, acc).0.kind() is None,
    decreases p.left(),
{
    reveal(items);
    if p.kind() is Some {
        item_goes_on(p);
        let (p1, found) = onward(p, item(p));
        match found {
            Some(one) => {
                lemma_everything_is_read(p1, acc.push(one));
            },
            None => {
                let p2 = recover_to_item(p1);
                recover_to_item_goes_on(p1);
                lemma_recovery_finds_an_item(p1);
                if p2.at == p.at {
                    lemma_an_item_takes_its_first_token(p);
                }
                lemma_everything_is_read(p2, acc);
            },
        }
    }
}

proof fn lemma_attributes_take_something(p: Reading, acc: Seq<Attribute>)
    requires
        p.is_punct(Punct::Hash),
    ensures
        attributes(p, acc).0.at > p.at,
{
    reveal(attributes);
    group_goes_on(p.bump(), Punct::LBracket);
    let (p1, found) = onward(p.bump(), group(p.bump(), Punct::LBracket));
    match found {
        Some(tokens) => {
            attributes_goes_on(
                p1,
                acc.push(Attribute { tokens, span: p1.since(p.span().start) }),
            );
        },
        None => {},
    }
}

/// A statement that cannot be read costs that statement alone: a block is only given up
/// where the text ends before it does.
pub proof fn lemma_a_block_is_read_to_its_end(p: Reading, acc: Seq<Stmt>)
    requires
        p.at >= 0,
    ensures
        stmts(p, acc).1 is None ==> stmts(p, acc).0.kind() is None,
    decreases p.left(),
{
    reveal(stmts);
    reveal(stmt);
    if p.kind() is Some && !p.is_punct(Punct::RBrace) {
        stmt_goes_on(p);
        let (p1, found) = onward(p, stmt(p));
        match found {
            Some(one) => {
                lemma_a_block_is_read_to_its_end(p1, acc.push(one));
            },
            None => {
                let p2 = recover_to_statement_end(p1);
                recover_to_statement_end_goes_on(p1);
                if p1.at == p.at {
                    reveal(recover_to_statement_end);
                    recover_to_statement_end_goes_on(p1.bump());
                }
                lemma_a_block_is_read_to_its_end(p2, acc);
            },
        }
    }
}

/// A text is read to its end, whatever is wrong with it, and what is wrong with its words
/// is reported first, all of it.
pub proof fn lemma_one_mistake_hides_nothing(src: Seq<char>)
    ensures
        items(opening(src), seq![]).0.kind() is None,
        grows(lexed(src).1, parsed(src).1),
{
    lemma_everything_is_read(opening(src), seq![]);
    items_goes_on(opening(src), seq![]);
}

} // verus!

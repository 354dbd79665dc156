//! Operators are read by their spelling.

use vstd::prelude::*;

use crate::syntax::ast::{BinaryOp, UnaryOp};
use crate::syntax::grammar::{
    and_rest, assign, assign_op, binary, compare, compare_op, onward, or_rest, product, product_op,
    product_rest, range, sum_op, sum_rest, unary, unary_op, Reading,
};
use crate::syntax::lexer::{punct_at, punct_of_one, punct_of_two, token_at, Punct, Span};
use crate::syntax::model::{Expr, Fault, TokenKind};
use crate::text::{is_digit, is_letter};

verus! {

/// How an operator between two values is written.
pub open spec fn spelling(op: BinaryOp) -> Seq<char> {
    match op {
        BinaryOp::Add => seq!['+'],
        BinaryOp::Sub => seq!['-'],
        BinaryOp::Mul => seq!['*'],
        BinaryOp::Div => seq!['/'],
        BinaryOp::Rem => seq!['%'],
        BinaryOp::Eq => seq!['=', '='],
        BinaryOp::Ne => seq!['!', '='],
        BinaryOp::Lt => seq!['<'],
        BinaryOp::Le => seq!['<', '='],
        BinaryOp::Gt => seq!['>'],
        BinaryOp::Ge => seq!['>', '='],
        BinaryOp::And => seq!['&', '&'],
        BinaryOp::Or => seq!['|', '|'],
    }
}

/// How an operator in front of a value is written.
pub open spec fn sign(op: UnaryOp) -> Seq<char> {
    match op {
        UnaryOp::Neg => seq!['-'],
        UnaryOp::Not => seq!['!'],
    }
}

/// How the assignment by an operator is written: the operator, followed by `=`.
pub open spec fn assignment(op: Option<BinaryOp>) -> Seq<char> {
    match op {
        Some(op) => spelling(op).push('='),
        None => seq!['='],
    }
}

/// Whether `text` is all of the punctuation that begins a source it stands in front of, as
/// long as what comes next does not make it a longer one.
pub open spec fn spells(text: Seq<char>, punct: Punct) -> bool {
    forall|s: Seq<char>, i: int|
        #![trigger token_at(s, i)]
        0 <= i && i + text.len() < s.len() && s.subrange(i, i + text.len()) == text && s[i
            + text.len()] == ' ' ==> token_at(s, i) == (
            i + text.len(),
            Some(TokenKind::Punct(punct)),
            Seq::<Fault>::empty(),
        )
}

/// The operators that can be assigned by: those between numbers.
pub open spec fn arithmetic(op: BinaryOp) -> bool {
    op is Add || op is Sub || op is Mul || op is Div || op is Rem
}

/// The operator that a token is between two values.
pub open spec fn operator(kind: Option<TokenKind>) -> Option<BinaryOp> {
    if kind == Some(TokenKind::Punct(Punct::OrOr)) {
        Some(BinaryOp::Or)
    } else if kind == Some(TokenKind::Punct(Punct::AndAnd)) {
        Some(BinaryOp::And)
    } else if compare_op(kind) is Some {
        compare_op(kind)
    } else if sum_op(kind) is Some {
        sum_op(kind)
    } else {
        product_op(kind)
    }
}

pub(crate) proof fn lemma_one_character(c: char, punct: Punct)
    requires
        punct_of_one(c) == Some(punct),
        c != '_',
        !is_letter(c),
        !is_digit(c),
        c != '@',
        c != '"',
    ensures
        spells(seq![c], punct),
{
    reveal(token_at);
    reveal(punct_at);
    reveal(punct_of_two);
    assert forall|s: Seq<char>, i: int|
        #![trigger token_at(s, i)]
        0 <= i && i + 1 < s.len() && s.subrange(i, i + 1) == seq![c] && s[i
            + 1] == ' ' implies token_at(s, i) == (
        i + 1,
        Some(TokenKind::Punct(punct)),
        Seq::<Fault>::empty(),
    ) by {
        assert(s.subrange(i, i + 1)[0] == c);
    }
}

pub(crate) proof fn lemma_two_characters(a: char, b: char, punct: Punct)
    requires
        punct_of_two(a, b) == Some(punct),
        a != '_',
        !is_letter(a),
        !is_digit(a),
        a != '@',
        a != '"',
    ensures
        spells(seq![a, b], punct),
{
    reveal(token_at);
    reveal(punct_at);
    assert forall|s: Seq<char>, i: int|
        #![trigger token_at(s, i)]
        0 <= i && i + 2 < s.len() && s.subrange(i, i + 2) == seq![a, b] && s[i
            + 2] == ' ' implies token_at(s, i) == (
        i + 2,
        Some(TokenKind::Punct(punct)),
        Seq::<Fault>::empty(),
    ) by {
        assert(s.subrange(i, i + 2)[0] == a);
        assert(s.subrange(i, i + 2)[1] == b);
    }
}

/// A token is an operator between two values exactly when it is written as that operator
/// is.
pub proof fn lemma_operators_are_read_by_their_spelling(op: BinaryOp, punct: Punct)
    ensures
        operator(Some(TokenKind::Punct(punct))) == Some(op) <==> spells(spelling(op), punct),
{
    lemma_spelled(op);
    let own = spelled(op);
    lemma_spelled_once(spelling(op), own, punct);
}

/// A token assigns by an operator exactly when it is written as that operator is, followed
/// by `=`: `x op= y` and `x op y` are read as the same operator.
pub proof fn lemma_assignments_are_read_by_their_operator(op: Option<BinaryOp>, punct: Punct)
    requires
        op is Some ==> arithmetic(op->0),
    ensures
        assign_op(Some(TokenKind::Punct(punct))) == Some(op) <==> spells(assignment(op), punct),
{
    lemma_assigned(op);
    lemma_spelled_once(assignment(op), assigned(op), punct);
}

/// Only the operators between numbers are assigned by.
pub proof fn lemma_assignments_are_arithmetic(kind: Option<TokenKind>)
    ensures
        match assign_op(kind) {
            Some(Some(op)) => arithmetic(op) && spells(
                spelling(op).push('='),
                kind->0->Punct_0,
            ) && kind->0 is Punct,
            Some(None) => kind == Some(TokenKind::Punct(Punct::Eq)),
            None => true,
        },
{
    match assign_op(kind) {
        Some(op) => {
            lemma_assignments_are_read_by_their_operator(op, kind->0->Punct_0);
        },
        None => {},
    }
}

/// A token is an operator in front of a value exactly when it is written as that operator
/// is.
pub proof fn lemma_signs_are_read_by_their_spelling(op: UnaryOp, punct: Punct)
    ensures
        unary_op(Some(TokenKind::Punct(punct))) == Some(op) <==> spells(sign(op), punct),
{
    reveal(punct_of_one);
    match op {
        UnaryOp::Neg => {
            lemma_one_character('-', Punct::Minus);
            lemma_spelled_once(sign(op), Punct::Minus, punct);
        },
        UnaryOp::Not => {
            lemma_one_character('!', Punct::Bang);
            lemma_spelled_once(sign(op), Punct::Bang, punct);
        },
    }
}

/// The token an operator is written as.
pub open spec fn spelled(op: BinaryOp) -> Punct {
    match op {
        BinaryOp::Add => Punct::Plus,
        BinaryOp::Sub => Punct::Minus,
        BinaryOp::Mul => Punct::Star,
        BinaryOp::Div => Punct::Slash,
        BinaryOp::Rem => Punct::Percent,
        BinaryOp::Eq => Punct::EqEq,
        BinaryOp::Ne => Punct::Ne,
        BinaryOp::Lt => Punct::Lt,
        BinaryOp::Le => Punct::Le,
        BinaryOp::Gt => Punct::Gt,
        BinaryOp::Ge => Punct::Ge,
        BinaryOp::And => Punct::AndAnd,
        BinaryOp::Or => Punct::OrOr,
    }
}

/// The token an assignment is written as.
pub open spec fn assigned(op: Option<BinaryOp>) -> Punct {
    match op {
        None => Punct::Eq,
        Some(BinaryOp::Add) => Punct::PlusEq,
        Some(BinaryOp::Sub) => Punct::MinusEq,
        Some(BinaryOp::Mul) => Punct::StarEq,
        Some(BinaryOp::Div) => Punct::SlashEq,
        _ => Punct::PercentEq,
    }
}

/// The token of an operator is what its spelling is read as.
pub proof fn lemma_spelled(op: BinaryOp)
    ensures
        spells(spelling(op), spelled(op)),
{
    reveal(punct_of_one);
    reveal(punct_of_two);
    let text = spelling(op);
    if text.len() == 1 {
        lemma_one_character(text[0], spelled(op));
        assert(text =~= seq![text[0]]);
    } else {
        lemma_two_characters(text[0], text[1], spelled(op));
        assert(text =~= seq![text[0], text[1]]);
    }
}

/// The token of an assignment is what its spelling is read as.
pub proof fn lemma_assigned(op: Option<BinaryOp>)
    requires
        op is Some ==> arithmetic(op->0),
    ensures
        spells(assignment(op), assigned(op)),
{
    reveal(punct_of_one);
    reveal(punct_of_two);
    let text = assignment(op);
    if text.len() == 1 {
        lemma_one_character(text[0], assigned(op));
        assert(text =~= seq![text[0]]);
    } else {
        lemma_two_characters(text[0], text[1], assigned(op));
        assert(text =~= seq![text[0], text[1]]);
    }
}

/// What a text spells is one token.
proof fn lemma_spelled_once(text: Seq<char>, a: Punct, b: Punct)
    requires
        spells(text, a),
    ensures
        spells(text, b) <==> a == b,
{
    let s = text.push(' ');
    assert(s.subrange(0, text.len() as int) =~= text);
    assert(token_at(s, 0).1 == Some(TokenKind::Punct(a)));
}

// ---------------------------------------------------------------------------
// What is read with them.
// ---------------------------------------------------------------------------

/// A place, a token written as an operator followed by `=`, and a value are read as the
/// assignment by that operator.
pub proof fn lemma_an_assignment_is_read(
    p: Reading,
    op: Option<BinaryOp>,
    punct: Punct,
    lhs: Expr,
    p1: Reading,
    value: Expr,
    p2: Reading,
)
    requires
        op is Some ==> arithmetic(op->0),
        spells(assignment(op), punct),
        onward(p, range(p)) == (p1, Some(lhs)),
        lhs is Path || lhs is Field || lhs is Index,
        p1.is_punct(punct),
        assign(p1.bump()) == (p2, Some(value)),
    ensures
        assign(p) == (
            p2,
            Some(
                Expr::Assign(
                    op,
                    Box::new(lhs),
                    Box::new(value),
                    Span { start: lhs.span().start, end: value.span().end },
                ),
            ),
        ),
{
    reveal(assign);
    lemma_assignments_are_read_by_their_operator(op, punct);
}

/// Two values with a token between them that is written as an operator are read as that
/// operator between them, and what follows is read with that on its left.
pub proof fn lemma_an_operation_is_read(
    p: Reading,
    op: BinaryOp,
    punct: Punct,
    lhs: Expr,
    rhs: Expr,
    p1: Reading,
)
    requires
        spells(spelling(op), punct),
        p.is_punct(punct),
    ensures
        op is Add || op is Sub ==> (onward(p.bump(), product(p.bump())) == (p1, Some(rhs))
            ==> sum_rest(p, lhs) == sum_rest(p1, binary(op, lhs, rhs))),
        op is Mul || op is Div || op is Rem ==> (onward(p.bump(), unary(p.bump())) == (
            p1,
            Some(rhs),
        ) ==> product_rest(p, lhs) == product_rest(p1, binary(op, lhs, rhs))),
        op is And ==> (onward(p.bump(), compare(p.bump())) == (p1, Some(rhs)) ==> and_rest(p, lhs)
            == and_rest(p1, binary(op, lhs, rhs))),
        op is Or ==> (onward(p.bump(), crate::syntax::grammar::and(p.bump())) == (p1, Some(rhs))
            ==> or_rest(p, lhs) == or_rest(p1, binary(op, lhs, rhs))),
{
    reveal(sum_rest);
    reveal(product_rest);
    reveal(and_rest);
    reveal(or_rest);
    lemma_operators_are_read_by_their_spelling(op, punct);
}

} // verus!

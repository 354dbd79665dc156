//! Expressions that are written down are read back: with each operator by its spelling, and
//! brackets only where the operators around would take a part for themselves.

use vstd::prelude::*;

use crate::syntax::ast::{BinaryOp, UnaryOp};
use crate::syntax::grammar::{
    access, and, and_rest, assign, assign_op, atom, binary, compare, compare_op, expect, expr,
    expr_under, ident, named, onward, or, or_rest, primary, primary_rest, product, product_op,
    product_rest, range, sum, sum_op, sum_rest, unary, unary_op, Reading,
};
use crate::syntax::lexer::{Keyword, Punct};
use crate::syntax::model::{Expr, Ident, TokenKind};
use crate::syntax::operators::{arithmetic, assigned, spelled};

verus! {

/// What an expression is, wherever it stands.
pub enum Tree {
    Int(i32),
    Bool(bool),
    Str(Seq<char>),
    Resource(Seq<char>),
    Selector(Seq<char>),
    Name(Seq<char>),
    Unary(UnaryOp, Box<Tree>),
    Binary(BinaryOp, Box<Tree>, Box<Tree>),
    Assign(Option<BinaryOp>, Box<Tree>, Box<Tree>),
    Range(Box<Tree>, Box<Tree>),
    Field(Box<Tree>, Seq<char>),
    Index(Box<Tree>, Box<Tree>),
    Try(Box<Tree>),
    /// An expression that is not written with operators.
    Other,
}

pub open spec fn tree(e: Expr) -> Tree
    decreases e,
{
    match e {
        Expr::Int(n, _) => Tree::Int(n),
        Expr::Bool(b, _) => Tree::Bool(b),
        Expr::Str(text, _) => Tree::Str(text),
        Expr::Resource(text, _) => Tree::Resource(text),
        Expr::Selector(text, _) => Tree::Selector(text),
        Expr::Path(name) => Tree::Name(name.name),
        Expr::Unary(op, operand, _) => Tree::Unary(op, Box::new(tree(*operand))),
        Expr::Binary(op, lhs, rhs, _) => Tree::Binary(
            op,
            Box::new(tree(*lhs)),
            Box::new(tree(*rhs)),
        ),
        Expr::Assign(op, target, value, _) => Tree::Assign(
            op,
            Box::new(tree(*target)),
            Box::new(tree(*value)),
        ),
        Expr::Range(Some(start), Some(end), _) => Tree::Range(
            Box::new(tree(*start)),
            Box::new(tree(*end)),
        ),
        Expr::Field(base, name, _) => Tree::Field(Box::new(tree(*base)), name.name),
        Expr::Index(base, index, _) => Tree::Index(Box::new(tree(*base)), Box::new(tree(*index))),
        Expr::Try(inner, _) => Tree::Try(Box::new(tree(*inner))),
        _ => Tree::Other,
    }
}

/// Whether a tree can be written: what is assigned to is a binding, a field or an element,
/// and what is assigned by is an operator between numbers.
pub open spec fn writable(t: Tree) -> bool
    decreases t,
{
    match t {
        Tree::Unary(_, operand) => writable(*operand),
        Tree::Binary(_, lhs, rhs) => writable(*lhs) && writable(*rhs),
        Tree::Assign(op, target, value) => {
            &&& writable(*target)
            &&& writable(*value)
            &&& op is Some ==> arithmetic(op->0)
            &&& *target is Name || *target is Field || *target is Index
        },
        Tree::Range(start, end) => writable(*start) && writable(*end),
        Tree::Field(base, _) => writable(*base),
        Tree::Index(base, index) => writable(*base) && writable(*index),
        Tree::Try(inner) => writable(*inner),
        Tree::Other => false,
        _ => true,
    }
}

/// How tightly an operator holds what it stands between.
pub open spec fn binding(op: BinaryOp) -> int {
    match op {
        BinaryOp::Or => 2,
        BinaryOp::And => 3,
        BinaryOp::Add => 5,
        BinaryOp::Sub => 5,
        BinaryOp::Mul => 6,
        BinaryOp::Div => 6,
        BinaryOp::Rem => 6,
        _ => 4,
    }
}

pub open spec fn level(t: Tree) -> int {
    match t {
        Tree::Assign(_, _, _) => 0,
        Tree::Range(_, _) => 1,
        Tree::Binary(op, _, _) => binding(op),
        Tree::Unary(_, _) => 7,
        _ => 8,
    }
}

pub open spec fn punct(p: Punct) -> Seq<TokenKind> {
    seq![TokenKind::Punct(p)]
}

/// A tree in its own words.
pub open spec fn bare(t: Tree) -> Seq<TokenKind>
    decreases t, 0int,
{
    match t {
        Tree::Int(n) => seq![TokenKind::Int(n)],
        Tree::Bool(b) => seq![
            TokenKind::Keyword(
                if b {
                    Keyword::True
                } else {
                    Keyword::False
                },
            ),
        ],
        Tree::Str(text) => seq![TokenKind::Str(text)],
        Tree::Resource(text) => seq![TokenKind::Resource(text)],
        Tree::Selector(text) => seq![TokenKind::Selector(text)],
        Tree::Name(name) => seq![TokenKind::Ident(name)],
        Tree::Unary(op, operand) => punct(
            match op {
                UnaryOp::Neg => Punct::Minus,
                UnaryOp::Not => Punct::Bang,
            },
        ) + written(*operand, 7),
        // Operators are read from the left; comparisons do not chain.
        Tree::Binary(op, lhs, rhs) => written(
            *lhs,
            if binding(op) == 4 {
                5
            } else {
                binding(op)
            },
        ) + punct(spelled(op)) + written(*rhs, binding(op) + 1),
        Tree::Assign(op, target, value) => written(*target, 1) + punct(assigned(op)) + written(
            *value,
            0,
        ),
        Tree::Range(start, end) => written(*start, 2) + punct(Punct::DotDot) + written(*end, 2),
        Tree::Field(base, name) => written(*base, 8) + punct(Punct::Dot) + seq![
            TokenKind::Ident(name),
        ],
        Tree::Index(base, index) => written(*base, 8) + punct(Punct::LBracket) + written(*index, 0)
            + punct(Punct::RBracket),
        Tree::Try(inner) => written(*inner, 8) + punct(Punct::Question),
        Tree::Other => seq![],
    }
}

/// A tree where something that holds as tightly as `min` is wanted: in brackets, if it does
/// not.
pub open spec fn written(t: Tree, min: int) -> Seq<TokenKind>
    decreases t, 1int,
{
    if level(t) < min {
        punct(Punct::LParen) + bare(t) + punct(Punct::RParen)
    } else {
        bare(t)
    }
}

// ---------------------------------------------------------------------------
// Readings.
// ---------------------------------------------------------------------------

/// Whether those tokens are next.
pub open spec fn next_are(p: Reading, toks: Seq<TokenKind>) -> bool {
    &&& 0 <= p.at
    &&& p.at + toks.len() <= p.toks.len()
    &&& forall|k: int| 0 <= k < toks.len() ==> (#[trigger] p.toks[p.at + k]).kind == toks[k]
}

pub open spec fn past(p: Reading, n: nat) -> Reading {
    Reading { at: p.at + n, ..p }
}

proof fn lemma_parts(p: Reading, a: Seq<TokenKind>, b: Seq<TokenKind>)
    requires
        next_are(p, a + b),
    ensures
        next_are(p, a),
        next_are(past(p, a.len()), b),
{
    assert forall|k: int| 0 <= k < a.len() implies (#[trigger] p.toks[p.at + k]).kind == a[k] by {
        assert((a + b)[k] == a[k]);
    }
    let q = past(p, a.len());
    assert forall|k: int| 0 <= k < b.len() implies (#[trigger] q.toks[q.at + k]).kind == b[k] by {
        assert((a + b)[a.len() + k] == b[k]);
        assert(p.toks[p.at + (a.len() + k)].kind == b[k]);
    }
}

proof fn lemma_three_parts(
    p: Reading,
    a: Seq<TokenKind>,
    by: TokenKind,
    b: Seq<TokenKind>,
)
    requires
        next_are(p, a + seq![by] + b),
    ensures
        next_are(p, a),
        past(p, a.len()).kind() == Some(by),
        next_are(past(p, a.len()).bump(), b),
        past(past(p, a.len()).bump(), b.len()) == past(p, (a + seq![by] + b).len()),
{
    lemma_parts(p, a + seq![by], b);
    lemma_parts(p, a, seq![by]);
    let q = past(p, a.len());
    assert(q.toks[q.at + 0].kind == seq![by][0]);
    assert(past(p, (a + seq![by]).len()) == q.bump());
}

/// Whether a token does not go on with a name or a place: it is no bracket of a call, no
/// macro and no path.
pub open spec fn ends_name(kind: Option<TokenKind>) -> bool {
    &&& kind != Some(TokenKind::Punct(Punct::LParen))
    &&& kind != Some(TokenKind::Punct(Punct::Bang))
    &&& kind != Some(TokenKind::Punct(Punct::ColonColon))
    &&& kind != Some(TokenKind::Punct(Punct::LBrace))
}

/// Whether a token does not go on with an expression that holds as tightly as `n`.
pub open spec fn ends(kind: Option<TokenKind>, n: int) -> bool {
    &&& ends_name(kind)
    &&& n <= 8 ==> kind != Some(TokenKind::Punct(Punct::Dot)) && kind != Some(
        TokenKind::Punct(Punct::LBracket),
    ) && kind != Some(TokenKind::Punct(Punct::Question))
    &&& n <= 6 ==> product_op(kind) is None
    &&& n <= 5 ==> sum_op(kind) is None
    &&& n <= 4 ==> compare_op(kind) is None
    &&& n <= 3 ==> kind != Some(TokenKind::Punct(Punct::AndAnd))
    &&& n <= 2 ==> kind != Some(TokenKind::Punct(Punct::OrOr))
    &&& n <= 1 ==> kind != Some(TokenKind::Punct(Punct::DotDot))
    &&& n <= 0 ==> assign_op(kind) is None
}

/// What is read where something that holds as tightly as `n` is wanted.
pub open spec fn read(n: int, p: Reading) -> (Reading, Option<Expr>) {
    if n <= 0 {
        assign(p)
    } else if n == 1 {
        range(p)
    } else if n == 2 {
        or(p)
    } else if n == 3 {
        and(p)
    } else if n == 4 {
        compare(p)
    } else if n == 5 {
        sum(p)
    } else if n == 6 {
        product(p)
    } else if n == 7 {
        unary(p)
    } else {
        primary(p)
    }
}

/// What is read when that has been read on the left.
spec fn read_on(n: int, p: Reading, e: Expr) -> (Reading, Option<Expr>) {
    if n == 2 {
        or_rest(p, e)
    } else if n == 3 {
        and_rest(p, e)
    } else if n == 5 {
        sum_rest(p, e)
    } else if n == 6 {
        product_rest(p, e)
    } else {
        primary_rest(p, e)
    }
}

spec fn goes_on(n: int) -> bool {
    n == 2 || n == 3 || n == 5 || n == 6 || n == 8
}

/// The first token of anything that is written is one that an expression begins with.
proof fn lemma_begins(t: Tree, n: int)
    requires
        writable(t),
    ensures
        written(t, n).len() > 0,
        written(t, n)[0] != TokenKind::Punct(Punct::RParen),
        written(t, n)[0] != TokenKind::Punct(Punct::Comma),
        n >= 8 ==> unary_op(Some(written(t, n)[0])) is None,
        level(t) == 8 ==> unary_op(Some(bare(t)[0])) is None,
        bare(t).len() > 0,
    decreases t,
{
    match t {
        Tree::Unary(_, operand) => lemma_begins(*operand, 7),
        Tree::Binary(op, lhs, rhs) => {
            lemma_begins(
                *lhs,
                if binding(op) == 4 {
                    5
                } else {
                    binding(op)
                },
            );
        },
        Tree::Assign(_, target, _) => lemma_begins(*target, 1),
        Tree::Range(start, _) => lemma_begins(*start, 2),
        Tree::Field(base, _) => lemma_begins(*base, 8),
        Tree::Index(base, _) => lemma_begins(*base, 8),
        Tree::Try(inner) => lemma_begins(*inner, 8),
        _ => {},
    }
}

#[verifier::spinoff_prover]
proof fn lemma_assign_passes(p: Reading, k: nat, e: Expr)
    requires
        range(p) == (past(p, k), Some(e)),
        assign_op(past(p, k).kind()) is None,
    ensures
        assign(p) == (past(p, k), Some(e)),
{
    reveal(assign);
    reveal(range);
    let p1 = past(p, k);
    assert(onward(p, range(p)) == (p1, Some(e)));
}

#[verifier::spinoff_prover]
proof fn lemma_range_passes(p: Reading, k: nat, e: Expr)
    requires
        or(p) == (past(p, k), Some(e)),
        past(p, k).kind() != Some(TokenKind::Punct(Punct::DotDot)),
    ensures
        range(p) == (past(p, k), Some(e)),
{
    reveal(range);
    reveal(or);
    let p1 = past(p, k);
    assert(onward(p, or(p)) == (p1, Some(e)));
}

#[verifier::spinoff_prover]
proof fn lemma_compare_passes(p: Reading, k: nat, e: Expr)
    requires
        sum(p) == (past(p, k), Some(e)),
        compare_op(past(p, k).kind()) is None,
    ensures
        compare(p) == (past(p, k), Some(e)),
{
    reveal(compare);
    reveal(sum);
    let p1 = past(p, k);
    assert(onward(p, sum(p)) == (p1, Some(e)));
}

#[verifier::spinoff_prover]
proof fn lemma_unary_passes(p: Reading)
    requires
        unary_op(p.kind()) is None,
    ensures
        unary(p) == primary(p),
{
    reveal(unary);
    reveal(primary);
}

#[verifier::spinoff_prover]
proof fn lemma_or_begins(p: Reading, k: nat, e: Expr)
    requires
        and(p) == (past(p, k), Some(e)),
    ensures
        or(p) == or_rest(past(p, k), e),
{
    reveal(or);
    reveal(and);
    reveal(or_rest);
    let p1 = past(p, k);
    assert(onward(p, and(p)) == (p1, Some(e)));
}

#[verifier::spinoff_prover]
proof fn lemma_and_begins(p: Reading, k: nat, e: Expr)
    requires
        compare(p) == (past(p, k), Some(e)),
    ensures
        and(p) == and_rest(past(p, k), e),
{
    reveal(and);
    reveal(compare);
    reveal(and_rest);
    let p1 = past(p, k);
    assert(onward(p, compare(p)) == (p1, Some(e)));
}

#[verifier::spinoff_prover]
proof fn lemma_sum_begins(p: Reading, k: nat, e: Expr)
    requires
        product(p) == (past(p, k), Some(e)),
    ensures
        sum(p) == sum_rest(past(p, k), e),
{
    reveal(sum);
    reveal(product);
    reveal(sum_rest);
    let p1 = past(p, k);
    assert(onward(p, product(p)) == (p1, Some(e)));
}

#[verifier::spinoff_prover]
proof fn lemma_product_begins(p: Reading, k: nat, e: Expr)
    requires
        unary(p) == (past(p, k), Some(e)),
    ensures
        product(p) == product_rest(past(p, k), e),
{
    reveal(product);
    reveal(unary);
    reveal(product_rest);
    let p1 = past(p, k);
    assert(onward(p, unary(p)) == (p1, Some(e)));
}

#[verifier::spinoff_prover]
proof fn lemma_or_takes(p: Reading, op: BinaryOp, lhs: Expr, k: nat, rhs: Expr)
    requires
        op is Or,
        p.kind() == Some(TokenKind::Punct(spelled(op))),
        and(p.bump()) == (past(p.bump(), k), Some(rhs)),
    ensures
        or_rest(p, lhs) == or_rest(past(p.bump(), k), binary(op, lhs, rhs)),
{
    reveal(or_rest);
    reveal(and);
    let p1 = past(p.bump(), k);
    assert(onward(p.bump(), and(p.bump())) == (p1, Some(rhs)));
}

#[verifier::spinoff_prover]
proof fn lemma_and_takes(p: Reading, op: BinaryOp, lhs: Expr, k: nat, rhs: Expr)
    requires
        op is And,
        p.kind() == Some(TokenKind::Punct(spelled(op))),
        compare(p.bump()) == (past(p.bump(), k), Some(rhs)),
    ensures
        and_rest(p, lhs) == and_rest(past(p.bump(), k), binary(op, lhs, rhs)),
{
    reveal(and_rest);
    reveal(compare);
    let p1 = past(p.bump(), k);
    assert(onward(p.bump(), compare(p.bump())) == (p1, Some(rhs)));
}

#[verifier::spinoff_prover]
proof fn lemma_sum_takes(p: Reading, op: BinaryOp, lhs: Expr, k: nat, rhs: Expr)
    requires
        op is Add || op is Sub,
        p.kind() == Some(TokenKind::Punct(spelled(op))),
        product(p.bump()) == (past(p.bump(), k), Some(rhs)),
    ensures
        sum_rest(p, lhs) == sum_rest(past(p.bump(), k), binary(op, lhs, rhs)),
{
    reveal(sum_rest);
    reveal(product);
    let p1 = past(p.bump(), k);
    assert(onward(p.bump(), product(p.bump())) == (p1, Some(rhs)));
}

#[verifier::spinoff_prover]
proof fn lemma_product_takes(p: Reading, op: BinaryOp, lhs: Expr, k: nat, rhs: Expr)
    requires
        op is Mul || op is Div || op is Rem,
        p.kind() == Some(TokenKind::Punct(spelled(op))),
        unary(p.bump()) == (past(p.bump(), k), Some(rhs)),
    ensures
        product_rest(p, lhs) == product_rest(past(p.bump(), k), binary(op, lhs, rhs)),
{
    reveal(product_rest);
    reveal(unary);
    let p1 = past(p.bump(), k);
    assert(onward(p.bump(), unary(p.bump())) == (p1, Some(rhs)));
}

/// What is read one level up is read here, if nothing goes on with it.
proof fn lemma_passed_on(n: int, p: Reading, k: nat, e: Expr)
    requires
        n == 0 || n == 1 || n == 4 || n == 7,
        read(n + 1, p) == (past(p, k), Some(e)),
        ends(past(p, k).kind(), n),
        n == 7 ==> unary_op(p.kind()) is None,
    ensures
        read(n, p) == (past(p, k), Some(e)),
{
    if n == 0 {
        lemma_assign_passes(p, k, e);
    } else if n == 1 {
        lemma_range_passes(p, k, e);
    } else if n == 4 {
        lemma_compare_passes(p, k, e);
    } else {
        lemma_unary_passes(p);
    }
}

/// The same for a level whose operators are read from the left.
proof fn lemma_begun(n: int, p: Reading, k: nat, e: Expr)
    requires
        goes_on(n),
        n < 8,
        read(n + 1, p) == (past(p, k), Some(e)),
    ensures
        read(n, p) == read_on(n, past(p, k), e),
{
    if n == 2 {
        lemma_or_begins(p, k, e);
    } else if n == 3 {
        lemma_and_begins(p, k, e);
    } else if n == 5 {
        lemma_sum_begins(p, k, e);
    } else {
        lemma_product_begins(p, k, e);
    }
}

#[verifier::spinoff_prover]
proof fn lemma_done(n: int, p: Reading, e: Expr)
    requires
        goes_on(n),
        ends(p.kind(), n),
    ensures
        read_on(n, p, e) == (p, Some(e)),
{
    reveal(or_rest);
    reveal(and_rest);
    reveal(sum_rest);
    reveal(product_rest);
    reveal(primary_rest);
}

/// An operator takes what is on its left and what is read on its right.
proof fn lemma_taken(n: int, p: Reading, op: BinaryOp, lhs: Expr, k: nat, rhs: Expr)
    requires
        goes_on(n),
        n < 8,
        binding(op) == n,
        p.kind() == Some(TokenKind::Punct(spelled(op))),
        read(n + 1, p.bump()) == (past(p.bump(), k), Some(rhs)),
    ensures
        read_on(n, p, lhs) == read_on(n, past(p.bump(), k), binary(op, lhs, rhs)),
{
    if n == 2 {
        lemma_or_takes(p, op, lhs, k, rhs);
    } else if n == 3 {
        lemma_and_takes(p, op, lhs, k, rhs);
    } else if n == 5 {
        lemma_sum_takes(p, op, lhs, k, rhs);
    } else {
        lemma_product_takes(p, op, lhs, k, rhs);
    }
}

/// A comparison.
#[verifier::spinoff_prover]
proof fn lemma_compared(p: Reading, op: BinaryOp, k: nat, lhs: Expr, j: nat, rhs: Expr)
    requires
        binding(op) == 4,
        sum(p) == (past(p, k), Some(lhs)),
        past(p, k).kind() == Some(TokenKind::Punct(spelled(op))),
        sum(past(p, k).bump()) == (past(past(p, k).bump(), j), Some(rhs)),
        compare_op(past(past(p, k).bump(), j).kind()) is None,
    ensures
        compare(p) == (past(past(p, k).bump(), j), Some(binary(op, lhs, rhs))),
{
    reveal(compare);
    reveal(sum);
    let p1 = past(p, k);
    assert(onward(p, sum(p)) == (p1, Some(lhs)));
    assert(compare_op(p1.kind()) == Some(op));
}

#[verifier::spinoff_prover]
proof fn lemma_primary_begins(p: Reading, k: nat, e: Expr)
    requires
        atom(p) == (past(p, k), Some(e)),
    ensures
        primary(p) == primary_rest(past(p, k), e),
{
    reveal(primary);
    reveal(atom);
    reveal(primary_rest);
    assert(onward(p, atom(p)) == (past(p, k), Some(e)));
}

#[verifier::spinoff_prover]
proof fn lemma_under(p: Reading, k: nat, e: Expr)
    requires
        expr(p.heading(false)) == (past(p.heading(false), k), Some(e)),
    ensures
        expr_under(p, false) == (past(p, k), Some(e)),
{
    reveal(expr_under);
    reveal(expr);
}

/// A tree in brackets is read as the tree.
#[verifier::spinoff_prover]
proof fn lemma_bracketed(p: Reading, k: nat, e: Expr)
    requires
        p.kind() == Some(TokenKind::Punct(Punct::LParen)),
        expr(p.bump().heading(false)) == (past(p.bump().heading(false), k), Some(e)),
        past(p.bump(), k).kind() == Some(TokenKind::Punct(Punct::RParen)),
    ensures
        primary(p) == primary_rest(past(p, k + 2), e),
{
    let p1 = past(p.bump(), k);
    lemma_under(p.bump(), k, e);
    assert(atom(p) == (p1.bump(), Some(e))) by {
        reveal(atom);
        reveal(expr_under);
        assert(onward(p.bump(), expr_under(p.bump(), false)) == (p1, Some(e)));
        assert(expect(p1, Punct::RParen, ")"@) == (p1.bump(), true));
    }
    assert(p1.bump() == past(p, k + 2));
    lemma_primary_begins(p, k + 2, e);
}

#[verifier::spinoff_prover]
proof fn lemma_expr_is_assign(p: Reading)
    ensures
        expr(p) == assign(p),
{
    reveal(expr);
    reveal(assign);
}

/// A word alone.
#[verifier::spinoff_prover]
proof fn lemma_word(p: Reading, t: Tree) -> (e: Expr)
    requires
        writable(t),
        level(t) == 8,
        !(t is Field || t is Index || t is Try),
        next_are(p, bare(t)),
        ends_name(past(p, 1).kind()),
    ensures
        tree(e) == t,
        primary(p) == primary_rest(past(p, 1), e),
{
    assert(p.toks[p.at + 0].kind == bare(t)[0]);
    let span = p.span();
    let e = match t {
        Tree::Int(n) => Expr::Int(n, span),
        Tree::Bool(b) => Expr::Bool(b, span),
        Tree::Str(text) => Expr::Str(text, span),
        Tree::Resource(text) => Expr::Resource(text, span),
        Tree::Selector(text) => Expr::Selector(text, span),
        Tree::Name(name) => Expr::Path(Ident { name, span }),
        _ => Expr::Int(0, span),
    };
    assert(past(p, 1) == p.bump());
    assert(atom(p) == (p.bump(), Some(e))) by {
        reveal(atom);
        reveal(named);
    }
    lemma_primary_begins(p, 1, e);
    e
}

#[verifier::spinoff_prover]
proof fn lemma_field_read(p: Reading, e: Expr, name: Seq<char>)
    requires
        p.kind() == Some(TokenKind::Punct(Punct::Dot)),
        p.bump().kind() == Some(TokenKind::Ident(name)),
        p.bump().bump().kind() != Some(TokenKind::Punct(Punct::LParen)),
    ensures
        ({
            let p2 = p.bump().bump();
            let named = Ident { name, span: p.bump().span() };
            primary_rest(p, e) == primary_rest(
                p2,
                Expr::Field(Box::new(e), named, p2.since(e.span().start)),
            )
        }),
{
    let p1 = p.bump();
    let p2 = p1.bump();
    let named = Ident { name, span: p1.span() };
    let made = Expr::Field(Box::new(e), named, p2.since(e.span().start));
    assert(access(p1, e) == (p2, Some(made))) by {
        reveal(access);
        assert(onward(p1, ident(p1)) == (p2, Some(named)));
    }
    assert(primary_rest(p, e) == primary_rest(p2, made)) by {
        reveal(primary_rest);
        reveal(access);
        assert(onward(p1, access(p1, e)) == (p2, Some(made)));
    }
}

#[verifier::spinoff_prover]
proof fn lemma_index_read(p: Reading, e: Expr, k: nat, index: Expr)
    requires
        p.kind() == Some(TokenKind::Punct(Punct::LBracket)),
        expr(p.bump().heading(false)) == (past(p.bump().heading(false), k), Some(index)),
        past(p.bump(), k).kind() == Some(TokenKind::Punct(Punct::RBracket)),
    ensures
        ({
            let p2 = past(p.bump(), k).bump();
            primary_rest(p, e) == primary_rest(
                p2,
                Expr::Index(Box::new(e), Box::new(index), p2.since(e.span().start)),
            )
        }),
{
    let p1 = past(p.bump(), k);
    lemma_under(p.bump(), k, index);
    reveal(primary_rest);
    reveal(expr_under);
    assert(onward(p.bump(), expr_under(p.bump(), false)) == (p1, Some(index)));
    assert(onward(p1, expect(p1, Punct::RBracket, "]"@)) == (p1.bump(), true));
}

/// Something that is written is read, and what goes on with it is read with that on its
/// left.
#[verifier::spinoff_prover]
proof fn lemma_read_on(n: int, t: Tree, p: Reading) -> (e: Expr)
    requires
        goes_on(n),
        writable(t),
        next_are(p, written(t, n)),
        ends(past(p, written(t, n).len()).kind(), n + 1),
    ensures
        tree(e) == t,
        read(n, p) == read_on(n, past(p, written(t, n).len()), e),
    decreases t, (if level(t) < n { 40int } else { 0int }) + 2 * (8 - n),
{
    let toks = written(t, n);
    if n == 8 {
        if level(t) < 8 {
            let inside = bare(t);
            let open = punct(Punct::LParen);
            lemma_parts(p, open + inside, punct(Punct::RParen));
            lemma_parts(p, open, inside);
            assert(p.toks[p.at + 0].kind == open[0]);
            let q = p.bump().heading(false);
            assert(past(p, 1) == p.bump());
            assert(next_are(q, inside)) by {
                let b = p.bump();
                assert forall|k: int| 0 <= k < inside.len() implies (#[trigger] q.toks[q.at
                    + k]).kind == inside[k] by {
                    assert(b.toks[b.at + k].kind == inside[k]);
                }
            }
            let r = past(p, (open + inside).len());
            assert(r.toks[r.at + 0].kind == punct(Punct::RParen)[0]);
            assert(written(t, 0) == inside);
            let e = lemma_read(0, t, q);
            lemma_expr_is_assign(q);
            assert(past(p.bump(), inside.len()) == r);
            lemma_bracketed(p, inside.len(), e);
            assert(toks.len() == inside.len() + 2);
            e
        } else {
            match t {
                Tree::Field(base, name) => {
                    let b = written(*base, 8);
                    lemma_three_parts(
                        p,
                        b,
                        TokenKind::Punct(Punct::Dot),
                        seq![TokenKind::Ident(name)],
                    );
                    let e = lemma_read_on(8, *base, p);
                    let q = past(p, b.len());
                    let q1 = q.bump();
                    assert(q1.toks[q1.at + 0].kind == TokenKind::Ident(name));
                    let named = Ident { name, span: q1.span() };
                    let made = Expr::Field(Box::new(e), named, q1.bump().since(e.span().start));
                    assert(q1.bump() == past(p, toks.len()));
                    lemma_field_read(q, e, name);
                    assert(q1.bump() == past(p, toks.len()));
                    made
                },
                Tree::Index(base, index) => {
                    let b = written(*base, 8);
                    let i = written(*index, 0);
                    let open = TokenKind::Punct(Punct::LBracket);
                    let shut = punct(Punct::RBracket);
                    lemma_parts(p, b + seq![open] + i, shut);
                    lemma_three_parts(p, b, open, i);
                    let e = lemma_read_on(8, *base, p);
                    let q = past(p, b.len());
                    let q1 = q.bump();
                    let h = q1.heading(false);
                    assert(next_are(h, i)) by {
                        assert forall|k: int| 0 <= k < i.len() implies (#[trigger] h.toks[h.at
                            + k]).kind == i[k] by {
                            assert(q1.toks[q1.at + k].kind == i[k]);
                        }
                    }
                    let r = past(p, (b + seq![open] + i).len());
                    assert(r.toks[r.at + 0].kind == shut[0]);
                    let at = lemma_read(0, *index, h);
                    lemma_expr_is_assign(h);
                    assert(past(q1, i.len()) == r);
                    let made = Expr::Index(
                        Box::new(e),
                        Box::new(at),
                        r.bump().since(e.span().start),
                    );
                    lemma_index_read(q, e, i.len(), at);
                    assert(r.bump() == past(p, toks.len()));
                    made
                },
                Tree::Try(inner) => {
                    let b = written(*inner, 8);
                    let q = past(p, b.len());
                    lemma_parts(p, b, punct(Punct::Question));
                    assert(q.toks[q.at + 0].kind == punct(Punct::Question)[0]);
                    let e = lemma_read_on(8, *inner, p);
                    let made = Expr::Try(Box::new(e), q.bump().since(e.span().start));
                    assert(primary_rest(q, e) == primary_rest(q.bump(), made)) by {
                        reveal(primary_rest);
                    }
                    assert(q.bump() == past(p, toks.len()));
                    made
                },
                _ => lemma_word(p, t),
            }
        }
    } else {
        match t {
            Tree::Binary(op, lhs, rhs) => if binding(op) == n {
                let l = written(*lhs, n);
                let r = written(*rhs, n + 1);
                lemma_three_parts(p, l, TokenKind::Punct(spelled(op)), r);
                let q = past(p, l.len());
                let le = lemma_read_on(n, *lhs, p);
                let re = lemma_read(n + 1, *rhs, q.bump());
                lemma_taken(n, q, op, le, r.len(), re);
                binary(op, le, re)
            } else {
                let e = lemma_read(n + 1, t, p);
                lemma_begun(n, p, toks.len(), e);
                e
            },
            _ => {
                let e = lemma_read(n + 1, t, p);
                lemma_begun(n, p, toks.len(), e);
                e
            },
        }
    }
}

/// Something that is written is read back, if nothing goes on with it.
#[verifier::spinoff_prover]
proof fn lemma_read(n: int, t: Tree, p: Reading) -> (e: Expr)
    requires
        0 <= n <= 8,
        writable(t),
        next_are(p, written(t, n)),
        ends(past(p, written(t, n).len()).kind(), n),
    ensures
        tree(e) == t,
        read(n, p) == (past(p, written(t, n).len()), Some(e)),
    decreases t, (if level(t) < n { 40int } else { 0int }) + 2 * (8 - n) + 1,
{
    let toks = written(t, n);
    let end = past(p, toks.len());
    if goes_on(n) {
        let e = lemma_read_on(n, t, p);
        lemma_done(n, end, e);
        e
    } else if level(t) == n {
        match t {
            Tree::Unary(op, operand) => {
                let x = written(*operand, 7);
                let first = match op {
                    UnaryOp::Neg => Punct::Minus,
                    UnaryOp::Not => Punct::Bang,
                };
                lemma_parts(p, punct(first), x);
                assert(p.toks[p.at + 0].kind == punct(first)[0]);
                let q = p.bump();
                assert(q == past(p, 1));
                let e = lemma_read(7, *operand, q);
                let made = Expr::Unary(
                    op,
                    Box::new(e),
                    crate::syntax::lexer::Span { start: p.span().start, end: e.span().end },
                );
                assert(unary(p) == (past(q, x.len()), Some(made))) by {
                    reveal(unary);
                }
                assert(past(q, x.len()) == end);
                made
            },
            Tree::Binary(op, lhs, rhs) => {
                let l = written(*lhs, 5);
                let r = written(*rhs, 5);
                lemma_three_parts(p, l, TokenKind::Punct(spelled(op)), r);
                let q = past(p, l.len());
                let le = lemma_read(5, *lhs, p);
                let re = lemma_read(5, *rhs, q.bump());
                lemma_compared(p, op, l.len(), le, r.len(), re);
                binary(op, le, re)
            },
            Tree::Range(start, ended) => {
                let l = written(*start, 2);
                let r = written(*ended, 2);
                lemma_three_parts(p, l, TokenKind::Punct(Punct::DotDot), r);
                let q = past(p, l.len());
                let q1 = q.bump();
                let le = lemma_read(2, *start, p);
                let re = lemma_read(2, *ended, q1);
                lemma_begins(*ended, 2);
                assert(q1.toks[q1.at + 0].kind == r[0]);
                let made = Expr::Range(
                    Some(Box::new(le)),
                    Some(Box::new(re)),
                    end.since(le.span().start),
                );
                assert(range(p) == (end, Some(made))) by {
                    reveal(range);
                    reveal(or);
                }
                made
            },
            Tree::Assign(op, target, value) => {
                let l = written(*target, 1);
                let r = written(*value, 0);
                lemma_three_parts(p, l, TokenKind::Punct(assigned(op)), r);
                let q = past(p, l.len());
                let le = lemma_read(1, *target, p);
                let re = lemma_read(0, *value, q.bump());
                let made = Expr::Assign(
                    op,
                    Box::new(le),
                    Box::new(re),
                    crate::syntax::lexer::Span {
                        start: le.span().start,
                        end: re.span().end,
                    },
                );
                assert(le is Path || le is Field || le is Index);
                assert(assign(p) == (end, Some(made))) by {
                    reveal(assign);
                    reveal(range);
                }
                made
            },
            _ => Expr::Int(0, p.span()),
        }
    } else {
        let e = lemma_read(n + 1, t, p);
        if n == 7 {
            lemma_begins(t, 8);
            assert(p.toks[p.at + 0].kind == toks[0]);
        }
        lemma_passed_on(n, p, toks.len(), e);
        e
    }
}

/// An expression that is written down with each operator by its spelling is read back as
/// the same expression, by the same operators between the same parts; and what was read is
/// written as the same tokens again.
pub proof fn lemma_expressions_are_read_back(t: Tree, p: Reading) -> (e: Expr)
    requires
        writable(t),
        next_are(p, written(t, 0)),
        ends(past(p, written(t, 0).len()).kind(), 0),
    ensures
        expr(p) == (past(p, written(t, 0).len()), Some(e)),
        tree(e) == t,
        written(tree(e), 0) == written(t, 0),
{
    lemma_expr_is_assign(p);
    lemma_read(0, t, p)
}

/// `x op= y` and `x op y` are read as the same operator: what stands before the `=` is how
/// the operator is written.
pub proof fn lemma_compound_assignments_name_their_operator(
    x: Seq<char>,
    op: BinaryOp,
    y: Tree,
    p: Reading,
    q: Reading,
) -> (r: (Expr, Expr))
    requires
        arithmetic(op),
        writable(y),
        level(y) == 8,
        next_are(p, name_alone(x) + punct(assigned(Some(op))) + written(y, 0)),
        next_are(q, name_alone(x) + punct(spelled(op)) + written(y, 0)),
        ends(p.kind_at(p.at + written(y, 0).len() + 2), 0),
        ends(q.kind_at(q.at + written(y, 0).len() + 2), 0),
    ensures
        expr(p).1 == Some(r.0),
        expr(q).1 == Some(r.1),
        r.0 matches Expr::Assign(by, target, value, _) && by == Some(op) && tree(*target)
            == Tree::Name(x) && tree(*value) == y,
        r.1 matches Expr::Binary(by, lhs, rhs, _) && by == op && tree(*lhs) == Tree::Name(x)
            && tree(*rhs) == y,
        crate::syntax::operators::spells(
            crate::syntax::operators::spelling(op).push('='),
            assigned(Some(op)),
        ),
        crate::syntax::operators::spells(crate::syntax::operators::spelling(op), spelled(op)),
{
    crate::syntax::operators::lemma_spelled(op);
    crate::syntax::operators::lemma_assigned(Some(op));
    let name = Tree::Name(x);
    reveal_with_fuel(writable, 2);
    reveal_with_fuel(tree, 2);
    let set = Tree::Assign(Some(op), Box::new(name), Box::new(y));
    let both = Tree::Binary(op, Box::new(name), Box::new(y));
    assert(written(name, 1) == name_alone(x));
    assert(written(name, binding(op)) == name_alone(x));
    assert(written(y, binding(op) + 1) == written(y, 0));
    assert(written(set, 0) == name_alone(x) + punct(assigned(Some(op))) + written(y, 0));
    assert(written(both, 0) == name_alone(x) + punct(spelled(op)) + written(y, 0));
    let a = lemma_expressions_are_read_back(set, p);
    let b = lemma_expressions_are_read_back(both, q);
    (a, b)
}

/// A name alone.
pub open spec fn name_alone(name: Seq<char>) -> Seq<TokenKind> {
    seq![TokenKind::Ident(name)]
}

} // verus!

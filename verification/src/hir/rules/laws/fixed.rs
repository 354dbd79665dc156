//! What arithmetic on fixed-point numbers comes to.
//!
//! A `fix<S>` is an integer that counts `S`ths of a unit. Sums and comparisons of two of them
//! are those of the integers. A product counts `S * S`ths and a quotient counts units, so
//! both have to be brought back to `S`ths.

use vstd::arithmetic::div_mod::{lemma_fundamental_div_mod, lemma_mod_bound};
use vstd::prelude::*;

use crate::hir::model::{Expr, Function, Stmt};
use crate::hir::rules::exprs::{expr, expr_expecting, fix_of, place, unary_of};
use crate::hir::rules::stmts::{assign, assignable};
use crate::hir::rules::values::{binary_type, combine, fix_binary_type};
use crate::hir::rules::{Cx, Env};
use crate::hir::{Scale, Type};
use crate::mir::meaning::{combined, floor_div, meaning, wrapped};
use crate::mir::model::Reg;
use crate::syntax::ast::{BinaryOp, UnaryOp};
use crate::syntax::lexer::Span;
use crate::syntax::model::Expr as Written;

verus! {

/// Whether a number fits a score.
pub open spec fn fits(n: int) -> bool {
    i32::MIN <= n <= i32::MAX
}

/// Whether `q` is `n / d`, rounded down: `q * d` is the multiple of `d` that `n` has just
/// passed.
pub open spec fn is_quotient(q: int, n: int, d: int) -> bool {
    if d > 0 {
        q * d <= n < q * d + d
    } else {
        q * d >= n > q * d + d
    }
}

proof fn lemma_wrapped_fits(n: int)
    requires
        fits(n),
    ensures
        wrapped(n) == n,
{
    vstd::arithmetic::div_mod::lemma_small_mod((n + 0x8000_0000) as nat, 0x1_0000_0000);
}

proof fn lemma_floor_div(n: int, d: int)
    requires
        d != 0,
    ensures
        is_quotient(floor_div(n, d), n, d),
{
    if d > 0 {
        lemma_fundamental_div_mod(n, d);
        lemma_mod_bound(n, d);
        assert(d * (n / d) == (n / d) * d) by (nonlinear_arith);
    } else {
        let q = (-n) / (-d);
        lemma_fundamental_div_mod(-n, -d);
        lemma_mod_bound(-n, -d);
        assert((-d) * q == -(q * d)) by (nonlinear_arith);
    }
}

proof fn lemma_floor_div_fits(n: int, d: int)
    requires
        d != 0,
        fits(n),
        n > i32::MIN,
    ensures
        fits(floor_div(n, d)),
{
    lemma_floor_div(n, d);
    let q = floor_div(n, d);
    if q > i32::MAX {
        assert(false) by (nonlinear_arith)
            requires
                q > i32::MAX,
                is_quotient(q, n, d),
                d != 0,
                i32::MIN < n <= i32::MAX,
        ;
    }
    if q < i32::MIN {
        assert(false) by (nonlinear_arith)
            requires
                q < i32::MIN,
                is_quotient(q, n, d),
                d != 0,
                i32::MIN < n <= i32::MAX,
        ;
    }
}

/// The product of two fixes is that of the numbers they stand for: with `x / S` and `y / S`
/// it stands for `x / S * y / S`, rounded down to `S`ths.
pub proof fn lemma_products_keep_their_scale(
    f: Function,
    s: Map<Reg, i32>,
    lhs: Expr,
    rhs: Expr,
    scale: u32,
    ty: Type,
    span: Span,
)
    requires
        lhs.ty == Type::Fix(Scale::Const(scale)),
        rhs.ty == lhs.ty,
        0 < scale <= i32::MAX,
        fits(meaning(f, s, lhs) * meaning(f, s, rhs)),
    ensures
        ({
            let (x, y) = (meaning(f, s, lhs), meaning(f, s, rhs));
            let made = combine(BinaryOp::Mul, lhs, rhs, ty, span);
            is_quotient(meaning(f, s, made) as int, x * y, scale as int) && made.ty == ty
        }),
{
    reveal(combine);
    reveal_with_fuel(meaning, 3);
    let n = meaning(f, s, lhs) * meaning(f, s, rhs);
    let d = scale as int;
    lemma_wrapped_fits(n);
    lemma_floor_div(n, d);
    let q = floor_div(n, d);
    assert(fits(q)) by (nonlinear_arith)
        requires
            d > 0,
            q * d <= n < q * d + d,
            i32::MIN <= n <= i32::MAX,
    ;
    lemma_wrapped_fits(q);
}

/// The quotient of two fixes is that of the numbers they stand for: with `x / S` and `y / S`
/// it stands for `x / y`, rounded down to `S`ths.
pub proof fn lemma_quotients_keep_their_scale(
    f: Function,
    s: Map<Reg, i32>,
    lhs: Expr,
    rhs: Expr,
    scale: u32,
    ty: Type,
    span: Span,
)
    requires
        lhs.ty == Type::Fix(Scale::Const(scale)),
        rhs.ty == lhs.ty,
        0 < scale <= i32::MAX,
        i32::MIN < meaning(f, s, lhs) * scale <= i32::MAX,
        meaning(f, s, rhs) != 0,
    ensures
        ({
            let (x, y) = (meaning(f, s, lhs), meaning(f, s, rhs));
            let made = combine(BinaryOp::Div, lhs, rhs, ty, span);
            is_quotient(meaning(f, s, made) as int, x * scale, y as int) && made.ty == ty
        }),
{
    reveal(combine);
    reveal_with_fuel(meaning, 3);
    let n = meaning(f, s, lhs) * scale;
    let d = meaning(f, s, rhs) as int;
    lemma_wrapped_fits(n);
    lemma_floor_div(n, d);
    lemma_floor_div_fits(n, d);
    lemma_wrapped_fits(floor_div(n, d));
}

/// Every other operator between two values, and every operator with an integer on one side,
/// is the operator between the scores: an integer has no scale to correct for.
pub proof fn lemma_other_operators_are_those_of_the_scores(
    f: Function,
    s: Map<Reg, i32>,
    op: BinaryOp,
    lhs: Expr,
    rhs: Expr,
    ty: Type,
    span: Span,
)
    requires
        !(lhs.ty is Fix) || !(rhs.ty is Fix) || !(op is Mul || op is Div),
    ensures
        meaning(f, s, combine(op, lhs, rhs, ty, span)) == combined(
            op,
            meaning(f, s, lhs),
            meaning(f, s, rhs),
        ),
        combine(op, lhs, rhs, ty, span).ty == ty,
{
    reveal(combine);
}

/// A fix restated at another scale stands for the same number, rounded down to the new
/// fraction of a unit; an integer is taken as that many of them.
pub proof fn lemma_restating_keeps_the_number(
    f: Function,
    s: Map<Reg, i32>,
    cx: Cx,
    scale: u32,
    operand: Expr,
    span: Span,
)
    requires
        operand.ty is I32 || operand.ty is Fix && operand.ty->Fix_0 is Const,
        0 < scale <= i32::MAX,
        operand.ty is Fix ==> 0 < operand.ty->Fix_0->Const_0 <= i32::MAX && fits(
            meaning(f, s, operand) * scale,
        ),
    ensures
        ({
            let (cx1, made) = fix_of(cx, scale, operand, span);
            let x = meaning(f, s, operand);
            &&& cx1 == cx
            &&& made is Some
            &&& made->0.ty == Type::Fix(Scale::Const(scale))
            &&& operand.ty is I32 ==> meaning(f, s, made->0) == x
            &&& operand.ty is Fix ==> is_quotient(
                meaning(f, s, made->0) as int,
                x * scale,
                operand.ty->Fix_0->Const_0 as int,
            )
        }),
{
    reveal(fix_of);
    reveal_with_fuel(meaning, 3);
    match operand.ty {
        Type::Fix(Scale::Const(from)) => {
            let n = meaning(f, s, operand) * scale;
            let d = from as int;
            lemma_wrapped_fits(n);
            lemma_floor_div(n, d);
            let q = floor_div(n, d);
            assert(fits(q)) by (nonlinear_arith)
                requires
                    d > 0,
                    q * d <= n < q * d + d,
                    i32::MIN <= n <= i32::MAX,
            ;
            lemma_wrapped_fits(q);
        },
        _ => {
            assert(fix_of(cx, scale, operand, span).1 == Some(
                Expr { ty: Type::Fix(Scale::Const(scale)), ..operand },
            ));
        },
    }
}

/// An operator in front of a value is that operator on the score, whatever the scale, and
/// the type stays.
pub proof fn lemma_signs_keep_the_scale(
    f: Function,
    s: Map<Reg, i32>,
    cx: Cx,
    op: UnaryOp,
    operand: Expr,
    span: Span,
)
    requires
        op is Neg && (operand.ty is Fix || operand.ty is I32) || op is Not && operand.ty is Bool,
    ensures
        ({
            let (cx1, made) = unary_of(cx, op, operand, span);
            let x = meaning(f, s, operand);
            &&& cx1 == cx
            &&& made is Some
            &&& made->0.ty == operand.ty
            &&& op is Neg && x != i32::MIN ==> meaning(f, s, made->0) == -x
            &&& op is Not ==> meaning(f, s, made->0) == if x == 0 {
                1i32
            } else {
                0i32
            }
        }),
{
    reveal(unary_of);
    if op is Neg && meaning(f, s, operand) != i32::MIN {
        lemma_wrapped_fits(-meaning(f, s, operand));
    }
}

/// What a written operator between two values comes to: the product and the quotient of
/// fixes stand for those of the numbers, and every other operator is that of the scores.
pub proof fn lemma_written_operators_compute(
    env: Env,
    cx: Cx,
    op: BinaryOp,
    lhs: Written,
    rhs: Written,
    span: Span,
    f: Function,
    s: Map<Reg, i32>,
)
    ensures
        ({
            let (cx1, l) = expr(env, cx, lhs);
            let (cx2, r) = expr(env, cx1, rhs);
            let whole = Written::Binary(op, Box::new(lhs), Box::new(rhs), span);
            let made = expr(env, cx, whole).1;
            l is Some && r is Some && made is Some ==> {
                let (x, y) = (meaning(f, s, l->0), meaning(f, s, r->0));
                let v = meaning(f, s, made->0);
                match l->0.ty {
                    Type::Fix(Scale::Const(scale)) => if 0 < scale <= i32::MAX && r->0.ty
                        == l->0.ty && op is Mul {
                        fits(x * y) ==> is_quotient(v as int, x * y, scale as int)
                    } else if 0 < scale <= i32::MAX && r->0.ty == l->0.ty && op is Div {
                        y != 0 && i32::MIN < x * scale <= i32::MAX ==> is_quotient(
                            v as int,
                            x * scale,
                            y as int,
                        )
                    } else {
                        !(r->0.ty is Fix) || !(op is Mul || op is Div) ==> v == combined(op, x, y)
                    },
                    _ => !(l->0.ty is Fix) ==> v == combined(op, x, y),
                }
            }
        }),
{
    reveal(expr);
    let (cx1, l) = expr(env, cx, lhs);
    let (cx2, r) = expr(env, cx1, rhs);
    let whole = Written::Binary(op, Box::new(lhs), Box::new(rhs), span);
    if l is Some && r is Some && expr(env, cx, whole).1 is Some {
        let (l, r) = (l->0, r->0);
        let ty = binary_type(cx2, op, l.ty, r.ty, whole.span()).1->0;
        let at = whole.span();
        assert(expr(env, cx, whole).1 == Some(combine(op, l, r, ty, at)));
        let (x, y) = (meaning(f, s, l), meaning(f, s, r));
        if !(l.ty is Fix) || !(r.ty is Fix) || !(op is Mul || op is Div) {
            lemma_other_operators_are_those_of_the_scores(f, s, op, l, r, ty, at);
        } else {
            match l.ty {
                Type::Fix(Scale::Const(scale)) => if 0 < scale <= i32::MAX && l.ty == r.ty {
                    if op is Mul && fits(x * y) {
                        lemma_products_keep_their_scale(f, s, l, r, scale, ty, at);
                    }
                    if op is Div && y != 0 && i32::MIN < x * scale <= i32::MAX {
                        lemma_quotients_keep_their_scale(f, s, l, r, scale, ty, at);
                    }
                },
                _ => {},
            }
        }
    }
}

/// What a target is left with by an assignment: the value, or the operator between what it
/// held and the value.
pub open spec fn left_with(f: Function, s: Map<Reg, i32>, st: Stmt, held: i32) -> i32 {
    match st {
        Stmt::Assign(_, None, value, _) => meaning(f, s, value),
        Stmt::Assign(_, Some(op), value, _) => combined(op, held, meaning(f, s, value)),
        _ => held,
    }
}

/// `a op= b` leaves in `a` what `a op b` comes to, on fixes as on integers.
pub proof fn lemma_compound_assignments_are_their_operators(
    env: Env,
    cx: Cx,
    op: BinaryOp,
    target: Written,
    assigned: Written,
    span: Span,
    f: Function,
    s: Map<Reg, i32>,
)
    ensures
        ({
            let (cx1, p) = place(env, cx, target);
            let (cx2, v) = expr_expecting(env, cx1, assigned, p->0.ty);
            let (cx3, t) = expr(env, cx2, target);
            let made = assign(env, cx, Some(op), target, assigned, span).1;
            p is Some && v is Some && t is Some && t->0.ty == p->0.ty && made is Some ==> left_with(
                f,
                s,
                made->0,
                meaning(f, s, t->0),
            ) == meaning(f, s, combine(op, t->0, v->0, p->0.ty, span))
        }),
{
    reveal(assign);
    let (cx1, p) = place(env, cx, target);
    let (cx2, v) = expr_expecting(env, cx1, assigned, p->0.ty);
    let (cx3, t) = expr(env, cx2, target);
    let made = assign(env, cx, Some(op), target, assigned, span).1;
    if p is Some && v is Some && t is Some && t->0.ty == p->0.ty && made is Some {
        assert(assignable(op, p->0.ty, v->0.ty));
        if !((op is Mul || op is Div) && p->0.ty is Fix && p->0.ty == v->0.ty) {
            lemma_other_operators_are_those_of_the_scores(f, s, op, t->0, v->0, p->0.ty, span);
        }
    }
}

/// The type of a product or a quotient with a fix in it is the fix: an integer factor has no
/// scale of its own.
pub proof fn lemma_integers_have_no_scale(cx: Cx, scale: Scale, span: Span)
    ensures
        ({
            let fix = Type::Fix(scale);
            &&& binary_type(cx, BinaryOp::Mul, fix, Type::I32, span) == (cx, Some(fix))
            &&& binary_type(cx, BinaryOp::Div, fix, Type::I32, span) == (cx, Some(fix))
            &&& binary_type(cx, BinaryOp::Mul, Type::I32, fix, span) == (cx, Some(fix))
            &&& binary_type(cx, BinaryOp::Div, Type::I32, fix, span).1 is None
            &&& binary_type(cx, BinaryOp::Add, Type::I32, fix, span).1 is None
            &&& binary_type(cx, BinaryOp::Sub, fix, Type::I32, span).1 is None
        }),
{
    reveal(binary_type);
    reveal(fix_binary_type);
}

} // verus!

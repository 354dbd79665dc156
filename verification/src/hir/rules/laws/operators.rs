//! What operators accept, and what comes of them.

use vstd::prelude::*;

use crate::hir::rules::stmts::assignable;
use crate::hir::rules::values::{binary_type, fix_binary_type, string_binary_type};
use crate::hir::rules::Cx;
use crate::hir::Type;
use crate::syntax::ast::BinaryOp;
use crate::syntax::lexer::Span;

verus! {

/// An operator is accepted with nothing said, or refused with one problem. Logic is between
/// booleans and gives one; a comparison is between two values of one type and gives a
/// boolean; sums and remainders are between two values of one type and give it. With a
/// product or a quotient an integer may scale a fix, and the fix is what comes of it.
pub proof fn lemma_operators_keep_their_types(cx: Cx, op: BinaryOp, l: Type, r: Type, span: Span)
    ensures
        ({
            let (cx1, t) = binary_type(cx, op, l, r, span);
            &&& t is Some ==> cx1 == cx
            &&& t is None ==> cx1.errs.len() == cx.errs.len() + 1
            &&& t is Some ==> match op {
                BinaryOp::And => l is Bool && r is Bool && t->0 is Bool,
                BinaryOp::Or => l is Bool && r is Bool && t->0 is Bool,
                BinaryOp::Eq => l == r && t->0 is Bool,
                BinaryOp::Ne => l == r && t->0 is Bool,
                BinaryOp::Lt => l == r && (l is I32 || l is Fix) && t->0 is Bool,
                BinaryOp::Le => l == r && (l is I32 || l is Fix) && t->0 is Bool,
                BinaryOp::Gt => l == r && (l is I32 || l is Fix) && t->0 is Bool,
                BinaryOp::Ge => l == r && (l is I32 || l is Fix) && t->0 is Bool,
                BinaryOp::Add => l == r && t->0 == l,
                BinaryOp::Sub => l == r && t->0 == l,
                BinaryOp::Rem => l == r && t->0 == l,
                BinaryOp::Mul => t->0 == if l is Fix {
                    l
                } else {
                    r
                } && (l == r || l is I32 || r is I32),
                BinaryOp::Div => t->0 == l && (l == r || r is I32),
            }
        }),
{
    reveal(binary_type);
    reveal(fix_binary_type);
    reveal(string_binary_type);
}

/// Which side a value stands on makes no difference to whether it can be compared, added or
/// multiplied with the other.
pub proof fn lemma_sides_are_alike(cx: Cx, op: BinaryOp, l: Type, r: Type, span: Span)
    requires
        !(op is Div),
    ensures
        binary_type(cx, op, l, r, span).1 is Some <==> binary_type(cx, op, r, l, span).1 is Some,
        binary_type(cx, op, l, r, span).1 is Some ==> binary_type(cx, op, l, r, span).1
            == binary_type(cx, op, r, l, span).1,
{
    reveal(binary_type);
    reveal(fix_binary_type);
    reveal(string_binary_type);
}

/// `a op= b` is there for numbers exactly when `a op b` is and gives what `a` is.
pub proof fn lemma_compound_assignments_are_arithmetic(
    cx: Cx,
    op: BinaryOp,
    to: Type,
    from: Type,
    span: Span,
)
    requires
        op is Add || op is Sub || op is Mul || op is Div || op is Rem,
        to is I32 || to is Fix,
    ensures
        assignable(op, to, from) <==> binary_type(cx, op, to, from, span).1 == Some(to),
{
    reveal(binary_type);
    reveal(fix_binary_type);
    reveal(string_binary_type);
}

} // verus!

//! What is caught: mistakes that would fail silently in the game.

use vstd::prelude::*;

use crate::hir::model::{Expr, Kind};
use crate::hir::rules::exprs::{check_ctx, command, invoke, missing_ctx, pass_args, Given};
use crate::hir::rules::laws::exprs::{pass_args_keeps, pick_keeps};
use crate::hir::rules::laws::grows_facts;
use crate::hir::rules::stmts::{bind_value, expr_stmt};
use crate::hir::rules::values::{
    binary_type, fix_binary_type, is_arithmetic, is_equality, is_ordering, require, side_fault,
};
use crate::hir::rules::{has_sig, sig_at, Cx, Env};
use crate::hir::{Ctx, Scale, Type};
use crate::schema::command_named;
use crate::syntax::ast::BinaryOp;
use crate::syntax::laws::grows;
use crate::syntax::lexer::Span;
use crate::syntax::model::{Expr as Written, Ident, LetStmt};

verus! {

/// Whether a problem was found on the way from `a` to `b`.
pub open spec fn complains(a: Cx, b: Cx) -> bool {
    grows(a.errs, b.errs) && a.errs.len() < b.errs.len()
}

proof fn lemma_missing_ctx(provided: Seq<Ctx>, ctx: Seq<Ctx>, i: int)
    requires
        0 <= i <= ctx.len(),
    ensures
        missing_ctx(provided, ctx, i).len() == 0 <==> forall|k: int|
            i <= k < ctx.len() ==> provided.contains(#[trigger] ctx[k]),
    decreases ctx.len() - i,
{
    if i < ctx.len() {
        lemma_missing_ctx(provided, ctx, i + 1);
        if provided.contains(ctx[i]) && missing_ctx(provided, ctx, i).len() != 0 {
            let k = choose|k: int| i + 1 <= k < ctx.len() && !provided.contains(#[trigger] ctx[k]);
            assert(i <= k);
        }
    }
}

/// A call is let through exactly where every context it needs is provided; elsewhere one
/// problem is reported.
pub proof fn lemma_a_call_needs_its_contexts(cx: Cx, name: Seq<char>, ctx: Seq<Ctx>, span: Span)
    ensures
        (forall|k: int| 0 <= k < ctx.len() ==> cx.provided.contains(#[trigger] ctx[k]))
            ==> check_ctx(cx, name, ctx, span) == cx,
        !(forall|k: int| 0 <= k < ctx.len() ==> cx.provided.contains(#[trigger] ctx[k]))
            ==> complains(cx, check_ctx(cx, name, ctx, span)),
{
    grows_facts();
    reveal(check_ctx);
    lemma_missing_ctx(cx.provided, ctx, 0);
}

/// Calling a function without an executor it declares that it needs is an error, whatever
/// the arguments.
pub proof fn lemma_a_missing_executor_is_reported(
    env: Env,
    cx: Cx,
    callee: Ident,
    args: Seq<Written>,
    span: Span,
    need: Ctx,
)
    requires
        has_sig(env.sigs, callee.name),
        env.sigs[sig_at(env.sigs, callee.name, 0)].ctx.contains(need),
        !cx.provided.contains(need),
    ensures
        complains(cx, expr_stmt(env, cx, Written::Call(callee, args, span)).0),
{
    grows_facts();
    reveal(expr_stmt);
    reveal(invoke);
    let name = callee.name;
    let at = sig_at(env.sigs, name, 0);
    lemma_sig_at(env, name, 0);
    let sig = env.sigs[at];
    let cx1 = check_ctx(cx, name, sig.ctx, span);
    let k = choose|k: int| 0 <= k < sig.ctx.len() && sig.ctx[k] == need;
    assert(!cx.provided.contains(sig.ctx[k]));
    lemma_a_call_needs_its_contexts(cx, name, sig.ctx, span);
    assert(complains(cx, cx1));
    let start = Given { values: seq![], borrows: seq![], actual: seq![] };
    if args.len() == sig.params.len() {
        reveal(pass_args);
        pass_args_keeps(env, cx1, name, span, sig.params, args, 0, start);
        match pass_args(env, cx1, name, span, sig.params, args, 0, start) {
            (cx3, Some(given)) => {
                pick_keeps(env, cx3, sig, name, given, span);
                lemma_longer(cx1, cx3);
            },
            (cx3, None) => {
                lemma_longer(cx1, cx3);
            },
        }
        let last = invoke(env, cx, name, span, None, args).0;
        assert(grows(cx1.errs, last.errs));
        lemma_longer(cx1, last);
    }
}

proof fn lemma_longer(a: Cx, b: Cx)
    requires
        grows(a.errs, b.errs),
    ensures
        a.errs.len() <= b.errs.len(),
{
    reveal(grows);
}

proof fn lemma_sig_at(env: Env, name: Seq<char>, i: int)
    requires
        0 <= i <= env.sigs.len(),
    ensures
        i <= sig_at(env.sigs, name, i) <= env.sigs.len(),
    decreases env.sigs.len() - i,
{
    if i < env.sigs.len() && env.sigs[i].name != name {
        lemma_sig_at(env, name, i + 1);
    }
}

/// Using what needs a context where it is not provided is an error, and nothing else is.
pub proof fn lemma_a_context_is_required(cx: Cx, ctx: Ctx, span: Span, what: Seq<char>)
    ensures
        cx.provided.contains(ctx) ==> require(cx, ctx, span, what) == cx,
        !cx.provided.contains(ctx) ==> complains(cx, require(cx, ctx, span, what)),
{
    grows_facts();
}

/// Calling what is neither a function of the program nor a command that is known is an
/// error, with a toolchain as without one.
pub proof fn lemma_an_undefined_call_is_reported(
    env: Env,
    cx: Cx,
    callee: Ident,
    args: Seq<Written>,
    span: Span,
)
    requires
        !has_sig(env.sigs, callee.name),
        callee.name != "block"@,
        env.toolchain is Some ==> command_named(env.toolchain->0, callee.name, 0)
            >= env.toolchain->0.len(),
    ensures
        complains(cx, expr_stmt(env, cx, Written::Call(callee, args, span)).0),
        expr_stmt(env, cx, Written::Call(callee, args, span)).1 is None,
{
    grows_facts();
    reveal(expr_stmt);
    reveal(command);
}

/// Fixed-point numbers of different scales do not mix, under any operator.
pub proof fn lemma_scales_do_not_mix(cx: Cx, op: BinaryOp, a: Scale, b: Scale, span: Span)
    requires
        a != b,
    ensures
        binary_type(cx, op, Type::Fix(a), Type::Fix(b), span).1 is None,
        complains(cx, binary_type(cx, op, Type::Fix(a), Type::Fix(b), span).0),
{
    grows_facts();
    reveal(binary_type);
    reveal(fix_binary_type);
}

/// Fixed-point numbers of the same scale can be computed with and compared.
pub proof fn lemma_a_scale_mixes_with_itself(cx: Cx, op: BinaryOp, a: Scale, span: Span)
    requires
        is_arithmetic(op) || is_ordering(op) || is_equality(op),
    ensures
        binary_type(cx, op, Type::Fix(a), Type::Fix(a), span) == (
            cx,
            Some(
                if is_arithmetic(op) {
                    Type::Fix(a)
                } else {
                    Type::Bool
                },
            ),
        ),
{
    reveal(binary_type);
    reveal(fix_binary_type);
}

/// What only exists to match an NBT tag, what has no runtime value and what the game cannot
/// compare has no operators, on either side.
pub proof fn lemma_some_types_have_no_operators(
    cx: Cx,
    op: BinaryOp,
    lhs: Type,
    rhs: Type,
    span: Span,
)
    requires
        lhs.nbt_scalar() || lhs.compile_time() || lhs.compound() || rhs.nbt_scalar()
            || rhs.compile_time() || rhs.compound(),
    ensures
        binary_type(cx, op, lhs, rhs, span).1 is None,
        complains(cx, binary_type(cx, op, lhs, rhs, span).0),
{
    grows_facts();
    reveal(binary_type);
    assert(side_fault(cx, lhs) is Some || side_fault(cx, rhs) is Some);
}

/// Naming a selector or a view costs nothing: no statement is left of it.
pub proof fn lemma_names_for_static_things_are_free(cx: Cx, s: LetStmt, v: Expr, ty: Type)
    requires
        v.kind is Selector || v.kind is View,
    ensures
        bind_value(cx, s, v, ty).1 is None,
        bind_value(cx, s, v, ty).0.errs == cx.errs,
{
    reveal(bind_value);
    match v.kind {
        Kind::Selector(_) => {},
        _ => {},
    }
}

} // verus!

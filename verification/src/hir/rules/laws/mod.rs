//! What lowering leaves alone.
//!
//! An expression declares nothing and leaves the scopes, the contexts and everything else
//! that surrounds it as they were. A block takes its bindings and its contexts with it when
//! it ends. A problem that was found stays found.

use vstd::prelude::*;

use crate::hir::model::{Local, Reference, Types};
use crate::hir::rules::exprs as expressions;
use crate::hir::rules::laws::exprs::expr_keeps;
use crate::hir::rules::laws::stmts::{
    block_keeps, context_stmt_keeps, expr_stmt_keeps, if_stmt_keeps, loop_stmt_keeps,
    match_stmt_keeps, return_stmt_keeps, stmt_keeps,
};
use crate::hir::rules::laws::table::{extends, extends_facts};
use crate::hir::rules::stmts as statements;
use crate::hir::rules::{Cx, Env, Pending};
use crate::hir::{Ctx, LocalId};
use crate::syntax::laws::{grows, grows_facts_for};
use crate::syntax::model::{Expr as Written, Fault, Stmt as WrittenStmt};

pub mod checks;
pub mod exprs;
pub mod fixed;
pub mod operators;
pub mod program;
pub mod stmts;
pub mod table;
pub mod types;
pub mod values;

verus! {

/// Whether everything around an expression is as it was, nothing was declared, and no
/// problem, instance or reference was forgotten.
pub open spec fn keeps(a: Cx, b: Cx) -> bool {
    &&& contains(a, b)
    &&& b.locals == a.locals
    &&& b.aliases == a.aliases
    &&& b.selectors == a.selectors
}

/// Whether a block left everything around it as it was: its bindings and its contexts are
/// gone.
pub open spec fn contains(a: Cx, b: Cx) -> bool {
    &&& runs(a, b)
    &&& b.scopes == a.scopes
}

/// Whether a statement left everything around it as it was but for the innermost scope,
/// where it may have declared something.
pub open spec fn runs(a: Cx, b: Cx) -> bool {
    &&& b.expected == a.expected
    &&& b.provided == a.provided
    &&& b.in_loop == a.in_loop
    &&& b.scopes.len() == a.scopes.len()
    &&& a.scopes.len() > 0 ==> b.scopes.drop_last() == a.scopes.drop_last()
    &&& grows(a.errs, b.errs)
    &&& grows(a.pending, b.pending)
    &&& grows(a.refs, b.refs)
    &&& grows(a.locals, b.locals)
    &&& extends(a.types, b.types)
}

pub(crate) proof fn grows_facts()
    ensures
        forall|a: Seq<Fault>| #[trigger] grows(a, a),
        forall|a: Seq<Pending>| #[trigger] grows(a, a),
        forall|a: Seq<Reference>| #[trigger] grows(a, a),
        forall|a: Seq<Local>| #[trigger] grows(a, a),
        forall|a: Seq<Fault>, x: Fault| grows(a, #[trigger] a.push(x)),
        forall|a: Seq<Pending>, x: Pending|
            grows(a, #[trigger] a.push(x)),
        forall|a: Seq<Reference>, x: Reference|
            grows(a, #[trigger] a.push(x)),
        forall|a: Seq<Local>, x: Local|
            grows(a, #[trigger] a.push(x)),
        forall|a: Seq<Fault>, b: Seq<Fault>, c: Seq<Fault>|
            #[trigger] grows(a, b) && #[trigger] grows(b, c) ==> grows(a, c),
        forall|
            a: Seq<Pending>,
            b: Seq<Pending>,
            c: Seq<Pending>,
        | #[trigger] grows(a, b) && #[trigger] grows(b, c) ==> grows(a, c),
        forall|
            a: Seq<Reference>,
            b: Seq<Reference>,
            c: Seq<Reference>,
        | #[trigger] grows(a, b) && #[trigger] grows(b, c) ==> grows(a, c),
        forall|
            a: Seq<Local>,
            b: Seq<Local>,
            c: Seq<Local>,
        | #[trigger] grows(a, b) && #[trigger] grows(b, c) ==> grows(a, c),
        forall|a: Types| #[trigger] extends(a, a),
        forall|a: Types, b: Types, c: Types|
            #[trigger] extends(a, b) && #[trigger] extends(b, c) ==> extends(a, c),
        forall|a: Types, b: Types|
            #[trigger] extends(a, b) ==> b.templates == a.templates && b.template_by_name
                == a.template_by_name,
{
    extends_facts();
    grows_facts_for::<Fault>();
    grows_facts_for::<Pending>();
    grows_facts_for::<Reference>();
    grows_facts_for::<Local>();
}

/// Taking the last one off undoes pushing it, for scopes and for contexts.
pub(crate) proof fn leaving_undoes_entering()
    ensures
        forall|s: Seq<Seq<(Seq<char>, LocalId)>>, x: Seq<(Seq<char>, LocalId)>|
            (#[trigger] s.push(x)).drop_last() == s,
        forall|s: Seq<Ctx>, x: Ctx| (#[trigger] s.push(x)).drop_last() == s,
{
    assert forall|s: Seq<Seq<(Seq<char>, LocalId)>>, x: Seq<(Seq<char>, LocalId)>|
        (#[trigger] s.push(x)).drop_last() == s by {
        assert(s.push(x).drop_last() =~= s);
    }
    assert forall|s: Seq<Ctx>, x: Ctx| (#[trigger] s.push(x)).drop_last() == s by {
        assert(s.push(x).drop_last() =~= s);
    }
}

/// What was found before stays when what was found since is forgotten.
pub(crate) proof fn kept_back()
    ensures
        forall|a: Seq<Fault>, b: Seq<Fault>|
            #[trigger] grows(a, b) ==> statements::kept(b, a.len()) == a,
{
    reveal(grows);
}

/// An expression leaves everything around it as it was.
pub proof fn lemma_expressions_declare_nothing(env: Env, cx: Cx, e: Written)
    ensures
        keeps(cx, expressions::expr(env, cx, e).0),
{
    expr_keeps(env, cx, e);
}

/// A block takes its bindings and its contexts with it when it ends: the scopes and the
/// contexts after it are those before it. Every problem that was found stays.
pub proof fn lemma_blocks_end(env: Env, cx: Cx, written: Seq<WrittenStmt>)
    ensures
        contains(cx, statements::block(env, cx, written).0),
{
    block_keeps(env, cx, written);
}

/// A statement declares in the innermost scope only, and leaves the contexts as they were.
pub proof fn lemma_statements_stay_in_their_scope(env: Env, cx: Cx, s: WrittenStmt)
    ensures
        runs(cx, statements::stmt(env, cx, s).0),
{
    stmt_keeps(env, cx, s);
}

/// A `match`, an `if`, a loop and a context statement leave the scopes as they were too:
/// what they bind is only in scope inside them.
pub proof fn lemma_what_a_statement_binds_ends_with_it(env: Env, cx: Cx, s: WrittenStmt)
    requires
        !(s is Let),
    ensures
        contains(cx, statements::stmt(env, cx, s).0),
{
    grows_facts();
    reveal(statements::stmt);
    match s {
        WrittenStmt::Let(_) => {},
        WrittenStmt::Expr(e) => expr_stmt_keeps(env, cx, e),
        WrittenStmt::If(s) => if_stmt_keeps(env, cx, s),
        WrittenStmt::Loop(s) => loop_stmt_keeps(env, cx, s),
        WrittenStmt::Context(s) => context_stmt_keeps(env, cx, s),
        WrittenStmt::Match(s) => match_stmt_keeps(env, cx, s),
        WrittenStmt::Return(returned, span) => return_stmt_keeps(env, cx, returned, span),
        _ => {},
    }
}

} // verus!

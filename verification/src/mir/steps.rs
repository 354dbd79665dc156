//! How commands run one after the other, and what the world they run in has to do with what
//! the statements know of: what the proofs about whole statements are made of.

use vstd::prelude::*;

use crate::hir::model::{Arm, Binding, Expr, Function as HirFunction, Kind, Place, Root, Stmt};
use crate::hir::{ContextKind, FnId, LocalId};
use crate::mir::growing::{
    bind_local_carries, bind_payload_carries, carries, cond_carries, copy_into_carries,
    expr_carries, growing, jump_carries, store_carries, tallied, writes_held,
};
use crate::mir::meaning::{
    assigned, between, calculates, holds, lemma_assignments_assign,
    lemma_conditions_hold_where_they_should, lemma_expressions_compute_their_value,
    lemma_temporaries_differ, meaning, mentions, ran, reads, same_but, stands, stepped, temporary,
    truthful,
};
use crate::mir::model::{Cond, ExecuteAs, Function, Inst, Reg};
use crate::mir::rules::{
    arms_escape, bind_local, bind_payload, cond, consume, copy_into, ctl_is, ctl_reg, escapes, expr,
    is_comparison, jump, local_of, local_path, local_reg, place_path, propagate, ret_reg,
    return_stmt, stmt_escapes, store, tag_filter, CTL_BREAK, CTL_CONTINUE, CTL_NORMAL, CTL_RETURN,
    Env, Escapes, Lx, Value,
};
use crate::mir::running::{
    apart, bindable, bound, exec_block, exec_for, exec_loop, exec_stmt, exec_turns, given,
    is_temporary, is_test, is_walked, known, linked, list_of, passes, run, step, taken_arm,
    untouched, Code, Flow, Game, State, World,
};
use crate::mir::strings::lemma_var_paths;
use crate::mir::Op;
use crate::names::{fake_player_name, var_path_name};
use crate::syntax::ast::BinaryOp;
use crate::syntax::laws::{grows, grows_facts_for};
use crate::text::{lemma_numbers_differ, nat_text};

verus! {

// ---------------------------------------------------------------------------
// What can leave a block.
// ---------------------------------------------------------------------------

pub open spec fn flow_of<R>(ended: Option<(State<R>, Flow)>) -> Flow {
    match ended {
        Some((_, flow)) => flow,
        None => Flow::Normal,
    }
}

pub open spec fn allowed(e: Escapes, flow: Flow) -> bool {
    match flow {
        Flow::Normal => true,
        Flow::Break => e.breaks,
        Flow::Continue => e.continues,
        Flow::Return(_) => e.returns,
    }
}

/// A block ends in no way that was not foreseen.
pub proof fn lemma_escapes_are_foreseen<R, D>(
    g: Game<R, D>,
    env: Env,
    body: Seq<Stmt>,
    i: int,
    s: State<R>,
    n: nat,
)
    requires
        exec_block(g, env, body, i, s, n) is Some,
        i >= 0,
    ensures
        allowed(escapes(body, i), flow_of(exec_block(g, env, body, i, s, n))),
    decreases n, body, body.len() - i,
{
    reveal(escapes);
    reveal(stmt_escapes);
    if i < body.len() {
        lemma_stmt_escapes(g, env, body[i], s, n);
        match exec_stmt(g, env, body[i], s, n) {
            Some((s1, Flow::Normal)) => {
                lemma_escapes_are_foreseen(g, env, body, i + 1, s1, n);
            },
            _ => {},
        }
    }
}

pub(crate) proof fn lemma_arms_escape(arms: Seq<Arm>, i: int, k: int, flow: Flow)
    requires
        0 <= i <= k < arms.len(),
        allowed(escapes(arms[k].body, 0), flow),
    ensures
        allowed(arms_escape(arms, i), flow),
    decreases k - i,
{
    reveal(arms_escape);
    reveal(escapes);
    if i < k {
        lemma_arms_escape(arms, i + 1, k, flow);
    }
}

pub(crate) proof fn lemma_stmt_escapes<R, D>(g: Game<R, D>, env: Env, st: Stmt, s: State<R>, n: nat)
    requires
        exec_stmt(g, env, st, s, n) is Some,
    ensures
        allowed(stmt_escapes(st), flow_of(exec_stmt(g, env, st, s, n))),
    decreases n, st, 0int,
{
    reveal(stmt_escapes);
    reveal(escapes);
    reveal(arms_escape);
    match st {
        Stmt::If(test, taken, otherwise, _, _) => {
            if meaning(env.function, s.vars, test) != 0 {
                lemma_escapes_are_foreseen(g, env, taken, 0, s, n);
            } else {
                match otherwise {
                    Some(otherwise) => lemma_escapes_are_foreseen(g, env, otherwise, 0, s, n),
                    None => {},
                }
            }
        },
        Stmt::Loop(test, body, _, _) => lemma_loop_escapes(g, env, test, body, s, n),
        Stmt::Context(kind, selector, body, _, _) => {
            let clause = clause_of(kind, selector.text);
            let found = (g.found)(s.rest, clause);
            lemma_turns_escape(g, env, clause, found, body, s, n);
        },
        Stmt::ForVec(source, local, body, _) => {
            let items = (g.items)(s.rest, place_path(env.function, source));
            lemma_for_escapes(g, env, local, items, body, s, n);
        },
        Stmt::Match(scrutinee, arms, _) => {
            let place = scrutinee->Place_0;
            let path = place_path(env.function, place);
            let k = taken_arm(env, place.ty, arms, (g.tag)((g.look)(s.rest, path)), 0);
            if 0 <= k < arms.len() {
                let s1 = bound(g, env.function, s, path, arms[k].bindings, 0);
                lemma_escapes_are_foreseen(g, env, arms[k].body, 0, s1, n);
                lemma_arms_escape(arms, 0, k, flow_of(exec_stmt(g, env, st, s, n)));
            }
        },
        _ => {},
    }
}

pub(crate) proof fn lemma_loop_escapes<R, D>(
    g: Game<R, D>,
    env: Env,
    test: Option<Expr>,
    body: Seq<Stmt>,
    s: State<R>,
    n: nat,
)
    requires
        exec_loop(g, env, test, body, s, n) is Some,
    ensures
        match flow_of(exec_loop(g, env, test, body, s, n)) {
            Flow::Normal => true,
            Flow::Return(_) => escapes(body, 0).returns,
            _ => false,
        },
    decreases n, body, -1int,
{
    if !(test is Some && meaning(env.function, s.vars, test->0) == 0) {
        let m = (n - 1) as nat;
        lemma_escapes_are_foreseen(g, env, body, 0, s, m);
        match exec_block(g, env, body, 0, s, m) {
            Some((s1, Flow::Normal)) => lemma_loop_escapes(g, env, test, body, s1, m),
            Some((s1, Flow::Continue)) => lemma_loop_escapes(g, env, test, body, s1, m),
            _ => {},
        }
    }
}

/// How the entities of a context are found.
pub open spec fn clause_of(kind: ContextKind, selector: Seq<char>) -> ExecuteAs {
    if kind is At {
        ExecuteAs::At(selector)
    } else {
        ExecuteAs::As(selector)
    }
}

pub(crate) proof fn lemma_turns_escape<R, D>(
    g: Game<R, D>,
    env: Env,
    clause: ExecuteAs,
    found: Seq<D>,
    body: Seq<Stmt>,
    s: State<R>,
    n: nat,
)
    requires
        exec_turns(g, env, clause, found, body, s, n) is Some,
    ensures
        match flow_of(exec_turns(g, env, clause, found, body, s, n)) {
            Flow::Normal => true,
            Flow::Return(_) => escapes(body, 0).returns,
            _ => false,
        },
    decreases n, body, -1int,
{
    if found.len() > 0 {
        let m = (n - 1) as nat;
        let s0 = State { rest: (g.enter)(s.rest, clause, found[0]), ..s };
        lemma_escapes_are_foreseen(g, env, body, 0, s0, m);
        match exec_block(g, env, body, 0, s0, m) {
            Some((s1, flow)) => {
                let s2 = State { rest: (g.leave)(s1.rest, s.rest), ..s1 };
                if flow is Normal || flow is Continue {
                    lemma_turns_escape(g, env, clause, found.skip(1), body, s2, m);
                }
            },
            None => {},
        }
    }
}

pub(crate) proof fn lemma_for_escapes<R, D>(
    g: Game<R, D>,
    env: Env,
    local: LocalId,
    items: Seq<D>,
    body: Seq<Stmt>,
    s: State<R>,
    n: nat,
)
    requires
        exec_for(g, env, local, items, body, s, n) is Some,
    ensures
        match flow_of(exec_for(g, env, local, items, body, s, n)) {
            Flow::Normal => true,
            Flow::Return(_) => escapes(body, 0).returns,
            _ => false,
        },
    decreases n, body, -1int,
{
    if items.len() > 0 {
        let m = (n - 1) as nat;
        let s0 = given(g, env.function, s, local, items[0]);
        lemma_escapes_are_foreseen(g, env, body, 0, s0, m);
        match exec_block(g, env, body, 0, s0, m) {
            Some((s1, Flow::Normal)) => {
                lemma_for_escapes(g, env, local, items.skip(1), body, s1, m);
            },
            Some((s1, Flow::Continue)) => {
                lemma_for_escapes(g, env, local, items.skip(1), body, s1, m);
            },
            _ => {},
        }
    }
}

// ---------------------------------------------------------------------------
// What an expression and a test read.
// ---------------------------------------------------------------------------

/// An expression is worth the same where the bindings it reads are the same.
pub(crate) proof fn lemma_meaning_reads(f: HirFunction, a: Map<Reg, i32>, b: Map<Reg, i32>, e: Expr)
    requires
        untouched(f, e, a, b),
    ensures
        meaning(f, b, e) == meaning(f, a, e),
        calculates(f, b, e) == calculates(f, a, e),
        truthful(f, b, e) == truthful(f, a, e),
    decreases e,
{
    match e.kind {
        Kind::Local(local) => {
            assert(mentions(f, e, local_reg(f, local)));
        },
        Kind::Unary(_, operand) => {
            assert forall|r: Reg| #[trigger] mentions(f, *operand, r) implies b[r] == a[r] by {
                assert(mentions(f, e, r));
            }
            lemma_meaning_reads(f, a, b, *operand);
        },
        Kind::Binary(_, lhs, rhs) => {
            assert forall|r: Reg| #[trigger] mentions(f, *lhs, r) implies b[r] == a[r] by {
                assert(mentions(f, e, r));
            }
            assert forall|r: Reg| #[trigger] mentions(f, *rhs, r) implies b[r] == a[r] by {
                assert(mentions(f, e, r));
            }
            lemma_meaning_reads(f, a, b, *lhs);
            lemma_meaning_reads(f, a, b, *rhs);
        },
        _ => {},
    }
}

pub(crate) proof fn lemma_bindings_are_vars(f: HirFunction, e: Expr, r: Reg)
    requires
        mentions(f, e, r),
    ensures
        r.kind is Var,
    decreases e,
{
    match e.kind {
        Kind::Unary(_, operand) => lemma_bindings_are_vars(f, *operand, r),
        Kind::Binary(_, lhs, rhs) => {
            if mentions(f, *lhs, r) {
                lemma_bindings_are_vars(f, *lhs, r);
            } else {
                lemma_bindings_are_vars(f, *rhs, r);
            }
        },
        _ => {},
    }
}

pub(crate) proof fn lemma_holds_reads(c: Cond, a: Map<Reg, i32>, b: Map<Reg, i32>)
    requires
        !(c is Data),
        forall|r: Reg| #[trigger] reads(c, r) ==> b[r] == a[r],
    ensures
        holds(c, b) == holds(c, a),
{
    match c {
        Cond::Score(x, _, y, _) => {
            assert(reads(c, x) && reads(c, y));
        },
        Cond::Matches(x, _, _, _) => {
            assert(reads(c, x));
        },
        _ => {},
    }
}


// ---------------------------------------------------------------------------
// Runs.
// ---------------------------------------------------------------------------

/// What is left to run when commands have ended in that way: what follows, or nothing
/// because the function was left.
pub open spec fn left<R, D>(
    g: Game<R, D>,
    code: Code,
    all: Seq<Inst>,
    to: int,
    w: World<R, D>,
    flow: Flow,
    top: bool,
    fuel: nat,
) -> Option<(World<R, D>, Option<i32>)> {
    match flow {
        Flow::Normal => run(g, code, all, to, w, fuel),
        Flow::Return(v) => Some(
            (
                w,
                Some(
                    if top {
                        v
                    } else {
                        0
                    },
                ),
            ),
        ),
        _ => Some((w, Some(0))),
    }
}

/// Whether the commands from `from` up to `to` lead from one world to another and end in
/// that way, given enough fuel.
#[verifier::opaque]
pub open spec fn comes_out<R, D>(
    g: Game<R, D>,
    code: Code,
    all: Seq<Inst>,
    from: int,
    w: World<R, D>,
    to: int,
    w1: World<R, D>,
    flow: Flow,
    top: bool,
    m: nat,
) -> bool {
    forall|fuel: nat|
        fuel >= m ==> #[trigger] run(g, code, all, from, w, fuel) == left(
            g,
            code,
            all,
            to,
            w1,
            flow,
            top,
            fuel,
        )
}

/// Whether a call leads from one world to another, given enough fuel.
#[verifier::opaque]
pub open spec fn calls_to<R, D>(
    g: Game<R, D>,
    code: Code,
    path: Seq<char>,
    w: World<R, D>,
    w1: World<R, D>,
    m: nat,
) -> bool {
    &&& code.contains_key(path)
    &&& forall|fuel: nat|
        fuel >= m ==> match #[trigger] run(g, code, code[path], 0, w, fuel) {
            Some((ended, _)) => ended == w1,
            None => false,
        }
}

pub(crate) proof fn lemma_stays<R, D>(
    g: Game<R, D>,
    code: Code,
    all: Seq<Inst>,
    i: int,
    w: World<R, D>,
    top: bool,
)
    ensures
        comes_out(g, code, all, i, w, i, w, Flow::Normal, top, 0),
{
    reveal(comes_out);
}

pub(crate) proof fn lemma_onwards<R, D>(
    g: Game<R, D>,
    code: Code,
    all: Seq<Inst>,
    a: int,
    w: World<R, D>,
    b: int,
    w1: World<R, D>,
    c: int,
    w2: World<R, D>,
    flow: Flow,
    top: bool,
    m1: nat,
    m2: nat,
    m: nat,
)
    requires
        comes_out(g, code, all, a, w, b, w1, Flow::Normal, top, m1),
        comes_out(g, code, all, b, w1, c, w2, flow, top, m2),
        m >= m1,
        m >= m2,
    ensures
        comes_out(g, code, all, a, w, c, w2, flow, top, m),
{
    reveal(comes_out);
    assert forall|fuel: nat| fuel >= m implies #[trigger] run(g, code, all, a, w, fuel) == left(
        g,
        code,
        all,
        c,
        w2,
        flow,
        top,
        fuel,
    ) by {
        assert(run(g, code, all, a, w, fuel) == run(g, code, all, b, w1, fuel));
    }
}

/// A way of leaving leaves whatever follows.
pub(crate) proof fn lemma_left_anyway<R, D>(
    g: Game<R, D>,
    code: Code,
    all: Seq<Inst>,
    a: int,
    w: World<R, D>,
    b: int,
    c: int,
    w1: World<R, D>,
    flow: Flow,
    top: bool,
    m: nat,
)
    requires
        comes_out(g, code, all, a, w, b, w1, flow, top, m),
        !(flow is Normal),
    ensures
        comes_out(g, code, all, a, w, c, w1, flow, top, m),
{
    reveal(comes_out);
    assert forall|fuel: nat| fuel >= m implies #[trigger] run(g, code, all, a, w, fuel) == left(
        g,
        code,
        all,
        c,
        w1,
        flow,
        top,
        fuel,
    ) by {
        assert(left(g, code, all, c, w1, flow, top, fuel) == left(
            g,
            code,
            all,
            b,
            w1,
            flow,
            top,
            fuel,
        ));
    }
}

/// One command that goes on to the next.
pub(crate) proof fn lemma_one_step<R, D>(
    g: Game<R, D>,
    code: Code,
    all: Seq<Inst>,
    i: int,
    w: World<R, D>,
    w1: World<R, D>,
    top: bool,
    m: nat,
)
    requires
        0 <= i < all.len(),
        forall|fuel: nat|
            fuel >= m ==> #[trigger] step(g, code, all[i], w, fuel) == Some((w1, None::<i32>)),
    ensures
        comes_out(g, code, all, i, w, i + 1, w1, Flow::Normal, top, m),
{
    reveal(comes_out);
    assert forall|fuel: nat| fuel >= m implies #[trigger] run(g, code, all, i, w, fuel) == left(
        g,
        code,
        all,
        i + 1,
        w1,
        Flow::Normal,
        top,
        fuel,
    ) by {
        assert(step(g, code, all[i], w, fuel) == Some((w1, None::<i32>)));
    }
}

/// One command that leaves.
pub(crate) proof fn lemma_one_exit<R, D>(
    g: Game<R, D>,
    code: Code,
    all: Seq<Inst>,
    i: int,
    w: World<R, D>,
    w1: World<R, D>,
    flow: Flow,
    top: bool,
    to: int,
)
    requires
        0 <= i < all.len(),
        !(flow is Normal),
        forall|fuel: nat| #[trigger]
            step(g, code, all[i], w, fuel) == left(g, code, all, to, w1, flow, top, fuel),
    ensures
        comes_out(g, code, all, i, w, to, w1, flow, top, 0),
{
    reveal(comes_out);
    assert forall|fuel: nat| fuel >= 0 implies #[trigger] run(g, code, all, i, w, fuel) == left(
        g,
        code,
        all,
        to,
        w1,
        flow,
        top,
        fuel,
    ) by {
        assert(step(g, code, all[i], w, fuel) == left(g, code, all, to, w1, flow, top, fuel));
    }
}

/// What a whole function does is what its call does.
pub(crate) proof fn lemma_called<R, D>(
    g: Game<R, D>,
    code: Code,
    path: Seq<char>,
    w: World<R, D>,
    w1: World<R, D>,
    flow: Flow,
    top: bool,
    m: nat,
)
    requires
        code.contains_key(path),
        comes_out(g, code, code[path], 0, w, code[path].len() as int, w1, flow, top, m),
    ensures
        calls_to(g, code, path, w, w1, m),
{
    reveal(comes_out);
    reveal(calls_to);
    assert forall|fuel: nat| fuel >= m implies match #[trigger] run(
        g,
        code,
        code[path],
        0,
        w,
        fuel,
    ) {
        Some((ended, _)) => ended == w1,
        None => false,
    } by {}
}

pub(crate) proof fn lemma_call_step<R, D>(
    g: Game<R, D>,
    code: Code,
    path: Seq<char>,
    w: World<R, D>,
    w1: World<R, D>,
    m: nat,
)
    requires
        calls_to(g, code, path, w, w1, m),
    ensures
        forall|fuel: nat|
            fuel >= m + 1 ==> #[trigger] step(g, code, Inst::Call(path), w, fuel) == Some(
                (w1, None::<i32>),
            ),
{
    reveal(calls_to);
    assert forall|fuel: nat| fuel >= m + 1 implies #[trigger] step(
        g,
        code,
        Inst::Call(path),
        w,
        fuel,
    ) == Some((w1, None::<i32>)) by {
        let ended = run(g, code, code[path], 0, w, (fuel - 1) as nat);
        assert(ended is Some);
    }
}

/// A guard that holds runs its command.
pub(crate) proof fn lemma_guard_holds<R, D>(
    g: Game<R, D>,
    code: Code,
    all: Seq<Inst>,
    i: int,
    c: Cond,
    inst: Inst,
    w: World<R, D>,
    w1: World<R, D>,
    top: bool,
    m: nat,
)
    requires
        0 <= i < all.len(),
        all[i] == Inst::Guarded(c, Box::new(inst)),
        passes(g, c, w) == Some(true),
        forall|fuel: nat|
            fuel >= m ==> #[trigger] step(g, code, inst, w, fuel) == Some((w1, None::<i32>)),
    ensures
        comes_out(g, code, all, i, w, i + 1, w1, Flow::Normal, top, m),
{
    assert forall|fuel: nat| fuel >= m implies #[trigger] step(g, code, all[i], w, fuel) == Some(
        (w1, None::<i32>),
    ) by {
        reveal_with_fuel(step, 2);
        assert(step(g, code, inst, w, fuel) == Some((w1, None::<i32>)));
    }
    lemma_one_step(g, code, all, i, w, w1, top, m);
}

/// A guard that does not hold does nothing.
pub(crate) proof fn lemma_guard_fails<R, D>(
    g: Game<R, D>,
    code: Code,
    all: Seq<Inst>,
    i: int,
    c: Cond,
    inst: Inst,
    w: World<R, D>,
    top: bool,
)
    requires
        0 <= i < all.len(),
        all[i] == Inst::Guarded(c, Box::new(inst)),
        passes(g, c, w) == Some(false),
    ensures
        comes_out(g, code, all, i, w, i + 1, w, Flow::Normal, top, 0),
{
    lemma_one_step(g, code, all, i, w, w, top, 0);
}

/// A guard that holds leaves by its command.
pub(crate) proof fn lemma_guard_leaves<R, D>(
    g: Game<R, D>,
    code: Code,
    all: Seq<Inst>,
    i: int,
    c: Cond,
    inst: Inst,
    w: World<R, D>,
    flow: Flow,
    top: bool,
    to: int,
)
    requires
        0 <= i < all.len(),
        all[i] == Inst::Guarded(c, Box::new(inst)),
        passes(g, c, w) == Some(true),
        !(flow is Normal),
        forall|fuel: nat| #[trigger]
            step(g, code, inst, w, fuel) == left(g, code, all, to, w, flow, top, fuel),
    ensures
        comes_out(g, code, all, i, w, to, w, flow, top, 0),
{
    assert forall|fuel: nat| #[trigger] step(g, code, all[i], w, fuel) == left(
        g,
        code,
        all,
        to,
        w,
        flow,
        top,
        fuel,
    ) by {
        reveal_with_fuel(step, 2);
        assert(step(g, code, inst, w, fuel) == left(g, code, all, to, w, flow, top, fuel));
    }
    lemma_one_exit(g, code, all, i, w, w, flow, top, to);
}

/// Commands on scores do to the world what they do to the scores.
pub(crate) proof fn lemma_scores_run<R, D>(
    g: Game<R, D>,
    code: Code,
    insts: Seq<Inst>,
    all: Seq<Inst>,
    from: int,
    w: World<R, D>,
    scores: Map<Reg, i32>,
    top: bool,
)
    requires
        0 <= from <= insts.len(),
        ran(insts, from, w.scores) == Some(scores),
        grows(insts, all),
    ensures
        comes_out(
            g,
            code,
            all,
            from,
            w,
            insts.len() as int,
            World { scores, ..w },
            Flow::Normal,
            top,
            0,
        ),
    decreases insts.len(),
{
    reveal(grows);
    let end = insts.len() as int;
    if from == end {
        assert(scores == w.scores);
        assert(World { scores, ..w } == w);
        lemma_stays(g, code, all, from, w, top);
    } else {
        let before = insts.drop_last();
        assert(all.take(end) == insts);
        assert(all.take(end - 1) =~= before);
        let mid = ran(before, from, w.scores)->0;
        lemma_scores_run(g, code, before, all, from, w, mid, top);
        let w1 = World { scores: mid, ..w };
        let w2 = World { scores, ..w };
        assert(all[end - 1] == insts.last());
        lemma_score_step(g, code, insts.last(), w1);
        lemma_one_step(g, code, all, end - 1, w1, w2, top, 0);
        lemma_onwards(g, code, all, from, w, end - 1, w1, end, w2, Flow::Normal, top, 0, 0, 0);
    }
}

pub(crate) proof fn lemma_score_step<R, D>(g: Game<R, D>, code: Code, inst: Inst, w: World<R, D>)
    requires
        stepped(w.scores, inst) is Some,
    ensures
        forall|fuel: nat| #[trigger]
            step(g, code, inst, w, fuel) == Some(
                (World { scores: stepped(w.scores, inst)->0, ..w }, None::<i32>),
            ),
{
}

// ---------------------------------------------------------------------------
// What a world has to do with a state.
// ---------------------------------------------------------------------------

/// Whether a world holds what the statements know of.
pub open spec fn alike<R, D>(f: HirFunction, s: State<R>, w: World<R, D>) -> bool {
    &&& w.rest == s.rest
    &&& forall|r: Reg| r.kind is Var && apart(f, r) ==> #[trigger] w.scores[r] == s.vars[r]
}

/// Whether the control registers say how a block ended.
pub open spec fn parked<R, D>(f: HirFunction, w: World<R, D>, flow: Flow) -> bool {
    let ctl = w.scores[ctl_reg(f)];
    match flow {
        Flow::Normal => ctl == CTL_NORMAL,
        Flow::Break => ctl == CTL_BREAK,
        Flow::Continue => ctl == CTL_CONTINUE,
        Flow::Return(v) => ctl == CTL_RETURN && if f.ret is Some {
            w.scores[ret_reg(f)] == v
        } else {
            v == 0
        },
    }
}

/// The path of the `k`th temporary in storage.
pub open spec fn data_name(k: nat) -> Seq<char> {
    "mw.tmp.m"@ + nat_text(k)
}

pub(crate) proof fn lemma_data_names(a: nat, b: nat)
    ensures
        data_name(a) == data_name(b) <==> a == b,
        is_temporary(data_name(a)),
        !is_walked(data_name(a)),
{
    reveal_strlit("mw.iter.");
    reveal_strlit("mw.tmp.m");
    reveal_strlit("mw.tmp.");
    lemma_numbers_differ(a, b);
    assert(data_name(a).take(7) =~= "mw.tmp."@);
    assert(data_name(a).len() >= 8 ==> data_name(a).take(8)[3] == 't');
    if data_name(a) == data_name(b) {
        assert(nat_text(a) =~= data_name(a).skip(8));
        assert(nat_text(b) =~= data_name(b).skip(8));
    }
}

/// Whether the temporaries that were handed out before are as they were.
pub open spec fn keeps_temps<R, D>(cx: Lx, a: World<R, D>, b: World<R, D>) -> bool {
    &&& forall|k: nat|
        k < cx.scores ==> #[trigger] b.scores[temporary(k)] == a.scores[temporary(k)]
    &&& forall|k: nat| k < cx.data ==> #[trigger] b.temps[data_name(k)] == a.temps[data_name(k)]
    &&& forall|k: nat| k < cx.iters ==> #[trigger] b.lists[list_name(k)] == a.lists[list_name(k)]
}

/// The path of the `k`th list that is walked through.
pub open spec fn list_name(k: nat) -> Seq<char> {
    "mw.iter.i"@ + nat_text(k)
}

pub(crate) proof fn lemma_list_names(a: nat, b: nat)
    ensures
        list_name(a) == list_name(b) <==> a == b,
        is_walked(list_name(a)),
        is_walked(list_name(a) + "[0]"@),
        !is_temporary(list_name(a)),
        !is_temporary(list_name(a) + "[0]"@),
        list_of(list_name(a) + "[0]"@) == Some(list_name(a)),
{
    reveal_strlit("mw.iter.i");
    reveal_strlit("mw.iter.");
    reveal_strlit("mw.tmp.");
    reveal_strlit("[0]");
    lemma_numbers_differ(a, b);
    let name = list_name(a);
    let head = name + "[0]"@;
    assert(name.take(8) =~= "mw.iter."@);
    assert(head.take(8) =~= "mw.iter."@);
    assert(name.take(7)[3] == 'i');
    assert(head.take(7)[3] == 'i');
    assert(head.skip(head.len() - 3) =~= "[0]"@);
    assert(head.take(head.len() - 3) =~= name);
    if list_name(a) == list_name(b) {
        assert(nat_text(a) =~= list_name(a).skip(9));
        assert(nat_text(b) =~= list_name(b).skip(9));
    }
}

/// Whether the commands made between two states of lowering are in place: in their
/// function, with every function that was split out, and with no count started over.
pub open spec fn ready(code: Code, all: Seq<Inst>, a: Lx, b: Lx) -> bool {
    &&& grows(b.insts, all)
    &&& linked(code, b.generated)
    &&& a.scores + (b.used.len() - a.used.len()) <= 0x8000_0000
    &&& a.data + (b.used_data.len() - a.used_data.len()) <= 0x8000_0000
    &&& a.iters + (b.used_data.len() - a.used_data.len()) <= 0x8000_0000
}

/// Whether a lowering went on from `a` to `b` in the same function.
pub open spec fn follows(a: Lx, b: Lx) -> bool {
    &&& grows(a.insts, b.insts)
    &&& grows(a.generated, b.generated)
    &&& tallied(a, b)
    &&& b.top_level == a.top_level
    &&& b.body_root == a.body_root
}

pub(crate) proof fn following()
    ensures
        forall|a: Lx| follows(a, (#[trigger] a.iter_temp()).0),
        forall|a: Lx, local: LocalId| follows(a, #[trigger] a.initialise(local)),
        forall|a: Lx| #[trigger] follows(a, a),
        forall|a: Lx, b: Lx| #[trigger] carries(a, b) ==> follows(a, b),
        forall|a: Lx, b: Lx, c: Lx|
            #[trigger] follows(a, b) && #[trigger] follows(b, c) ==> follows(a, c),
        forall|a: Lx, inst: Inst| follows(a, #[trigger] a.emit(inst)),
        forall|a: Lx| follows(a, #[trigger] a.counted()),
        forall|a: Lx| follows(a, #[trigger] a.touch_ctl()),
        forall|a: Lx| follows(a, (#[trigger] a.data_temp()).0),
{
    grows_facts_for::<Inst>();
    grows_facts_for::<Function>();
}

pub(crate) proof fn lemma_keeps_further<R, D>(
    a: Lx,
    b: Lx,
    w: World<R, D>,
    w1: World<R, D>,
    w2: World<R, D>,
)
    requires
        keeps_temps(a, w, w1),
        keeps_temps(b, w1, w2),
        a.scores <= b.scores,
        a.data <= b.data,
        a.iters <= b.iters,
    ensures
        keeps_temps(a, w, w2),
{
    assert forall|k: nat| k < a.scores implies #[trigger] w2.scores[temporary(k)]
        == w.scores[temporary(k)] by {
        assert(w1.scores[temporary(k)] == w.scores[temporary(k)]);
    }
    assert forall|k: nat| k < a.data implies #[trigger] w2.temps[data_name(k)]
        == w.temps[data_name(k)] by {
        assert(w1.temps[data_name(k)] == w.temps[data_name(k)]);
    }
    assert forall|k: nat| k < a.iters implies #[trigger] w2.lists[list_name(k)]
        == w.lists[list_name(k)] by {
        assert(w1.lists[list_name(k)] == w.lists[list_name(k)]);
    }
}

pub(crate) proof fn lemma_ready(code: Code, all: Seq<Inst>, a: Lx, b: Lx, c: Lx)
    requires
        follows(a, b),
        follows(b, c),
        ready(code, all, a, c),
    ensures
        ready(code, all, a, b),
        ready(code, all, b, c),
        a.scores <= b.scores <= c.scores,
        c.scores <= 0x8000_0000,
        a.data <= b.data <= c.data,
        c.data <= 0x8000_0000,
        a.iters <= b.iters <= c.iters,
        c.iters <= 0x8000_0000,
        a.insts.len() <= b.insts.len() <= c.insts.len() <= all.len(),
        b.top_level == a.top_level,
        c.top_level == a.top_level,
{
    grows_facts_for::<Inst>();
    lemma_linked(code, b.generated, c.generated);
    reveal(grows);
}

pub(crate) proof fn lemma_linked(code: Code, a: Seq<Function>, b: Seq<Function>)
    requires
        linked(code, b),
        grows(a, b),
    ensures
        linked(code, a),
{
    reveal(grows);
    assert forall|k: int| 0 <= k < a.len() implies code.contains_key((#[trigger] a[k]).path)
        && a[k].blocks.len() > 0 && code[a[k].path] == a[k].blocks[0].insts by {
        assert(b.take(a.len() as int)[k] == b[k]);
    }
}

/// A block that was split out can be called, and its commands are in place.
pub(crate) proof fn lemma_split_out(
    code: Code,
    all: Seq<Inst>,
    outer: Lx,
    id: FnId,
    path: Seq<char>,
    first: Lx,
    inner: Lx,
)
    requires
        first.insts == Seq::<Inst>::empty(),
        first.generated == Seq::<Function>::empty(),
        first.scores == outer.scores,
        first.data == outer.data,
        first.iters == outer.iters,
        first.used == outer.used,
        first.used_data == outer.used_data,
        follows(first, inner),
        ready(code, all, outer, outer.close(id, path, inner)),
    ensures
        ready(code, inner.insts, first, inner),
        code.contains_key(path),
        code[path] == inner.insts,
        outer.scores <= inner.scores,
        outer.data <= inner.data,
        outer.iters <= inner.iters,
{
    let closed = outer.close(id, path, inner);
    let k = outer.generated.len() as int;
    assert(closed.generated[k].path == path);
    assert(closed.generated[k].blocks[0].insts == inner.insts);
    assert forall|j: int| 0 <= j < inner.generated.len() implies code.contains_key(
        (#[trigger] inner.generated[j]).path,
    ) && inner.generated[j].blocks.len() > 0 && code[inner.generated[j].path]
        == inner.generated[j].blocks[0].insts by {
        assert(closed.generated[k + 1 + j] == inner.generated[j]);
    }
    grows_facts_for::<Inst>();
}

/// A command is where it was emitted.
pub(crate) proof fn lemma_emitted(insts: Seq<Inst>, inst: Inst, all: Seq<Inst>)
    requires
        grows(insts.push(inst), all),
    ensures
        insts.len() < all.len(),
        all[insts.len() as int] == inst,
        grows(insts, all),
{
    reveal(grows);
    let n = insts.len() as int;
    assert(all.take(n + 1)[n] == inst);
    assert(all.take(n) =~= insts);
}

pub(crate) proof fn lemma_alike_reads<R, D>(f: HirFunction, s: State<R>, w: World<R, D>, e: Expr)
    requires
        alike(f, s, w),
        known(f, s.vars, e),
    ensures
        untouched(f, e, s.vars, w.scores),
        meaning(f, w.scores, e) == meaning(f, s.vars, e),
        calculates(f, w.scores, e),
        truthful(f, w.scores, e) == truthful(f, s.vars, e),
{
    assert forall|r: Reg| #[trigger] mentions(f, e, r) implies w.scores[r] == s.vars[r] by {
        lemma_bindings_are_vars(f, e, r);
    }
    lemma_meaning_reads(f, s.vars, w.scores, e);
}

/// New temporaries are no binding and none of the old ones.
pub(crate) proof fn lemma_new_temporaries<R, D>(
    f: HirFunction,
    cx: Lx,
    hi: nat,
    s: State<R>,
    w: World<R, D>,
    scores: Map<Reg, i32>,
)
    requires
        same_but(w.scores, scores, cx.scores as nat, hi),
    ensures
        alike(f, s, w) ==> alike(f, s, World { scores, ..w }),
        keeps_temps(cx, w, World { scores, ..w }),
        scores[ctl_reg(f)] == w.scores[ctl_reg(f)],
        scores[ret_reg(f)] == w.scores[ret_reg(f)],
{
    let w1 = World { scores, ..w };
    let lo = cx.scores as nat;
    assert(!between(ctl_reg(f), lo, hi));
    assert(!between(ret_reg(f), lo, hi));
    assert forall|k: nat| k < cx.scores implies #[trigger] w1.scores[temporary(k)]
        == w.scores[temporary(k)] by {
        if between(temporary(k), lo, hi) {
            let n = choose|n: nat| lo <= n < hi && temporary(k) == #[trigger] temporary(n);
            lemma_temporaries_differ(k, n);
        }
    }
    if alike(f, s, w) {
        assert forall|r: Reg| r.kind is Var && apart(f, r) implies #[trigger] w1.scores[r]
            == s.vars[r] by {
            assert(!between(r, lo, hi));
            assert(w.scores[r] == s.vars[r]);
        }
    }
}

// ---------------------------------------------------------------------------
// Expressions and tests.
// ---------------------------------------------------------------------------

pub(crate) proof fn lemma_stands_still(cx: Lx, scores: Map<Reg, i32>)
    ensures
        stands(cx, cx.insts.len() as int, scores, scores),
{
}

/// A test is worked out: it holds where it should, and stays so while its bindings do.
pub(crate) proof fn sim_cond<R, D>(
    g: Game<R, D>,
    code: Code,
    env: Env,
    cx: Lx,
    e: Expr,
    s: State<R>,
    w: World<R, D>,
    all: Seq<Inst>,
) -> (w1: World<R, D>)
    requires
        is_test(env.function, s.vars, e),
        alike(env.function, s, w),
        ready(code, all, cx, cond(env, cx, e).0),
    ensures
        ({
            let f = env.function;
            let (cx1, c) = cond(env, cx, e);
            &&& comes_out(
                g,
                code,
                all,
                cx.insts.len() as int,
                w,
                cx1.insts.len() as int,
                w1,
                Flow::Normal,
                cx.top_level,
                0,
            )
            &&& carries(cx, cx1)
            &&& alike(f, s, w1)
            &&& keeps_temps(cx, w, w1)
            &&& w1.scores[ctl_reg(f)] == w.scores[ctl_reg(f)]
            &&& !(c is Data)
            &&& holds(c, w1.scores) == (meaning(f, s.vars, e) != 0)
            &&& forall|x: Reg| #[trigger]
                reads(c, x) ==> mentions(f, e, x) || between(
                    x,
                    cx.scores as nat,
                    cx1.scores as nat,
                )
        }),
{
    let f = env.function;
    let (cx1, c) = cond(env, cx, e);
    cond_carries(env, cx, e);
    lemma_alike_reads(f, s, w, e);
    let from = cx.insts.len() as int;
    lemma_stands_still(cx, w.scores);
    let scores = lemma_conditions_hold_where_they_should(env, cx, e, from, w.scores, w.scores);
    lemma_scores_run(g, code, cx1.insts, all, from, w, scores, cx.top_level);
    lemma_new_temporaries(f, cx, cx1.scores as nat, s, w, scores);
    World { scores, ..w }
}

/// A test that was worked out gives the same answer later on, if the bindings it reads and
/// the temporaries that were handed out by then are what they were.
pub(crate) proof fn lemma_test_again<R, D>(
    f: HirFunction,
    e: Expr,
    c: Cond,
    lo: nat,
    cx: Lx,
    s: State<R>,
    w: World<R, D>,
    s1: State<R>,
    w1: World<R, D>,
)
    requires
        known(f, s.vars, e),
        !(c is Data),
        alike(f, s, w),
        alike(f, s1, w1),
        untouched(f, e, s.vars, s1.vars),
        keeps_temps(cx, w, w1),
        forall|x: Reg| #[trigger]
            reads(c, x) ==> mentions(f, e, x) || between(x, lo, cx.scores as nat),
    ensures
        holds(c, w1.scores) == holds(c, w.scores),
{
    assert forall|x: Reg| #[trigger] reads(c, x) implies w1.scores[x] == w.scores[x] by {
        if mentions(f, e, x) {
            lemma_bindings_are_vars(f, e, x);
            assert(apart(f, x));
            assert(w1.scores[x] == s1.vars[x]);
            assert(w.scores[x] == s.vars[x]);
        } else {
            let n = choose|n: nat| lo <= n < cx.scores && x == #[trigger] temporary(n);
            assert(w1.scores[temporary(n)] == w.scores[temporary(n)]);
        }
    }
    lemma_holds_reads(c, w.scores, w1.scores);
}

/// A value goes where it was assigned.
pub(crate) proof fn sim_store<R, D>(
    g: Game<R, D>,
    code: Code,
    env: Env,
    cx: Lx,
    dst: Reg,
    op: Option<BinaryOp>,
    value: Expr,
    s: State<R>,
    w: World<R, D>,
    all: Seq<Inst>,
) -> (w1: World<R, D>)
    requires
        known(env.function, s.vars, value),
        apart(env.function, dst),
        dst.kind is Var,
        op is Some ==> !is_comparison(op->0) && !(op->0 is And) && !(op->0 is Or),
        alike(env.function, s, w),
        ready(code, all, cx, store(env, cx, dst, op, value)),
    ensures
        ({
            let f = env.function;
            let cx1 = store(env, cx, dst, op, value);
            let s1 = State { vars: s.vars.insert(dst, assigned(f, s.vars, dst, op, value)), ..s };
            &&& comes_out(
                g,
                code,
                all,
                cx.insts.len() as int,
                w,
                cx1.insts.len() as int,
                w1,
                Flow::Normal,
                cx.top_level,
                0,
            )
            &&& alike(f, s1, w1)
            &&& keeps_temps(cx, w, w1)
            &&& w1.scores[ctl_reg(f)] == w.scores[ctl_reg(f)]
        }),
{
    let f = env.function;
    let cx1 = store(env, cx, dst, op, value);
    store_carries(env, cx, dst, op, value);
    lemma_alike_reads(f, s, w, value);
    let from = cx.insts.len() as int;
    lemma_stands_still(cx, w.scores);
    let scores = lemma_assignments_assign(env, cx, dst, op, value, from, w.scores, w.scores);
    lemma_scores_run(g, code, cx1.insts, all, from, w, scores, cx.top_level);
    let w1 = World { scores, ..w };
    let s1 = State { vars: s.vars.insert(dst, assigned(f, s.vars, dst, op, value)), ..s };
    let lo = cx.scores as nat;
    let hi = cx1.scores as nat;
    // But for the target, only new temporaries are written.
    let but = scores.insert(dst, w.scores[dst]);
    assert(same_but(w.scores, but, lo, hi)) by {
        assert forall|r: Reg| !between(r, lo, hi) implies #[trigger] but[r] == w.scores[r] by {
            if r != dst {
                assert(scores[r] == w.scores[r]);
            }
        }
    }
    lemma_new_temporaries(f, cx, hi, s, w, but);
    assert(w.scores[dst] == s.vars[dst]);
    assert forall|r: Reg| r.kind is Var && apart(f, r) implies #[trigger] w1.scores[r]
        == s1.vars[r] by {
        if r != dst {
            assert(World { scores: but, ..w }.scores[r] == s.vars[r]);
        }
    }
    assert forall|k: nat| k < cx.scores implies #[trigger] w1.scores[temporary(k)]
        == w.scores[temporary(k)] by {
        assert(World { scores: but, ..w }.scores[temporary(k)] == w.scores[temporary(k)]);
        assert(temporary(k) != dst);
    }
    w1
}

// ---------------------------------------------------------------------------
// Control.
// ---------------------------------------------------------------------------

/// A transfer that is pending is handed on, and nothing happens if none is.
pub(crate) proof fn sim_propagate<R, D>(
    g: Game<R, D>,
    code: Code,
    env: Env,
    cx: Lx,
    w: World<R, D>,
    all: Seq<Inst>,
    flow: Flow,
)
    requires
        parked(env.function, w, flow),
        grows(propagate(env, cx).insts, all),
        !(cx.top_level && (flow is Break || flow is Continue)),
    ensures
        comes_out(
            g,
            code,
            all,
            cx.insts.len() as int,
            w,
            propagate(env, cx).insts.len() as int,
            w,
            flow,
            cx.top_level,
            0,
        ),
{
    reveal(propagate);
    let f = env.function;
    let at = cx.insts.len() as int;
    let cx1 = propagate(env, cx);
    let guarded = cx1.insts.last();
    assert(cx1.insts =~= cx.insts.push(guarded));
    lemma_emitted(cx.insts, guarded, all);
    if !cx.top_level {
        let c = ctl_is(env, CTL_BREAK, None);
        let inst = Inst::Return(0);
        assert(guarded == Inst::Guarded(c, Box::new(inst)));
        if flow is Normal {
            lemma_guard_fails(g, code, all, at, c, inst, w, false);
        } else {
            lemma_guard_leaves(g, code, all, at, c, inst, w, flow, false, at + 1);
        }
    } else {
        let c = ctl_is(env, CTL_RETURN, Some(CTL_RETURN));
        let inst = match f.ret {
            Some(_) => Inst::ReturnRun(Box::new(Inst::Get(ret_reg(f)))),
            None => Inst::Return(0),
        };
        assert(guarded == Inst::Guarded(c, Box::new(inst)));
        if flow is Normal {
            lemma_guard_fails(g, code, all, at, c, inst, w, true);
        } else {
            lemma_guard_leaves(g, code, all, at, c, inst, w, flow, true, at + 1);
        }
    }
}

/// The world with a control code in it.
pub open spec fn coded<R, D>(f: HirFunction, w: World<R, D>, n: i32) -> World<R, D> {
    World { scores: w.scores.insert(ctl_reg(f), n), ..w }
}

pub(crate) proof fn lemma_coded<R, D>(f: HirFunction, cx: Lx, s: State<R>, w: World<R, D>, n: i32)
    ensures
        alike(f, s, w) ==> alike(f, s, coded(f, w, n)),
        keeps_temps(cx, w, coded(f, w, n)),
        ctl_reg(f) != ret_reg(f),
{
    reveal_strlit("ctl");
    reveal_strlit("ret");
    let a = fake_player_name(f.name, "ctl"@);
    let b = fake_player_name(f.name, "ret"@);
    assert(a.last() == 'l');
    assert(b.last() == 't');
}

/// A code that is cleared where it was meant for.
pub(crate) proof fn sim_consume<R, D>(
    g: Game<R, D>,
    code: Code,
    env: Env,
    cx: Lx,
    w: World<R, D>,
    all: Seq<Inst>,
    n: i32,
) -> (w1: World<R, D>)
    requires
        grows(consume(env, cx, n).insts, all),
    ensures
        w1 == if w.scores[ctl_reg(env.function)] == n {
            coded(env.function, w, CTL_NORMAL)
        } else {
            w
        },
        comes_out(
            g,
            code,
            all,
            cx.insts.len() as int,
            w,
            consume(env, cx, n).insts.len() as int,
            w1,
            Flow::Normal,
            cx.top_level,
            0,
        ),
{
    reveal(consume);
    let f = env.function;
    let at = cx.insts.len() as int;
    let cx1 = consume(env, cx, n);
    let c = ctl_is(env, n, Some(n));
    let inst = Inst::Const(ctl_reg(f), CTL_NORMAL);
    assert(cx1.insts =~= cx.insts.push(Inst::Guarded(c, Box::new(inst))));
    lemma_emitted(cx.insts, Inst::Guarded(c, Box::new(inst)), all);
    if w.scores[ctl_reg(f)] == n {
        let w1 = coded(f, w, CTL_NORMAL);
        lemma_score_step(g, code, inst, w);
        lemma_guard_holds(g, code, all, at, c, inst, w, w1, cx.top_level, 0);
        w1
    } else {
        lemma_guard_fails(g, code, all, at, c, inst, w, cx.top_level);
        w
    }
}

/// A transfer says why and leaves.
pub(crate) proof fn sim_jump<R, D>(
    g: Game<R, D>,
    code: Code,
    env: Env,
    cx: Lx,
    w: World<R, D>,
    all: Seq<Inst>,
    n: i32,
    flow: Flow,
)
    requires
        cx.body_root ==> n != CTL_CONTINUE,
        !cx.top_level,
        !(flow is Normal),
        grows(jump(env, cx, n).insts, all),
    ensures
        comes_out(
            g,
            code,
            all,
            cx.insts.len() as int,
            w,
            jump(env, cx, n).insts.len() as int,
            coded(env.function, w, n),
            flow,
            false,
            0,
        ),
{
    reveal(jump);
    let f = env.function;
    let at = cx.insts.len() as int;
    let cx1 = jump(env, cx, n);
    let first = Inst::Const(ctl_reg(f), n);
    let w1 = coded(f, w, n);
    assert(cx1.insts =~= cx.insts.push(first).push(Inst::Return(0)));
    lemma_emitted(cx.insts.push(first), Inst::Return(0), all);
    lemma_emitted(cx.insts, first, all);
    lemma_score_step(g, code, first, w);
    lemma_one_step(g, code, all, at, w, w1, false, 0);
    lemma_one_exit(g, code, all, at + 1, w1, w1, flow, false, at + 2);
    lemma_onwards(g, code, all, at, w, at + 1, w1, at + 2, w1, flow, false, 0, 0, 0);
}

/// A `return` leaves with its value.
pub(crate) proof fn sim_return<R, D>(
    g: Game<R, D>,
    code: Code,
    env: Env,
    cx: Lx,
    value: Option<Expr>,
    s: State<R>,
    w: World<R, D>,
    all: Seq<Inst>,
    v: i32,
) -> (w1: World<R, D>)
    requires
        ready(code, all, cx, return_stmt(env, cx, value)),
        alike(env.function, s, w),
        match value {
            Some(e) => env.function.ret is Some && known(env.function, s.vars, e) && v == meaning(
                env.function,
                s.vars,
                e,
            ),
            None => env.function.ret is None && v == 0,
        },
    ensures
        comes_out(
            g,
            code,
            all,
            cx.insts.len() as int,
            w,
            return_stmt(env, cx, value).insts.len() as int,
            w1,
            Flow::Return(v),
            cx.top_level,
            0,
        ),
        alike(env.function, s, w1),
        keeps_temps(cx, w, w1),
        !cx.top_level ==> parked(env.function, w1, Flow::Return(v)),
{
    reveal(return_stmt);
    let f = env.function;
    let at = cx.insts.len() as int;
    let top = cx.top_level;
    let flow = Flow::Return(v);
    let cx9 = return_stmt(env, cx, value);
    match value {
        None => {
            if top {
                lemma_emitted(cx.insts, Inst::Return(0), all);
                lemma_one_exit(g, code, all, at, w, w, flow, top, at + 1);
                w
            } else {
                sim_jump(g, code, env, cx, w, all, CTL_RETURN, flow);
                lemma_coded(f, cx, s, w, CTL_RETURN);
                coded(f, w, CTL_RETURN)
            }
        },
        Some(e) => {
            let (cx1, made) = expr(env, cx, e);
            expr_carries(env, cx, e);
            growing();
            reveal_with_fuel(writes_held, 4);
            copy_into_carries(cx1, ret_reg(f), made);
            jump_carries(env, copy_into(cx1, ret_reg(f), made), CTL_RETURN);
            assert(carries(cx1, cx9));
            lemma_ready(code, all, cx, cx1, cx9);
            lemma_alike_reads(f, s, w, e);
            lemma_stands_still(cx, w.scores);
            let scores = lemma_expressions_compute_their_value(env, cx, e, at, w.scores, w.scores);
            lemma_scores_run(g, code, cx1.insts, all, at, w, scores, top);
            lemma_new_temporaries(f, cx, cx1.scores as nat, s, w, scores);
            let w1 = World { scores, ..w };
            let mid = cx1.insts.len() as int;
            if top {
                match made {
                    Value::Const(n) => {
                        lemma_emitted(cx1.insts, Inst::Return(n), all);
                        lemma_one_exit(g, code, all, mid, w1, w1, flow, top, mid + 1);
                    },
                    Value::Reg(src) => {
                        let inst = Inst::ReturnRun(Box::new(Inst::Get(src)));
                        lemma_emitted(cx1.insts, inst, all);
                        lemma_one_exit(g, code, all, mid, w1, w1, flow, top, mid + 1);
                    },
                }
                lemma_onwards(g, code, all, at, w, mid, w1, mid + 1, w1, flow, top, 0, 0, 0);
                w1
            } else {
                let inst = match made {
                    Value::Const(n) => Inst::Const(ret_reg(f), n),
                    Value::Reg(src) => Inst::Op(ret_reg(f), Op::Assign, src),
                };
                let cx2 = copy_into(cx1, ret_reg(f), made);
                assert(cx2.insts =~= cx1.insts.push(inst));
                lemma_ready(code, all, cx1, cx2, cx9);
                lemma_emitted(cx1.insts, inst, all);
                let w2 = World { scores: scores.insert(ret_reg(f), v), ..w };
                lemma_score_step(g, code, inst, w1);
                lemma_one_step(g, code, all, mid, w1, w2, top, 0);
                sim_jump(g, code, env, cx2, w2, all, CTL_RETURN, flow);
                let w3 = coded(f, w2, CTL_RETURN);
                let normal = Flow::Normal;
                lemma_onwards(g, code, all, at, w, mid, w1, mid + 1, w2, normal, top, 0, 0, 0);
                let end = cx9.insts.len() as int;
                lemma_onwards(g, code, all, at, w, mid + 1, w2, end, w3, flow, top, 0, 0, 0);
                lemma_coded(f, cx, s, w2, CTL_RETURN);
                assert(alike(f, s, w2));
                w3
            }
        },
    }
}

// ---------------------------------------------------------------------------
// Payloads.
// ---------------------------------------------------------------------------

pub(crate) proof fn lemma_not_temporary(path: Seq<char>)
    requires
        path.len() > 3,
        path[3] == 'v',
    ensures
        !is_temporary(path),
        !is_walked(path),
{
    reveal_strlit("mw.tmp.");
    reveal_strlit("mw.iter.");
    if is_temporary(path) {
        assert(path.take(7)[3] == 't');
    }
    if is_walked(path) {
        assert(path.take(8)[3] == 'i');
    }
}

pub(crate) proof fn lemma_place_path(f: HirFunction, place: Place)
    requires
        !(place.root is Entity),
    ensures
        place_path(f, place).len() > 8,
        place_path(f, place)[3] == 'v',
{
    let rest = crate::mir::rules::steps_path(place.steps, 0);
    match place.root {
        Root::Local(local) => lemma_var_paths(
            f.name,
            crate::mir::rules::local_of(f, local).name,
            rest,
        ),
        Root::Lent(owner, local, _) => lemma_var_paths(owner, local, rest),
        Root::Entity(_) => {},
    }
}

/// The payload of a variant is in its bindings when the arm begins.
pub(crate) proof fn sim_bind<R, D>(
    g: Game<R, D>,
    code: Code,
    env: Env,
    cx: Lx,
    path: Seq<char>,
    bindings: Seq<Binding>,
    i: int,
    s: State<R>,
    w: World<R, D>,
    all: Seq<Inst>,
) -> (w1: World<R, D>)
    requires
        0 <= i,
        ready(code, all, cx, bind_payload(env, cx, path, bindings, i)),
        alike(env.function, s, w),
        bindable(env.function, bindings),
        path.len() > 8,
        path[3] == 'v',
    ensures
        comes_out(
            g,
            code,
            all,
            cx.insts.len() as int,
            w,
            bind_payload(env, cx, path, bindings, i).insts.len() as int,
            w1,
            Flow::Normal,
            cx.top_level,
            0,
        ),
        alike(env.function, bound(g, env.function, s, path, bindings, i), w1),
        keeps_temps(cx, w, w1),
        w1.scores[ctl_reg(env.function)] == w.scores[ctl_reg(env.function)],
    decreases bindings.len() - i,
{
    reveal(bind_payload);
    let f = env.function;
    let end = bind_payload(env, cx, path, bindings, i);
    let at = cx.insts.len() as int;
    if i >= bindings.len() {
        lemma_stays(g, code, all, at, w, cx.top_level);
        w
    } else {
        reveal(bind_local);
        let b = bindings[i];
        let from = path + "."@ + b.nbt;
        let cx1 = bind_local(env, cx, b.local, b.ty, from).initialise(b.local);
        bind_local_carries(env, cx, b.local, b.ty, from);
        growing();
        bind_payload_carries(env, cx1, path, bindings, i + 1);
        lemma_ready(code, all, cx, cx1, end);
        assert(from[3] == path[3]);
        lemma_not_temporary(from);
        let dst = local_reg(f, b.local);
        assert(apart(f, dst));
        let (inst, w1, s1) = if b.ty.storage() {
            let to = local_path(f, b.local);
            let name = crate::mir::rules::local_of(f, b.local).name;
            lemma_var_paths(f.name, name, seq![]);
            assert(var_path_name(f.name, name) + Seq::<char>::empty() =~= to);
            lemma_not_temporary(to);
            let rest = (g.put)(w.rest, to, (g.look)(w.rest, from));
            (Inst::CopyData(to, from), World { rest, ..w }, State { rest, ..s })
        } else {
            let n = (g.number)(w.rest, from);
            (
                Inst::StoreResult(dst, Box::new(Inst::GetData(from))),
                World { scores: w.scores.insert(dst, n), ..w },
                State { vars: s.vars.insert(dst, n), ..s },
            )
        };
        assert(cx1.insts =~= cx.insts.push(inst));
        lemma_emitted(cx.insts, inst, all);
        assert forall|fuel: nat| fuel >= 0 implies #[trigger] step(g, code, all[at], w, fuel)
            == Some((w1, None::<i32>)) by {}
        lemma_one_step(g, code, all, at, w, w1, cx.top_level, 0);
        assert(alike(f, s1, w1));
        let w2 = sim_bind(g, code, env, cx1, path, bindings, i + 1, s1, w1, all);
        let to = end.insts.len() as int;
        lemma_onwards(
            g, code, all, at, w, at + 1, w1, to, w2, Flow::Normal, cx.top_level, 0, 0, 0,
        );
        w2
    }
}

pub(crate) proof fn lemma_tags_differ(a: Seq<char>, b: Seq<char>)
    ensures
        tag_filter(a) == "{tag:\""@ + b + "\"}"@ <==> a == b,
{
    reveal_strlit("{tag:\"");
    reveal_strlit("\"}");
    if tag_filter(a) == "{tag:\""@ + b + "\"}"@ {
        let x = tag_filter(a);
        assert(a =~= x.subrange(6, x.len() - 2));
        assert(b =~= x.subrange(6, x.len() - 2));
    }
}

} // verus!

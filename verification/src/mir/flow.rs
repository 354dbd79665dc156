//! That the commands a function is lowered to do what its statements mean: a branch is
//! taken where its test holds, a loop goes round while it should, and `break`, `continue`
//! and `return` end what they are meant for, from wherever they are written.

use vstd::prelude::*;

use crate::hir::model::{Arm, Expr, Function as HirFunction, Place, Scrutinee, Stmt};
use crate::hir::rules::stmts::kept;
use crate::hir::rules::values::is_static;
use crate::hir::{ArmTest, FnId, Inline, LocalId, Type};
use crate::mir::growing::{
    bind_local_carries, bind_payload_carries, cond_carries, consume_carries, inlined_carries,
    loop_body_carries, match_arms_carries, propagate_carries, split_carries, stmt_carries,
    stmts_carries,
};
use crate::mir::meaning::{
    between, holds, lemma_negation_is_not, meaning, mentions, reads, temporary,
};
use crate::mir::model::{Cond, ExecuteAs, Inst, Reg};
use crate::mir::rules::{
    after_loop, arms_escape, bind_local, bind_payload, complaint, cond, consume, context_name,
    context_stmt, ctl_is, ctl_reg, escapes, for_vec, fresh, if_stmt, inlined, local_of, local_path,
    local_reg, loop_body, loop_stmt, lower_function, match_arms, match_stmt, place_path, place_reg,
    propagate, split, stmt, stmt_escapes, stmt_span, stmts, tag_filter, variant_name, CTL_BREAK,
    CTL_CONTINUE, CTL_NORMAL, Env, Escapes, Lx,
};
use crate::mir::running::{
    apart, bindable, bound, each_turn, exclusive, exec_block, exec_for, exec_loop, exec_stmt,
    exec_turns, given, idle_turns, is_temporary, is_test, linked, passes, run, step, taken_arm,
    takes, untouched, Code, Flow, Game, State, World,
};
use crate::mir::steps::{
    alike, calls_to, clause_of, coded, comes_out, data_name, flow_of, following, follows,
    keeps_temps, left, lemma_call_step, lemma_called, lemma_coded, lemma_data_names, lemma_emitted,
    lemma_escapes_are_foreseen, lemma_for_escapes, lemma_guard_fails, lemma_guard_holds,
    lemma_guard_leaves, lemma_keeps_further, lemma_left_anyway, lemma_list_names,
    lemma_loop_escapes, lemma_not_temporary, lemma_one_step, lemma_onwards, lemma_place_path,
    lemma_ready, lemma_score_step, lemma_split_out, lemma_stays, lemma_stmt_escapes,
    lemma_tags_differ, lemma_test_again, lemma_turns_escape, list_name, parked, ready, sim_bind,
    sim_cond, sim_consume, sim_jump, sim_propagate, sim_return, sim_store,
};
use crate::mir::negation;
use crate::syntax::laws::{grows, grows_facts_for};
use crate::text::nat_text;

verus! {

// ---------------------------------------------------------------------------
// Statements.
// ---------------------------------------------------------------------------

/// Whether commands did what statements mean.
pub open spec fn simulates<R, D>(
    g: Game<R, D>,
    code: Code,
    f: HirFunction,
    cx: Lx,
    cx1: Lx,
    all: Seq<Inst>,
    w: World<R, D>,
    ended: Option<(State<R>, Flow)>,
    m: nat,
    w1: World<R, D>,
) -> bool {
    match ended {
        Some((s1, flow)) => !(cx.top_level && (flow is Break || flow is Continue)) ==> {
            &&& comes_out(
                g,
                code,
                all,
                cx.insts.len() as int,
                w,
                cx1.insts.len() as int,
                w1,
                flow,
                cx.top_level,
                m,
            )
            &&& alike(f, s1, w1)
            &&& keeps_temps(cx, w, w1)
            &&& flow is Normal || !cx.top_level ==> parked(f, w1, flow)
        },
        None => true,
    }
}

proof fn lemma_stmt_is(env: Env, cx: Lx, st: Stmt)
    ensures
        ({
            let cx0 = Lx { at: stmt_span(st), ..cx };
            &&& st is If ==> stmt(env, cx, st) == if_stmt(env, cx0, st)
            &&& st is Loop ==> stmt(env, cx, st) == loop_stmt(env, cx0, st)
            &&& st is Match ==> stmt(env, cx, st) == match_stmt(env, cx0, st)
            &&& st is ForVec ==> stmt(env, cx, st) == for_vec(env, cx0, st)
            &&& st is Context ==> stmt(env, cx, st) == context_stmt(env, cx0, st)
        }),
{
    reveal(context_stmt);
    reveal(stmt);
    reveal(for_vec);
    reveal(if_stmt);
    reveal(loop_stmt);
    reveal(match_stmt);
}

proof fn lemma_stmts_is(env: Env, cx: Lx, body: Seq<Stmt>, i: int)
    ensures
        stmts(env, cx, body, i) == if i < 0 || i >= body.len() {
            cx
        } else {
            stmts(env, stmt(env, cx, body[i]), body, i + 1)
        },
{
    reveal(stmts);
    reveal(stmt);
}

proof fn lemma_split_is(env: Env, cx: Lx, kind: Seq<char>, body: Seq<Stmt>)
    ensures
        ({
            let path = cx.next_path(kind);
            let outer = cx.counted();
            split(env, cx, kind, body) == (
                outer.close(env.function.id, path, stmts(env, outer.child(path), body, 0)),
                path,
            )
        }),
{
    reveal(split);
    reveal(stmts);
}

/// Statements one after the other do what they mean.
proof fn sim_block<R, D>(
    g: Game<R, D>,
    code: Code,
    env: Env,
    cx: Lx,
    body: Seq<Stmt>,
    i: int,
    s: State<R>,
    w: World<R, D>,
    all: Seq<Inst>,
    n: nat,
) -> (r: (nat, World<R, D>))
    requires
        0 <= i,
        exec_block(g, env, body, i, s, n) is Some,
        alike(env.function, s, w),
        parked(env.function, w, Flow::Normal),
        ready(code, all, cx, stmts(env, cx, body, i)),
        cx.body_root ==> !escapes(body, i).continues,
    ensures
        simulates(
            g,
            code,
            env.function,
            cx,
            stmts(env, cx, body, i),
            all,
            w,
            exec_block(g, env, body, i, s, n),
            r.0,
            r.1,
        ),
    decreases n, body, body.len() - i,
{
    lemma_stmts_is(env, cx, body, i);
    let at = cx.insts.len() as int;
    let top = cx.top_level;
    let end = stmts(env, cx, body, i);
    if i >= body.len() {
        lemma_stays(g, code, all, at, w, top);
        (0, w)
    } else {
        let mid = stmt(env, cx, body[i]);
        stmt_carries(env, cx, body[i]);
        stmts_carries(env, mid, body, i + 1);
        lemma_ready(code, all, cx, mid, end);
        assert(cx.body_root ==> !stmt_escapes(body[i]).continues && !escapes(
            body,
            i + 1,
        ).continues) by {
            reveal(escapes);
            reveal(stmt_escapes);
        }
        let (m1, w1) = sim_stmt(g, code, env, cx, body[i], s, w, all, n);
        let to = end.insts.len() as int;
        let by = mid.insts.len() as int;
        match exec_stmt(g, env, body[i], s, n) {
            Some((s1, Flow::Normal)) => {
                let (m2, w2) = sim_block(g, code, env, mid, body, i + 1, s1, w1, all, n);
                let m = if m1 > m2 {
                    m1
                } else {
                    m2
                };
                let flow = flow_of(exec_block(g, env, body, i + 1, s1, n));
                if !(top && (flow is Break || flow is Continue)) {
                    lemma_onwards(g, code, all, at, w, by, w1, to, w2, flow, top, m1, m2, m);
                }
                (m, w2)
            },
            Some((s1, flow)) => {
                if !(top && (flow is Break || flow is Continue)) {
                    lemma_left_anyway(g, code, all, at, w, by, to, w1, flow, top, m1);
                }
                (m1, w1)
            },
            None => (0, w),
        }
    }
}

proof fn sim_stmt<R, D>(
    g: Game<R, D>,
    code: Code,
    env: Env,
    cx: Lx,
    st: Stmt,
    s: State<R>,
    w: World<R, D>,
    all: Seq<Inst>,
    n: nat,
) -> (r: (nat, World<R, D>))
    requires
        exec_stmt(g, env, st, s, n) is Some,
        alike(env.function, s, w),
        parked(env.function, w, Flow::Normal),
        ready(code, all, cx, stmt(env, cx, st)),
        cx.body_root ==> !stmt_escapes(st).continues,
    ensures
        simulates(
            g,
            code,
            env.function,
            cx,
            stmt(env, cx, st),
            all,
            w,
            exec_stmt(g, env, st, s, n),
            r.0,
            r.1,
        ),
    decreases n, st, 2int,
{
    let f = env.function;
    let at = cx.insts.len() as int;
    let top = cx.top_level;
    let cx0 = Lx { at: stmt_span(st), ..cx };
    lemma_stmt_is(env, cx, st);
    match st {
        Stmt::If(_, _, _, _, _) => sim_if(g, code, env, cx0, st, s, w, all, n),
        Stmt::Loop(_, _, _, _) => sim_loop_stmt(g, code, env, cx0, st, s, w, all, n),
        Stmt::Context(_, _, _, _, _) => sim_context(g, code, env, cx0, st, s, w, all, n),
        Stmt::ForVec(_, _, _, _) => sim_for_stmt(g, code, env, cx0, st, s, w, all, n),
        Stmt::Match(_, _, _) => sim_match(g, code, env, cx0, st, s, w, all, n),
        Stmt::Raw(raw) => {
            reveal(stmt);
            let text = raw.parts[0]->Lit_0;
            let inst = Inst::Raw(text, raw.span);
            let w1 = World { rest: (g.raw)(w.rest, text), ..w };
            lemma_emitted(cx.insts, inst, all);
            lemma_one_step(g, code, all, at, w, w1, top, 0);
            (0, w1)
        },
        Stmt::Assert(test, message, span) => {
            if env.debug {
                let (cx1, c) = cond(env, cx0, test);
                let says = Inst::Raw(complaint(message), span);
                let guard = Inst::Guarded(negation(c), Box::new(says));
                assert(stmt(env, cx, st) == cx1.emit(guard)) by {
                    reveal(stmt);
                    reveal(cond);
                }
                following();
                cond_carries(env, cx0, test);
                assert(follows(cx0, cx1) && follows(cx1, cx1.emit(guard)));
                lemma_ready(code, all, cx0, cx1, cx1.emit(guard));
                lemma_emitted(cx1.insts, guard, all);
                let w1 = sim_cond(g, code, env, cx0, test, s, w, all);
                let by = cx1.insts.len() as int;
                lemma_negation_is_not(c, w1.scores);
                assert(!(negation(c) is Data));
                if meaning(f, s.vars, test) != 0 {
                    lemma_guard_fails(g, code, all, by, negation(c), says, w1, top);
                    lemma_onwards(
                        g, code, all, at, w, by, w1, by + 1, w1, Flow::Normal, top, 0, 0, 0,
                    );
                    (0, w1)
                } else {
                    let w2 = World { rest: (g.raw)(w1.rest, complaint(message)), ..w1 };
                    lemma_guard_holds(g, code, all, by, negation(c), says, w1, w2, top, 0);
                    lemma_onwards(
                        g, code, all, at, w, by, w1, by + 1, w2, Flow::Normal, top, 0, 0, 0,
                    );
                    lemma_keeps_further(cx, cx1, w, w1, w2);
                    (0, w2)
                }
            } else {
                reveal(stmt);
                lemma_stays(g, code, all, at, w, top);
                (0, w)
            }
        },
        Stmt::Let(local, value, _) => {
            reveal(stmt);
            let dst = local_reg(f, local);
            let w1 = sim_store(g, code, env, cx0, dst, None, value, s, w, all);
            (0, w1)
        },
        Stmt::Assign(place, op, value, _) => {
            reveal(stmt);
            let dst = place_reg(f, place);
            let w1 = sim_store(g, code, env, cx0, dst, op, value, s, w, all);
            (0, w1)
        },
        Stmt::Break(_) => {
            reveal(stmt);
            if !top {
                sim_jump(g, code, env, cx0, w, all, CTL_BREAK, Flow::Break);
            }
            lemma_coded(f, cx, s, w, CTL_BREAK);
            (0, coded(f, w, CTL_BREAK))
        },
        Stmt::Continue(_) => {
            reveal(stmt);
            reveal(stmt_escapes);
            if !top {
                sim_jump(g, code, env, cx0, w, all, CTL_CONTINUE, Flow::Continue);
            }
            lemma_coded(f, cx, s, w, CTL_CONTINUE);
            (0, coded(f, w, CTL_CONTINUE))
        },
        Stmt::Return(value, _) => {
            reveal(stmt);
            let v = match value {
                Some(e) => meaning(f, s.vars, e),
                None => 0,
            };
            let w1 = sim_return(g, code, env, cx0, value, s, w, all, v);
            (0, w1)
        },
        _ => (0, w),
    }
}

/// A block that was split out does what its statements mean when it is called.
proof fn sim_split<R, D>(
    g: Game<R, D>,
    code: Code,
    env: Env,
    cx: Lx,
    kind: Seq<char>,
    body: Seq<Stmt>,
    s: State<R>,
    w: World<R, D>,
    all: Seq<Inst>,
    n: nat,
) -> (r: (nat, World<R, D>))
    requires
        exec_block(g, env, body, 0, s, n) is Some,
        alike(env.function, s, w),
        parked(env.function, w, Flow::Normal),
        ready(code, all, cx, split(env, cx, kind, body).0),
    ensures
        ({
            let (cx1, path) = split(env, cx, kind, body);
            let f = env.function;
            match exec_block(g, env, body, 0, s, n) {
                Some((s1, flow)) => {
                    &&& calls_to(g, code, path, w, r.1, r.0)
                    &&& alike(f, s1, r.1)
                    &&& keeps_temps(cx, w, r.1)
                    &&& parked(f, r.1, flow)
                },
                None => false,
            }
        }),
    decreases n, body, body.len() + 1,
{
    lemma_split_is(env, cx, kind, body);
    let path = cx.next_path(kind);
    let outer = cx.counted();
    let first = outer.child(path);
    let inner = stmts(env, first, body, 0);
    stmts_carries(env, first, body, 0);
    lemma_split_out(code, all, outer, env.function.id, path, first, inner);
    let (m, w1) = sim_block(g, code, env, first, body, 0, s, w, inner.insts, n);
    let flow = flow_of(exec_block(g, env, body, 0, s, n));
    lemma_called(g, code, path, w, w1, flow, false, m);
    (m, w1)
}

/// What ends a statement whose blocks can be left: the transfer is handed on, if there can
/// be one.
proof fn sim_hand_on<R, D>(
    g: Game<R, D>,
    code: Code,
    env: Env,
    cx: Lx,
    w: World<R, D>,
    all: Seq<Inst>,
    flow: Flow,
    any: bool,
)
    requires
        parked(env.function, w, flow),
        !any ==> flow is Normal,
        !(cx.top_level && (flow is Break || flow is Continue)),
        any ==> grows(propagate(env, cx).insts, all),
    ensures
        ({
            let cx1 = if any {
                propagate(env, cx)
            } else {
                cx
            };
            comes_out(
                g,
                code,
                all,
                cx.insts.len() as int,
                w,
                cx1.insts.len() as int,
                w,
                flow,
                cx.top_level,
                0,
            )
        }),
{
    if any {
        sim_propagate(g, code, env, cx, w, all, flow);
    } else {
        lemma_stays(g, code, all, cx.insts.len() as int, w, cx.top_level);
    }
}

/// The one command of a statement does what the statement means.
proof fn lemma_alone<R, D>(
    g: Game<R, D>,
    code: Code,
    insts: Seq<Inst>,
    w: World<R, D>,
    w1: World<R, D>,
    top: bool,
    m: nat,
)
    requires
        insts.len() > 0,
        comes_out(g, code, insts, insts.len() - 1, w, insts.len() as int, w1, Flow::Normal, top, m),
    ensures
        forall|fuel: nat|
            fuel >= m ==> #[trigger] step(g, code, insts.last(), w, fuel) == Some(
                (w1, None::<i32>),
            ),
{
    reveal(comes_out);
    assert forall|fuel: nat| fuel >= m implies #[trigger] step(g, code, insts.last(), w, fuel)
        == Some((w1, None::<i32>)) by {
        let i = insts.len() - 1;
        assert(run(g, code, insts, i, w, fuel) == Some((w1, None::<i32>)));
        match step(g, code, insts[i], w, fuel) {
            Some((w2, None)) => {
                assert(run(g, code, insts, i + 1, w2, fuel) == Some((w2, None::<i32>)));
            },
            _ => {},
        }
    }
}

/// An `if` of one command.
proof fn sim_if_inlined<R, D>(
    g: Game<R, D>,
    code: Code,
    env: Env,
    cx: Lx,
    test: Expr,
    taken: Seq<Stmt>,
    s: State<R>,
    w: World<R, D>,
    all: Seq<Inst>,
    n: nat,
) -> (r: (nat, World<R, D>))
    requires
        taken.len() == 1,
        !escapes(taken, 0).any(),
        is_test(env.function, s.vars, test),
        meaning(env.function, s.vars, test) != 0 ==> exec_block(g, env, taken, 0, s, n) is Some,
        alike(env.function, s, w),
        parked(env.function, w, Flow::Normal),
        ({
            let (cx1, c) = cond(env, cx, test);
            let (cx2, one) = inlined(env, cx1, taken[0]);
            one is Some && ready(code, all, cx, cx2.emit(Inst::Guarded(c, Box::new(one->0))))
        }),
    ensures
        ({
            let (cx1, c) = cond(env, cx, test);
            let (cx2, one) = inlined(env, cx1, taken[0]);
            simulates(
                g,
                code,
                env.function,
                cx,
                cx2.emit(Inst::Guarded(c, Box::new(one->0))),
                all,
                w,
                if meaning(env.function, s.vars, test) != 0 {
                    exec_block(g, env, taken, 0, s, n)
                } else {
                    Some((s, Flow::Normal))
                },
                r.0,
                r.1,
            )
        }),
    decreases n, taken, 0int,
{
    following();
    let f = env.function;
    let top = cx.top_level;
    let at = cx.insts.len() as int;
    let (cx1, c) = cond(env, cx, test);
    let st = taken[0];
    let cxs = stmt(env, cx1, st);
    let (cx2, one) = inlined(env, cx1, st);
    let inst = one->0;
    let guard = Inst::Guarded(c, Box::new(inst));
    let end = cx2.emit(guard);
    cond_carries(env, cx, test);
    inlined_carries(env, cx1, st);
    stmt_carries(env, cx1, st);
    assert(cx2 == (Lx { insts: kept(cxs.insts, cx1.insts.len()), ..cxs }) && inst
        == cxs.insts.last() && cxs.insts.len() == cx1.insts.len() + 1) by {
        reveal(inlined);
        reveal(stmt);
    }
    assert(cx2.insts == cx1.insts) by {
        reveal(grows);
    }
    lemma_ready(code, all, cx, cx1, end);
    lemma_emitted(cx1.insts, guard, all);
    let by = cx1.insts.len() as int;
    let w1 = sim_cond(g, code, env, cx, test, s, w, all);
    if meaning(f, s.vars, test) != 0 {
        lemma_escapes_are_foreseen(g, env, taken, 0, s, n);
        reveal_with_fuel(exec_block, 2);
        grows_facts_for::<Inst>();
        assert(ready(code, cxs.insts, cx1, cxs));
        assert(!stmt_escapes(st).any()) by {
            reveal(escapes);
            reveal(stmt_escapes);
        }
        let (m, w2) = sim_stmt(g, code, env, cx1, st, s, w1, cxs.insts, n);
        lemma_alone(g, code, cxs.insts, w1, w2, top, m);
        lemma_guard_holds(g, code, all, by, c, inst, w1, w2, top, m);
        lemma_onwards(g, code, all, at, w, by, w1, by + 1, w2, Flow::Normal, top, 0, m, m);
        lemma_keeps_further(cx, cx1, w, w1, w2);
        (m, w2)
    } else {
        lemma_guard_fails(g, code, all, by, c, inst, w1, top);
        lemma_onwards(g, code, all, at, w, by, w1, by + 1, w1, Flow::Normal, top, 0, 0, 0);
        (0, w1)
    }
}

/// The test of an `if` and the branches that were split out of it.
spec fn branches(
    env: Env,
    cx: Lx,
    c: Cond,
    taken: Seq<Stmt>,
    otherwise: Option<Seq<Stmt>>,
) -> Lx {
    let (cx1, path) = split(env, cx, "if"@, taken);
    let cx2 = cx1.emit(Inst::Guarded(c, Box::new(Inst::Call(path))));
    match otherwise {
        Some(otherwise) => {
            let (cx3, other) = split(env, cx2, "else"@, otherwise);
            cx3.emit(Inst::Guarded(negation(c), Box::new(Inst::Call(other))))
        },
        None => cx2,
    }
}

proof fn lemma_branches_follow(
    env: Env,
    cx: Lx,
    c: Cond,
    taken: Seq<Stmt>,
    otherwise: Option<Seq<Stmt>>,
)
    ensures
        follows(cx, branches(env, cx, c, taken, otherwise)),
{
    following();
    split_carries(env, cx, "if"@, taken);
    let (cx1, path) = split(env, cx, "if"@, taken);
    let cx2 = cx1.emit(Inst::Guarded(c, Box::new(Inst::Call(path))));
    match otherwise {
        Some(otherwise) => {
            split_carries(env, cx2, "else"@, otherwise);
            let (cx3, other) = split(env, cx2, "else"@, otherwise);
            assert(follows(cx2, cx3));
            assert(follows(cx3, cx3.emit(Inst::Guarded(negation(c), Box::new(Inst::Call(other))))));
        },
        None => {},
    }
}

/// What the branches of an `if` do, once its test is worked out: one of them runs.
spec fn chosen<R, D>(
    g: Game<R, D>,
    env: Env,
    test: Expr,
    taken: Seq<Stmt>,
    otherwise: Option<Seq<Stmt>>,
    s: State<R>,
    n: nat,
) -> Option<(State<R>, Flow)> {
    if meaning(env.function, s.vars, test) != 0 {
        exec_block(g, env, taken, 0, s, n)
    } else {
        match otherwise {
            Some(otherwise) => exec_block(g, env, otherwise, 0, s, n),
            None => Some((s, Flow::Normal)),
        }
    }
}

#[verifier::spinoff_prover]
proof fn sim_branches<R, D>(
    g: Game<R, D>,
    code: Code,
    env: Env,
    cx: Lx,
    lo: nat,
    c: Cond,
    test: Expr,
    taken: Seq<Stmt>,
    otherwise: Option<Seq<Stmt>>,
    s: State<R>,
    w: World<R, D>,
    all: Seq<Inst>,
    n: nat,
    st: Stmt,
) -> (r: (nat, World<R, D>))
    requires
        st matches Stmt::If(a, b, o, _, _) && a == test && b == taken && o == otherwise,
        is_test(env.function, s.vars, test),
        chosen(g, env, test, taken, otherwise, s, n) is Some,
        match chosen(g, env, test, taken, otherwise, s, n) {
            Some((s1, _)) => meaning(env.function, s.vars, test) != 0 ==> otherwise is None
                || untouched(env.function, test, s.vars, s1.vars),
            None => false,
        },
        alike(env.function, s, w),
        parked(env.function, w, Flow::Normal),
        ready(code, all, cx, branches(env, cx, c, taken, otherwise)),
        !(c is Data),
        holds(c, w.scores) == (meaning(env.function, s.vars, test) != 0),
        forall|x: Reg| #[trigger]
            reads(c, x) ==> mentions(env.function, test, x) || between(x, lo, cx.scores as nat),
    ensures
        ({
            let f = env.function;
            let end = branches(env, cx, c, taken, otherwise);
            match chosen(g, env, test, taken, otherwise, s, n) {
                Some((s1, flow)) => {
                    &&& comes_out(
                        g,
                        code,
                        all,
                        cx.insts.len() as int,
                        w,
                        end.insts.len() as int,
                        r.1,
                        Flow::Normal,
                        cx.top_level,
                        r.0,
                    )
                    &&& alike(f, s1, r.1)
                    &&& keeps_temps(cx, w, r.1)
                    &&& parked(f, r.1, flow)
                },
                None => false,
            }
        }),
    decreases n, st, 0int,
{
    following();
    let f = env.function;
    let top = cx.top_level;
    let at = cx.insts.len() as int;
    let end = branches(env, cx, c, taken, otherwise);
    let (cx1, path) = split(env, cx, "if"@, taken);
    let call = Inst::Call(path);
    let guard = Inst::Guarded(c, Box::new(call));
    let cx2 = cx1.emit(guard);
    split_carries(env, cx, "if"@, taken);
    let yes = meaning(f, s.vars, test) != 0;
    assert(cx1.insts == cx.insts) by {
        lemma_split_is(env, cx, "if"@, taken);
    }
    match otherwise {
        Some(otherwise) => {
            let (cx3, other) = split(env, cx2, "else"@, otherwise);
            let recall = Inst::Call(other);
            let back = Inst::Guarded(negation(c), Box::new(recall));
            split_carries(env, cx2, "else"@, otherwise);
            assert(cx3.insts == cx2.insts) by {
                lemma_split_is(env, cx2, "else"@, otherwise);
            }
            assert(end == cx3.emit(back));
            assert(follows(cx3, end));
            lemma_ready(code, all, cx, cx1, end);
            lemma_ready(code, all, cx, cx2, end);
            lemma_ready(code, all, cx2, cx3, end);
            lemma_emitted(cx.insts, guard, all);
            lemma_emitted(cx2.insts, back, all);
            if yes {
                let (m, w1) = sim_split(g, code, env, cx, "if"@, taken, s, w, all, n);
                lemma_call_step(g, code, path, w, w1, m);
                lemma_guard_holds(g, code, all, at, c, call, w, w1, top, m + 1);
                match exec_block(g, env, taken, 0, s, n) {
                    Some((s1, _)) => {
                        lemma_test_again(f, test, c, lo, cx, s, w, s1, w1);
                    },
                    None => {},
                }
                lemma_negation_is_not(c, w1.scores);
                assert(!(negation(c) is Data));
                lemma_guard_fails(g, code, all, at + 1, negation(c), recall, w1, top);
                lemma_onwards(
                    g, code, all, at, w, at + 1, w1, at + 2, w1, Flow::Normal, top, m + 1, 0, m + 1,
                );
                (m + 1, w1)
            } else {
                lemma_guard_fails(g, code, all, at, c, call, w, top);
                let (m, w1) = sim_split(g, code, env, cx2, "else"@, otherwise, s, w, all, n);
                lemma_call_step(g, code, other, w, w1, m);
                lemma_negation_is_not(c, w.scores);
                assert(!(negation(c) is Data));
                lemma_guard_holds(g, code, all, at + 1, negation(c), recall, w, w1, top, m + 1);
                lemma_onwards(
                    g, code, all, at, w, at + 1, w, at + 2, w1, Flow::Normal, top, 0, m + 1, m + 1,
                );
                lemma_keeps_further(cx, cx2, w, w, w1);
                (m + 1, w1)
            }
        },
        None => {
            lemma_ready(code, all, cx, cx1, end);
            lemma_emitted(cx.insts, guard, all);
            if yes {
                let (m, w1) = sim_split(g, code, env, cx, "if"@, taken, s, w, all, n);
                lemma_call_step(g, code, path, w, w1, m);
                lemma_guard_holds(g, code, all, at, c, call, w, w1, top, m + 1);
                (m + 1, w1)
            } else {
                lemma_guard_fails(g, code, all, at, c, call, w, top);
                (0, w)
            }
        },
    }
}

/// An `if` takes the branch it should, and only that one.
#[verifier::spinoff_prover]
proof fn sim_if<R, D>(
    g: Game<R, D>,
    code: Code,
    env: Env,
    cx: Lx,
    st: Stmt,
    s: State<R>,
    w: World<R, D>,
    all: Seq<Inst>,
    n: nat,
) -> (r: (nat, World<R, D>))
    requires
        st is If,
        exec_stmt(g, env, st, s, n) is Some,
        alike(env.function, s, w),
        parked(env.function, w, Flow::Normal),
        ready(code, all, cx, if_stmt(env, cx, st)),
    ensures
        simulates(
            g,
            code,
            env.function,
            cx,
            if_stmt(env, cx, st),
            all,
            w,
            exec_stmt(g, env, st, s, n),
            r.0,
            r.1,
        ),
    decreases n, st, 1int,
{
    let f = env.function;
    let top = cx.top_level;
    let at = cx.insts.len() as int;
    let end = if_stmt(env, cx, st);
    match st {
        Stmt::If(test, taken, otherwise, inline, _) => {
            let escaping = match otherwise {
                Some(otherwise) => escapes(taken, 0).union(escapes(otherwise, 0)),
                None => escapes(taken, 0),
            };
            let (cx1, c) = cond(env, cx, test);
            let tries = otherwise is None && taken.len() == 1 && !escaping.any() && inline
                != Inline::Never;
            let (cx2, one) = if tries {
                inlined(env, cx1, taken[0])
            } else {
                (cx1, None)
            };
            let cx5 = branches(env, cx2, c, taken, otherwise);
            assert(end == match one {
                Some(inst) => cx2.emit(Inst::Guarded(c, Box::new(inst))),
                None => if escaping.any() {
                    propagate(env, cx5)
                } else {
                    cx5
                },
            }) by {
                reveal(if_stmt);
                reveal(inlined);
                reveal(split);
            }
            if one is Some {
                sim_if_inlined(g, code, env, cx, test, taken, s, w, all, n)
            } else {
                following();
                cond_carries(env, cx, test);
                if tries {
                    inlined_carries(env, cx1, taken[0]);
                }
                assert(cx2.insts == cx1.insts) by {
                    if tries {
                        stmt_carries(env, cx1, taken[0]);
                        reveal(inlined);
                        reveal(stmt);
                        reveal(grows);
                    }
                }
                lemma_branches_follow(env, cx2, c, taken, otherwise);
                propagate_carries(env, cx5);
                assert(follows(cx, cx1) && follows(cx1, cx2));
                assert(follows(cx2, cx5) && follows(cx5, end));
                assert(follows(cx1, end) && follows(cx2, end));
                lemma_ready(code, all, cx, cx1, end);
                lemma_ready(code, all, cx1, cx2, end);
                lemma_ready(code, all, cx2, cx5, end);
                let w1 = sim_cond(g, code, env, cx, test, s, w, all);
                let lo = cx.scores as nat;
                assert forall|x: Reg| #[trigger] reads(c, x) implies mentions(f, test, x)
                    || between(x, lo, cx2.scores as nat) by {
                    if between(x, lo, cx1.scores as nat) {
                        let k = choose|k: nat| lo <= k < cx1.scores && x == #[trigger] temporary(k);
                        assert(lo <= k < cx2.scores);
                    }
                }
                let (m, w2) = sim_branches(
                    g, code, env, cx2, lo, c, test, taken, otherwise, s, w1, all, n, st,
                );
                let flow = flow_of(exec_stmt(g, env, st, s, n));
                let by = cx1.insts.len() as int;
                let b5 = cx5.insts.len() as int;
                let to = end.insts.len() as int;
                lemma_onwards(
                    g, code, all, at, w, by, w1, b5, w2, Flow::Normal, top, 0, m, m,
                );
                if !escaping.any() {
                    lemma_stmt_escapes(g, env, st, s, n);
                    reveal(stmt_escapes);
                    reveal(escapes);
                }
                if !(top && (flow is Break || flow is Continue)) {
                    sim_hand_on(g, code, env, cx5, w2, all, flow, escaping.any());
                    lemma_onwards(g, code, all, at, w, b5, w2, to, w2, flow, top, m, 0, m);
                }
                lemma_keeps_further(cx, cx2, w, w1, w2);
                (m, w2)
            }
        },
        _ => (0, w),
    }
}

// ---------------------------------------------------------------------------
// Loops.
// ---------------------------------------------------------------------------

/// The start of a round: the loop is left where its test fails.
spec fn tested(env: Env, first: Lx, test: Option<Expr>) -> Lx {
    match test {
        Some(test) => {
            let (cx, c) = cond(env, first, test);
            cx.emit(Inst::Guarded(negation(c), Box::new(Inst::Return(0))))
        },
        None => first,
    }
}

/// The function of a loop: one round, and the next.
spec fn round(env: Env, first: Lx, path: Seq<char>, test: Option<Expr>, body: Seq<Stmt>) -> Lx {
    loop_body(env, tested(env, first, test), body).emit(Inst::Call(path))
}

proof fn lemma_round_follows(
    env: Env,
    first: Lx,
    path: Seq<char>,
    test: Option<Expr>,
    body: Seq<Stmt>,
)
    ensures
        follows(first, tested(env, first, test)),
        follows(tested(env, first, test), loop_body(env, tested(env, first, test), body)),
        follows(first, round(env, first, path, test, body)),
{
    following();
    match test {
        Some(test) => cond_carries(env, first, test),
        None => {},
    }
    loop_body_carries(env, tested(env, first, test), body);
    let cx = loop_body(env, tested(env, first, test), body);
    assert(follows(cx, cx.emit(Inst::Call(path))));
}

/// Whether the control register says how a loop ended, before its own `break` is cleared.
spec fn over<R, D>(f: HirFunction, w: World<R, D>, flow: Flow, breaks: bool) -> bool {
    match flow {
        Flow::Return(_) => parked(f, w, flow),
        _ => parked(f, w, Flow::Normal) || breaks && parked(f, w, Flow::Break),
    }
}

/// How the body of a loop ends a round: the way it is left, and the world by then.
spec fn round_ends(flow: Flow) -> bool {
    flow is Break || flow is Return
}

/// The body of a loop, in place: `continue` ends only the round.
#[verifier::spinoff_prover]
proof fn sim_round<R, D>(
    g: Game<R, D>,
    code: Code,
    env: Env,
    cx: Lx,
    body: Seq<Stmt>,
    s: State<R>,
    w: World<R, D>,
    all: Seq<Inst>,
    n: nat,
) -> (r: (nat, World<R, D>))
    requires
        exec_block(g, env, body, 0, s, n) is Some,
        alike(env.function, s, w),
        parked(env.function, w, Flow::Normal),
        !cx.top_level,
        !cx.body_root,
        ready(code, all, cx, loop_body(env, cx, body)),
    ensures
        ({
            let f = env.function;
            let end = loop_body(env, cx, body);
            match exec_block(g, env, body, 0, s, n) {
                Some((s1, flow)) => {
                    let out = if flow is Continue {
                        Flow::Normal
                    } else {
                        flow
                    };
                    &&& comes_out(
                        g,
                        code,
                        all,
                        cx.insts.len() as int,
                        w,
                        end.insts.len() as int,
                        r.1,
                        out,
                        false,
                        r.0,
                    )
                    &&& alike(f, s1, r.1)
                    &&& keeps_temps(cx, w, r.1)
                    &&& parked(f, r.1, out)
                },
                None => false,
            }
        }),
    decreases n, body, body.len() + 2,
{
    let f = env.function;
    let at = cx.insts.len() as int;
    let end = loop_body(env, cx, body);
    let flow = flow_of(exec_block(g, env, body, 0, s, n));
    lemma_escapes_are_foreseen(g, env, body, 0, s, n);
    following();
    if escapes(body, 0).continues {
        let (cx1, path) = split(env, cx, "body"@, body);
        let call = Inst::Call(path);
        let cx2 = cx1.emit(call);
        let cx3 = consume(env, cx2, CTL_CONTINUE);
        assert(end == propagate(env, cx3)) by {
            reveal(loop_body);
            reveal(split);
        }
        split_carries(env, cx, "body"@, body);
        consume_carries(env, cx2, CTL_CONTINUE);
        propagate_carries(env, cx3);
        assert(follows(cx, cx1) && follows(cx1, cx2) && follows(cx2, cx3) && follows(cx3, end));
        assert(follows(cx1, end) && follows(cx2, end) && follows(cx, cx2) && follows(cx, cx3));
        lemma_ready(code, all, cx, cx1, end);
        lemma_ready(code, all, cx, cx2, end);
        lemma_ready(code, all, cx, cx3, end);
        assert(cx1.insts == cx.insts) by {
            lemma_split_is(env, cx, "body"@, body);
        }
        lemma_emitted(cx.insts, call, all);
        let (m, w1) = sim_split(g, code, env, cx, "body"@, body, s, w, all, n);
        lemma_call_step(g, code, path, w, w1, m);
        lemma_one_step(g, code, all, at, w, w1, false, m + 1);
        let w2 = sim_consume(g, code, env, cx2, w1, all, CTL_CONTINUE);
        lemma_coded(f, cx, s, w1, CTL_NORMAL);
        match exec_block(g, env, body, 0, s, n) {
            Some((s1, _)) => lemma_coded(f, cx, s1, w1, CTL_NORMAL),
            None => {},
        }
        let out = if flow is Continue {
            Flow::Normal
        } else {
            flow
        };
        let b3 = cx3.insts.len() as int;
        let to = end.insts.len() as int;
        lemma_onwards(
            g, code, all, at, w, at + 1, w1, b3, w2, Flow::Normal, false, m + 1, 0, m + 1,
        );
        sim_propagate(g, code, env, cx3, w2, all, out);
        lemma_onwards(g, code, all, at, w, b3, w2, to, w2, out, false, m + 1, 0, m + 1);
        lemma_keeps_further(cx, cx, w, w1, w2);
        (m + 1, w2)
    } else {
        assert(end == stmts(env, cx, body, 0)) by {
            reveal(loop_body);
            reveal(stmts);
        }
        sim_block(g, code, env, cx, body, 0, s, w, all, n)
    }
}

/// A loop goes round as often as it should.
#[verifier::spinoff_prover]
proof fn sim_loop<R, D>(
    g: Game<R, D>,
    code: Code,
    env: Env,
    first: Lx,
    path: Seq<char>,
    test: Option<Expr>,
    body: Seq<Stmt>,
    s: State<R>,
    w: World<R, D>,
    n: nat,
) -> (r: (nat, World<R, D>))
    requires
        exec_loop(g, env, test, body, s, n) is Some,
        alike(env.function, s, w),
        parked(env.function, w, Flow::Normal),
        !first.top_level,
        !first.body_root,
        first.insts.len() == 0,
        code.contains_key(path),
        code[path] == round(env, first, path, test, body).insts,
        ready(code, code[path], first, round(env, first, path, test, body)),
    ensures
        ({
            let f = env.function;
            match exec_loop(g, env, test, body, s, n) {
                Some((s1, flow)) => {
                    &&& calls_to(g, code, path, w, r.1, r.0)
                    &&& alike(f, s1, r.1)
                    &&& keeps_temps(first, w, r.1)
                    &&& over(f, r.1, flow, escapes(body, 0).breaks)
                },
                None => false,
            }
        }),
    decreases n, body, -1int,
{
    let f = env.function;
    let all = code[path];
    let end = round(env, first, path, test, body);
    let to = end.insts.len() as int;
    lemma_round_follows(env, first, path, test, body);
    following();
    let cx1 = tested(env, first, test);
    let cx2 = loop_body(env, cx1, body);
    assert(end == cx2.emit(Inst::Call(path)));
    assert(follows(cx2, end));
    assert(follows(cx1, end));
    lemma_ready(code, all, first, cx1, end);
    lemma_ready(code, all, cx1, cx2, end);
    lemma_emitted(cx2.insts, Inst::Call(path), all);
    let b1 = cx1.insts.len() as int;
    let b2 = cx2.insts.len() as int;
    let m0 = (n - 1) as nat;
    let stops = test is Some && meaning(f, s.vars, test->0) == 0;
    let w1 = match test {
        Some(test) => {
            let (cx0, c) = cond(env, first, test);
            cond_carries(env, first, test);
            let leave = Inst::Return(0);
            assert(cx1 == cx0.emit(Inst::Guarded(negation(c), Box::new(leave))));
            assert(follows(cx0, cx1));
            assert(follows(cx0, end));
            lemma_ready(code, all, first, cx0, end);
            lemma_emitted(cx0.insts, Inst::Guarded(negation(c), Box::new(leave)), all);
            let b0 = cx0.insts.len() as int;
            let w1 = sim_cond(g, code, env, first, test, s, w, all);
            lemma_negation_is_not(c, w1.scores);
            assert(!(negation(c) is Data));
            if stops {
                let gone = Flow::Break;
                lemma_guard_leaves(g, code, all, b0, negation(c), leave, w1, gone, false, to);
                lemma_onwards(g, code, all, 0, w, b0, w1, to, w1, gone, false, 0, 0, 0);
                lemma_called(g, code, path, w, w1, gone, false, 0);
            } else {
                lemma_guard_fails(g, code, all, b0, negation(c), leave, w1, false);
                lemma_onwards(g, code, all, 0, w, b0, w1, b1, w1, Flow::Normal, false, 0, 0, 0);
            }
            w1
        },
        None => {
            lemma_stays(g, code, all, 0, w, false);
            w
        },
    };
    if stops {
        (0, w1)
    } else {
        lemma_escapes_are_foreseen(g, env, body, 0, s, m0);
        let (m1, w2) = sim_round(g, code, env, cx1, body, s, w1, all, m0);
        lemma_keeps_further(first, cx1, w, w1, w2);
        match exec_block(g, env, body, 0, s, m0) {
            Some((s1, flow)) => {
                if round_ends(flow) {
                    lemma_onwards(g, code, all, 0, w, b1, w1, b2, w2, flow, false, 0, m1, m1);
                    lemma_left_anyway(g, code, all, 0, w, b2, to, w2, flow, false, m1);
                    lemma_called(g, code, path, w, w2, flow, false, m1);
                    (m1, w2)
                } else {
                    let (m2, w3) = sim_loop(g, code, env, first, path, test, body, s1, w2, m0);
                    lemma_call_step(g, code, path, w2, w3, m2);
                    lemma_one_step(g, code, all, b2, w2, w3, false, m2 + 1);
                    let m = m1 + m2 + 1;
                    let normal = Flow::Normal;
                    lemma_onwards(g, code, all, 0, w, b1, w1, b2, w2, normal, false, 0, m1, m1);
                    lemma_onwards(g, code, all, 0, w, b2, w2, to, w3, normal, false, m1, m2 + 1, m);
                    lemma_called(g, code, path, w, w3, normal, false, m);
                    lemma_keeps_further(first, first, w, w2, w3);
                    (m, w3)
                }
            },
            None => (0, w),
        }
    }
}

/// What follows a loop: its own `break` is over, and a `return` goes on.
proof fn sim_after_loop<R, D>(
    g: Game<R, D>,
    code: Code,
    env: Env,
    cx: Lx,
    escaping: Escapes,
    s: State<R>,
    w: World<R, D>,
    all: Seq<Inst>,
    flow: Flow,
) -> (w1: World<R, D>)
    requires
        alike(env.function, s, w),
        over(env.function, w, flow, escaping.breaks),
        flow is Normal || flow is Return && escaping.returns,
        ready(code, all, cx, after_loop(env, cx, escaping)),
    ensures
        comes_out(
            g,
            code,
            all,
            cx.insts.len() as int,
            w,
            after_loop(env, cx, escaping).insts.len() as int,
            w1,
            flow,
            cx.top_level,
            0,
        ),
        alike(env.function, s, w1),
        keeps_temps(cx, w, w1),
        parked(env.function, w1, flow),
{
    following();
    let f = env.function;
    let top = cx.top_level;
    let at = cx.insts.len() as int;
    let end = after_loop(env, cx, escaping);
    let to = end.insts.len() as int;
    let cx1 = if escaping.breaks {
        consume(env, cx, CTL_BREAK)
    } else {
        cx
    };
    consume_carries(env, cx, CTL_BREAK);
    propagate_carries(env, cx1);
    assert(follows(cx, cx1) && follows(cx1, end));
    lemma_ready(code, all, cx, cx1, end);
    let by = cx1.insts.len() as int;
    lemma_coded(f, cx, s, w, CTL_NORMAL);
    let w1 = if escaping.breaks {
        sim_consume(g, code, env, cx, w, all, CTL_BREAK)
    } else {
        lemma_stays(g, code, all, at, w, top);
        w
    };
    sim_hand_on(g, code, env, cx1, w1, all, flow, escaping.returns);
    lemma_onwards(g, code, all, at, w, by, w1, to, w1, flow, top, 0, 0, 0);
    w1
}

/// A loop does what it means: it goes round while it should, and what is left of a `return`
/// goes on.
#[verifier::spinoff_prover]
proof fn sim_loop_stmt<R, D>(
    g: Game<R, D>,
    code: Code,
    env: Env,
    cx: Lx,
    st: Stmt,
    s: State<R>,
    w: World<R, D>,
    all: Seq<Inst>,
    n: nat,
) -> (r: (nat, World<R, D>))
    requires
        st is Loop,
        exec_stmt(g, env, st, s, n) is Some,
        alike(env.function, s, w),
        parked(env.function, w, Flow::Normal),
        ready(code, all, cx, loop_stmt(env, cx, st)),
    ensures
        simulates(
            g,
            code,
            env.function,
            cx,
            loop_stmt(env, cx, st),
            all,
            w,
            exec_stmt(g, env, st, s, n),
            r.0,
            r.1,
        ),
    decreases n, st, 1int,
{
    match st {
        Stmt::Loop(test, body, _, _) => {
            let f = env.function;
            let top = cx.top_level;
            let at = cx.insts.len() as int;
            let end = loop_stmt(env, cx, st);
            let path = cx.next_path(
                if test is Some {
                    "while"@
                } else {
                    "loop"@
                },
            );
            let outer = cx.counted();
            let first = outer.child(path);
            let inner = round(env, first, path, test, body);
            let closed = outer.close(f.id, path, inner);
            let call = Inst::Call(path);
            let called = closed.emit(call);
            let escaping = escapes(body, 0);
            assert(end == after_loop(env, called, escaping)) by {
                reveal(loop_stmt);
                reveal(loop_body);
            }
            lemma_round_follows(env, first, path, test, body);
            following();
            lemma_close_follows(outer, f.id, path, first, inner);
            assert(follows(cx, outer) && follows(outer, closed) && follows(closed, called));
            assert(follows(called, end)) by {
                let cx1 = if escaping.breaks {
                    consume(env, called, CTL_BREAK)
                } else {
                    called
                };
                consume_carries(env, called, CTL_BREAK);
                propagate_carries(env, cx1);
                assert(follows(called, cx1) && follows(cx1, end));
            }
            assert(follows(closed, end) && follows(outer, end) && follows(cx, called));
            lemma_ready(code, all, cx, outer, end);
            lemma_ready(code, all, outer, closed, end);
            lemma_ready(code, all, cx, called, end);
            lemma_split_out(code, all, outer, f.id, path, first, inner);
            assert(closed.insts == cx.insts);
            lemma_emitted(cx.insts, call, all);
            let (m, w1) = sim_loop(g, code, env, first, path, test, body, s, w, n);
            lemma_call_step(g, code, path, w, w1, m);
            lemma_one_step(g, code, all, at, w, w1, top, m + 1);
            lemma_loop_escapes(g, env, test, body, s, n);
            match exec_loop(g, env, test, body, s, n) {
                Some((s1, flow)) => {
                    let w2 = sim_after_loop(g, code, env, called, escaping, s1, w1, all, flow);
                    let to = end.insts.len() as int;
                    lemma_onwards(
                        g, code, all, at, w, at + 1, w1, to, w2, flow, top, m + 1, 0, m + 1,
                    );
                    lemma_keeps_further(cx, called, w, w1, w2);
                    (m + 1, w2)
                },
                None => (0, w),
            }
        },
        _ => (0, w),
    }
}

proof fn lemma_close_follows(outer: Lx, id: FnId, path: Seq<char>, first: Lx, inner: Lx)
    requires
        follows(first, inner),
        first.scores == outer.scores,
        first.data == outer.data,
        first.iters == outer.iters,
        first.used == outer.used,
        first.used_data == outer.used_data,
        first.used_ctl == outer.used_ctl,
    ensures
        follows(outer, outer.close(id, path, inner)),
{
    reveal(grows);
    let closed = outer.close(id, path, inner);
    assert(closed.generated.take(outer.generated.len() as int) =~= outer.generated);
    grows_facts_for::<Inst>();
}

// ---------------------------------------------------------------------------
// Loops over lists.
// ---------------------------------------------------------------------------

/// The start of a round over a list: the loop is left where nothing is left, and the first
/// element goes into the binding and out of the list.
spec fn taking(env: Env, first: Lx, local: LocalId, head: Seq<char>) -> Lx {
    let cx = first.emit(
        Inst::Guarded(Cond::Data(head, seq![], true), Box::new(Inst::Return(0))),
    );
    bind_local(env, cx, local, local_of(env.function, local).ty, head).emit(
        Inst::RemoveData(head),
    ).initialise(local)
}

spec fn list_round(
    env: Env,
    first: Lx,
    path: Seq<char>,
    local: LocalId,
    head: Seq<char>,
    body: Seq<Stmt>,
) -> Lx {
    loop_body(env, taking(env, first, local, head), body).emit(Inst::Call(path))
}

proof fn lemma_list_round_follows(
    env: Env,
    first: Lx,
    path: Seq<char>,
    local: LocalId,
    head: Seq<char>,
    body: Seq<Stmt>,
)
    ensures
        ({
            let cx = first.emit(
                Inst::Guarded(Cond::Data(head, seq![], true), Box::new(Inst::Return(0))),
            );
            let bound = bind_local(env, cx, local, local_of(env.function, local).ty, head);
            let cx1 = taking(env, first, local, head);
            &&& follows(first, cx)
            &&& follows(cx, bound)
            &&& follows(bound, cx1)
            &&& follows(first, cx1)
            &&& follows(cx1, loop_body(env, cx1, body))
            &&& follows(first, list_round(env, first, path, local, head, body))
        }),
{
    following();
    let cx = first.emit(
        Inst::Guarded(Cond::Data(head, seq![], true), Box::new(Inst::Return(0))),
    );
    bind_local_carries(env, cx, local, local_of(env.function, local).ty, head);
    let bound = bind_local(env, cx, local, local_of(env.function, local).ty, head);
    let removed = bound.emit(Inst::RemoveData(head));
    assert(follows(first, cx) && follows(cx, bound) && follows(bound, removed));
    let cx1 = taking(env, first, local, head);
    assert(follows(removed, cx1));
    loop_body_carries(env, cx1, body);
    let cx2 = loop_body(env, cx1, body);
    assert(follows(cx2, cx2.emit(Inst::Call(path))));
}

/// The world with the first element in its binding and out of the list.
spec fn took<R, D>(
    g: Game<R, D>,
    f: HirFunction,
    w: World<R, D>,
    local: LocalId,
    list: Seq<char>,
) -> World<R, D> {
    let d = w.lists[list][0];
    let lists = w.lists.insert(list, w.lists[list].skip(1));
    if local_of(f, local).ty.storage() {
        World { lists, rest: (g.put)(w.rest, local_path(f, local), d), ..w }
    } else {
        World { lists, scores: w.scores.insert(local_reg(f, local), (g.value)(d)), ..w }
    }
}

#[verifier::spinoff_prover]
proof fn sim_take<R, D>(
    g: Game<R, D>,
    code: Code,
    env: Env,
    first: Lx,
    local: LocalId,
    t: nat,
    s: State<R>,
    w: World<R, D>,
    all: Seq<Inst>,
)
    requires
        alike(env.function, s, w),
        parked(env.function, w, Flow::Normal),
        first.insts.len() == 0,
        apart(env.function, local_reg(env.function, local)),
        grows(taking(env, first, local, list_name(t) + "[0]"@).insts, all),
        w.lists[list_name(t)].len() > 0,
    ensures
        ({
            let f = env.function;
            let cx1 = taking(env, first, local, list_name(t) + "[0]"@);
            let w1 = took(g, f, w, local, list_name(t));
            &&& comes_out(
                g,
                code,
                all,
                0,
                w,
                cx1.insts.len() as int,
                w1,
                Flow::Normal,
                false,
                0,
            )
            &&& alike(f, given(g, f, s, local, w.lists[list_name(t)][0]), w1)
            &&& parked(f, w1, Flow::Normal)
        }),
{
    reveal(bind_local);
    let f = env.function;
    let list = list_name(t);
    let head = list + "[0]"@;
    lemma_list_names(t, t);
    let c = Cond::Data(head, seq![], true);
    let leave = Inst::Return(0);
    let guard = Inst::Guarded(c, Box::new(leave));
    let cx = first.emit(guard);
    let d = w.lists[list][0];
    let dst = local_reg(f, local);
    let (inst, w1) = if local_of(f, local).ty.storage() {
        let to = local_path(f, local);
        (Inst::CopyData(to, head), World { rest: (g.put)(w.rest, to, d), ..w })
    } else {
        (
            Inst::StoreResult(dst, Box::new(Inst::GetData(head))),
            World { scores: w.scores.insert(dst, (g.value)(d)), ..w },
        )
    };
    let gone = Inst::RemoveData(head);
    let cx1 = taking(env, first, local, head);
    assert(cx1.insts =~= first.insts.push(guard).push(inst).push(gone));
    lemma_emitted(first.insts.push(guard).push(inst), gone, all);
    lemma_emitted(first.insts.push(guard), inst, all);
    lemma_emitted(first.insts, guard, all);
    assert(passes(g, c, w) == Some(false));
    lemma_guard_fails(g, code, all, 0, c, leave, w, false);
    assert forall|fuel: nat| fuel >= 0 implies #[trigger] step(g, code, all[1], w, fuel) == Some(
        (w1, None::<i32>),
    ) by {}
    lemma_one_step(g, code, all, 1, w, w1, false, 0);
    let w2 = took(g, f, w, local, list);
    assert forall|fuel: nat| fuel >= 0 implies #[trigger] step(g, code, all[2], w1, fuel) == Some(
        (w2, None::<i32>),
    ) by {}
    lemma_one_step(g, code, all, 2, w1, w2, false, 0);
    lemma_onwards(g, code, all, 0, w, 1, w, 2, w1, Flow::Normal, false, 0, 0, 0);
    lemma_onwards(g, code, all, 0, w, 2, w1, 3, w2, Flow::Normal, false, 0, 0, 0);
}

/// A loop over a list goes round once for each element, in order.
#[verifier::spinoff_prover]
proof fn sim_for<R, D>(
    g: Game<R, D>,
    code: Code,
    env: Env,
    first: Lx,
    path: Seq<char>,
    local: LocalId,
    t: nat,
    body: Seq<Stmt>,
    s: State<R>,
    w: World<R, D>,
    n: nat,
) -> (r: (nat, World<R, D>))
    requires
        exec_for(g, env, local, w.lists[list_name(t)], body, s, n) is Some,
        alike(env.function, s, w),
        parked(env.function, w, Flow::Normal),
        apart(env.function, local_reg(env.function, local)),
        !first.top_level,
        !first.body_root,
        first.insts.len() == 0,
        t + 1 == first.iters,
        code.contains_key(path),
        code[path] == list_round(env, first, path, local, list_name(t) + "[0]"@, body).insts,
        ready(
            code,
            code[path],
            first,
            list_round(env, first, path, local, list_name(t) + "[0]"@, body),
        ),
    ensures
        ({
            let f = env.function;
            match exec_for(g, env, local, w.lists[list_name(t)], body, s, n) {
                Some((s1, flow)) => {
                    &&& calls_to(g, code, path, w, r.1, r.0)
                    &&& alike(f, s1, r.1)
                    &&& keeps_below(first, t, w, r.1)
                    &&& over(f, r.1, flow, escapes(body, 0).breaks)
                },
                None => false,
            }
        }),
    decreases n, body, -1int,
{
    let f = env.function;
    let all = code[path];
    let list = list_name(t);
    let head = list + "[0]"@;
    let items = w.lists[list];
    let end = list_round(env, first, path, local, head, body);
    let to = end.insts.len() as int;
    lemma_list_round_follows(env, first, path, local, head, body);
    lemma_list_names(t, t);
    following();
    let c = Cond::Data(head, seq![], true);
    let leave = Inst::Return(0);
    let guard = Inst::Guarded(c, Box::new(leave));
    let cx0 = first.emit(guard);
    let cx1 = taking(env, first, local, head);
    let cx2 = loop_body(env, cx1, body);
    assert(end == cx2.emit(Inst::Call(path)));
    assert(follows(cx2, end) && follows(cx1, end) && follows(cx0, cx1) && follows(cx0, end));
    lemma_ready(code, all, first, cx0, end);
    lemma_ready(code, all, first, cx1, end);
    lemma_ready(code, all, cx1, cx2, end);
    lemma_emitted(cx2.insts, Inst::Call(path), all);
    lemma_emitted(first.insts, guard, all);
    if items.len() == 0 {
        assert(passes(g, c, w) == Some(true));
        lemma_guard_leaves(g, code, all, 0, c, leave, w, Flow::Break, false, to);
        lemma_called(g, code, path, w, w, Flow::Break, false, 0);
        (0, w)
    } else {
        let m0 = (n - 1) as nat;
        let b1 = cx1.insts.len() as int;
        let b2 = cx2.insts.len() as int;
        let s0 = given(g, f, s, local, items[0]);
        let w1 = took(g, f, w, local, list);
        sim_take(g, code, env, first, local, t, s, w, all);
        lemma_escapes_are_foreseen(g, env, body, 0, s0, m0);
        let (m1, w2) = sim_round(g, code, env, cx1, body, s0, w1, all, m0);
        assert(w2.lists[list_name(t)] == w1.lists[list_name(t)]);
        assert(keeps_below(first, t, w, w2)) by {
            assert forall|k: nat| k < first.scores implies #[trigger] w2.scores[temporary(k)]
                == w.scores[temporary(k)] by {
                assert(w2.scores[temporary(k)] == w1.scores[temporary(k)]);
            }
            assert forall|k: nat| k < first.data implies #[trigger] w2.temps[data_name(k)]
                == w.temps[data_name(k)] by {
                assert(w2.temps[data_name(k)] == w1.temps[data_name(k)]);
            }
            assert forall|k: nat| k < t implies #[trigger] w2.lists[list_name(k)]
                == w.lists[list_name(k)] by {
                lemma_list_names(k, t);
                assert(w2.lists[list_name(k)] == w1.lists[list_name(k)]);
            }
        }
        match exec_block(g, env, body, 0, s0, m0) {
            Some((s1, flow)) => {
                if round_ends(flow) {
                    lemma_onwards(g, code, all, 0, w, b1, w1, b2, w2, flow, false, 0, m1, m1);
                    lemma_left_anyway(g, code, all, 0, w, b2, to, w2, flow, false, m1);
                    lemma_called(g, code, path, w, w2, flow, false, m1);
                    (m1, w2)
                } else {
                    let (m2, w3) = sim_for(g, code, env, first, path, local, t, body, s1, w2, m0);
                    lemma_call_step(g, code, path, w2, w3, m2);
                    lemma_one_step(g, code, all, b2, w2, w3, false, m2 + 1);
                    let m = m1 + m2 + 1;
                    let normal = Flow::Normal;
                    lemma_onwards(g, code, all, 0, w, b1, w1, b2, w2, normal, false, 0, m1, m1);
                    lemma_onwards(g, code, all, 0, w, b2, w2, to, w3, normal, false, m1, m2 + 1, m);
                    lemma_called(g, code, path, w, w3, normal, false, m);
                    (m, w3)
                }
            },
            None => (0, w),
        }
    }
}

/// Whether the temporaries that were handed out before a loop's own list are as they were.
spec fn keeps_below<R, D>(cx: Lx, t: nat, a: World<R, D>, b: World<R, D>) -> bool {
    &&& forall|k: nat|
        k < cx.scores ==> #[trigger] b.scores[temporary(k)] == a.scores[temporary(k)]
    &&& forall|k: nat| k < cx.data ==> #[trigger] b.temps[data_name(k)] == a.temps[data_name(k)]
    &&& forall|k: nat| k < t ==> #[trigger] b.lists[list_name(k)] == a.lists[list_name(k)]
}

/// A loop over a list does what it means.
#[verifier::spinoff_prover]
proof fn sim_for_stmt<R, D>(
    g: Game<R, D>,
    code: Code,
    env: Env,
    cx: Lx,
    st: Stmt,
    s: State<R>,
    w: World<R, D>,
    all: Seq<Inst>,
    n: nat,
) -> (r: (nat, World<R, D>))
    requires
        st is ForVec,
        exec_stmt(g, env, st, s, n) is Some,
        alike(env.function, s, w),
        parked(env.function, w, Flow::Normal),
        ready(code, all, cx, for_vec(env, cx, st)),
    ensures
        simulates(
            g,
            code,
            env.function,
            cx,
            for_vec(env, cx, st),
            all,
            w,
            exec_stmt(g, env, st, s, n),
            r.0,
            r.1,
        ),
    decreases n, st, 1int,
{
    match st {
        Stmt::ForVec(source, local, body, _) => {
            let f = env.function;
            let top = cx.top_level;
            let at = cx.insts.len() as int;
            let end = for_vec(env, cx, st);
            let t = cx.iters as nat;
            let from = place_path(f, source);
            let (cx1, list) = cx.iter_temp();
            let copy = Inst::CopyData(list, from);
            let cx2 = cx1.emit(copy);
            let path = cx2.next_path("for"@);
            let outer = cx2.counted();
            let head = list + "[0]"@;
            let first = outer.child(path);
            let inner = list_round(env, first, path, local, head, body);
            let closed = outer.close(f.id, path, inner);
            let call = Inst::Call(path);
            let called = closed.emit(call);
            let escaping = escapes(body, 0);
            assert(end == after_loop(env, called, escaping)) by {
                reveal(for_vec);
                reveal(loop_body);
            }
            lemma_list_round_follows(env, first, path, local, head, body);
            following();
            lemma_close_follows(outer, f.id, path, first, inner);
            assert(follows(cx, cx1) && follows(cx1, cx2) && follows(cx2, outer));
            assert(follows(outer, closed) && follows(closed, called));
            assert(follows(called, end)) by {
                let cx3 = if escaping.breaks {
                    consume(env, called, CTL_BREAK)
                } else {
                    called
                };
                consume_carries(env, called, CTL_BREAK);
                propagate_carries(env, cx3);
                assert(follows(called, cx3) && follows(cx3, end));
            }
            assert(follows(closed, end) && follows(outer, end) && follows(cx, called));
            assert(follows(cx2, end) && follows(cx1, end) && follows(cx, outer));
            assert(follows(cx, cx2));
            lemma_ready(code, all, cx, cx1, end);
            lemma_ready(code, all, cx, cx2, end);
            lemma_ready(code, all, cx, outer, end);
            lemma_ready(code, all, outer, closed, end);
            lemma_ready(code, all, cx, called, end);
            lemma_split_out(code, all, outer, f.id, path, first, inner);
            assert(closed.insts == cx2.insts);
            lemma_emitted(cx2.insts, call, all);
            lemma_emitted(cx.insts, copy, all);
            lemma_place_path(f, source);
            lemma_not_temporary(from);
            lemma_list_names(t, t);
            assert(list == list_name(t));
            let w1 = World { lists: w.lists.insert(list, (g.items)(w.rest, from)), ..w };
            assert forall|fuel: nat| fuel >= 0 implies #[trigger] step(g, code, all[at], w, fuel)
                == Some((w1, None::<i32>)) by {}
            lemma_one_step(g, code, all, at, w, w1, top, 0);
            assert(alike(f, s, w1));
            assert(first.iters == t + 1);
            let (m, w2) = sim_for(g, code, env, first, path, local, t, body, s, w1, n);
            lemma_call_step(g, code, path, w1, w2, m);
            lemma_one_step(g, code, all, at + 1, w1, w2, top, m + 1);
            lemma_onwards(
                g, code, all, at, w, at + 1, w1, at + 2, w2, Flow::Normal, top, 0, m + 1, m + 1,
            );
            assert(keeps_temps(cx, w, w2)) by {
                assert forall|k: nat| k < cx.iters implies #[trigger] w2.lists[list_name(k)]
                    == w.lists[list_name(k)] by {
                    lemma_list_names(k, t);
                    assert(w2.lists[list_name(k)] == w1.lists[list_name(k)]);
                }
                assert forall|k: nat| k < cx.scores implies #[trigger] w2.scores[temporary(k)]
                    == w.scores[temporary(k)] by {
                    assert(w2.scores[temporary(k)] == w1.scores[temporary(k)]);
                }
                assert forall|k: nat| k < cx.data implies #[trigger] w2.temps[data_name(k)]
                    == w.temps[data_name(k)] by {
                    assert(w2.temps[data_name(k)] == w1.temps[data_name(k)]);
                }
            }
            let items = (g.items)(s.rest, from);
            lemma_for_escapes(g, env, local, items, body, s, n);
            match exec_for(g, env, local, items, body, s, n) {
                Some((s1, flow)) => {
                    let w3 = sim_after_loop(g, code, env, called, escaping, s1, w2, all, flow);
                    let to = end.insts.len() as int;
                    lemma_onwards(
                        g, code, all, at, w, at + 2, w2, to, w3, flow, top, m + 1, 0, m + 1,
                    );
                    lemma_keeps_further(cx, called, w, w2, w3);
                    (m + 1, w3)
                },
                None => (0, w),
            }
        },
        _ => (0, w),
    }
}

// ---------------------------------------------------------------------------
// Bodies that run once per entity.
// ---------------------------------------------------------------------------

/// Whether a command that runs once for each of those entities leads from one world to
/// another, given enough fuel.
#[verifier::opaque]
spec fn turns_to<R, D>(
    g: Game<R, D>,
    code: Code,
    clause: ExecuteAs,
    inst: Inst,
    found: Seq<D>,
    w: World<R, D>,
    w1: World<R, D>,
    m: nat,
) -> bool {
    forall|fuel: nat|
        fuel >= m ==> #[trigger] each_turn(g, code, clause, inst, found, w, fuel) == Some(
            (w1, None::<i32>),
        )
}

proof fn lemma_no_turns<R, D>(
    g: Game<R, D>,
    code: Code,
    clause: ExecuteAs,
    inst: Inst,
    found: Seq<D>,
    w: World<R, D>,
)
    requires
        found.len() == 0,
    ensures
        turns_to(g, code, clause, inst, found, w, w, 0),
{
    reveal(turns_to);
}

proof fn lemma_one_turn<R, D>(
    g: Game<R, D>,
    code: Code,
    clause: ExecuteAs,
    inst: Inst,
    found: Seq<D>,
    w: World<R, D>,
    w1: World<R, D>,
    w2: World<R, D>,
    m1: nat,
    m2: nat,
    m: nat,
)
    requires
        found.len() > 0,
        ({
            let w0 = World { rest: (g.enter)(w.rest, clause, found[0]), ..w };
            forall|fuel: nat|
                fuel >= m1 ==> #[trigger] step(g, code, inst, w0, fuel) == Some((w1, None::<i32>))
        }),
        turns_to(
            g,
            code,
            clause,
            inst,
            found.skip(1),
            World { rest: (g.leave)(w1.rest, w.rest), ..w1 },
            w2,
            m2,
        ),
        m >= m1,
        m >= m2,
    ensures
        turns_to(g, code, clause, inst, found, w, w2, m),
{
    reveal(turns_to);
    let w0 = World { rest: (g.enter)(w.rest, clause, found[0]), ..w };
    assert forall|fuel: nat| fuel >= m implies #[trigger] each_turn(
        g,
        code,
        clause,
        inst,
        found,
        w,
        fuel,
    ) == Some((w2, None::<i32>)) by {
        assert(step(g, code, inst, w0, fuel) == Some((w1, None::<i32>)));
        let next = World { rest: (g.leave)(w1.rest, w.rest), ..w1 };
        assert(each_turn(g, code, clause, inst, found.skip(1), next, fuel) == Some(
            (w2, None::<i32>),
        ));
    }
}

proof fn lemma_all_turns<R, D>(
    g: Game<R, D>,
    code: Code,
    all: Seq<Inst>,
    i: int,
    clause: ExecuteAs,
    inst: Inst,
    w: World<R, D>,
    w1: World<R, D>,
    top: bool,
    m: nat,
)
    requires
        0 <= i < all.len(),
        all[i] == Inst::Context(clause, Box::new(inst)),
        turns_to(g, code, clause, inst, (g.found)(w.rest, clause), w, w1, m),
    ensures
        comes_out(g, code, all, i, w, i + 1, w1, Flow::Normal, top, m),
{
    reveal(turns_to);
    assert forall|fuel: nat| fuel >= m implies #[trigger] step(g, code, all[i], w, fuel) == Some(
        (w1, None::<i32>),
    ) by {
        assert(each_turn(g, code, clause, inst, (g.found)(w.rest, clause), w, fuel) == Some(
            (w1, None::<i32>),
        ));
    }
    lemma_one_step(g, code, all, i, w, w1, top, m);
}

/// The start of a turn: with a transfer pending, the turn is over at once.
spec fn turn_start(env: Env, first: Lx, leaves: bool) -> Lx {
    if leaves {
        first.touch_ctl().emit(
            Inst::Guarded(ctl_is(env, CTL_BREAK, None), Box::new(Inst::Return(0))),
        )
    } else {
        first
    }
}

/// With a transfer pending the turns that are left do nothing.
proof fn sim_idle_turns<R, D>(
    g: Game<R, D>,
    code: Code,
    env: Env,
    path: Seq<char>,
    clause: ExecuteAs,
    found: Seq<D>,
    w: World<R, D>,
)
    requires
        idle_turns(g),
        code.contains_key(path),
        code[path].len() > 0,
        code[path][0] == Inst::Guarded(
            ctl_is(env, CTL_BREAK, None),
            Box::new(Inst::Return(0)),
        ),
        w.scores[ctl_reg(env.function)] >= CTL_BREAK,
    ensures
        turns_to(g, code, clause, Inst::Call(path), found, w, w, 1),
    decreases found.len(),
{
    let inst = Inst::Call(path);
    if found.len() == 0 {
        lemma_no_turns(g, code, clause, inst, found, w);
        reveal(turns_to);
    } else {
        let w0 = World { rest: (g.enter)(w.rest, clause, found[0]), ..w };
        let all = code[path];
        let c = ctl_is(env, CTL_BREAK, None);
        let to = all.len() as int;
        lemma_guard_leaves(g, code, all, 0, c, Inst::Return(0), w0, Flow::Break, false, to);
        lemma_called(g, code, path, w0, w0, Flow::Break, false, 0);
        lemma_call_step(g, code, path, w0, w0, 0);
        assert(World { rest: (g.leave)(w0.rest, w.rest), ..w0 } == w);
        sim_idle_turns(g, code, env, path, clause, found.skip(1), w);
        lemma_one_turn(g, code, clause, inst, found, w, w0, w, 1, 1, 1);
    }
}

/// A body runs once for each entity, until one leaves it.
#[verifier::spinoff_prover]
proof fn sim_turns<R, D>(
    g: Game<R, D>,
    code: Code,
    env: Env,
    first: Lx,
    path: Seq<char>,
    clause: ExecuteAs,
    found: Seq<D>,
    body: Seq<Stmt>,
    s: State<R>,
    w: World<R, D>,
    n: nat,
) -> (r: (nat, World<R, D>))
    requires
        exec_turns(g, env, clause, found, body, s, n) is Some,
        idle_turns(g),
        !escapes(body, 0).continues,
        alike(env.function, s, w),
        parked(env.function, w, Flow::Normal),
        !first.top_level,
        first.insts.len() == 0,
        code.contains_key(path),
        ({
            let leaves = escapes(body, 0).breaks || escapes(body, 0).returns;
            let inner = stmts(env, turn_start(env, first, leaves), body, 0);
            code[path] == inner.insts && ready(code, code[path], first, inner)
        }),
    ensures
        ({
            let f = env.function;
            match exec_turns(g, env, clause, found, body, s, n) {
                Some((s1, flow)) => {
                    &&& turns_to(g, code, clause, Inst::Call(path), found, w, r.1, r.0)
                    &&& alike(f, s1, r.1)
                    &&& keeps_temps(first, w, r.1)
                    &&& over(f, r.1, flow, escapes(body, 0).breaks)
                },
                None => false,
            }
        }),
    decreases n, body, -1int,
{
    let f = env.function;
    let call = Inst::Call(path);
    if found.len() == 0 {
        lemma_no_turns(g, code, clause, call, found, w);
        (0, w)
    } else {
        let m0 = (n - 1) as nat;
        let leaves = escapes(body, 0).breaks || escapes(body, 0).returns;
        let all = code[path];
        let cx1 = turn_start(env, first, leaves);
        let inner = stmts(env, cx1, body, 0);
        let to = inner.insts.len() as int;
        following();
        stmts_carries(env, cx1, body, 0);
        let touched = first.touch_ctl();
        assert(follows(first, touched));
        assert(follows(first, cx1) && follows(cx1, inner));
        lemma_ready(code, all, first, cx1, inner);
        let w0 = World { rest: (g.enter)(w.rest, clause, found[0]), ..w };
        let s0 = State { rest: (g.enter)(s.rest, clause, found[0]), ..s };
        assert(alike(f, s0, w0)) by {
            assert forall|r: Reg| r.kind is Var && apart(f, r) implies #[trigger] w0.scores[r]
                == s0.vars[r] by {
                assert(w.scores[r] == s.vars[r]);
            }
        }
        let b1 = cx1.insts.len() as int;
        if leaves {
            let c = ctl_is(env, CTL_BREAK, None);
            let leave = Inst::Return(0);
            lemma_emitted(first.insts, Inst::Guarded(c, Box::new(leave)), all);
            lemma_guard_fails(g, code, all, 0, c, leave, w0, false);
        } else {
            lemma_stays(g, code, all, 0, w0, false);
        }
        lemma_escapes_are_foreseen(g, env, body, 0, s0, m0);
        let (m1, w1) = sim_block(g, code, env, cx1, body, 0, s0, w0, all, m0);
        match exec_block(g, env, body, 0, s0, m0) {
            Some((s1, flow)) => {
                lemma_onwards(g, code, all, 0, w0, b1, w0, to, w1, flow, false, 0, m1, m1);
                lemma_called(g, code, path, w0, w1, flow, false, m1);
                lemma_call_step(g, code, path, w0, w1, m1);
                let s2 = State { rest: (g.leave)(s1.rest, s.rest), ..s1 };
                let w2 = World { rest: (g.leave)(w1.rest, w.rest), ..w1 };
                assert(alike(f, s2, w2)) by {
                    assert forall|r: Reg| r.kind is Var && apart(f, r) implies #[trigger]
                        w2.scores[r] == s2.vars[r] by {
                        assert(w1.scores[r] == s1.vars[r]);
                    }
                }
                assert(keeps_temps(first, w, w2)) by {
                    lemma_keeps_further(first, cx1, w, w0, w1);
                    assert forall|k: nat| k < first.scores implies #[trigger]
                        w2.scores[temporary(k)] == w.scores[temporary(k)] by {
                        assert(w1.scores[temporary(k)] == w.scores[temporary(k)]);
                    }
                    assert forall|k: nat| k < first.data implies #[trigger] w2.temps[data_name(k)]
                        == w.temps[data_name(k)] by {
                        assert(w1.temps[data_name(k)] == w.temps[data_name(k)]);
                    }
                    assert forall|k: nat| k < first.iters implies #[trigger] w2.lists[list_name(k)]
                        == w.lists[list_name(k)] by {
                        assert(w1.lists[list_name(k)] == w.lists[list_name(k)]);
                    }
                }
                if round_ends(flow) {
                    assert(leaves);
                    assert(all[0] == Inst::Guarded(
                        ctl_is(env, CTL_BREAK, None),
                        Box::new(Inst::Return(0)),
                    ));
                    sim_idle_turns(g, code, env, path, clause, found.skip(1), w2);
                    let m = m1 + 1;
                    lemma_one_turn(g, code, clause, call, found, w, w1, w2, m1 + 1, 1, m);
                    (m, w2)
                } else {
                    let rest = found.skip(1);
                    let (m2, w3) = sim_turns(
                        g, code, env, first, path, clause, rest, body, s2, w2, m0,
                    );
                    let m = m1 + 1 + m2;
                    lemma_one_turn(g, code, clause, call, found, w, w1, w3, m1 + 1, m2, m);
                    lemma_keeps_further(first, first, w, w2, w3);
                    (m, w3)
                }
            },
            None => (0, w),
        }
    }
}

/// The one command of a body runs once for each entity.
#[verifier::spinoff_prover]
proof fn sim_turns_alone<R, D>(
    g: Game<R, D>,
    code: Code,
    env: Env,
    cx: Lx,
    clause: ExecuteAs,
    found: Seq<D>,
    body: Seq<Stmt>,
    s: State<R>,
    w: World<R, D>,
    n: nat,
) -> (r: (nat, World<R, D>))
    requires
        exec_turns(g, env, clause, found, body, s, n) is Some,
        body.len() == 1,
        !escapes(body, 0).any(),
        alike(env.function, s, w),
        parked(env.function, w, Flow::Normal),
        ({
            let cxs = stmt(env, cx, body[0]);
            cxs.insts.len() == cx.insts.len() + 1 && ready(code, cxs.insts, cx, cxs)
        }),
    ensures
        ({
            let f = env.function;
            let inst = stmt(env, cx, body[0]).insts.last();
            match exec_turns(g, env, clause, found, body, s, n) {
                Some((s1, flow)) => {
                    &&& turns_to(g, code, clause, inst, found, w, r.1, r.0)
                    &&& alike(f, s1, r.1)
                    &&& keeps_temps(cx, w, r.1)
                    &&& parked(f, r.1, Flow::Normal)
                    &&& flow is Normal
                },
                None => false,
            }
        }),
    decreases n, body, -1int,
{
    let f = env.function;
    let st = body[0];
    let cxs = stmt(env, cx, st);
    let inst = cxs.insts.last();
    if found.len() == 0 {
        lemma_no_turns(g, code, clause, inst, found, w);
        (0, w)
    } else {
        let m0 = (n - 1) as nat;
        let w0 = World { rest: (g.enter)(w.rest, clause, found[0]), ..w };
        let s0 = State { rest: (g.enter)(s.rest, clause, found[0]), ..s };
        assert(alike(f, s0, w0)) by {
            assert forall|r: Reg| r.kind is Var && apart(f, r) implies #[trigger] w0.scores[r]
                == s0.vars[r] by {
                assert(w.scores[r] == s.vars[r]);
            }
        }
        lemma_escapes_are_foreseen(g, env, body, 0, s0, m0);
        reveal_with_fuel(exec_block, 2);
        assert(!stmt_escapes(st).any()) by {
            reveal(escapes);
            reveal(stmt_escapes);
        }
        let (m1, w1) = sim_stmt(g, code, env, cx, st, s0, w0, cxs.insts, m0);
        match exec_block(g, env, body, 0, s0, m0) {
            Some((s1, flow)) => {
                lemma_alone(g, code, cxs.insts, w0, w1, cx.top_level, m1);
                let s2 = State { rest: (g.leave)(s1.rest, s.rest), ..s1 };
                let w2 = World { rest: (g.leave)(w1.rest, w.rest), ..w1 };
                assert(alike(f, s2, w2)) by {
                    assert forall|r: Reg| r.kind is Var && apart(f, r) implies #[trigger]
                        w2.scores[r] == s2.vars[r] by {
                        assert(w1.scores[r] == s1.vars[r]);
                    }
                }
                assert(keeps_temps(cx, w, w2)) by {
                    assert forall|k: nat| k < cx.scores implies #[trigger] w2.scores[temporary(k)]
                        == w.scores[temporary(k)] by {
                        assert(w1.scores[temporary(k)] == w0.scores[temporary(k)]);
                    }
                    assert forall|k: nat| k < cx.data implies #[trigger] w2.temps[data_name(k)]
                        == w.temps[data_name(k)] by {
                        assert(w1.temps[data_name(k)] == w0.temps[data_name(k)]);
                    }
                    assert forall|k: nat| k < cx.iters implies #[trigger] w2.lists[list_name(k)]
                        == w.lists[list_name(k)] by {
                        assert(w1.lists[list_name(k)] == w0.lists[list_name(k)]);
                    }
                }
                let rest = found.skip(1);
                let (m2, w3) = sim_turns_alone(
                    g, code, env, cx, clause, rest, body, s2, w2, m0,
                );
                let m = m1 + m2;
                lemma_one_turn(g, code, clause, inst, found, w, w1, w3, m1, m2, m);
                lemma_keeps_further(cx, cx, w, w2, w3);
                (m, w3)
            },
            None => (0, w),
        }
    }
}

/// `as`, `at` and `for` do what they mean: the body runs once per entity, and `break` and
/// `return` stop the entities that are left.
#[verifier::spinoff_prover]
proof fn sim_context<R, D>(
    g: Game<R, D>,
    code: Code,
    env: Env,
    cx: Lx,
    st: Stmt,
    s: State<R>,
    w: World<R, D>,
    all: Seq<Inst>,
    n: nat,
) -> (r: (nat, World<R, D>))
    requires
        st is Context,
        exec_stmt(g, env, st, s, n) is Some,
        alike(env.function, s, w),
        parked(env.function, w, Flow::Normal),
        ready(code, all, cx, context_stmt(env, cx, st)),
    ensures
        simulates(
            g,
            code,
            env.function,
            cx,
            context_stmt(env, cx, st),
            all,
            w,
            exec_stmt(g, env, st, s, n),
            r.0,
            r.1,
        ),
    decreases n, st, 1int,
{
    match st {
        Stmt::Context(kind, selector, body, inline, _) => {
            let f = env.function;
            let top = cx.top_level;
            let at = cx.insts.len() as int;
            let end = context_stmt(env, cx, st);
            let clause = clause_of(kind, selector.text);
            let found = (g.found)(s.rest, clause);
            let escaping = escapes(body, 0);
            let tries = body.len() == 1 && !escaping.any() && inline != Inline::Never;
            let (cx1, one) = if tries {
                inlined(env, cx, body[0])
            } else {
                (cx, None)
            };
            following();
            if tries {
                inlined_carries(env, cx, body[0]);
                stmt_carries(env, cx, body[0]);
            }
            let cxs = stmt(env, cx, body[0]);
            assert(tries ==> cx1 == (Lx { insts: kept(cxs.insts, cx.insts.len()), ..cxs })
                && (one is Some <==> cxs.insts.len() == cx.insts.len() + 1) && (one is Some ==> one
                == Some(cxs.insts.last()))) by {
                reveal(inlined);
                reveal(stmt);
            }
            assert(cx1.insts == cx.insts) by {
                reveal(grows);
            }
            if one is Some {
                let inst = one->0;
                let whole = Inst::Context(clause, Box::new(inst));
                assert(end == cx1.emit(whole)) by {
                    reveal(context_stmt);
                    reveal(inlined);
                }
                grows_facts_for::<Inst>();
                lemma_emitted(cx.insts, whole, all);
                assert(ready(code, cxs.insts, cx, cxs));
                let (m, w1) = sim_turns_alone(g, code, env, cx, clause, found, body, s, w, n);
                lemma_all_turns(g, code, all, at, clause, inst, w, w1, top, m);
                (m, w1)
            } else {
                let path = cx1.next_path(context_name(kind));
                let outer = cx1.counted();
                let first = Lx { body_root: true, ..outer.child(path) };
                let leaves = escaping.breaks || escaping.returns;
                let inner2 = turn_start(env, first, leaves);
                let inner = stmts(env, inner2, body, 0);
                let closed = outer.close(f.id, path, inner);
                let call = Inst::Call(path);
                let whole = Inst::Context(clause, Box::new(call));
                let called = closed.emit(whole);
                assert(end == after_loop(env, called, escaping)) by {
                    reveal(context_stmt);
                    reveal(inlined);
                    reveal(stmts);
                }
                stmts_carries(env, inner2, body, 0);
                let touched = first.touch_ctl();
                assert(follows(first, touched));
                assert(follows(first, inner2) && follows(inner2, inner));
                assert(follows(first, inner));
                lemma_close_follows(outer, f.id, path, first, inner);
                assert(follows(cx, cx1) && follows(cx1, outer) && follows(outer, closed));
                assert(follows(closed, called));
                assert(follows(called, end)) by {
                    let cx3 = if escaping.breaks {
                        consume(env, called, CTL_BREAK)
                    } else {
                        called
                    };
                    consume_carries(env, called, CTL_BREAK);
                    propagate_carries(env, cx3);
                    assert(follows(called, cx3) && follows(cx3, end));
                }
                assert(follows(closed, end) && follows(outer, end) && follows(cx, outer));
                assert(follows(cx, called));
                lemma_ready(code, all, cx, outer, end);
                lemma_ready(code, all, outer, closed, end);
                lemma_ready(code, all, cx, called, end);
                lemma_split_out(code, all, outer, f.id, path, first, inner);
                assert(closed.insts == cx.insts);
                lemma_emitted(cx.insts, whole, all);
                let (m, w1) = sim_turns(
                    g, code, env, first, path, clause, found, body, s, w, n,
                );
                lemma_all_turns(g, code, all, at, clause, call, w, w1, top, m);
                lemma_turns_escape(g, env, clause, found, body, s, n);
                match exec_turns(g, env, clause, found, body, s, n) {
                    Some((s1, flow)) => {
                        let w2 = sim_after_loop(g, code, env, called, escaping, s1, w1, all, flow);
                        let to = end.insts.len() as int;
                        lemma_onwards(
                            g, code, all, at, w, at + 1, w1, to, w2, flow, top, m, 0, m,
                        );
                        lemma_keeps_further(cx, outer, w, w, w1);
                        lemma_keeps_further(cx, called, w, w1, w2);
                        (m, w2)
                    },
                    None => (0, w),
                }
            }
        },
        _ => (0, w),
    }
}

// ---------------------------------------------------------------------------
// Matches.
// ---------------------------------------------------------------------------

/// The guard of an arm, and what the arms after it count as covered.
spec fn arm_guard(
    env: Env,
    ty: Type,
    arm: Arm,
    tested: Seq<char>,
    covered: Seq<Seq<char>>,
    call: Inst,
) -> (Inst, Seq<Seq<char>>) {
    match arm.test {
        ArmTest::Variant(variant) => {
            let tag = variant_name(env.types, ty, variant);
            (
                Inst::Guarded(Cond::Data(tested, tag_filter(tag), false), Box::new(call)),
                covered.push(tag),
            )
        },
        _ => (Inst::Otherwise(tested, covered, Box::new(call)), covered),
    }
}

/// The block of an arm, split out.
spec fn arm_inner(env: Env, cx: Lx, arm: Arm, path: Seq<char>, base: Seq<char>) -> Lx {
    let first = cx.child(arm_path(cx, arm, base));
    stmts(env, bind_payload(env, first, path, arm.bindings, 0), arm.body, 0)
}

spec fn arm_path(cx: Lx, arm: Arm, base: Seq<char>) -> Seq<char> {
    cx.prefix + "/"@ + base + "/"@ + arm.path
}

proof fn lemma_match_arms_is(
    env: Env,
    cx: Lx,
    arms: Seq<Arm>,
    i: int,
    ty: Type,
    path: Seq<char>,
    tested: Seq<char>,
    base: Seq<char>,
    covered: Seq<Seq<char>>,
)
    requires
        0 <= i,
    ensures
        match_arms(env, cx, arms, i, ty, path, tested, base, covered) == if i >= arms.len() {
            cx
        } else {
            let to = arm_path(cx, arms[i], base);
            let cx1 = cx.close(env.function.id, to, arm_inner(env, cx, arms[i], path, base));
            let (guard, covered1) = arm_guard(env, ty, arms[i], tested, covered, Inst::Call(to));
            match_arms(env, cx1.emit(guard), arms, i + 1, ty, path, tested, base, covered1)
        },
{
    reveal(match_arms);
    reveal(stmts);
}

proof fn lemma_arm_follows(env: Env, cx: Lx, arm: Arm, path: Seq<char>, base: Seq<char>)
    ensures
        ({
            let to = arm_path(cx, arm, base);
            let first = cx.child(to);
            let bound = bind_payload(env, first, path, arm.bindings, 0);
            let inner = arm_inner(env, cx, arm, path, base);
            &&& follows(first, bound)
            &&& follows(bound, inner)
            &&& follows(first, inner)
            &&& follows(cx, cx.close(env.function.id, to, inner))
        }),
{
    following();
    let to = arm_path(cx, arm, base);
    let first = cx.child(to);
    let bound = bind_payload(env, first, path, arm.bindings, 0);
    let inner = arm_inner(env, cx, arm, path, base);
    bind_payload_carries(env, first, path, arm.bindings, 0);
    stmts_carries(env, bound, arm.body, 0);
    assert(follows(first, bound) && follows(bound, inner));
    lemma_close_follows(cx, env.function.id, to, first, inner);
}

/// The arm that is meant does what its statements mean when it is called.
#[verifier::spinoff_prover]
proof fn sim_arm<R, D>(
    g: Game<R, D>,
    code: Code,
    env: Env,
    cx: Lx,
    arm: Arm,
    path: Seq<char>,
    base: Seq<char>,
    s: State<R>,
    w: World<R, D>,
    all: Seq<Inst>,
    n: nat,
) -> (r: (nat, World<R, D>))
    requires
        bindable(env.function, arm.bindings),
        exec_block(
            g,
            env,
            arm.body,
            0,
            bound(g, env.function, s, path, arm.bindings, 0),
            n,
        ) is Some,
        alike(env.function, s, w),
        parked(env.function, w, Flow::Normal),
        path.len() > 8,
        path[3] == 'v',
        ready(
            code,
            all,
            cx,
            cx.close(
                env.function.id,
                arm_path(cx, arm, base),
                arm_inner(env, cx, arm, path, base),
            ),
        ),
    ensures
        ({
            let f = env.function;
            match exec_block(g, env, arm.body, 0, bound(g, f, s, path, arm.bindings, 0), n) {
                Some((s1, flow)) => {
                    &&& calls_to(g, code, arm_path(cx, arm, base), w, r.1, r.0)
                    &&& alike(f, s1, r.1)
                    &&& keeps_temps(cx, w, r.1)
                    &&& parked(f, r.1, flow)
                },
                None => false,
            }
        }),
    decreases n, arm, 0int,
{
    let f = env.function;
    let to = arm_path(cx, arm, base);
    let first = cx.child(to);
    let cx1 = bind_payload(env, first, path, arm.bindings, 0);
    let inner = arm_inner(env, cx, arm, path, base);
    lemma_arm_follows(env, cx, arm, path, base);
    lemma_split_out(code, all, cx, f.id, to, first, inner);
    let insts = inner.insts;
    lemma_ready(code, insts, first, cx1, inner);
    let w1 = sim_bind(g, code, env, first, path, arm.bindings, 0, s, w, insts);
    let s0 = bound(g, f, s, path, arm.bindings, 0);
    let (m, w2) = sim_block(g, code, env, cx1, arm.body, 0, s0, w1, insts, n);
    let flow = flow_of(exec_block(g, env, arm.body, 0, s0, n));
    let by = cx1.insts.len() as int;
    let end = insts.len() as int;
    lemma_onwards(g, code, insts, 0, w, by, w1, end, w2, flow, false, 0, m, m);
    lemma_called(g, code, to, w, w2, flow, false, m);
    lemma_keeps_further(first, cx1, w, w1, w2);
    (m, w2)
}

/// Which arm a tag means.
proof fn lemma_taken_arm(env: Env, ty: Type, arms: Seq<Arm>, tag: Seq<char>, i: int)
    requires
        0 <= i <= arms.len(),
    ensures
        ({
            let k = taken_arm(env, ty, arms, tag, i);
            &&& i <= k <= arms.len()
            &&& k < arms.len() ==> takes(env, ty, arms[k], tag)
            &&& forall|j: int| i <= j < k ==> !takes(env, ty, #[trigger] arms[j], tag)
        }),
    decreases arms.len() - i,
{
    if i < arms.len() {
        lemma_taken_arm(env, ty, arms, tag, i + 1);
    }
}

/// The guard of an arm passes for the arm that is meant and for no other.
proof fn lemma_arm_guard<R, D>(
    g: Game<R, D>,
    code: Code,
    env: Env,
    ty: Type,
    arms: Seq<Arm>,
    i: int,
    tested: Seq<char>,
    covered: Seq<Seq<char>>,
    tag: Seq<char>,
    call: Inst,
    all: Seq<Inst>,
    at: int,
    w: World<R, D>,
    w1: World<R, D>,
    top: bool,
    m: nat,
)
    requires
        0 <= i < arms.len(),
        exclusive(env, ty, arms),
        is_temporary(tested),
        (g.tag)(w.temps[tested]) == tag,
        covered.contains(tag) <==> taken_arm(env, ty, arms, tag, 0) < i,
        0 <= at < all.len(),
        all[at] == arm_guard(env, ty, arms[i], tested, covered, call).0,
        taken_arm(env, ty, arms, tag, 0) == i ==> forall|fuel: nat|
            fuel >= m ==> #[trigger] step(g, code, call, w, fuel) == Some((w1, None::<i32>)),
        taken_arm(env, ty, arms, tag, 0) != i ==> w1 == w,
    ensures
        comes_out(g, code, all, at, w, at + 1, w1, Flow::Normal, top, m),
        i + 1 < arms.len() ==> (arm_guard(
            env,
            ty,
            arms[i],
            tested,
            covered,
            call,
        ).1.contains(tag) <==> taken_arm(env, ty, arms, tag, 0) < i + 1),
{
    let k = taken_arm(env, ty, arms, tag, 0);
    lemma_taken_arm(env, ty, arms, tag, 0);
    let covered1 = arm_guard(env, ty, arms[i], tested, covered, call).1;
    if k < i {
        assert(arms[k].test is Variant);
        let a = arms[k];
        let b = arms[i];
    }
    match arms[i].test {
        ArmTest::Variant(variant) => {
            let name = variant_name(env.types, ty, variant);
            lemma_tags_differ(name, tag);
            let c = Cond::Data(tested, tag_filter(name), false);
            assert(name == tag <==> k == i) by {
                if i < k {
                    assert(!takes(env, ty, arms[i], tag));
                }
            }
            if k == i {
                lemma_guard_holds(g, code, all, at, c, call, w, w1, top, m);
            } else {
                lemma_guard_fails(g, code, all, at, c, call, w, top);
                lemma_more_fuel(g, code, all, at, w, at + 1, w1, Flow::Normal, top, 0, m);
            }
            assert(covered1 == covered.push(name));
            if covered.contains(tag) {
                let j = choose|j: int| 0 <= j < covered.len() && covered[j] == tag;
                assert(covered1[j] == tag);
            }
            if name == tag {
                assert(covered1[covered.len() as int] == tag);
            }
            if covered1.contains(tag) && name != tag {
                let j = choose|j: int| 0 <= j < covered1.len() && covered1[j] == tag;
                assert(covered[j] == tag);
            }
        },
        _ => {
            if i + 1 < arms.len() {
                let (a, b) = (arms[i], arms[i + 1]);
                assert(false);
            }
            assert(i >= k) by {
                if i < k {
                    assert(!takes(env, ty, arms[i], tag));
                }
            }
            assert forall|fuel: nat| fuel >= m implies #[trigger] step(g, code, all[at], w, fuel)
                == Some((w1, None::<i32>)) by {
                reveal_with_fuel(step, 2);
                if k == i {
                    assert(step(g, code, call, w, fuel) == Some((w1, None::<i32>)));
                }
            }
            lemma_one_step(g, code, all, at, w, w1, top, m);
        },
    }
}

proof fn lemma_more_fuel<R, D>(
    g: Game<R, D>,
    code: Code,
    all: Seq<Inst>,
    a: int,
    w: World<R, D>,
    b: int,
    w1: World<R, D>,
    flow: Flow,
    top: bool,
    m: nat,
    more: nat,
)
    requires
        comes_out(g, code, all, a, w, b, w1, flow, top, m),
        more >= m,
    ensures
        comes_out(g, code, all, a, w, b, w1, flow, top, more),
{
    reveal(comes_out);
}

/// Of the arms from the `i`th on, the one that is meant runs, if it is among them.
#[verifier::spinoff_prover]
proof fn sim_arms<R, D>(
    g: Game<R, D>,
    code: Code,
    env: Env,
    cx: Lx,
    arms: Seq<Arm>,
    i: int,
    ty: Type,
    path: Seq<char>,
    t: nat,
    base: Seq<char>,
    covered: Seq<Seq<char>>,
    tag: Seq<char>,
    s: State<R>,
    s1: State<R>,
    flow: Flow,
    w: World<R, D>,
    all: Seq<Inst>,
    n: nat,
) -> (r: (nat, World<R, D>))
    requires
        0 <= i <= arms.len(),
        exclusive(env, ty, arms),
        t < cx.data,
        (g.tag)(w.temps[data_name(t)]) == tag,
        path.len() > 8,
        path[3] == 'v',
        i < arms.len() ==> (covered.contains(tag) <==> taken_arm(env, ty, arms, tag, 0) < i),
        ready(
            code,
            all,
            cx,
            match_arms(env, cx, arms, i, ty, path, data_name(t), base, covered),
        ),
        ({
            let k = taken_arm(env, ty, arms, tag, 0);
            let f = env.function;
            &&& if 0 <= k < arms.len() {
                bindable(f, arms[k].bindings) && exec_block(
                    g,
                    env,
                    arms[k].body,
                    0,
                    bound(g, f, s, path, arms[k].bindings, 0),
                    n,
                ) == Some((s1, flow))
            } else {
                s1 == s && flow == Flow::Normal
            }
            &&& if k >= i {
                alike(f, s, w) && parked(f, w, Flow::Normal)
            } else {
                alike(f, s1, w) && parked(f, w, flow)
            }
        }),
    ensures
        comes_out(
            g,
            code,
            all,
            cx.insts.len() as int,
            w,
            match_arms(
                env,
                cx,
                arms,
                i,
                ty,
                path,
                data_name(t),
                base,
                covered,
            ).insts.len() as int,
            r.1,
            Flow::Normal,
            cx.top_level,
            r.0,
        ),
        alike(env.function, s1, r.1),
        keeps_temps(cx, w, r.1),
        parked(env.function, r.1, flow),
    decreases n, arms, arms.len() - i,
{
    let f = env.function;
    let top = cx.top_level;
    let at = cx.insts.len() as int;
    let name = data_name(t);
    let end = match_arms(env, cx, arms, i, ty, path, name, base, covered);
    let k = taken_arm(env, ty, arms, tag, 0);
    lemma_match_arms_is(env, cx, arms, i, ty, path, name, base, covered);
    lemma_taken_arm(env, ty, arms, tag, 0);
    if i >= arms.len() {
        lemma_stays(g, code, all, at, w, top);
        (0, w)
    } else {
        let arm = arms[i];
        let to = arm_path(cx, arm, base);
        let inner = arm_inner(env, cx, arm, path, base);
        let cx1 = cx.close(f.id, to, inner);
        let call = Inst::Call(to);
        let (guard, covered1) = arm_guard(env, ty, arm, name, covered, call);
        let cx2 = cx1.emit(guard);
        lemma_arm_follows(env, cx, arm, path, base);
        match_arms_carries(env, cx2, arms, i + 1, ty, path, name, base, covered1);
        following();
        assert(follows(cx1, cx2) && follows(cx2, end) && follows(cx1, end) && follows(cx, cx2));
        lemma_ready(code, all, cx, cx1, end);
        lemma_ready(code, all, cx, cx2, end);
        assert(cx1.insts == cx.insts);
        lemma_emitted(cx.insts, guard, all);
        lemma_data_names(t, t);
        let (m1, w1) = if k == i {
            let (m, w1) = sim_arm(g, code, env, cx, arm, path, base, s, w, all, n);
            lemma_call_step(g, code, to, w, w1, m);
            (m + 1, w1)
        } else {
            (0, w)
        };
        lemma_arm_guard(
            g, code, env, ty, arms, i, name, covered, tag, call, all, at, w, w1, top, m1,
        );
        assert(keeps_temps(cx, w, w1));
        assert(w1.temps[data_name(t)] == w.temps[data_name(t)]);
        let (m2, w2) = sim_arms(
            g, code, env, cx2, arms, i + 1, ty, path, t, base, covered1, tag, s, s1, flow, w1, all,
            n,
        );
        let last = end.insts.len() as int;
        let normal = Flow::Normal;
        lemma_onwards(
            g, code, all, at, w, at + 1, w1, last, w2, normal, top, m1, m2, m1 + m2,
        );
        lemma_keeps_further(cx, cx2, w, w1, w2);
        (m1 + m2, w2)
    }
}

/// A `match` runs the arm it should, and what leaves the arm leaves what is around the
/// `match`.
#[verifier::spinoff_prover]
proof fn sim_match<R, D>(
    g: Game<R, D>,
    code: Code,
    env: Env,
    cx: Lx,
    st: Stmt,
    s: State<R>,
    w: World<R, D>,
    all: Seq<Inst>,
    n: nat,
) -> (r: (nat, World<R, D>))
    requires
        st is Match,
        exec_stmt(g, env, st, s, n) is Some,
        alike(env.function, s, w),
        parked(env.function, w, Flow::Normal),
        ready(code, all, cx, match_stmt(env, cx, st)),
    ensures
        simulates(
            g,
            code,
            env.function,
            cx,
            match_stmt(env, cx, st),
            all,
            w,
            exec_stmt(g, env, st, s, n),
            r.0,
            r.1,
        ),
    decreases n, st, 1int,
{
    let f = env.function;
    let top = cx.top_level;
    let at = cx.insts.len() as int;
    let end = match_stmt(env, cx, st);
    match st {
        Stmt::Match(Scrutinee::Place(place), arms, _) => {
            let path = place_path(f, place);
            let t = cx.data as nat;
            let (cx1, name) = cx.data_temp();
            let copy = Inst::CopyData(name, path);
            let cx2 = cx1.emit(copy);
            let base = "match_"@ + nat_text(cx2.counter as nat);
            let cx3 = cx2.counted();
            let none = Seq::<Seq<char>>::empty();
            let cx4 = match_arms(env, cx3, arms, 0, place.ty, path, name, base, none);
            let any = arms_escape(arms, 0).any();
            assert(end == if any {
                propagate(env, cx4)
            } else {
                cx4
            }) by {
                reveal(match_stmt);
                reveal(match_arms);
            }
            following();
            match_arms_carries(env, cx3, arms, 0, place.ty, path, name, base, none);
            propagate_carries(env, cx4);
            assert(follows(cx, cx1) && follows(cx1, cx2) && follows(cx2, cx3));
            assert(follows(cx3, cx4) && follows(cx4, end));
            assert(follows(cx, cx3) && follows(cx3, end) && follows(cx1, end));
            assert(follows(cx2, end) && follows(cx, cx2));
            lemma_ready(code, all, cx, cx1, end);
            lemma_ready(code, all, cx, cx2, end);
            lemma_ready(code, all, cx, cx3, end);
            lemma_ready(code, all, cx3, cx4, end);
            lemma_emitted(cx.insts, copy, all);
            lemma_place_path(f, place);
            lemma_not_temporary(path);
            lemma_data_names(t, t);
            assert(name == data_name(t));
            let held = (g.look)(w.rest, path);
            let w1 = World { temps: w.temps.insert(name, held), ..w };
            assert forall|fuel: nat| fuel >= 0 implies #[trigger] step(g, code, all[at], w, fuel)
                == Some((w1, None::<i32>)) by {}
            lemma_one_step(g, code, all, at, w, w1, top, 0);
            assert(alike(f, s, w1));
            assert(keeps_temps(cx, w, w1)) by {
                assert forall|k: nat| k < cx.data implies #[trigger] w1.temps[data_name(k)]
                    == w.temps[data_name(k)] by {
                    lemma_data_names(k, t);
                }
            }
            let tag = (g.tag)(held);
            lemma_taken_arm(env, place.ty, arms, tag, 0);
            assert(!none.contains(tag));
            match exec_stmt(g, env, st, s, n) {
                Some((s1, flow)) => {
                    assert(cx1.data == t + 1);
                    let (m, w2) = sim_arms(
                        g, code, env, cx3, arms, 0, place.ty, path, t, base, none, tag, s, s1, flow,
                        w1, all, n,
                    );
                    let by = cx4.insts.len() as int;
                    let to = end.insts.len() as int;
                    let normal = Flow::Normal;
                    lemma_onwards(g, code, all, at, w, at + 1, w1, by, w2, normal, top, 0, m, m);
                    if !any {
                        lemma_stmt_escapes(g, env, st, s, n);
                        reveal(stmt_escapes);
                        reveal(arms_escape);
                    }
                    if !(top && (flow is Break || flow is Continue)) {
                        sim_hand_on(g, code, env, cx4, w2, all, flow, any);
                        lemma_onwards(g, code, all, at, w, by, w2, to, w2, flow, top, m, 0, m);
                    }
                    lemma_keeps_further(cx, cx3, w, w1, w2);
                    (m, w2)
                },
                None => (0, w),
            }
        },
        _ => (0, w),
    }
}

// ---------------------------------------------------------------------------
// Functions.
// ---------------------------------------------------------------------------

/// A call of a function gives what its statements return, and leaves the rest of the world
/// and the bindings as they leave them: no command of a statement after the one that
/// returned runs, wherever that one stands, in a branch, an arm of a `match` or a loop. A
/// function that reaches its end gives nothing.
pub proof fn lemma_functions_do_what_they_mean<R, D>(
    g: Game<R, D>,
    code: Code,
    env: Env,
    cx: Lx,
    s: State<R>,
    w: World<R, D>,
    n: nat,
) -> (r: (nat, World<R, D>))
    requires
        exec_block(g, env, env.function.body, 0, s, n) is Some,
        alike(env.function, s, w),
        ({
            let f = env.function;
            let made = lower_function(env, cx).1;
            let first = fresh(cx, f);
            let cx1 = stmts(env, first, f.body, 0);
            &&& linked(code, made)
            // A function that has no use for the control register never sets it.
            &&& cx1.used_ctl || w.scores[ctl_reg(f)] == CTL_NORMAL
            &&& cx.scores + cx1.used.len() <= 0x8000_0000
            &&& cx.data + cx1.used_data.len() <= 0x8000_0000
            &&& cx.iters + cx1.used_data.len() <= 0x8000_0000
        }),
    ensures
        ({
            let f = env.function;
            match exec_block(g, env, f.body, 0, s, n) {
                Some((s1, Flow::Normal)) => alike(f, s1, r.1) && forall|fuel: nat|
                    fuel >= r.0 ==> #[trigger] run(g, code, code[f.path], 0, w, fuel) == Some(
                        (r.1, None::<i32>),
                    ),
                Some((s1, Flow::Return(v))) => alike(f, s1, r.1) && forall|fuel: nat|
                    fuel >= r.0 ==> #[trigger] run(g, code, code[f.path], 0, w, fuel) == Some(
                        (r.1, Some(v)),
                    ),
                _ => true,
            }
        }),
{
    let f = env.function;
    let made = lower_function(env, cx).1;
    let first = fresh(cx, f);
    let cx1 = stmts(env, first, f.body, 0);
    reveal(lower_function);
    let insts = if cx1.used_ctl {
        seq![Inst::Const(ctl_reg(f), CTL_NORMAL)] + cx1.insts
    } else {
        cx1.insts
    };
    assert(made[0].path == f.path && made[0].blocks[0].insts == insts);
    assert(code[f.path] == insts);
    assert(linked(code, cx1.generated)) by {
        assert forall|k: int| 0 <= k < cx1.generated.len() implies code.contains_key(
            (#[trigger] cx1.generated[k]).path,
        ) && cx1.generated[k].blocks.len() > 0 && code[cx1.generated[k].path]
            == cx1.generated[k].blocks[0].insts by {
            assert(made[k + 1] == cx1.generated[k]);
        }
    }
    grows_facts_for::<Inst>();
    assert(ready(code, cx1.insts, first, cx1));
    let w0 = if cx1.used_ctl {
        coded(f, w, CTL_NORMAL)
    } else {
        w
    };
    lemma_coded(f, cx, s, w, CTL_NORMAL);
    let (m, w1) = sim_block(g, code, env, first, f.body, 0, s, w0, cx1.insts, n);
    let flow = flow_of(exec_block(g, env, f.body, 0, s, n));
    if !(flow is Break || flow is Continue) {
        reveal(comes_out);
        assert forall|fuel: nat| fuel >= m implies #[trigger] run(
            g,
            code,
            code[f.path],
            0,
            w,
            fuel,
        ) == left(g, code, cx1.insts, cx1.insts.len() as int, w1, flow, true, fuel) by {
            assert(run(g, code, cx1.insts, 0, w0, fuel) == left(
                g,
                code,
                cx1.insts,
                cx1.insts.len() as int,
                w1,
                flow,
                true,
                fuel,
            ));
            if cx1.used_ctl {
                lemma_score_step(g, code, insts[0], w);
                assert(step(g, code, insts[0], w, fuel) == Some((w0, None::<i32>)));
                lemma_shifted(g, code, insts[0], cx1.insts, 0, w0, fuel);
            }
        }
    }
    (m, w1)
}

/// The arm of a `match` that runs: the one its tag means, with the payload in its bindings.
pub open spec fn exec_arm<R, D>(
    g: Game<R, D>,
    env: Env,
    place: Place,
    arms: Seq<Arm>,
    s: State<R>,
    n: nat,
) -> Option<(State<R>, Flow)> {
    let f = env.function;
    let path = place_path(f, place);
    let k = taken_arm(env, place.ty, arms, (g.tag)((g.look)(s.rest, path)), 0);
    if 0 <= k < arms.len() && bindable(f, arms[k].bindings) {
        exec_block(g, env, arms[k].body, 0, bound(g, f, s, path, arms[k].bindings, 0), n)
    } else {
        None
    }
}

/// Where an arm of a `match` returns a value, the call of the function gives that value, and
/// the world is as the arm left it: nothing that is written after the `match` runs.
pub proof fn lemma_an_arm_that_returns_ends_the_function<R, D>(
    g: Game<R, D>,
    code: Code,
    env: Env,
    cx: Lx,
    place: Place,
    arms: Seq<Arm>,
    s: State<R>,
    w: World<R, D>,
    n: nat,
    s1: State<R>,
    v: i32,
) -> (r: (nat, World<R, D>))
    requires
        env.function.body.len() > 0,
        env.function.body[0] matches Stmt::Match(Scrutinee::Place(p), a, _) && p == place && a
            == arms,
        place.ty is Enum,
        is_static(place),
        !(place.root is Entity),
        exclusive(env, place.ty, arms),
        exec_arm(g, env, place, arms, s, n) == Some((s1, Flow::Return(v))),
        alike(env.function, s, w),
        ({
            let f = env.function;
            let cx1 = stmts(env, fresh(cx, f), f.body, 0);
            &&& linked(code, lower_function(env, cx).1)
            &&& cx1.used_ctl || w.scores[ctl_reg(f)] == CTL_NORMAL
            &&& cx.scores + cx1.used.len() <= 0x8000_0000
            &&& cx.data + cx1.used_data.len() <= 0x8000_0000
            &&& cx.iters + cx1.used_data.len() <= 0x8000_0000
        }),
    ensures
        alike(env.function, s1, r.1),
        forall|fuel: nat|
            fuel >= r.0 ==> #[trigger] run(g, code, code[env.function.path], 0, w, fuel) == Some(
                (r.1, Some(v)),
            ),
{
    let body = env.function.body;
    assert(exec_stmt(g, env, body[0], s, n) == Some((s1, Flow::Return(v))));
    assert(exec_block(g, env, body, 0, s, n) == Some((s1, Flow::Return(v))));
    lemma_functions_do_what_they_mean(g, code, env, cx, s, w, n)
}

/// Where an arm of a `match` at the start of a loop's body leaves by `break`, the loop is
/// over, with the world as the arm left it; where it leaves by `continue`, the next round
/// begins there; and where it returns, the loop returns.
pub proof fn lemma_what_leaves_an_arm_leaves_the_loop<R, D>(
    g: Game<R, D>,
    env: Env,
    test: Option<Expr>,
    body: Seq<Stmt>,
    place: Place,
    arms: Seq<Arm>,
    s: State<R>,
    n: nat,
    s1: State<R>,
    flow: Flow,
)
    requires
        n > 0,
        body.len() > 0,
        body[0] matches Stmt::Match(Scrutinee::Place(p), a, _) && p == place && a == arms,
        place.ty is Enum,
        is_static(place),
        !(place.root is Entity),
        exclusive(env, place.ty, arms),
        test is Some ==> is_test(env.function, s.vars, test->0) && meaning(
            env.function,
            s.vars,
            test->0,
        ) != 0,
        exec_arm(g, env, place, arms, s, (n - 1) as nat) == Some((s1, flow)),
        !(flow is Normal),
    ensures
        exec_loop(g, env, test, body, s, n) == match flow {
            Flow::Break => Some((s1, Flow::Normal)),
            Flow::Continue => exec_loop(g, env, test, body, s1, (n - 1) as nat),
            _ => Some((s1, flow)),
        },
{
    let m = (n - 1) as nat;
    assert(exec_stmt(g, env, body[0], s, m) == Some((s1, flow)));
    assert(exec_block(g, env, body, 0, s, m) == Some((s1, flow)));
}

/// Commands do the same with one in front of them that has run.
proof fn lemma_shifted<R, D>(
    g: Game<R, D>,
    code: Code,
    head: Inst,
    insts: Seq<Inst>,
    i: int,
    w: World<R, D>,
    fuel: nat,
)
    requires
        0 <= i <= insts.len(),
    ensures
        run(g, code, seq![head] + insts, i + 1, w, fuel) == run(g, code, insts, i, w, fuel),
    decreases insts.len() - i,
{
    let all = seq![head] + insts;
    if i < insts.len() {
        assert(all[i + 1] == insts[i]);
        match step(g, code, insts[i], w, fuel) {
            Some((w1, None)) => lemma_shifted(g, code, head, insts, i + 1, w1, fuel),
            _ => {},
        }
    }
}

} // verus!

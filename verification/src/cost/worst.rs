//! That the count is a worst case: where it is exact, no run of a function spends more
//! commands than it says.

use vstd::prelude::*;

use crate::cost::laws::{lemma_blocks_per_entity, lemma_distinct_positions};
use crate::cost::{
    blocks_callees, blocks_cost, called, callee_of, callees, function_at, inst_cost, insts_callees,
    insts_cost, many, own_cost, per_entity, runs_per_entity, walk, walk_calls,
};
use crate::mir::model::{ExecuteAs, Function, Inst};
use crate::mir::running::{passes, step, Code, Game, World};

verus! {

/// How many commands a command comes to: itself, and what it runs.
pub open spec fn spent<R, D>(
    g: Game<R, D>,
    code: Code,
    inst: Inst,
    w: World<R, D>,
    fuel: nat,
) -> nat
    decreases fuel, inst, 0int,
{
    match inst {
        Inst::Macro(inner) => spent(g, code, *inner, w, fuel),
        Inst::StoreResult(_, inner) => 1 + spent(g, code, *inner, w, fuel),
        Inst::ReturnRun(inner) => 1 + spent(g, code, *inner, w, fuel),
        Inst::StoreData(_, _, inner) => 1 + spent(g, code, *inner, w, fuel),
        Inst::StoreScaled(_, _, _, inner) => 1 + spent(g, code, *inner, w, fuel),
        Inst::Guarded(c, inner) => if passes(g, c, w) == Some(true) {
            1 + spent(g, code, *inner, w, fuel)
        } else {
            1
        },
        Inst::Otherwise(path, tags, inner) => if tags.contains((g.tag)(w.temps[path])) {
            1
        } else {
            1 + spent(g, code, *inner, w, fuel)
        },
        Inst::Context(clause, inner) => 1 + spent_in_turns(
            g,
            code,
            clause,
            *inner,
            (g.found)(w.rest, clause),
            w,
            fuel,
        ),
        Inst::Call(path) => if fuel > 0 && code.contains_key(path) {
            1 + spent_from(g, code, code[path], 0, w, (fuel - 1) as nat)
        } else {
            1
        },
        Inst::CallWithArgs(path) => if fuel > 0 && code.contains_key(path) {
            1 + spent_from(g, code, code[path], 0, w, (fuel - 1) as nat)
        } else {
            1
        },
        _ => 1,
    }
}

/// How many a command comes to that runs once for each of those entities.
pub open spec fn spent_in_turns<R, D>(
    g: Game<R, D>,
    code: Code,
    clause: ExecuteAs,
    inst: Inst,
    found: Seq<D>,
    w: World<R, D>,
    fuel: nat,
) -> nat
    decreases fuel, inst, found.len() + 1,
{
    if found.len() == 0 {
        0
    } else {
        let w0 = World { rest: (g.enter)(w.rest, clause, found[0]), ..w };
        spent(g, code, inst, w0, fuel) + match step(g, code, inst, w0, fuel) {
            Some((w1, None)) => spent_in_turns(
                g,
                code,
                clause,
                inst,
                found.skip(1),
                World { rest: (g.leave)(w1.rest, w.rest), ..w1 },
                fuel,
            ),
            _ => 0,
        }
    }
}

/// How many the commands from the `i`th on come to, until one of them returns.
pub open spec fn spent_from<R, D>(
    g: Game<R, D>,
    code: Code,
    insts: Seq<Inst>,
    i: int,
    w: World<R, D>,
    fuel: nat,
) -> nat
    decreases fuel, insts, insts.len() - i,
{
    if i < 0 || i >= insts.len() {
        0
    } else {
        spent(g, code, insts[i], w, fuel) + match step(g, code, insts[i], w, fuel) {
            Some((w1, None)) => spent_from(g, code, insts, i + 1, w1, fuel),
            _ => 0,
        }
    }
}

/// Whether what can be called is the program: the first function at each path, of one
/// block.
pub open spec fn is_program(code: Code, all: Seq<Function>) -> bool {
    &&& forall|i: int| 0 <= i < all.len() ==> (#[trigger] all[i]).blocks.len() == 1
    &&& forall|path: Seq<char>| #[trigger]
        code.contains_key(path) ==> 0 <= function_at(all, path, 0) < all.len() && code[path]
            == all[function_at(all, path, 0)].blocks[0].insts
}

/// Whether a selector that names one entity finds no more.
pub open spec fn finds_one<R, D>(g: Game<R, D>) -> bool {
    forall|r: R, clause: ExecuteAs|
        !many(clause) ==> (#[trigger] (g.found)(r, clause)).len() <= 1
}

// ---------------------------------------------------------------------------
// Sums over calls.
// ---------------------------------------------------------------------------

proof fn lemma_later_calls(all: Seq<Function>, a: Seq<int>, b: Seq<int>, j: int, stack: Seq<int>)
    requires
        0 <= j <= b.len(),
    ensures
        walk_calls(all, a + b, a.len() + j, stack) == walk_calls(all, b, j, stack),
    decreases b.len() - j,
{
    if j < b.len() {
        assert((a + b)[a.len() + j] == b[j]);
        lemma_later_calls(all, a, b, j + 1, stack);
    }
}

proof fn lemma_calls_add_up(all: Seq<Function>, a: Seq<int>, b: Seq<int>, k: int, stack: Seq<int>)
    requires
        0 <= k <= a.len(),
    ensures
        ({
            let whole = walk_calls(all, a + b, k, stack);
            let first = walk_calls(all, a, k, stack);
            let rest = walk_calls(all, b, 0, stack);
            whole.0 == first.0 + rest.0 && whole.1 == (first.1 && rest.1)
        }),
    decreases a.len() - k,
{
    if k < a.len() {
        assert((a + b)[k] == a[k]);
        lemma_calls_add_up(all, a, b, k + 1, stack);
    } else {
        lemma_later_calls(all, a, b, 0, stack);
    }
}

/// The calls up to a command are the first of all calls.
proof fn lemma_calls_so_far(all: Seq<Function>, insts: Seq<Inst>, j: int, n: int, stack: Seq<int>)
    requires
        0 <= j <= n <= insts.len(),
    ensures
        ({
            let some = walk_calls(all, insts_callees(all, insts, j), 0, stack);
            let more = walk_calls(all, insts_callees(all, insts, n), 0, stack);
            some.0 <= more.0 && (more.1 ==> some.1)
        }),
    decreases n - j,
{
    if j < n {
        lemma_calls_so_far(all, insts, j, n - 1, stack);
        let before = insts_callees(all, insts, n - 1);
        lemma_calls_add_up(all, before, callee_of(all, insts[n - 1]), 0, stack);
    }
}

/// Whether those are functions of the program that are on the way, each once.
pub open spec fn is_way(all: Seq<Function>, stack: Seq<int>) -> bool {
    &&& stack.no_duplicates()
    &&& forall|k: int| 0 <= k < stack.len() ==> 0 <= #[trigger] stack[k] < all.len()
}

// ---------------------------------------------------------------------------
// No run exceeds the count.
// ---------------------------------------------------------------------------

proof fn lemma_one_turn<R, D>(
    g: Game<R, D>,
    code: Code,
    clause: ExecuteAs,
    inst: Inst,
    found: Seq<D>,
    w: World<R, D>,
    fuel: nat,
)
    requires
        found.len() == 1,
    ensures
        spent_in_turns(g, code, clause, inst, found, w, fuel) == spent(
            g,
            code,
            inst,
            World { rest: (g.enter)(w.rest, clause, found[0]), ..w },
            fuel,
        ),
{
    let w0 = World { rest: (g.enter)(w.rest, clause, found[0]), ..w };
    match step(g, code, inst, w0, fuel) {
        Some((w1, None)) => {
            let w2 = World { rest: (g.leave)(w1.rest, w.rest), ..w1 };
            assert(spent_in_turns(g, code, clause, inst, found.skip(1), w2, fuel) == 0);
        },
        _ => {},
    }
}

#[verifier::spinoff_prover]
proof fn lemma_command_bound<R, D>(
    g: Game<R, D>,
    code: Code,
    all: Seq<Function>,
    inst: Inst,
    w: World<R, D>,
    fuel: nat,
    stack: Seq<int>,
)
    requires
        is_program(code, all),
        finds_one(g),
        is_way(all, stack),
        !per_entity(inst),
        walk_calls(all, callee_of(all, inst), 0, stack).1,
    ensures
        spent(g, code, inst, w, fuel) <= inst_cost(inst) + walk_calls(
            all,
            callee_of(all, inst),
            0,
            stack,
        ).0,
    decreases fuel, inst, 2int,
{
    assert(inst_cost(inst) >= 1) by {
        crate::cost::lemma_nothing_is_free(inst);
    }
    match inst {
        Inst::Macro(inner) => {
            assert(callee_of(all, inst) == callee_of(all, *inner));
            lemma_command_bound(g, code, all, *inner, w, fuel, stack);
            assert(inst_cost(inst) == inst_cost(*inner));
        },
        Inst::StoreResult(_, inner) => {
            assert(callee_of(all, inst) == callee_of(all, *inner));
            lemma_command_bound(g, code, all, *inner, w, fuel, stack);
            assert(inst_cost(inst) == 1 + inst_cost(*inner));
        },
        Inst::ReturnRun(inner) => {
            assert(callee_of(all, inst) == callee_of(all, *inner));
            lemma_command_bound(g, code, all, *inner, w, fuel, stack);
            assert(inst_cost(inst) == 1 + inst_cost(*inner));
        },
        Inst::StoreData(_, _, inner) => {
            assert(callee_of(all, inst) == callee_of(all, *inner));
            lemma_command_bound(g, code, all, *inner, w, fuel, stack);
            assert(inst_cost(inst) == 1 + inst_cost(*inner));
        },
        Inst::StoreScaled(_, _, _, inner) => {
            assert(callee_of(all, inst) == callee_of(all, *inner));
            lemma_command_bound(g, code, all, *inner, w, fuel, stack);
            assert(inst_cost(inst) == 1 + inst_cost(*inner));
        },
        Inst::Guarded(_, inner) => {
            assert(callee_of(all, inst) == callee_of(all, *inner));
            lemma_command_bound(g, code, all, *inner, w, fuel, stack);
            assert(inst_cost(inst) == 1 + inst_cost(*inner));
        },
        Inst::Otherwise(_, _, inner) => {
            assert(callee_of(all, inst) == callee_of(all, *inner));
            lemma_command_bound(g, code, all, *inner, w, fuel, stack);
            assert(inst_cost(inst) == 1 + inst_cost(*inner));
        },
        Inst::Context(clause, inner) => {
            let found = (g.found)(w.rest, clause);
            assert(callee_of(all, inst) == callee_of(all, *inner));
            assert(inst_cost(inst) == 1 + inst_cost(*inner));
            assert(!many(clause));
            assert(found.len() <= 1);
            if found.len() == 1 {
                let w0 = World { rest: (g.enter)(w.rest, clause, found[0]), ..w };
                lemma_command_bound(g, code, all, *inner, w0, fuel, stack);
                lemma_one_turn(g, code, clause, *inner, found, w, fuel);
            } else {
                assert(spent_in_turns(g, code, clause, *inner, found, w, fuel) == 0);
            }
        },
        Inst::Call(path) => {
            lemma_call_bound(g, code, all, path, inst, w, fuel, stack);
        },
        Inst::CallWithArgs(path) => {
            lemma_call_bound(g, code, all, path, inst, w, fuel, stack);
        },
        _ => {
            assert(spent(g, code, inst, w, fuel) == 1);
        },
    }
}

proof fn lemma_call_bound<R, D>(
    g: Game<R, D>,
    code: Code,
    all: Seq<Function>,
    path: Seq<char>,
    inst: Inst,
    w: World<R, D>,
    fuel: nat,
    stack: Seq<int>,
)
    requires
        is_program(code, all),
        finds_one(g),
        is_way(all, stack),
        called(inst) == Some(path),
        walk_calls(all, callee_of(all, inst), 0, stack).1,
    ensures
        fuel > 0 && code.contains_key(path) ==> spent_from(
            g,
            code,
            code[path],
            0,
            w,
            (fuel - 1) as nat,
        ) <= walk_calls(all, callee_of(all, inst), 0, stack).0,
    decreases fuel, inst, 1int,
{
    if fuel > 0 && code.contains_key(path) {
        let i = function_at(all, path, 0);
        let one = callee_of(all, inst);
        assert(one =~= seq![i]);
        lemma_distinct_positions(stack, all.len() as int);
        assert(walk_calls(all, one, 1, stack) == (0nat, true));
        assert(!stack.contains(i));
        assert(walk_calls(all, one, 0, stack).0 == walk(all, i, stack).0);
        assert(walk(all, i, stack).1);
        lemma_function_bound(g, code, all, i, w, (fuel - 1) as nat, stack);
    }
}

proof fn lemma_function_bound<R, D>(
    g: Game<R, D>,
    code: Code,
    all: Seq<Function>,
    i: int,
    w: World<R, D>,
    fuel: nat,
    stack: Seq<int>,
)
    requires
        is_program(code, all),
        finds_one(g),
        is_way(all, stack),
        0 <= i < all.len(),
        !stack.contains(i),
        walk(all, i, stack).1,
    ensures
        spent_from(g, code, all[i].blocks[0].insts, 0, w, fuel) <= walk(all, i, stack).0,
    decreases fuel, all[i].blocks[0].insts, all[i].blocks[0].insts.len() + 1,
{
    let f = all[i];
    let insts = f.blocks[0].insts;
    let below = stack.push(i);
    assert(is_way(all, below)) by {
        assert forall|k: int| 0 <= k < below.len() implies 0 <= #[trigger] below[k]
            < all.len() by {
            if k < stack.len() {
                assert(below[k] == stack[k]);
            }
        }
        assert(below.no_duplicates());
    }
    lemma_distinct_positions(below, all.len() as int);
    let n = insts.len() as int;
    assert(blocks_callees(all, f.blocks, 0) =~= seq![]);
    assert(callees(all, f) =~= insts_callees(all, insts, n));
    assert(blocks_cost(f.blocks, 1) == 0);
    assert(own_cost(f) == insts_cost(insts, 0));
    assert(insts_callees(all, insts, 0) =~= seq![]);
    assert(!runs_per_entity(f));
    lemma_commands_bound(g, code, all, i, 0, w, fuel, below);
}

#[verifier::spinoff_prover]
proof fn lemma_commands_bound<R, D>(
    g: Game<R, D>,
    code: Code,
    all: Seq<Function>,
    i: int,
    j: int,
    w: World<R, D>,
    fuel: nat,
    stack: Seq<int>,
)
    requires
        is_program(code, all),
        finds_one(g),
        is_way(all, stack),
        0 <= i < all.len(),
        0 <= j <= all[i].blocks[0].insts.len(),
        !runs_per_entity(all[i]),
        ({
            let insts = all[i].blocks[0].insts;
            walk_calls(all, insts_callees(all, insts, insts.len() as int), 0, stack).1
        }),
    ensures
        ({
            let insts = all[i].blocks[0].insts;
            spent_from(g, code, insts, j, w, fuel) + walk_calls(
                all,
                insts_callees(all, insts, j),
                0,
                stack,
            ).0 <= insts_cost(insts, j) + walk_calls(
                all,
                insts_callees(all, insts, insts.len() as int),
                0,
                stack,
            ).0
        }),
    decreases fuel, all[i].blocks[0].insts, all[i].blocks[0].insts.len() - j,
{
    let insts = all[i].blocks[0].insts;
    let n = insts.len() as int;
    if j < n {
        let inst = insts[j];
        if per_entity(inst) {
            lemma_blocks_per_entity(all[i].blocks, 0, 0, j);
        }
        lemma_calls_so_far(all, insts, j + 1, n, stack);
        lemma_calls_add_up(all, insts_callees(all, insts, j), callee_of(all, inst), 0, stack);
        lemma_command_bound(g, code, all, inst, w, fuel, stack);
        match step(g, code, inst, w, fuel) {
            Some((w1, None)) => {
                lemma_commands_bound(g, code, all, i, j + 1, w1, fuel, stack);
            },
            _ => {},
        }
    }
}

/// Where the count of a function is exact, no run of it comes to more commands, whatever the
/// world it runs in and whichever guards hold.
pub proof fn lemma_exact_numbers_are_never_exceeded<R, D>(
    g: Game<R, D>,
    code: Code,
    all: Seq<Function>,
    i: int,
    w: World<R, D>,
    fuel: nat,
)
    requires
        is_program(code, all),
        finds_one(g),
        0 <= i < all.len(),
        walk(all, i, seq![]).1,
    ensures
        spent_from(g, code, all[i].blocks[0].insts, 0, w, fuel) <= walk(all, i, seq![]).0,
{
    lemma_function_bound(g, code, all, i, w, fuel, seq![]);
}

} // verus!

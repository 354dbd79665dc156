//! What the count promises: nothing that a command hands control to is left out of it.

use vstd::prelude::*;
use vstd::set_lib::{lemma_int_range, lemma_len_subset, set_int_range};

use crate::cost::{
    any_per_entity, blocks_callees, blocks_per_entity, called, callee_of, callees, function_at,
    inst_cost, insts_callees, insts_cost, many, own_cost, per_entity, runs_per_entity, walk,
    walk_calls,
};
use crate::mir::model::{Block, Cond, ExecuteAs, Function, Inst, Reg};


verus! {

// ---------------------------------------------------------------------------
// One instruction.
// ---------------------------------------------------------------------------

/// Wrapping an instruction never changes which function it hands control to: whatever is
/// done with its result, whatever guards it, as whomever and where it runs.
pub proof fn lemma_wrapping_keeps_the_callee(
    inst: Inst,
    reg: Reg,
    path: Seq<char>,
    text: Seq<char>,
    scale: u32,
    test: Cond,
    tags: Seq<Seq<char>>,
    clause: ExecuteAs,
)
    ensures
        called(Inst::Macro(Box::new(inst))) == called(inst),
        called(Inst::StoreResult(reg, Box::new(inst))) == called(inst),
        called(Inst::ReturnRun(Box::new(inst))) == called(inst),
        called(Inst::StoreData(path, text, Box::new(inst))) == called(inst),
        called(Inst::StoreScaled(path, text, scale, Box::new(inst))) == called(inst),
        called(Inst::Guarded(test, Box::new(inst))) == called(inst),
        called(Inst::Otherwise(path, tags, Box::new(inst))) == called(inst),
        called(Inst::Context(clause, Box::new(inst))) == called(inst),
{
}

/// Wrapping an instruction adds the one `execute` or `return` that wraps it; a macro line is
/// the command it stands for.
pub proof fn lemma_wrapping_costs_one_command(
    inst: Inst,
    reg: Reg,
    path: Seq<char>,
    text: Seq<char>,
    scale: u32,
    test: Cond,
    tags: Seq<Seq<char>>,
    clause: ExecuteAs,
)
    ensures
        inst_cost(Inst::Macro(Box::new(inst))) == inst_cost(inst),
        inst_cost(Inst::StoreResult(reg, Box::new(inst))) == inst_cost(inst) + 1,
        inst_cost(Inst::ReturnRun(Box::new(inst))) == inst_cost(inst) + 1,
        inst_cost(Inst::StoreData(path, text, Box::new(inst))) == inst_cost(inst) + 1,
        inst_cost(Inst::StoreScaled(path, text, scale, Box::new(inst))) == inst_cost(inst) + 1,
        inst_cost(Inst::Guarded(test, Box::new(inst))) == inst_cost(inst) + 1,
        inst_cost(Inst::Otherwise(path, tags, Box::new(inst))) == inst_cost(inst) + 1,
        inst_cost(Inst::Context(clause, Box::new(inst))) == inst_cost(inst) + 1,
        inst_cost(inst) >= 1,
{
    crate::cost::lemma_nothing_is_free(inst);
}

/// What runs once per entity still does when it is wrapped; a selector that can find many
/// makes whatever it runs do so.
pub proof fn lemma_wrapping_keeps_what_repeats(
    inst: Inst,
    reg: Reg,
    path: Seq<char>,
    text: Seq<char>,
    scale: u32,
    test: Cond,
    tags: Seq<Seq<char>>,
    clause: ExecuteAs,
)
    ensures
        per_entity(Inst::Macro(Box::new(inst))) == per_entity(inst),
        per_entity(Inst::StoreResult(reg, Box::new(inst))) == per_entity(inst),
        per_entity(Inst::ReturnRun(Box::new(inst))) == per_entity(inst),
        per_entity(Inst::StoreData(path, text, Box::new(inst))) == per_entity(inst),
        per_entity(Inst::StoreScaled(path, text, scale, Box::new(inst))) == per_entity(inst),
        per_entity(Inst::Guarded(test, Box::new(inst))) == per_entity(inst),
        per_entity(Inst::Otherwise(path, tags, Box::new(inst))) == per_entity(inst),
        per_entity(Inst::Context(clause, Box::new(inst))) == (many(clause) || per_entity(inst)),
{
}

/// Whether an instruction holds a call of the function at `path`, in whatever it is wrapped.
pub open spec fn holds_call(inst: Inst, path: Seq<char>) -> bool
    decreases inst,
{
    match inst {
        Inst::Call(to) => to == path,
        Inst::CallWithArgs(to) => to == path,
        Inst::Macro(inner) => holds_call(*inner, path),
        Inst::StoreResult(_, inner) => holds_call(*inner, path),
        Inst::ReturnRun(inner) => holds_call(*inner, path),
        Inst::StoreData(_, _, inner) => holds_call(*inner, path),
        Inst::StoreScaled(_, _, _, inner) => holds_call(*inner, path),
        Inst::Guarded(_, inner) => holds_call(*inner, path),
        Inst::Otherwise(_, _, inner) => holds_call(*inner, path),
        Inst::Context(_, inner) => holds_call(*inner, path),
        _ => false,
    }
}

/// An instruction hands control to a function exactly when it holds a call of it.
pub proof fn lemma_a_held_call_is_found(inst: Inst, path: Seq<char>)
    ensures
        holds_call(inst, path) <==> called(inst) == Some(path),
    decreases inst,
{
    match inst {
        Inst::Macro(inner) => lemma_a_held_call_is_found(*inner, path),
        Inst::StoreResult(_, inner) => lemma_a_held_call_is_found(*inner, path),
        Inst::ReturnRun(inner) => lemma_a_held_call_is_found(*inner, path),
        Inst::StoreData(_, _, inner) => lemma_a_held_call_is_found(*inner, path),
        Inst::StoreScaled(_, _, _, inner) => lemma_a_held_call_is_found(*inner, path),
        Inst::Guarded(_, inner) => lemma_a_held_call_is_found(*inner, path),
        Inst::Otherwise(_, _, inner) => lemma_a_held_call_is_found(*inner, path),
        Inst::Context(_, inner) => lemma_a_held_call_is_found(*inner, path),
        _ => {},
    }
}

// ---------------------------------------------------------------------------
// What a function calls.
// ---------------------------------------------------------------------------

/// Whether some command of a function holds a call of the function at `path`.
pub open spec fn calls(f: Function, path: Seq<char>) -> bool {
    exists|b: int, i: int|
        0 <= b < f.blocks.len() && 0 <= i < f.blocks[b].insts.len() && holds_call(
            #[trigger] f.blocks[b].insts[i],
            path,
        )
}

/// Whether `g` is the function of the program that a call of `path` reaches: the first there.
pub open spec fn reached(all: Seq<Function>, path: Seq<char>, g: int) -> bool {
    &&& 0 <= g < all.len()
    &&& all[g].path == path
    &&& forall|h: int| 0 <= h < g ==> (#[trigger] all[h]).path != path
}

proof fn lemma_function_at(all: Seq<Function>, path: Seq<char>, i: int)
    requires
        0 <= i <= all.len(),
    ensures
        ({
            let g = function_at(all, path, i);
            &&& i <= g <= all.len()
            &&& g < all.len() ==> all[g].path == path
            &&& forall|h: int| i <= h < g ==> (#[trigger] all[h]).path != path
        }),
    decreases all.len() - i,
{
    if i < all.len() {
        lemma_function_at(all, path, i + 1);
    }
}

/// A call finds the first function at its path, if there is one.
pub proof fn lemma_calls_reach_the_first(all: Seq<Function>, path: Seq<char>, g: int)
    ensures
        reached(all, path, g) <==> function_at(all, path, 0) == g && 0 <= g < all.len(),
        function_at(all, path, 0) == all.len() <==> forall|h: int|
            0 <= h < all.len() ==> (#[trigger] all[h]).path != path,
{
    lemma_function_at(all, path, 0);
    let at = function_at(all, path, 0);
    if reached(all, path, g) {
        if at < g {
            assert(all[at].path != path);
        }
        if g < at {
            assert(all[g].path != path);
        }
    }
    if at < all.len() {
        assert(all[at].path == path);
    }
}

proof fn lemma_insts_callees(all: Seq<Function>, insts: Seq<Inst>, n: int, g: int)
    requires
        0 <= n <= insts.len(),
    ensures
        insts_callees(all, insts, n).contains(g) <==> exists|i: int|
            0 <= i < n && callee_of(all, #[trigger] insts[i]).contains(g),
    decreases n,
{
    if n > 0 {
        lemma_insts_callees(all, insts, n - 1, g);
        let before = insts_callees(all, insts, n - 1);
        let last = callee_of(all, insts[n - 1]);
        lemma_contains_either(before, last, g);
        if exists|i: int| 0 <= i < n && callee_of(all, #[trigger] insts[i]).contains(g) {
            let i = choose|i: int| 0 <= i < n && callee_of(all, #[trigger] insts[i]).contains(g);
            if i < n - 1 {
                assert(callee_of(all, insts[i]).contains(g));
            }
        }
    }
}

proof fn lemma_contains_either(a: Seq<int>, b: Seq<int>, g: int)
    ensures
        (a + b).contains(g) <==> a.contains(g) || b.contains(g),
{
    if a.contains(g) {
        let k = choose|k: int| 0 <= k < a.len() && a[k] == g;
        assert((a + b)[k] == g);
    }
    if b.contains(g) {
        let k = choose|k: int| 0 <= k < b.len() && b[k] == g;
        assert((a + b)[a.len() + k] == g);
    }
    if (a + b).contains(g) {
        let k = choose|k: int| 0 <= k < (a + b).len() && (a + b)[k] == g;
        if k < a.len() {
            assert(a[k] == g);
        } else {
            assert(b[k - a.len()] == g);
        }
    }
}

proof fn lemma_blocks_callees(all: Seq<Function>, blocks: Seq<Block>, n: int, g: int)
    requires
        0 <= n <= blocks.len(),
    ensures
        blocks_callees(all, blocks, n).contains(g) <==> exists|b: int, i: int|
            0 <= b < n && 0 <= i < blocks[b].insts.len() && callee_of(
                all,
                #[trigger] blocks[b].insts[i],
            ).contains(g),
    decreases n,
{
    if n > 0 {
        lemma_blocks_callees(all, blocks, n - 1, g);
        let insts = blocks[n - 1].insts;
        lemma_insts_callees(all, insts, insts.len() as int, g);
        let before = blocks_callees(all, blocks, n - 1);
        let last = insts_callees(all, insts, insts.len() as int);
        lemma_contains_either(before, last, g);
        if last.contains(g) {
            let i = choose|i: int|
                0 <= i < insts.len() && callee_of(all, #[trigger] insts[i]).contains(g);
            assert(callee_of(all, blocks[n - 1].insts[i]).contains(g));
        }
        if exists|b: int, i: int|
            0 <= b < n && 0 <= i < blocks[b].insts.len() && callee_of(
                all,
                #[trigger] blocks[b].insts[i],
            ).contains(g) {
            let (b, i) = choose|b: int, i: int|
                0 <= b < n && 0 <= i < blocks[b].insts.len() && callee_of(
                    all,
                    #[trigger] blocks[b].insts[i],
                ).contains(g);
            if b < n - 1 {
                assert(callee_of(all, blocks[b].insts[i]).contains(g));
            } else {
                assert(callee_of(all, insts[i]).contains(g));
            }
        }
    }
}

/// The callees of a function are exactly the functions of the program that its commands
/// hold calls of, in whatever the calls are wrapped.
pub proof fn lemma_every_held_call_is_a_callee(all: Seq<Function>, f: Function, g: int)
    ensures
        callees(all, f).contains(g) <==> 0 <= g < all.len() && calls(f, all[g].path) && reached(
            all,
            all[g].path,
            g,
        ),
{
    lemma_blocks_callees(all, f.blocks, f.blocks.len() as int, g);
    if callees(all, f).contains(g) {
        let (b, i) = choose|b: int, i: int|
            0 <= b < f.blocks.len() && 0 <= i < f.blocks[b].insts.len() && callee_of(
                all,
                #[trigger] f.blocks[b].insts[i],
            ).contains(g);
        let inst = f.blocks[b].insts[i];
        let path = called(inst)->0;
        let found = callee_of(all, inst);
        let k = choose|k: int| 0 <= k < found.len() && found[k] == g;
        assert(found[k] == function_at(all, path, 0));
        lemma_a_held_call_is_found(inst, path);
        lemma_function_at(all, path, 0);
        lemma_calls_reach_the_first(all, path, g);
        assert(holds_call(f.blocks[b].insts[i], path));
    }
    if 0 <= g < all.len() && calls(f, all[g].path) && reached(all, all[g].path, g) {
        let path = all[g].path;
        let (b, i) = choose|b: int, i: int|
            0 <= b < f.blocks.len() && 0 <= i < f.blocks[b].insts.len() && holds_call(
                #[trigger] f.blocks[b].insts[i],
                path,
            );
        let inst = f.blocks[b].insts[i];
        lemma_a_held_call_is_found(inst, path);
        lemma_calls_reach_the_first(all, path, g);
        assert(seq![g][0] == g);
        assert(callee_of(all, f.blocks[b].insts[i]).contains(g));
    }
}

// ---------------------------------------------------------------------------
// What a call costs.
// ---------------------------------------------------------------------------

proof fn lemma_one_call_of_many(
    all: Seq<Function>,
    calls: Seq<int>,
    from: int,
    k: int,
    stack: Seq<int>,
)
    requires
        0 <= from <= k < calls.len(),
        !stack.contains(calls[k]),
        stack.len() <= all.len(),
    ensures
        walk_calls(all, calls, from, stack).0 >= walk(all, calls[k], stack).0,
        walk_calls(all, calls, from, stack).1 ==> walk(all, calls[k], stack).1,
    decreases k - from,
{
    if from < k {
        lemma_one_call_of_many(all, calls, from + 1, k, stack);
    }
}

proof fn lemma_a_call_back(
    all: Seq<Function>,
    calls: Seq<int>,
    from: int,
    k: int,
    stack: Seq<int>,
)
    requires
        0 <= from <= k < calls.len(),
        stack.contains(calls[k]),
        stack.len() <= all.len(),
    ensures
        !walk_calls(all, calls, from, stack).1,
    decreases k - from,
{
    if from < k {
        lemma_a_call_back(all, calls, from + 1, k, stack);
    }
}

/// A function costs at least its own commands and what any function costs that one of its
/// commands holds a call of, in whatever the call is wrapped and whether or not the result
/// is used; and the number is exact only if that of the called function is.
pub proof fn lemma_a_call_costs_what_it_calls(
    all: Seq<Function>,
    i: int,
    g: int,
    stack: Seq<int>,
)
    requires
        0 <= i < all.len(),
        0 <= g < all.len(),
        calls(all[i], all[g].path),
        reached(all, all[g].path, g),
        !stack.contains(g),
        g != i,
        stack.len() < all.len(),
    ensures
        walk(all, i, stack).0 >= own_cost(all[i]) + walk(all, g, stack.push(i)).0,
        walk(all, i, stack).1 ==> walk(all, g, stack.push(i)).1,
{
    lemma_every_held_call_is_a_callee(all, all[i], g);
    let held = callees(all, all[i]);
    let k = choose|k: int| 0 <= k < held.len() && held[k] == g;
    let below = stack.push(i);
    if below.contains(g) {
        let j = choose|j: int| 0 <= j < below.len() && below[j] == g;
        assert(stack[j] == g);
    }
    lemma_one_call_of_many(all, held, 0, k, below);
}

/// A function that holds a call of another costs at least the commands of both.
pub proof fn lemma_both_are_paid_for(all: Seq<Function>, i: int, g: int)
    requires
        0 <= i < all.len(),
        0 <= g < all.len(),
        calls(all[i], all[g].path),
        reached(all, all[g].path, g),
        g != i,
    ensures
        walk(all, i, seq![]).0 >= own_cost(all[i]) + own_cost(all[g]),
{
    lemma_a_call_costs_what_it_calls(all, i, g, seq![]);
}

/// Whether each function on the way holds a call of the next.
pub open spec fn is_chain(all: Seq<Function>, way: Seq<int>) -> bool {
    &&& way.len() > 0
    &&& forall|k: int| 0 <= k < way.len() ==> 0 <= #[trigger] way[k] < all.len()
    &&& forall|k: int|
        0 <= k < way.len() - 1 ==> calls(all[#[trigger] way[k]], all[way[k + 1]].path) && reached(
            all,
            all[way[k + 1]].path,
            way[k + 1],
        )
}

pub(crate) proof fn lemma_distinct_positions(stack: Seq<int>, n: int)
    requires
        stack.no_duplicates(),
        forall|k: int| 0 <= k < stack.len() ==> 0 <= #[trigger] stack[k] < n,
        0 <= n,
    ensures
        stack.len() <= n,
{
    stack.unique_seq_to_set();
    lemma_int_range(0, n);
    assert forall|x: int| #[trigger] stack.to_set().contains(x) implies set_int_range(
        0,
        n,
    ).contains(x) by {
        assert(stack.contains(x));
        let k = choose|k: int| 0 <= k < stack.len() && stack[k] == x;
        assert(0 <= stack[k] < n);
    }
    lemma_len_subset(stack.to_set(), set_int_range(0, n));
}

proof fn lemma_exact_on_the_way(all: Seq<Function>, way: Seq<int>, k: int)
    requires
        is_chain(all, way),
        0 <= k < way.len(),
        walk(all, way[0], seq![]).1,
    ensures
        walk(all, way[k], way.take(k)).1,
        way.take(k + 1).no_duplicates(),
    decreases k,
{
    if k == 0 {
        assert(way.take(0) =~= seq![]);
    } else {
        lemma_exact_on_the_way(all, way, k - 1);
        let i = way[k - 1];
        let g = way[k];
        let stack = way.take(k - 1);
        let below = way.take(k);
        assert(below =~= stack.push(i));
        lemma_distinct_positions(below, all.len() as int);
        lemma_every_held_call_is_a_callee(all, all[i], g);
        assert(calls(all[way[k - 1]], all[way[k - 1 + 1]].path));
        let held = callees(all, all[i]);
        let m = choose|m: int| 0 <= m < held.len() && held[m] == g;
        if below.contains(g) {
            lemma_a_call_back(all, held, 0, m, below);
        }
        lemma_one_call_of_many(all, held, 0, m, below);
        assert(way.take(k + 1) =~= below.push(g));
    }
}

/// A number is exact only where no chain of calls from the function ever comes back to a
/// function that it has been through: one that holds a call of itself, or of a function that
/// leads back to it, is never exact.
pub proof fn lemma_exact_numbers_have_no_way_back(all: Seq<Function>, way: Seq<int>)
    requires
        is_chain(all, way),
        walk(all, way[0], seq![]).1,
    ensures
        way.no_duplicates(),
        way.len() <= all.len(),
{
    lemma_exact_on_the_way(all, way, way.len() - 1);
    assert(way.take(way.len() as int) =~= way);
    lemma_distinct_positions(way, all.len() as int);
}

/// A function that holds a call of itself is never exact.
pub proof fn lemma_calling_oneself_is_never_exact(all: Seq<Function>, i: int)
    requires
        0 <= i < all.len(),
        calls(all[i], all[i].path),
        reached(all, all[i].path, i),
    ensures
        !walk(all, i, seq![]).1,
{
    let way = seq![i, i];
    if walk(all, i, seq![]).1 {
        assert(is_chain(all, way));
        lemma_exact_numbers_have_no_way_back(all, way);
        assert(way[0] == way[1]);
    }
}

proof fn lemma_any_per_entity(insts: Seq<Inst>, from: int, i: int)
    requires
        0 <= from <= i < insts.len(),
        per_entity(insts[i]),
    ensures
        any_per_entity(insts, from),
    decreases i - from,
{
    if from < i {
        lemma_any_per_entity(insts, from + 1, i);
    }
}

pub(crate) proof fn lemma_blocks_per_entity(blocks: Seq<Block>, from: int, b: int, i: int)
    requires
        0 <= from <= b < blocks.len(),
        0 <= i < blocks[b].insts.len(),
        per_entity(blocks[b].insts[i]),
    ensures
        blocks_per_entity(blocks, from),
    decreases b - from,
{
    if from < b {
        lemma_blocks_per_entity(blocks, from + 1, b, i);
    } else {
        lemma_any_per_entity(blocks[b].insts, 0, i);
    }
}

/// A number is exact only where no command of the function runs once per entity, nor one of
/// any function that a chain of calls leads to.
pub proof fn lemma_exact_numbers_repeat_nothing(
    all: Seq<Function>,
    way: Seq<int>,
    k: int,
    b: int,
    i: int,
)
    requires
        is_chain(all, way),
        walk(all, way[0], seq![]).1,
        0 <= k < way.len(),
        0 <= b < all[way[k]].blocks.len(),
        0 <= i < all[way[k]].blocks[b].insts.len(),
    ensures
        !per_entity(all[way[k]].blocks[b].insts[i]),
{
    lemma_exact_numbers_have_no_way_back(all, way);
    lemma_exact_on_the_way(all, way, k);
    if per_entity(all[way[k]].blocks[b].insts[i]) {
        lemma_blocks_per_entity(all[way[k]].blocks, 0, b, i);
        assert(runs_per_entity(all[way[k]]));
    }
}

/// A list costs what its parts cost.
pub proof fn lemma_lists_cost_their_parts(insts: Seq<Inst>, i: int)
    requires
        0 <= i <= insts.len(),
    ensures
        insts_cost(insts, 0) == insts_cost(insts.take(i), 0) + insts_cost(insts, i),
    decreases i,
{
    if i > 0 {
        lemma_lists_cost_their_parts(insts, i - 1);
        lemma_cost_of_one_more(insts.take(i - 1), insts[i - 1], 0);
        assert(insts.take(i) =~= insts.take(i - 1).push(insts[i - 1]));
    } else {
        assert(insts.take(0).len() == 0);
    }
}

proof fn lemma_cost_of_one_more(insts: Seq<Inst>, last: Inst, from: int)
    requires
        0 <= from <= insts.len(),
    ensures
        insts_cost(insts.push(last), from) == insts_cost(insts, from) + inst_cost(last),
    decreases insts.len() - from,
{
    if from < insts.len() {
        lemma_cost_of_one_more(insts, last, from + 1);
    } else {
        assert(insts_cost(insts.push(last), from + 1) == 0);
    }
}

/// A function of one block costs at least as many commands as it has instructions.
pub proof fn lemma_every_instruction_counts(insts: Seq<Inst>, i: int)
    requires
        0 <= i <= insts.len(),
    ensures
        insts_cost(insts, i) >= insts.len() - i,
    decreases insts.len() - i,
{
    if i < insts.len() {
        lemma_every_instruction_counts(insts, i + 1);
        crate::cost::lemma_nothing_is_free(insts[i]);
    }
}

} // verus!

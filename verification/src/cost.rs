//! How many commands a function costs to run.
//!
//! `maxCommandChainLength` (65536 by default) caps the commands one tick may run. Going
//! over it does not raise an error: Minecraft stops the chain and the rest of the work
//! silently does not happen. Counting beforehand is the only way to see it coming, and
//! the count is derivable because one MIR instruction is one command.
//!
//! The number is a worst case: a guarded command is counted as if the guard held. That is
//! the number `maxCommandChainLength` cares about.

use vstd::prelude::*;

use crate::mir::model;
use crate::mir::{functions_view, insts_view, ExecuteAs, Function, Inst, Mir};
use crate::text::{
    cat2, cat5, chars, find, find_from, nat_text, offset, own, push, same, show_u64, slice, trim,
    trimmed,
};

pub mod laws;
pub mod worst;

verus! {

/// Minecraft's default `maxCommandChainLength`.
pub const MAX_COMMAND_CHAIN: u64 = 65536;

#[derive(Debug, Clone, PartialEq, Eq)]
pub struct Cost {
    /// The datapack id, as a command would name it.
    pub path: String,
    /// Commands one call runs, callees included.
    pub commands: u64,
    /// Whether a loop or a recursive call is reachable from here. Then `commands` is one
    /// pass through it and the real total depends on the data.
    pub loops: bool,
}

// ---------------------------------------------------------------------------
// What things cost.
// ---------------------------------------------------------------------------

/// The instruction another one runs.
pub open spec fn wrapped(inst: model::Inst) -> Option<Box<model::Inst>> {
    match inst {
        model::Inst::Macro(inst) => Some(inst),
        model::Inst::StoreResult(_, inst) => Some(inst),
        model::Inst::ReturnRun(inst) => Some(inst),
        model::Inst::StoreData(_, _, inst) => Some(inst),
        model::Inst::StoreScaled(_, _, _, inst) => Some(inst),
        model::Inst::Guarded(_, inst) => Some(inst),
        model::Inst::Otherwise(_, _, inst) => Some(inst),
        model::Inst::Context(_, inst) => Some(inst),
        _ => None,
    }
}

/// One instruction is one command, plus whatever it wraps: `execute … run <cmd>` is the
/// `execute` and the command it ran. A `$` macro line is still one command.
pub open spec fn inst_cost(inst: model::Inst) -> nat
    decreases inst,
{
    match wrapped(inst) {
        Some(inner) => if inst is Macro {
            inst_cost(*inner)
        } else {
            1 + inst_cost(*inner)
        },
        None => 1,
    }
}

/// Every instruction costs at least one command.
pub proof fn lemma_nothing_is_free(inst: model::Inst)
    ensures
        inst_cost(inst) >= 1,
    decreases inst,
{
    match wrapped(inst) {
        Some(inner) => lemma_nothing_is_free(*inner),
        None => {},
    }
}

/// What wraps an instruction never makes it cheaper, and a macro line costs what its
/// command costs.
pub proof fn lemma_wrapping_never_saves(inst: model::Inst)
    requires
        wrapped(inst) is Some,
    ensures
        inst_cost(inst) >= inst_cost(*wrapped(inst)->0),
        inst is Macro ==> inst_cost(inst) == inst_cost(*wrapped(inst)->0),
{
}

pub open spec fn insts_cost(insts: Seq<model::Inst>, i: int) -> nat
    decreases insts.len() - i,
{
    if i < 0 || i >= insts.len() {
        0
    } else {
        inst_cost(insts[i]) + insts_cost(insts, i + 1)
    }
}

pub open spec fn blocks_cost(blocks: Seq<model::Block>, i: int) -> nat
    decreases blocks.len() - i,
{
    if i < 0 || i >= blocks.len() {
        0
    } else {
        insts_cost(blocks[i].insts, 0) + blocks_cost(blocks, i + 1)
    }
}

/// The commands a function issues itself, not counting what its callees do.
pub open spec fn own_cost(f: model::Function) -> nat {
    blocks_cost(f.blocks, 0)
}

/// The function an instruction hands control to.
pub open spec fn called(inst: model::Inst) -> Option<Seq<char>>
    decreases inst,
{
    match inst {
        model::Inst::Call(path) => Some(path),
        model::Inst::CallWithArgs(path) => Some(path),
        _ => match wrapped(inst) {
            Some(inner) => called(*inner),
            None => None,
        },
    }
}

/// The position of the function at that path from `i` on, or their number.
pub open spec fn function_at(all: Seq<model::Function>, path: Seq<char>, i: int) -> int
    decreases all.len() - i,
{
    if i < 0 || i >= all.len() {
        all.len() as int
    } else if all[i].path == path {
        i
    } else {
        function_at(all, path, i + 1)
    }
}

/// The function of the program that an instruction hands control to, as a list of at most
/// one.
pub open spec fn callee_of(all: Seq<model::Function>, inst: model::Inst) -> Seq<int> {
    match called(inst) {
        Some(path) => if function_at(all, path, 0) < all.len() {
            seq![function_at(all, path, 0)]
        } else {
            seq![]
        },
        None => seq![],
    }
}

pub open spec fn insts_callees(all: Seq<model::Function>, insts: Seq<model::Inst>, i: int) -> Seq<int>
    decreases i,
{
    if i <= 0 || i > insts.len() {
        seq![]
    } else {
        insts_callees(all, insts, i - 1) + callee_of(all, insts[i - 1])
    }
}

pub open spec fn blocks_callees(
    all: Seq<model::Function>,
    blocks: Seq<model::Block>,
    i: int,
) -> Seq<int>
    decreases i,
{
    if i <= 0 || i > blocks.len() {
        seq![]
    } else {
        blocks_callees(all, blocks, i - 1) + insts_callees(
            all,
            blocks[i - 1].insts,
            blocks[i - 1].insts.len() as int,
        )
    }
}

/// The functions this one hands control to, by position, in the order of its commands.
pub open spec fn callees(all: Seq<model::Function>, f: model::Function) -> Seq<int> {
    blocks_callees(all, f.blocks, f.blocks.len() as int)
}

pub open spec fn is_separator(c: char) -> bool {
    c == '[' || c == ',' || c == ']'
}

/// Whether one of the parts of a selector, of which one begins at `from`, is `limit=1`.
pub open spec fn limited(s: Seq<char>, from: int, i: int) -> bool
    decreases s.len() - i,
{
    if i < 0 || i >= s.len() {
        0 <= from <= s.len() && trim(s.skip(from)) == "limit=1"@
    } else if is_separator(s[i]) {
        (0 <= from <= i && trim(s.subrange(from, i)) == "limit=1"@) || limited(s, i + 1, i + 1)
    } else {
        limited(s, from, i + 1)
    }
}

/// Whether a selector can find more than one entity.
pub open spec fn many(clause: model::ExecuteAs) -> bool {
    let selector = match clause {
        model::ExecuteAs::As(selector) => selector,
        model::ExecuteAs::At(selector) => selector,
    };
    let head = selector.take(find_from(selector, '[', 0));
    !(head == "@s"@ || head == "@p"@ || head == "@r"@) && !limited(selector, 0, 0)
}

/// Whether an instruction runs something once per entity a selector finds.
pub open spec fn per_entity(inst: model::Inst) -> bool
    decreases inst,
{
    (match inst {
        model::Inst::Context(clause, _) => many(clause),
        _ => false,
    }) || match wrapped(inst) {
        Some(inner) => per_entity(*inner),
        None => false,
    }
}

pub open spec fn any_per_entity(insts: Seq<model::Inst>, i: int) -> bool
    decreases insts.len() - i,
{
    if i < 0 || i >= insts.len() {
        false
    } else {
        per_entity(insts[i]) || any_per_entity(insts, i + 1)
    }
}

pub open spec fn blocks_per_entity(blocks: Seq<model::Block>, i: int) -> bool
    decreases blocks.len() - i,
{
    if i < 0 || i >= blocks.len() {
        false
    } else {
        any_per_entity(blocks[i].insts, 0) || blocks_per_entity(blocks, i + 1)
    }
}

/// Whether the function runs something once per entity a selector finds.
pub open spec fn runs_per_entity(f: model::Function) -> bool {
    blocks_per_entity(f.blocks, 0)
}

/// One pass through function `i` and everything below it: the commands, and whether that
/// number is exact. A call that would go back into something already on the way down is a
/// loop: it is not followed and the answer stops being exact. So does it with an
/// `execute as` over a selector that can find more than one entity.
pub open spec fn walk(all: Seq<model::Function>, i: int, stack: Seq<int>) -> (nat, bool)
    decreases all.len() - stack.len(), 1int, 0int,
{
    if i < 0 || i >= all.len() || stack.len() >= all.len() {
        (0, true)
    } else {
        let (below, exact) = walk_calls(all, callees(all, all[i]), 0, stack.push(i));
        (own_cost(all[i]) + below, exact && !runs_per_entity(all[i]))
    }
}

/// The calls from the `k`th on.
pub open spec fn walk_calls(
    all: Seq<model::Function>,
    calls: Seq<int>,
    k: int,
    stack: Seq<int>,
) -> (nat, bool)
    decreases all.len() - stack.len(), 2int, calls.len() - k,
{
    if k < 0 || k >= calls.len() || stack.len() > all.len() {
        (0, true)
    } else {
        let (rest, rest_exact) = walk_calls(all, calls, k + 1, stack);
        if stack.contains(calls[k]) {
            (rest, false)
        } else {
            let (cost, exact) = walk(all, calls[k], stack);
            (cost + rest, exact && rest_exact)
        }
    }
}

/// A call never costs less than the commands the function issues itself.
pub proof fn lemma_a_call_costs_its_own_commands(all: Seq<model::Function>, i: int)
    requires
        0 <= i < all.len(),
    ensures
        walk(all, i, seq![]).0 >= own_cost(all[i]),
{
}

/// A call of a function that calls nothing costs exactly the commands it issues.
pub proof fn lemma_calling_nothing_costs_only_itself(all: Seq<model::Function>, i: int)
    requires
        0 <= i < all.len(),
        callees(all, all[i]).len() == 0,
    ensures
        walk(all, i, seq![]) == (own_cost(all[i]), !runs_per_entity(all[i])),
{
}

/// The number given for a function that calls itself is never called exact.
pub proof fn lemma_a_loop_is_never_exact(all: Seq<model::Function>, i: int)
    requires
        0 <= i < all.len(),
        callees(all, all[i]).contains(i),
    ensures
        !walk(all, i, seq![]).1,
{
    let calls = callees(all, all[i]);
    let k = choose|k: int| 0 <= k < calls.len() && calls[k] == i;
    assert(seq![].push(i)[0] == i);
    lemma_a_call_back_is_not_exact(all, calls, 0, k, seq![].push(i));
}

proof fn lemma_a_call_back_is_not_exact(
    all: Seq<model::Function>,
    calls: Seq<int>,
    from: int,
    k: int,
    stack: Seq<int>,
)
    requires
        0 <= from <= k < calls.len(),
        stack.contains(calls[k]),
        stack.len() <= all.len(),
    ensures
        !walk_calls(all, calls, from, stack).1,
    decreases k - from,
{
    if from < k {
        lemma_a_call_back_is_not_exact(all, calls, from + 1, k, stack);
    }
}

/// The largest number that is written down.
pub open spec fn capped(n: nat) -> u64 {
    if n <= u64::MAX {
        n as u64
    } else {
        u64::MAX
    }
}

// ---------------------------------------------------------------------------
// Counting.
// ---------------------------------------------------------------------------

fn plus(a: u64, b: u64, x: Ghost<nat>, y: Ghost<nat>) -> (r: u64)
    requires
        a == capped(x@),
        b == capped(y@),
    ensures
        r == capped(x@ + y@),
{
    if a > u64::MAX - b {
        u64::MAX
    } else {
        a + b
    }
}

/// The instruction another one runs.
fn inner(inst: &Inst) -> (r: Option<&Inst>)
    ensures
        match r {
            Some(found) => wrapped(inst@) == Some(Box::new(found@)) && decreases_to!(
                inst => found
            ),
            None => wrapped(inst@) is None,
        },
{
    proof {
        inst.unfold();
    }
    match inst {
        Inst::Macro { inst } => Some(inst),
        Inst::StoreResult { inst, .. } => Some(inst),
        Inst::ReturnRun { inst } => Some(inst),
        Inst::StoreData { inst, .. } => Some(inst),
        Inst::StoreScaled { inst, .. } => Some(inst),
        Inst::Guarded { inst, .. } => Some(inst),
        Inst::Otherwise { inst, .. } => Some(inst),
        Inst::Context { inst, .. } => Some(inst),
        _ => None,
    }
}

fn count_inst(inst: &Inst) -> (r: u64)
    ensures
        r == capped(inst_cost(inst@)),
    decreases inst,
{
    proof {
        inst.unfold();
    }
    match inner(inst) {
        Some(found) => {
            let below = count_inst(found);
            match inst {
                Inst::Macro { .. } => below,
                _ => plus(1, below, Ghost(1), Ghost(inst_cost(found@))),
            }
        },
        None => 1,
    }
}

fn count_insts(insts: &Vec<Inst>) -> (r: u64)
    ensures
        r == capped(insts_cost(insts_view(insts@), 0)),
{
    let ghost all = insts_view(insts@);
    let ghost mut sum: nat = 0;
    let mut total: u64 = 0;
    let mut i: usize = 0;
    while i < insts.len()
        invariant
            i <= insts@.len(),
            all == insts_view(insts@),
            total == capped(sum),
            sum + insts_cost(all, i as int) == insts_cost(all, 0),
        decreases insts.len() - i,
    {
        proof {
            assert(all[i as int] == insts@[i as int]@);
        }
        let one = count_inst(&insts[i]);
        total = plus(total, one, Ghost(sum), Ghost(inst_cost(all[i as int])));
        proof {
            sum = sum + inst_cost(all[i as int]);
        }
        i += 1;
    }
    total
}

/// The commands a function issues itself.
fn count_own(f: &Function) -> (r: u64)
    ensures
        r == capped(own_cost(f@)),
{
    let ghost all = f@.blocks;
    let ghost mut sum: nat = 0;
    let mut total: u64 = 0;
    let mut i: usize = 0;
    while i < f.blocks.len()
        invariant
            i <= f.blocks@.len(),
            all == f@.blocks,
            total == capped(sum),
            sum + blocks_cost(all, i as int) == blocks_cost(all, 0),
        decreases f.blocks.len() - i,
    {
        proof {
            assert(all[i as int] == f.blocks@[i as int]@);
        }
        let one = count_insts(&f.blocks[i].insts);
        total = plus(total, one, Ghost(sum), Ghost(insts_cost(all[i as int].insts, 0)));
        proof {
            sum = sum + insts_cost(all[i as int].insts, 0);
        }
        i += 1;
    }
    total
}

/// The function an instruction hands control to.
fn called_by(inst: &Inst) -> (r: Option<&String>)
    ensures
        match r {
            Some(path) => called(inst@) == Some(path@),
            None => called(inst@) is None,
        },
    decreases inst,
{
    proof {
        inst.unfold();
    }
    match inst {
        Inst::Call { path } => Some(path),
        Inst::CallWithArgs { path } => Some(path),
        _ => match inner(inst) {
            Some(found) => called_by(found),
            None => None,
        },
    }
}

fn find_function(all: &Vec<Function>, path: &str) -> (r: usize)
    ensures
        r == function_at(functions_view(all@), path@, 0),
        r <= all@.len(),
{
    let mut i: usize = 0;
    while i < all.len() && !same(all[i].path.as_str(), path)
        invariant
            i <= all@.len(),
            function_at(functions_view(all@), path@, 0) == function_at(
                functions_view(all@),
                path@,
                i as int,
            ),
        decreases all.len() - i,
    {
        i += 1;
    }
    i
}

pub open spec fn indices(v: Seq<usize>) -> Seq<int> {
    Seq::new(v.len(), |i: int| v[i] as int)
}

/// The functions this one hands control to, by position.
fn find_callees(all: &Vec<Function>, f: &Function) -> (r: Vec<usize>)
    ensures
        indices(r@) == callees(functions_view(all@), f@),
{
    let ghost fs = functions_view(all@);
    let mut out: Vec<usize> = Vec::new();
    proof {
        assert(indices(out@) =~= seq![]);
    }
    let mut b: usize = 0;
    while b < f.blocks.len()
        invariant
            b <= f.blocks@.len(),
            fs == functions_view(all@),
            indices(out@) == blocks_callees(fs, f@.blocks, b as int),
        decreases f.blocks.len() - b,
    {
        proof {
            assert(f@.blocks[b as int] == f.blocks@[b as int]@);
        }
        let insts = &f.blocks[b].insts;
        let ghost shown = insts_view(insts@);
        let ghost before = indices(out@);
        let mut i: usize = 0;
        proof {
            assert(before + insts_callees(fs, shown, 0) =~= before);
        }
        while i < insts.len()
            invariant
                i <= insts@.len(),
                fs == functions_view(all@),
                shown == insts_view(insts@),
                indices(out@) == before + insts_callees(fs, shown, i as int),
            decreases insts.len() - i,
        {
            proof {
                assert(shown[i as int] == insts@[i as int]@);
            }
            let ghost was = indices(out@);
            match called_by(&insts[i]) {
                Some(path) => {
                    let at: usize = find_function(all, path.as_str());
                    if at < all.len() {
                        out.push(at);
                        proof {
                            assert(indices(out@) =~= was + seq![at as int]);
                        }
                    } else {
                        proof {
                            assert(was + Seq::<int>::empty() =~= was);
                        }
                    }
                },
                None => {
                    proof {
                        assert(was + Seq::<int>::empty() =~= was);
                    }
                },
            }
            proof {
                assert(indices(out@) =~= before + insts_callees(fs, shown, i + 1));
            }
            i += 1;
        }
        b += 1;
    }
    out
}

fn is_limited(selector: &Vec<char>) -> (r: bool)
    ensures
        r == limited(selector@, 0, 0),
{
    let mut from: usize = 0;
    let mut i: usize = 0;
    while i < selector.len()
        invariant
            from <= i <= selector@.len(),
            limited(selector@, 0, 0) == limited(selector@, from as int, i as int),
        decreases selector.len() - i,
    {
        let c = selector[i];
        if c == '[' || c == ',' || c == ']' {
            let part = chars(slice(selector, from, i).as_str());
            if same(trimmed(&part).as_str(), "limit=1") {
                return true;
            }
            from = i + 1;
        }
        i += 1;
    }
    let part = chars(slice(selector, from, i).as_str());
    proof {
        assert(part@ =~= selector@.skip(from as int));
    }
    same(trimmed(&part).as_str(), "limit=1")
}

/// Whether a selector can find more than one entity.
fn finds_many(clause: &ExecuteAs) -> (r: bool)
    ensures
        r == many(clause@),
{
    let selector = match clause {
        ExecuteAs::As(selector) => selector,
        ExecuteAs::At(selector) => selector,
    };
    let v = chars(selector.as_str());
    let at: usize = find(&v, '[', 0);
    let head = slice(&v, 0, at);
    proof {
        assert(head@ =~= selector@.take(at as int));
    }
    let head = head.as_str();
    if same(head, "@s") || same(head, "@p") || same(head, "@r") {
        return false;
    }
    !is_limited(&v)
}

fn is_per_entity(inst: &Inst) -> (r: bool)
    ensures
        r == per_entity(inst@),
    decreases inst,
{
    proof {
        inst.unfold();
    }
    match inst {
        Inst::Context { clause, .. } => {
            if finds_many(clause) {
                return true;
            }
        },
        _ => {},
    }
    match inner(inst) {
        Some(found) => is_per_entity(found),
        None => false,
    }
}

/// Whether the function runs something once per entity a selector finds.
fn is_repeated(f: &Function) -> (r: bool)
    ensures
        r == runs_per_entity(f@),
{
    let mut b: usize = 0;
    while b < f.blocks.len()
        invariant
            b <= f.blocks@.len(),
            blocks_per_entity(f@.blocks, 0) == blocks_per_entity(f@.blocks, b as int),
        decreases f.blocks.len() - b,
    {
        proof {
            assert(f@.blocks[b as int] == f.blocks@[b as int]@);
        }
        let insts = &f.blocks[b].insts;
        let ghost shown = insts_view(insts@);
        let mut i: usize = 0;
        while i < insts.len()
            invariant
                i <= insts@.len(),
                b < f.blocks@.len(),
                shown == insts_view(insts@),
                shown == f@.blocks[b as int].insts,
                blocks_per_entity(f@.blocks, 0) == blocks_per_entity(f@.blocks, b as int),
                any_per_entity(shown, 0) == any_per_entity(shown, i as int),
            decreases insts.len() - i,
        {
            proof {
                assert(shown[i as int] == insts@[i as int]@);
            }
            if is_per_entity(&insts[i]) {
                return true;
            }
            i += 1;
        }
        b += 1;
    }
    false
}

/// What is counted of each function once: its own commands, whether it repeats something,
/// and what it calls.
struct Counted {
    own: Vec<u64>,
    repeated: Vec<bool>,
    calls: Vec<Vec<usize>>,
}

impl Counted {
    spec fn of(&self, all: Seq<model::Function>) -> bool {
        &&& self.own@.len() == all.len()
        &&& self.repeated@.len() == all.len()
        &&& self.calls@.len() == all.len()
        &&& forall|i: int| 0 <= i < all.len() ==> #[trigger] self.own@[i] == capped(own_cost(all[i]))
        &&& forall|i: int|
            0 <= i < all.len() ==> #[trigger] self.repeated@[i] == runs_per_entity(all[i])
        &&& forall|i: int|
            0 <= i < all.len() ==> indices((#[trigger] self.calls@[i])@) == callees(all, all[i])
    }

    /// One pass through this function and everything below it.
    #[verifier::spinoff_prover]
    fn walk(&self, i: usize, stack: &mut Vec<usize>, all: Ghost<Seq<model::Function>>) -> (r: (
        u64,
        bool,
    ))
        requires
            self.of(all@),
        ensures
            final(stack)@ == old(stack)@,
            r.0 == capped(walk(all@, i as int, indices(old(stack)@)).0),
            r.1 == walk(all@, i as int, indices(old(stack)@)).1,
        decreases all@.len() - old(stack)@.len(),
    {
        if i >= self.own.len() || stack.len() >= self.own.len() {
            return (0, true);
        }
        let ghost above = indices(stack@);
        let ghost start = stack@;
        stack.push(i);
        let ghost below = indices(stack@);
        proof {
            assert(below =~= above.push(i as int));
        }
        let calls = &self.calls[i];
        let ghost shown = indices(calls@);
        let mut commands: u64 = self.own[i];
        let mut exact = true;
        let ghost mut sum: nat = own_cost(all@[i as int]);
        let mut k: usize = 0;
        while k < calls.len()
            invariant
                k <= calls@.len(),
                self.of(all@),
                i < all@.len(),
                start == old(stack)@,
                start.len() < all@.len(),
                stack@ == start.push(i),
                below == indices(stack@),
                shown == indices(calls@),
                commands == capped(sum),
                sum + walk_calls(all@, shown, k as int, below).0 == own_cost(all@[i as int])
                    + walk_calls(all@, shown, 0, below).0,
                (exact && walk_calls(all@, shown, k as int, below).1) == walk_calls(
                    all@,
                    shown,
                    0,
                    below,
                ).1,
            decreases calls.len() - k,
        {
            let callee: usize = calls[k];
            proof {
                assert(shown[k as int] == callee as int);
            }
            if on_stack(stack, callee) {
                exact = false;
            } else {
                let (cost, callee_exact) = self.walk(callee, stack, all);
                let ghost one = walk(all@, callee as int, below).0;
                commands = plus(commands, cost, Ghost(sum), Ghost(one));
                exact = exact && callee_exact;
                proof {
                    sum = sum + one;
                }
            }
            k += 1;
        }
        let _ = stack.pop();
        proof {
            assert(stack@ =~= start);
        }
        (commands, exact && !self.repeated[i])
    }
}

fn on_stack(stack: &Vec<usize>, i: usize) -> (r: bool)
    ensures
        r == indices(stack@).contains(i as int),
{
    let mut k: usize = 0;
    while k < stack.len()
        invariant
            k <= stack@.len(),
            forall|j: int| 0 <= j < k ==> stack@[j] != i,
        decreases stack.len() - k,
    {
        if stack[k] == i {
            proof {
                assert(indices(stack@)[k as int] == i as int);
            }
            return true;
        }
        k += 1;
    }
    false
}

/// The cost of a function.
pub open spec fn is_cost_of(cost: Cost, all: Seq<model::Function>, i: int) -> bool {
    &&& cost.path@ == all[i].path
    &&& cost.commands == capped(walk(all, i, seq![]).0)
    &&& cost.loops == !walk(all, i, seq![]).1
}

/// The cost of every function in the program.
pub fn costs(mir: &Mir) -> (r: Vec<Cost>)
    ensures
        r@.len() == mir@.len(),
        forall|i: int| 0 <= i < mir@.len() ==> is_cost_of(#[trigger] r@[i], mir@, i),
{
    let ghost all = mir@;
    let mut counted = Counted { own: Vec::new(), repeated: Vec::new(), calls: Vec::new() };
    let mut i: usize = 0;
    while i < mir.functions.len()
        invariant
            i <= mir.functions@.len(),
            all == mir@,
            counted.own@.len() == i,
            counted.repeated@.len() == i,
            counted.calls@.len() == i,
            forall|k: int|
                0 <= k < i ==> #[trigger] counted.own@[k] == capped(own_cost(all[k])),
            forall|k: int|
                0 <= k < i ==> #[trigger] counted.repeated@[k] == runs_per_entity(all[k]),
            forall|k: int|
                0 <= k < i ==> indices((#[trigger] counted.calls@[k])@) == callees(all, all[k]),
        decreases mir.functions.len() - i,
    {
        proof {
            assert(all[i as int] == mir.functions@[i as int]@);
        }
        let f = &mir.functions[i];
        counted.own.push(count_own(f));
        counted.repeated.push(is_repeated(f));
        counted.calls.push(find_callees(&mir.functions, f));
        i += 1;
    }
    let mut out: Vec<Cost> = Vec::new();
    let mut i: usize = 0;
    while i < mir.functions.len()
        invariant
            i <= mir.functions@.len(),
            all == mir@,
            counted.of(all),
            out@.len() == i,
            forall|k: int| 0 <= k < i ==> is_cost_of(#[trigger] out@[k], all, k),
        decreases mir.functions.len() - i,
    {
        let mut stack: Vec<usize> = Vec::new();
        proof {
            assert(indices(stack@) =~= seq![]);
        }
        let (commands, exact) = counted.walk(i, &mut stack, Ghost(all));
        out.push(Cost { path: mir.functions[i].path.clone(), commands, loops: !exact });
        i += 1;
    }
    out
}

// ---------------------------------------------------------------------------
// The report.
// ---------------------------------------------------------------------------

pub open spec fn table_head() -> Seq<char> {
    "# commands per call, callees included, counting every guard as taken.\n# '+' means the number is one pass: a loop, a recursive call or an\n# 'execute as' over several entities repeats part of it, and how often\n# depends on the data.\n# maxCommandChainLength is 65536 per tick by default; over it, Minecraft stops\n# the chain without saying so.\n\n"@
}

/// The bytes of the longest path among the first `i` costs.
pub open spec fn table_width(costs: Seq<Cost>, i: int) -> nat
    decreases i,
{
    if i <= 0 || i > costs.len() {
        0
    } else {
        let one = offset(costs[i - 1].path@, costs[i - 1].path@.len() as int);
        let before = table_width(costs, i - 1);
        if one > before {
            one
        } else {
            before
        }
    }
}

/// A text with spaces after it, up to a width in characters.
pub open spec fn padded(s: Seq<char>, width: nat) -> Seq<char> {
    s + Seq::new(
        if s.len() < width {
            (width - s.len()) as nat
        } else {
            0
        },
        |i: int| ' ',
    )
}

pub open spec fn table_line(cost: Cost, width: nat) -> Seq<char> {
    padded(cost.path@, width) + "  "@ + nat_text(cost.commands as nat) + (if cost.loops {
        " +"@
    } else {
        ""@
    }) + "\n"@
}

pub open spec fn table_lines(costs: Seq<Cost>, width: nat, i: int) -> Seq<char>
    decreases i,
{
    if i <= 0 || i > costs.len() {
        seq![]
    } else {
        table_lines(costs, width, i - 1) + table_line(costs[i - 1], width)
    }
}

/// Whether a function is certain to go over what one tick may run.
pub open spec fn over_limit(cost: Cost) -> bool {
    !cost.loops && cost.commands > MAX_COMMAND_CHAIN
}

pub open spec fn over_lines(costs: Seq<Cost>, i: int) -> Seq<char>
    decreases i,
{
    if i <= 0 || i > costs.len() {
        seq![]
    } else {
        over_lines(costs, i - 1) + if over_limit(costs[i - 1]) {
            "#   "@ + costs[i - 1].path@ + " ("@ + nat_text(costs[i - 1].commands as nat) + ")\n"@
        } else {
            seq![]
        }
    }
}

pub open spec fn any_over(costs: Seq<Cost>, i: int) -> bool
    decreases i,
{
    if i <= 0 || i > costs.len() {
        false
    } else {
        any_over(costs, i - 1) || over_limit(costs[i - 1])
    }
}

pub open spec fn table_text(costs: Seq<Cost>) -> Seq<char> {
    let n = costs.len() as int;
    table_head() + table_lines(costs, table_width(costs, n), n) + if any_over(costs, n) {
        "\n# over maxCommandChainLength:\n"@ + over_lines(costs, n)
    } else {
        seq![]
    }
}

fn pad(s: &str, width: usize) -> (r: String)
    ensures
        r@ == padded(s@, width as nat),
{
    let mut out = own(s);
    let mut n: usize = chars(s).len();
    let ghost start: nat = n as nat;
    proof {
        assert(out@ =~= s@ + Seq::new(0, |i: int| ' '));
    }
    while n < width
        invariant
            start == s@.len(),
            start <= n,
            n <= width || n == start,
            out@ == s@ + Seq::new((n - start) as nat, |i: int| ' '),
        decreases width - n,
    {
        push(&mut out, ' ');
        proof {
            assert(out@ =~= s@ + Seq::new((n + 1 - start) as nat, |i: int| ' '));
        }
        n += 1;
    }
    out
}

/// The report `mwl build` writes to `target/cost.txt`.
pub fn table(costs: &Vec<Cost>) -> (r: String)
    ensures
        r@ == table_text(costs@),
{
    let mut width: usize = 0;
    let mut i: usize = 0;
    while i < costs.len()
        invariant
            i <= costs@.len(),
            width == table_width(costs@, i as int),
        decreases costs.len() - i,
    {
        proof {
            crate::syntax::lexer::lemma_offset_is_byte_length(costs@[i as int].path@);
        }
        let one: usize = costs[i].path.as_str().as_bytes().len();
        if one > width {
            width = one;
        }
        i += 1;
    }
    let mut lines = String::new();
    let mut over = String::new();
    let mut any = false;
    proof {
        assert(lines@ =~= seq![]);
        assert(over@ =~= seq![]);
    }
    let mut i: usize = 0;
    while i < costs.len()
        invariant
            i <= costs@.len(),
            lines@ == table_lines(costs@, width as nat, i as int),
            over@ == over_lines(costs@, i as int),
            any == any_over(costs@, i as int),
        decreases costs.len() - i,
    {
        let cost = &costs[i];
        let count = show_u64(cost.commands);
        let line = cat5(
            pad(cost.path.as_str(), width).as_str(),
            "  ",
            count.as_str(),
            if cost.loops {
                " +"
            } else {
                ""
            },
            "\n",
        );
        lines.append(line.as_str());
        let ghost before = over@;
        if !cost.loops && cost.commands > MAX_COMMAND_CHAIN {
            over.append(cat5("#   ", cost.path.as_str(), " (", count.as_str(), ")\n").as_str());
            any = true;
        } else {
            proof {
                assert(before + Seq::<char>::empty() =~= before);
            }
        }
        i += 1;
    }
    let mut out = own(
        "# commands per call, callees included, counting every guard as taken.\n# '+' means the number is one pass: a loop, a recursive call or an\n# 'execute as' over several entities repeats part of it, and how often\n# depends on the data.\n# maxCommandChainLength is 65536 per tick by default; over it, Minecraft stops\n# the chain without saying so.\n\n",
    );
    out.append(lines.as_str());
    let ghost before = out@;
    if any {
        out.append(cat2("\n# over maxCommandChainLength:\n", over.as_str()).as_str());
    } else {
        proof {
            assert(before + Seq::<char>::empty() =~= before);
        }
    }
    out
}

/// The costs that are certain to go over what one tick may run.
pub fn over(costs: &Vec<Cost>) -> (r: Vec<usize>)
    ensures
        forall|k: int| 0 <= k < r@.len() ==> (#[trigger] r@[k]) < costs@.len() && over_limit(
            costs@[r@[k] as int],
        ),
        forall|i: int|
            0 <= i < costs@.len() && over_limit(#[trigger] costs@[i]) ==> r@.contains(i as usize),
        forall|j: int, k: int| 0 <= j < k < r@.len() ==> r@[j] < r@[k],
{
    let mut out: Vec<usize> = Vec::new();
    let mut i: usize = 0;
    while i < costs.len()
        invariant
            i <= costs@.len(),
            forall|k: int|
                0 <= k < out@.len() ==> (#[trigger] out@[k]) < i && over_limit(
                    costs@[out@[k] as int],
                ),
            forall|k: int|
                0 <= k < i && over_limit(#[trigger] costs@[k]) ==> out@.contains(k as usize),
            forall|j: int, k: int| 0 <= j < k < out@.len() ==> out@[j] < out@[k],
        decreases costs.len() - i,
    {
        let ghost before = out@;
        if !costs[i].loops && costs[i].commands > MAX_COMMAND_CHAIN {
            out.push(i);
            proof {
                assert(out@[before.len() as int] == i);
            }
        }
        proof {
            assert forall|k: int|
                0 <= k < i + 1 && over_limit(#[trigger] costs@[k]) implies out@.contains(
                k as usize,
            ) by {
                if k < i {
                    let j = choose|j: int| 0 <= j < before.len() && before[j] == k as usize;
                    assert(out@[j] == k as usize);
                }
            }
        }
        i += 1;
    }
    out
}

} // verus!

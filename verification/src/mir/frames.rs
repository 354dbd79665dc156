//! What a call does: the parameters hold the arguments when it is made, the result is what
//! it returned, and a call that can come back leaves its caller what the caller had in use.

use vstd::prelude::*;

use crate::hir::model::{Expr, Function as HirFunction, Kind};
use crate::hir::FnId;
use crate::mir::growing::expr_carries;
use crate::mir::meaning::{
    between, calculates, lemma_expressions_compute_their_value, lemma_wider, meaning, ran, size,
    stands, stepped, temporary, value_in,
};
use crate::mir::model::{Inst, Reg};
use crate::mir::rules::{
    call, call_values, copy_into, expr, live_slots, local_reg, pass_values, recursive, restore,
    restores, save, saves, Env, Lx, Slot, Value,
};
use crate::mir::storing::lemma_same_meaning;
use crate::mir::Op;
use crate::syntax::laws::grows;

verus! {

// ---------------------------------------------------------------------------
// The commands.
// ---------------------------------------------------------------------------

/// What a slot of a frame holds.
pub enum Cell<D> {
    Score(i32),
    Data(D),
}

/// The scores, the data in storage by its path, and the frames of the calls that are on.
pub struct Memory<D> {
    pub scores: Map<Reg, i32>,
    pub data: Map<Seq<char>, D>,
    pub frames: Seq<Map<u32, Cell<D>>>,
}

/// What is held in a slot.
pub open spec fn held_in<D>(m: Memory<D>, slot: Slot) -> Cell<D> {
    match slot {
        Slot::Score(reg) => Cell::Score(m.scores[reg]),
        Slot::Data(path) => Cell::Data(m.data[path]),
    }
}

/// A function as its caller sees it: what it leaves, and what it returns.
#[verifier::reject_recursive_types(D)]
pub struct Callee<D> {
    pub path: Seq<char>,
    pub leaves: spec_fn(Memory<D>) -> Memory<D>,
    pub returns: spec_fn(Memory<D>) -> i32,
}

/// The memory after a command, if it is one on scores, on frames, or a call of that
/// function.
pub open spec fn went<D>(f: Callee<D>, inst: Inst, m: Memory<D>) -> Option<Memory<D>> {
    let top = m.frames.last();
    let below = m.frames.drop_last();
    match inst {
        Inst::PushFrame => Some(Memory { frames: m.frames.push(Map::empty()), ..m }),
        Inst::PopFrame => Some(Memory { frames: below, ..m }),
        Inst::Save(reg, slot) => Some(
            Memory {
                frames: below.push(top.insert(slot, Cell::Score(m.scores[reg]))),
                ..m
            },
        ),
        Inst::SaveData(path, slot) => Some(
            Memory { frames: below.push(top.insert(slot, Cell::Data(m.data[path]))), ..m },
        ),
        Inst::Restore(reg, slot) => match top[slot] {
            Cell::Score(n) => Some(Memory { scores: m.scores.insert(reg, n), ..m }),
            Cell::Data(_) => None,
        },
        Inst::RestoreData(path, slot) => match top[slot] {
            Cell::Data(d) => Some(Memory { data: m.data.insert(path, d), ..m }),
            Cell::Score(_) => None,
        },
        Inst::Call(path) => if path == f.path {
            Some((f.leaves)(m))
        } else {
            None
        },
        Inst::StoreResult(dst, inner) => match *inner {
            Inst::Call(path) => if path == f.path {
                let m1 = (f.leaves)(m);
                Some(Memory { scores: m1.scores.insert(dst, (f.returns)(m)), ..m1 })
            } else {
                None
            },
            _ => None,
        },
        _ => match stepped(m.scores, inst) {
            Some(scores) => Some(Memory { scores, ..m }),
            None => None,
        },
    }
}

pub open spec fn went_all<D>(f: Callee<D>, insts: Seq<Inst>, from: int, m: Memory<D>) -> Option<
    Memory<D>,
>
    decreases insts.len(),
{
    if insts.len() == 0 || insts.len() <= from {
        Some(m)
    } else {
        match went_all(f, insts.drop_last(), from, m) {
            Some(m1) => went(f, insts.last(), m1),
            None => None,
        }
    }
}

/// Whether the commands from the `from`th on lead from one memory to another.
pub open spec fn moves<D>(
    f: Callee<D>,
    insts: Seq<Inst>,
    from: int,
    start: Memory<D>,
    m: Memory<D>,
) -> bool {
    0 <= from <= insts.len() && went_all(f, insts, from, start) == Some(m)
}

proof fn lemma_next<D>(
    f: Callee<D>,
    insts: Seq<Inst>,
    inst: Inst,
    from: int,
    start: Memory<D>,
    m: Memory<D>,
)
    requires
        moves(f, insts, from, start, m),
        went(f, inst, m) is Some,
    ensures
        moves(f, insts.push(inst), from, start, went(f, inst, m)->0),
{
    assert(insts.push(inst).drop_last() =~= insts);
}

proof fn lemma_scores_only<D>(
    f: Callee<D>,
    a: Seq<Inst>,
    b: Seq<Inst>,
    from: int,
    start: Memory<D>,
    m: Memory<D>,
    scores: Map<Reg, i32>,
)
    requires
        moves(f, a, from, start, m),
        grows(a, b),
        ran(b, a.len() as int, m.scores) == Some(scores),
    ensures
        moves(f, b, from, start, Memory { scores, ..m }),
    decreases b.len(),
{
    reveal(grows);
    if b.len() > a.len() {
        let c = b.drop_last();
        assert(c.take(a.len() as int) =~= a);
        let mid = ran(c, a.len() as int, m.scores)->0;
        lemma_scores_only(f, a, c, from, start, m, mid);
        assert(b =~= c.push(b.last()));
        lemma_next(f, c, b.last(), from, start, Memory { scores: mid, ..m });
    } else {
        assert(b =~= a);
        assert(Memory { scores: m.scores, ..m } == m);
    }
}

// ---------------------------------------------------------------------------
// Frames.
// ---------------------------------------------------------------------------

/// Saving fills the top frame with what the slots hold, and touches nothing else.
proof fn lemma_saved<D>(
    f: Callee<D>,
    insts: Seq<Inst>,
    slots: Seq<Slot>,
    n: int,
    from: int,
    start: Memory<D>,
    m: Memory<D>,
) -> (r: Memory<D>)
    requires
        moves(f, insts, from, start, m),
        m.frames.len() > 0,
        0 <= n <= slots.len() <= u32::MAX,
    ensures
        moves(f, insts + saves(slots).take(n), from, start, r),
        r.scores == m.scores,
        r.data == m.data,
        r.frames.len() == m.frames.len(),
        r.frames.drop_last() == m.frames.drop_last(),
        forall|k: int|
            0 <= k < n ==> r.frames.last()[k as u32] == held_in(m, #[trigger] slots[k]),
    decreases n,
{
    if n == 0 {
        assert(insts + saves(slots).take(0) =~= insts);
        m
    } else {
        let before = lemma_saved(f, insts, slots, n - 1, from, start, m);
        let inst = save(slots[n - 1], n - 1);
        let most = insts + saves(slots).take(n - 1);
        assert(saves(slots)[n - 1] == inst);
        assert(insts + saves(slots).take(n) =~= most.push(inst));
        lemma_next(f, most, inst, from, start, before);
        let r = went(f, inst, before)->0;
        assert(r.frames.drop_last() =~= before.frames.drop_last());
        assert(r.frames.last() == before.frames.last().insert(
            (n - 1) as u32,
            held_in(m, slots[n - 1]),
        ));
        assert forall|k: int| 0 <= k < n implies r.frames.last()[k as u32] == held_in(
            m,
            #[trigger] slots[k],
        ) by {
            if k < n - 1 {
                assert(k as u32 != (n - 1) as u32);
            }
        }
        r
    }
}

/// Restoring puts back what the top frame holds, and touches nothing else.
proof fn lemma_restored<D>(
    f: Callee<D>,
    insts: Seq<Inst>,
    slots: Seq<Slot>,
    n: int,
    from: int,
    start: Memory<D>,
    m: Memory<D>,
    before: Memory<D>,
) -> (r: Memory<D>)
    requires
        moves(f, insts, from, start, m),
        m.frames.len() > 0,
        0 <= n <= slots.len() <= u32::MAX,
        forall|k: int|
            0 <= k < slots.len() ==> m.frames.last()[k as u32] == held_in(
                before,
                #[trigger] slots[k],
            ),
    ensures
        moves(f, insts + restores(slots).take(n), from, start, r),
        r.frames == m.frames,
        forall|slot: Slot| #[trigger]
            held_in(r, slot) == if slots.take(n).contains(slot) {
                held_in(before, slot)
            } else {
                held_in(m, slot)
            },
    decreases n,
{
    if n == 0 {
        assert(insts + restores(slots).take(0) =~= insts);
        m
    } else {
        let most = lemma_restored(f, insts, slots, n - 1, from, start, m, before);
        let inst = restore(slots[n - 1], n - 1);
        let done = insts + restores(slots).take(n - 1);
        assert(restores(slots)[n - 1] == inst);
        assert(insts + restores(slots).take(n) =~= done.push(inst));
        assert(m.frames.last()[(n - 1) as u32] == held_in(before, slots[n - 1]));
        lemma_next(f, done, inst, from, start, most);
        let r = went(f, inst, most)->0;
        let known = slots.take(n);
        let fewer = slots.take(n - 1);
        assert(known =~= fewer.push(slots[n - 1]));
        assert forall|slot: Slot| #[trigger] held_in(r, slot) == if known.contains(slot) {
            held_in(before, slot)
        } else {
            held_in(m, slot)
        } by {
            if slot == slots[n - 1] {
                assert(known[n - 1] == slot);
            } else {
                assert(held_in(r, slot) == held_in(most, slot));
                if fewer.contains(slot) {
                    let k = choose|k: int| 0 <= k < fewer.len() && fewer[k] == slot;
                    assert(known[k] == slot);
                }
                if known.contains(slot) {
                    let k = choose|k: int| 0 <= k < known.len() && known[k] == slot;
                    assert(fewer[k] == slot);
                }
            }
        }
        r
    }
}

// ---------------------------------------------------------------------------
// Arguments.
// ---------------------------------------------------------------------------

/// Whether the arguments are numbers, from the `i`th on.
pub open spec fn are_numbers(f: HirFunction, scores: Map<Reg, i32>, args: Seq<Expr>) -> bool {
    forall|i: int|
        0 <= i < args.len() ==> calculates(f, scores, #[trigger] args[i]) && !args[i].ty.storage()
            && size(args[i]) <= 0x1_0000
}

/// Whether the values are those of the first arguments.
pub open spec fn are_values(
    f: HirFunction,
    scores: Map<Reg, i32>,
    args: Seq<Expr>,
    values: Seq<Option<Value>>,
    now: Map<Reg, i32>,
    hi: nat,
) -> bool {
    &&& values.len() <= args.len()
    &&& forall|i: int|
        0 <= i < values.len() ==> match #[trigger] values[i] {
            Some(v) => value_in(v, now) == meaning(f, scores, args[i]) && (v is Reg ==> (
            v->Reg_0.kind is Var && args[i].kind == Kind::Local(args[i].kind->Local_0)
                && v->Reg_0 == local_reg(f, args[i].kind->Local_0)) || between(v->Reg_0, 0, hi)),
            None => false,
        }
}

#[verifier::spinoff_prover]
proof fn lemma_values<D>(
    f: Callee<D>,
    env: Env,
    cx: Lx,
    args: Seq<Expr>,
    i: int,
    acc: Seq<Option<Value>>,
    from: int,
    start: Memory<D>,
    first: Map<Reg, i32>,
    m: Memory<D>,
) -> (scores: Map<Reg, i32>)
    requires
        moves(f, cx.insts, from, start, m),
        0 <= i == acc.len(),
        i <= args.len(),
        are_numbers(env.function, first, args),
        forall|x: Reg| x.kind is Var ==> #[trigger] m.scores[x] == first[x],
        are_values(env.function, first, args, acc, m.scores, cx.scores as nat),
        cx.scores + 0x4_0000 * (args.len() - i) <= u32::MAX,
    ensures
        ({
            let (cx1, values) = call_values(env, cx, args, i, acc);
            &&& moves(f, cx1.insts, from, start, Memory { scores, ..m })
            &&& values.len() == args.len()
            &&& are_values(env.function, first, args, values, scores, cx1.scores as nat)
            &&& forall|x: Reg| x.kind is Var ==> #[trigger] scores[x] == first[x]
            &&& cx.scores <= cx1.scores <= cx.scores + 0x4_0000 * (args.len() - i)
        }),
    decreases args.len() - i,
{
    reveal(call_values);
    reveal(expr);
    let g = env.function;
    if i >= args.len() {
        assert(Memory { scores: m.scores, ..m } == m);
        m.scores
    } else {
        let e = args[i];
        let (cx1, v) = expr(env, cx, e);
        let at = cx.insts.len() as int;
        let lo = cx.scores as nat;
        let hi = cx1.scores as nat;
        lemma_same_meaning(g, first, m.scores, temporary(0), e);
        assert(stands(cx, at, m.scores, m.scores));
        let now = lemma_expressions_compute_their_value(env, cx, e, at, m.scores, m.scores);
        expr_carries(env, cx, e);
        lemma_scores_only(f, cx.insts, cx1.insts, from, start, m, now);
        let m1 = Memory { scores: now, ..m };
        let more = acc.push(Some(v));
        lemma_wider(0, lo, hi);
        assert forall|x: Reg| x.kind is Var implies #[trigger] m1.scores[x] == first[x] by {
            assert(!between(x, lo, hi));
            assert(now[x] == m.scores[x]);
        }
        assert(are_values(g, first, args, more, now, hi)) by {
            assert forall|k: int| 0 <= k < more.len() implies match #[trigger] more[k] {
                Some(v) => value_in(v, now) == meaning(g, first, args[k]) && (v is Reg ==> (
                v->Reg_0.kind is Var && args[k].kind == Kind::Local(args[k].kind->Local_0)
                    && v->Reg_0 == local_reg(g, args[k].kind->Local_0)) || between(
                    v->Reg_0,
                    0,
                    hi,
                )),
                None => false,
            } by {
                if k < i {
                    assert(more[k] == acc[k]);
                    match acc[k] {
                        Some(Value::Reg(r)) => {
                            assert(!between(r, lo, hi));
                            assert(now[r] == m.scores[r]);
                        },
                        _ => {},
                    }
                }
            }
        }
        lemma_values(f, env, cx1, args, i + 1, more, from, start, first, m1)
    }
}

/// Whether each parameter is a register of its own, and none of them is a binding that is
/// handed over as it is.
pub open spec fn are_apart(g: HirFunction, callee: HirFunction, args: Seq<Expr>) -> bool {
    &&& forall|i: int, j: int|
        #![trigger callee.params[i], callee.params[j]]
        0 <= i < j < callee.params.len() ==> local_reg(callee, callee.params[i]) != local_reg(
            callee,
            callee.params[j],
        )
    &&& forall|i: int, j: int|
        #![trigger callee.params[i], args[j]]
        0 <= i < callee.params.len() && 0 <= j < args.len() ==> match args[j].kind {
            Kind::Local(local) => local_reg(g, local) != local_reg(callee, callee.params[i]),
            _ => true,
        }
}

#[verifier::spinoff_prover]
proof fn lemma_passed<D>(
    f: Callee<D>,
    env: Env,
    cx: Lx,
    callee: HirFunction,
    args: Seq<Expr>,
    values: Seq<Option<Value>>,
    i: int,
    from: int,
    start: Memory<D>,
    first: Map<Reg, i32>,
    hi: nat,
    m: Memory<D>,
) -> (scores: Map<Reg, i32>)
    requires
        moves(f, cx.insts, from, start, m),
        0 <= i <= args.len(),
        values.len() == args.len(),
        args.len() == callee.params.len(),
        are_values(env.function, first, args, values, m.scores, hi),
        are_apart(env.function, callee, args),
        forall|k: int|
            0 <= k < i ==> m.scores[local_reg(callee, #[trigger] callee.params[k])] == meaning(
                env.function,
                first,
                args[k],
            ),
    ensures
        ({
            let cx1 = pass_values(env, cx, callee, args, values, i);
            &&& moves(f, cx1.insts, from, start, Memory { scores, ..m })
            &&& forall|k: int|
                0 <= k < args.len() ==> scores[local_reg(callee, #[trigger] callee.params[k])]
                    == meaning(env.function, first, args[k])
            &&& forall|x: Reg|
                (forall|k: int|
                    0 <= k < callee.params.len() ==> local_reg(
                        callee,
                        #[trigger] callee.params[k],
                    ) != x) ==> #[trigger] scores[x] == m.scores[x]
            &&& cx1.scores == cx.scores
        }),
    decreases args.len() - i,
{
    reveal(pass_values);
    let g = env.function;
    if i >= args.len() {
        assert(Memory { scores: m.scores, ..m } == m);
        m.scores
    } else {
        let dst = local_reg(callee, callee.params[i]);
        let v = values[i]->0;
        let cx1 = copy_into(cx, dst, v);
        let inst = match v {
            Value::Const(n) => Inst::Const(dst, n),
            Value::Reg(src) => Inst::Op(dst, Op::Assign, src),
        };
        let n = meaning(g, first, args[i]);
        assert(values[i] is Some);
        lemma_next(f, cx.insts, inst, from, start, m);
        let m1 = Memory { scores: m.scores.insert(dst, n), ..m };
        assert(went(f, inst, m) == Some(m1));
        assert(are_values(g, first, args, values, m1.scores, hi)) by {
            assert forall|k: int| 0 <= k < values.len() implies match #[trigger] values[k] {
                Some(v) => value_in(v, m1.scores) == meaning(g, first, args[k]) && (v is Reg ==> (
                v->Reg_0.kind is Var && args[k].kind == Kind::Local(args[k].kind->Local_0)
                    && v->Reg_0 == local_reg(g, args[k].kind->Local_0)) || between(
                    v->Reg_0,
                    0,
                    hi,
                )),
                None => false,
            } by {
                let a = args[k];
                let p = callee.params[i];
                match values[k] {
                    Some(Value::Reg(r)) => {
                        if between(r, 0, hi) {
                            assert(r != dst);
                        }
                        assert(r != dst);
                    },
                    _ => {},
                }
            }
        }
        assert forall|k: int| 0 <= k < i + 1 implies m1.scores[local_reg(
            callee,
            #[trigger] callee.params[k],
        )] == meaning(g, first, args[k]) by {
            if k < i {
                let (a, b) = (callee.params[k], callee.params[i]);
                assert(local_reg(callee, a) != local_reg(callee, b));
            }
        }
        let scores = lemma_passed(
            f, env, cx1, callee, args, values, i + 1, from, start, first, hi, m1,
        );
        assert forall|x: Reg|
            (forall|k: int|
                0 <= k < callee.params.len() ==> local_reg(callee, #[trigger] callee.params[k])
                    != x) implies #[trigger] scores[x] == m.scores[x] by {
            let p = callee.params[i];
            assert(dst != x);
            assert(scores[x] == m1.scores[x]);
        }
        scores
    }
}

// ---------------------------------------------------------------------------
// Calls.
// ---------------------------------------------------------------------------

/// A call hands over its arguments and gives back what the function returned: when it is
/// made, each parameter holds what its argument means, and every other binding is what it
/// was. After a call that can come back, everything the caller had in use is what it was
/// before the arguments were written, whatever the function did to it; the frames are those
/// from before.
#[verifier::spinoff_prover]
pub proof fn lemma_calls_hand_over_and_give_back<D>(
    f: Callee<D>,
    env: Env,
    cx: Lx,
    to: FnId,
    args: Seq<Expr>,
    from: int,
    start: Memory<D>,
    m: Memory<D>,
) -> (r: (Memory<D>, Memory<D>, Memory<D>))
    requires
        moves(f, cx.insts, from, start, m),
        to.0 < env.functions.len(),
        f.path == env.functions[to.0 as int].path,
        args.len() == env.functions[to.0 as int].params.len(),
        args.len() <= 0x100,
        cx.scores <= 0x8000_0000,
        are_numbers(env.function, m.scores, args),
        are_apart(env.function, env.functions[to.0 as int], args),
        live_slots(env, call_values(env, cx, args, 0, seq![]).0).len() <= u32::MAX,
        // The temporary that the result goes into is not in use yet.
        !live_slots(env, call_values(env, cx, args, 0, seq![]).0).contains(
            Slot::Score(call(env, cx, to, args, true).1),
        ),
        // A function leaves the frames as it found them.
        forall|x: Memory<D>| (#[trigger] (f.leaves)(x)).frames == x.frames,
    ensures
        ({
            let (before, made, ended) = r;
            let callee = env.functions[to.0 as int];
            let (cx1, result) = call(env, cx, to, args, true);
            let slots = live_slots(env, call_values(env, cx, args, 0, seq![]).0);
            let left = (f.leaves)(made);
            &&& moves(f, cx1.insts, from, start, ended)
            // What the caller had, with its arguments worked out.
            &&& forall|x: Reg| x.kind is Var ==> #[trigger] before.scores[x] == m.scores[x]
            &&& before.data == m.data
            // What the function finds.
            &&& forall|k: int|
                0 <= k < args.len() ==> made.scores[local_reg(
                    callee,
                    #[trigger] callee.params[k],
                )] == meaning(env.function, m.scores, args[k])
            &&& made.data == m.data
            // What is left of it.
            &&& ended.scores[result] == (f.returns)(made)
            &&& ended.frames == m.frames
            &&& forall|slot: Slot|
                slot != Slot::Score(result) ==> #[trigger] held_in(ended, slot) == if recursive(
                    env.functions,
                    env.function.id,
                    to,
                ) && slots.contains(slot) {
                    held_in(before, slot)
                } else {
                    held_in(left, slot)
                }
        }),
{
    reveal(call);
    reveal(call_values);
    reveal(pass_values);
    let g = env.function;
    let callee = env.functions[to.0 as int];
    let again = recursive(env.functions, g.id, to);
    let none = Seq::<Option<Value>>::empty();
    let (cx1, values) = call_values(env, cx, args, 0, none);
    let scores1 = lemma_values(f, env, cx, args, 0, none, from, start, m.scores, m);
    let m1 = Memory { scores: scores1, ..m };
    let slots = live_slots(env, cx1);
    let framed = cx1.insts.push(Inst::PushFrame);
    let cx2 = if again {
        Lx { insts: framed + saves(slots), ..cx1 }
    } else {
        cx1
    };
    let m2 = if again {
        lemma_next(f, cx1.insts, Inst::PushFrame, from, start, m1);
        let pushed = went(f, Inst::PushFrame, m1)->0;
        let n = slots.len() as int;
        let m2 = lemma_saved(f, framed, slots, n, from, start, pushed);
        assert(saves(slots).take(n) =~= saves(slots));
        assert(m2.frames.drop_last() =~= m.frames) by {
            assert(pushed.frames.drop_last() =~= m.frames);
        }
        m2
    } else {
        m1
    };
    let hi = cx1.scores as nat;
    let scores3 = lemma_passed(
        f, env, cx2, callee, args, values, 0, from, start, m.scores, hi, m2,
    );
    let cx3 = pass_values(env, cx2, callee, args, values, 0);
    let m3 = Memory { scores: scores3, ..m2 };
    let (cx4, result) = cx3.temp();
    assert(result == temporary(cx1.scores as nat));
    let inst = Inst::StoreResult(result, Box::new(Inst::Call(callee.path)));
    lemma_next(f, cx4.insts, inst, from, start, m3);
    let cx5 = cx4.emit(inst);
    let left = (f.leaves)(m3);
    let m5 = Memory { scores: left.scores.insert(result, (f.returns)(m3)), ..left };
    assert(went(f, inst, m3) == Some(m5));
    if again {
        let n = slots.len() as int;
        assert forall|k: int| 0 <= k < slots.len() implies m5.frames.last()[k as u32] == held_in(
            m1,
            #[trigger] slots[k],
        ) by {
            assert(m2.frames.last()[k as u32] == held_in(m1, slots[k]));
        }
        let m6 = lemma_restored(f, cx5.insts, slots, n, from, start, m5, m1);
        assert(restores(slots).take(n) =~= restores(slots));
        assert(slots.take(n) =~= slots);
        let back = cx5.insts + restores(slots);
        lemma_next(f, back, Inst::PopFrame, from, start, m6);
        let m7 = went(f, Inst::PopFrame, m6)->0;
        assert(call(env, cx, to, args, true).0.insts == back.push(Inst::PopFrame));
        assert(m7.frames =~= m.frames);
        // The result was handed out after what was saved.
        assert(held_in(m6, Slot::Score(result)) == held_in(m5, Slot::Score(result))) by {
            if slots.contains(Slot::Score(result)) {
                assert(false);
            }
        }
        assert forall|slot: Slot| slot != Slot::Score(result) implies #[trigger] held_in(m7, slot)
            == if slots.contains(slot) {
            held_in(m1, slot)
        } else {
            held_in(left, slot)
        } by {
            assert(held_in(m7, slot) == held_in(m6, slot));
            assert(held_in(m5, slot) == held_in(left, slot));
        }
        (m1, m3, m7)
    } else {
        assert forall|slot: Slot| slot != Slot::Score(result) implies #[trigger] held_in(m5, slot)
            == held_in(left, slot) by {}
        (m1, m3, m5)
    }
}

} // verus!

//! What the commands of a program do when they run: those on scores, calls, guards and
//! returns; and what the statements they are made of mean.
//!
//! Everything beyond the scores is a game that the commands are run in: what a command that
//! was written out does there, and what data it holds at a path, is up to the game.

use vstd::prelude::*;

use crate::hir::model::{
    Arm, Binding, Expr, Function as HirFunction, Place, RawPart, Scrutinee, Stmt,
};
use crate::hir::rules::values::is_static;
use crate::hir::{ArmTest, LocalId, Type};
use crate::mir::meaning::{assigned, calculates, holds, meaning, mentions, size, stepped, truthful};
use crate::mir::model::{Cond, ExecuteAs, Function, Inst, Reg};
use crate::mir::rules::{
    complaint, ctl_reg, escapes, is_comparison, local_of, local_path, local_reg, place_path,
    place_reg, ret_reg, variant_name, Env,
};

verus! {

// ---------------------------------------------------------------------------
// The commands.
// ---------------------------------------------------------------------------

/// What commands act on: the scores, the temporaries in storage, the lists that loops walk
/// through, and everything else.
pub struct World<R, D> {
    pub scores: Map<Reg, i32>,
    pub temps: Map<Seq<char>, D>,
    /// What is left of the lists that loops walk through.
    pub lists: Map<Seq<char>, Seq<D>>,
    pub rest: R,
}

/// What the commands do that reach beyond scores and temporaries.
#[verifier::reject_recursive_types(R)]
#[verifier::reject_recursive_types(D)]
pub struct Game<R, D> {
    /// What a command that was written out leaves.
    pub raw: spec_fn(R, Seq<char>) -> R,
    /// The data at a path.
    pub look: spec_fn(R, Seq<char>) -> D,
    /// What `data get` gives for a path.
    pub number: spec_fn(R, Seq<char>) -> i32,
    /// The elements of the list at a path.
    pub items: spec_fn(R, Seq<char>) -> Seq<D>,
    /// What `data get` gives for an element.
    pub value: spec_fn(D) -> i32,
    /// What writing data to a path leaves.
    pub put: spec_fn(R, Seq<char>, D) -> R,
    /// The tag of a compound.
    pub tag: spec_fn(D) -> Seq<char>,
    /// The entities that `execute as` or `at` finds, in order.
    pub found: spec_fn(R, ExecuteAs) -> Seq<D>,
    /// What everything is like in the turn of an entity.
    pub enter: spec_fn(R, ExecuteAs, D) -> R,
    /// What a turn leaves, given what was before it.
    pub leave: spec_fn(R, R) -> R,
}

/// Whether a turn in which nothing happens changes nothing.
pub open spec fn idle_turns<R, D>(g: Game<R, D>) -> bool {
    forall|r: R, clause: ExecuteAs, d: D|
        (g.leave)(#[trigger] (g.enter)(r, clause, d), r) == r
}

/// The commands of each function, by its path.
pub type Code = Map<Seq<char>, Seq<Inst>>;

/// Whether every function that was split out can be called by its path.
pub open spec fn linked(code: Code, generated: Seq<Function>) -> bool {
    forall|k: int|
        0 <= k < generated.len() ==> code.contains_key((#[trigger] generated[k]).path)
            && generated[k].blocks.len() > 0 && code[generated[k].path]
            == generated[k].blocks[0].insts
}

/// Whether a path is that of a temporary.
pub open spec fn is_temporary(path: Seq<char>) -> bool {
    path.len() >= 7 && path.take(7) == "mw.tmp."@
}

/// Whether a path is that of a list a loop walks through, or of a part of one.
pub open spec fn is_walked(path: Seq<char>) -> bool {
    path.len() >= 8 && path.take(8) == "mw.iter."@
}

/// The list whose first element a path is that of.
pub open spec fn list_of(path: Seq<char>) -> Option<Seq<char>> {
    if path.len() >= 3 && path.skip(path.len() - 3) == "[0]"@ {
        Some(path.take(path.len() - 3))
    } else {
        None
    }
}

/// The first element of a list that is walked through.
pub open spec fn first_of<R, D>(w: World<R, D>, path: Seq<char>) -> Option<D> {
    match list_of(path) {
        Some(list) => if w.lists[list].len() > 0 {
            Some(w.lists[list][0])
        } else {
            None
        },
        None => None,
    }
}

/// Whether a test holds, if it is one on scores, on the tag of a temporary or on
/// whether a list has a first element.
pub open spec fn passes<R, D>(g: Game<R, D>, c: Cond, w: World<R, D>) -> Option<bool> {
    match c {
        Cond::Data(path, filter, negated) => if is_temporary(path) {
            Some((filter == "{tag:\""@ + (g.tag)(w.temps[path]) + "\"}"@) != negated)
        } else if is_walked(path) && list_of(path) is Some && filter.len() == 0 {
            Some((first_of(w, path) is Some) != negated)
        } else {
            None
        },
        _ => Some(holds(c, w.scores)),
    }
}

/// The world after a command, and what is returned if the command ends its function.
pub open spec fn step<R, D>(
    g: Game<R, D>,
    code: Code,
    inst: Inst,
    w: World<R, D>,
    fuel: nat,
) -> Option<(World<R, D>, Option<i32>)>
    decreases fuel, inst, 0int,
{
    match inst {
        Inst::Raw(text, _) => Some((World { rest: (g.raw)(w.rest, text), ..w }, None)),
        Inst::Return(n) => Some((w, Some(n))),
        Inst::ReturnRun(inner) => match *inner {
            Inst::Get(src) => Some((w, Some(w.scores[src]))),
            _ => None,
        },
        Inst::StoreResult(dst, inner) => match *inner {
            Inst::GetData(path) => if is_temporary(path) {
                None
            } else if is_walked(path) {
                match first_of(w, path) {
                    Some(d) => Some(
                        (World { scores: w.scores.insert(dst, (g.value)(d)), ..w }, None),
                    ),
                    None => None,
                }
            } else {
                Some(
                    (
                        World { scores: w.scores.insert(dst, (g.number)(w.rest, path)), ..w },
                        None,
                    ),
                )
            },
            _ => None,
        },
        Inst::CopyData(dst, src) => if is_temporary(src) {
            None
        } else if is_walked(src) {
            match first_of(w, src) {
                Some(d) => Some((World { rest: (g.put)(w.rest, dst, d), ..w }, None)),
                None => None,
            }
        } else if is_walked(dst) {
            Some((World { lists: w.lists.insert(dst, (g.items)(w.rest, src)), ..w }, None))
        } else if is_temporary(dst) {
            Some((World { temps: w.temps.insert(dst, (g.look)(w.rest, src)), ..w }, None))
        } else {
            Some((World { rest: (g.put)(w.rest, dst, (g.look)(w.rest, src)), ..w }, None))
        },
        Inst::RemoveData(path) => match (list_of(path), first_of(w, path)) {
            (Some(list), Some(_)) => if is_walked(path) {
                Some((World { lists: w.lists.insert(list, w.lists[list].skip(1)), ..w }, None))
            } else {
                None
            },
            _ => None,
        },
        Inst::Guarded(c, inner) => match passes(g, c, w) {
            Some(true) => step(g, code, *inner, w, fuel),
            Some(false) => Some((w, None)),
            None => None,
        },
        Inst::Otherwise(path, tags, inner) => if !is_temporary(path) {
            None
        } else if tags.contains((g.tag)(w.temps[path])) {
            Some((w, None))
        } else {
            step(g, code, *inner, w, fuel)
        },
        Inst::Context(clause, inner) => each_turn(
            g,
            code,
            clause,
            *inner,
            (g.found)(w.rest, clause),
            w,
            fuel,
        ),
        Inst::Call(path) => if fuel > 0 && code.contains_key(path) {
            match run(g, code, code[path], 0, w, (fuel - 1) as nat) {
                Some((w1, _)) => Some((w1, None)),
                None => None,
            }
        } else {
            None
        },
        _ => match stepped(w.scores, inst) {
            Some(scores) => Some((World { scores, ..w }, None)),
            None => None,
        },
    }
}

/// The world after a command has run once for each of those entities.
pub open spec fn each_turn<R, D>(
    g: Game<R, D>,
    code: Code,
    clause: ExecuteAs,
    inst: Inst,
    found: Seq<D>,
    w: World<R, D>,
    fuel: nat,
) -> Option<(World<R, D>, Option<i32>)>
    decreases fuel, inst, found.len() + 1,
{
    if found.len() == 0 {
        Some((w, None))
    } else {
        let w0 = World { rest: (g.enter)(w.rest, clause, found[0]), ..w };
        match step(g, code, inst, w0, fuel) {
            Some((w1, None)) => each_turn(
                g,
                code,
                clause,
                inst,
                found.skip(1),
                World { rest: (g.leave)(w1.rest, w.rest), ..w1 },
                fuel,
            ),
            _ => None,
        }
    }
}

/// The world after the commands from the `i`th on, and what they return if one of them
/// returns. With too little fuel for the calls on the way there is no answer.
pub open spec fn run<R, D>(
    g: Game<R, D>,
    code: Code,
    insts: Seq<Inst>,
    i: int,
    w: World<R, D>,
    fuel: nat,
) -> Option<(World<R, D>, Option<i32>)>
    decreases fuel, insts, insts.len() - i,
{
    if i < 0 || i >= insts.len() {
        Some((w, None))
    } else {
        match step(g, code, insts[i], w, fuel) {
            Some((w1, None)) => run(g, code, insts, i + 1, w1, fuel),
            left => left,
        }
    }
}

// ---------------------------------------------------------------------------
// The language.
// ---------------------------------------------------------------------------

/// What statements act on: the bindings on the scoreboard, and everything else.
pub struct State<R> {
    pub vars: Map<Reg, i32>,
    pub rest: R,
}

/// How a statement ends.
pub enum Flow {
    /// What follows is next.
    Normal,
    /// The loop is over.
    Break,
    /// The iteration is over.
    Continue,
    /// The function is over and gives that value, or 0 if it gives none.
    Return(i32),
}

/// Whether a register is not one of the two that control is kept in: no binding is called
/// `ctl` or `ret`.
pub open spec fn apart(f: HirFunction, r: Reg) -> bool {
    r != ctl_reg(f) && r != ret_reg(f)
}

/// Whether an expression is one of numbers and booleans, and not larger than any that can
/// be written down.
pub open spec fn known(f: HirFunction, s: Map<Reg, i32>, e: Expr) -> bool {
    &&& calculates(f, s, e)
    &&& size(e) <= 0x1000_0000
    &&& forall|r: Reg| #[trigger] mentions(f, e, r) ==> apart(f, r)
}

pub open spec fn is_test(f: HirFunction, s: Map<Reg, i32>, e: Expr) -> bool {
    known(f, s, e) && truthful(f, s, e)
}

/// Whether the bindings an expression reads are what they were.
pub open spec fn untouched(f: HirFunction, e: Expr, a: Map<Reg, i32>, b: Map<Reg, i32>) -> bool {
    forall|r: Reg| #[trigger] mentions(f, e, r) ==> b[r] == a[r]
}

/// Whether at most one arm is meant by any tag: each names another variant, and what takes
/// the rest comes last.
pub open spec fn exclusive(env: Env, ty: Type, arms: Seq<Arm>) -> bool {
    forall|i: int, j: int|
        #![trigger arms[i], arms[j]]
        0 <= i < j < arms.len() ==> match (arms[i].test, arms[j].test) {
            (ArmTest::Variant(a), ArmTest::Variant(b)) => variant_name(env.types, ty, a)
                != variant_name(env.types, ty, b),
            (ArmTest::Variant(_), _) => true,
            _ => false,
        }
}

/// Whether an arm is meant by a tag, if none before it is.
pub open spec fn takes(env: Env, ty: Type, arm: Arm, tag: Seq<char>) -> bool {
    match arm.test {
        ArmTest::Variant(variant) => variant_name(env.types, ty, variant) == tag,
        _ => true,
    }
}

/// The arm that is meant by a tag, from the `i`th on, or their number.
pub open spec fn taken_arm(env: Env, ty: Type, arms: Seq<Arm>, tag: Seq<char>, i: int) -> int
    decreases arms.len() - i,
{
    if i < 0 || i >= arms.len() {
        arms.len() as int
    } else if takes(env, ty, arms[i], tag) {
        i
    } else {
        taken_arm(env, ty, arms, tag, i + 1)
    }
}

/// The state with the payload in the bindings from the `i`th on.
pub open spec fn bound<R, D>(
    g: Game<R, D>,
    f: HirFunction,
    s: State<R>,
    path: Seq<char>,
    bindings: Seq<Binding>,
    i: int,
) -> State<R>
    decreases bindings.len() - i,
{
    if i < 0 || i >= bindings.len() {
        s
    } else {
        let b = bindings[i];
        let from = path + "."@ + b.nbt;
        let s1 = if b.ty.storage() {
            State {
                rest: (g.put)(s.rest, local_path(f, b.local), (g.look)(s.rest, from)),
                ..s
            }
        } else {
            State { vars: s.vars.insert(local_reg(f, b.local), (g.number)(s.rest, from)), ..s }
        };
        bound(g, f, s1, path, bindings, i + 1)
    }
}

pub open spec fn bindable(f: HirFunction, bindings: Seq<Binding>) -> bool {
    forall|i: int|
        0 <= i < bindings.len() ==> apart(f, local_reg(f, (#[trigger] bindings[i]).local))
}

/// What the statements from the `i`th on do, in at most `n` rounds of any loop. There is no
/// answer where that is too few, nor for a statement that is about more than commands,
/// numbers, booleans and enums.
pub open spec fn exec_block<R, D>(
    g: Game<R, D>,
    env: Env,
    body: Seq<Stmt>,
    i: int,
    s: State<R>,
    n: nat,
) -> Option<(State<R>, Flow)>
    decreases n, body, body.len() - i,
{
    if i < 0 || i >= body.len() {
        Some((s, Flow::Normal))
    } else {
        match exec_stmt(g, env, body[i], s, n) {
            Some((s1, Flow::Normal)) => exec_block(g, env, body, i + 1, s1, n),
            left => left,
        }
    }
}

pub open spec fn exec_stmt<R, D>(
    g: Game<R, D>,
    env: Env,
    st: Stmt,
    s: State<R>,
    n: nat,
) -> Option<(State<R>, Flow)>
    decreases n, st, 0int,
{
    let f = env.function;
    match st {
        Stmt::Raw(raw) => if raw.parts.len() == 1 {
            match raw.parts[0] {
                RawPart::Lit(text) => Some(
                    (State { rest: (g.raw)(s.rest, text), ..s }, Flow::Normal),
                ),
                RawPart::Value(_) => None,
            }
        } else {
            None
        },
        Stmt::Let(local, value, _) => {
            let dst = local_reg(f, local);
            if !local_of(f, local).ty.storage() && known(f, s.vars, value) && apart(f, dst) {
                Some(
                    (
                        State { vars: s.vars.insert(dst, meaning(f, s.vars, value)), ..s },
                        Flow::Normal,
                    ),
                )
            } else {
                None
            }
        },
        Stmt::Assign(place, op, value, _) => {
            let dst = place_reg(f, place);
            if !place.ty.storage() && place.steps.len() == 0 && !(place.root is Entity) && known(
                f,
                s.vars,
                value,
            ) && apart(f, dst) && (op is Some ==> !is_comparison(op->0) && !(op->0 is And) && !(
            op->0 is Or)) {
                Some(
                    (
                        State {
                            vars: s.vars.insert(dst, assigned(f, s.vars, dst, op, value)),
                            ..s
                        },
                        Flow::Normal,
                    ),
                )
            } else {
                None
            }
        },
        // A check that fails says so and goes on, and a release build has none.
        Stmt::Assert(test, message, _) => if !env.debug {
            Some((s, Flow::Normal))
        } else if !is_test(f, s.vars, test) {
            None
        } else if meaning(f, s.vars, test) != 0 {
            Some((s, Flow::Normal))
        } else {
            Some((State { rest: (g.raw)(s.rest, complaint(message)), ..s }, Flow::Normal))
        },
        Stmt::If(test, taken, otherwise, _, _) => if !is_test(f, s.vars, test) {
            None
        } else if meaning(f, s.vars, test) != 0 {
            match exec_block(g, env, taken, 0, s, n) {
                // A branch that changes what was tested has no answer where the test is put
                // again for the other branch.
                Some((s1, flow)) => if otherwise is None || untouched(f, test, s.vars, s1.vars) {
                    Some((s1, flow))
                } else {
                    None
                },
                None => None,
            }
        } else {
            match otherwise {
                Some(otherwise) => exec_block(g, env, otherwise, 0, s, n),
                None => Some((s, Flow::Normal)),
            }
        },
        Stmt::Loop(test, body, _, _) => exec_loop(g, env, test, body, s, n),
        Stmt::Match(Scrutinee::Place(place), arms, _) => if place.ty is Enum && is_static(place)
            && !(place.root is Entity) && exclusive(env, place.ty, arms) {
            let path = place_path(f, place);
            let k = taken_arm(env, place.ty, arms, (g.tag)((g.look)(s.rest, path)), 0);
            if 0 <= k < arms.len() {
                if bindable(f, arms[k].bindings) {
                    exec_block(
                        g,
                        env,
                        arms[k].body,
                        0,
                        bound(g, f, s, path, arms[k].bindings, 0),
                        n,
                    )
                } else {
                    None
                }
            } else {
                Some((s, Flow::Normal))
            }
        } else {
            None
        },
        // A loop over a list goes through the elements it has when the loop begins.
        Stmt::ForVec(source, local, body, _) => if is_static(source) && !(source.root is Entity)
            && apart(f, local_reg(f, local)) {
            exec_for(g, env, local, (g.items)(s.rest, place_path(f, source)), body, s, n)
        } else {
            None
        },
        // `continue` in a body that runs once per entity is left out: raised in a block of
        // the last entity's turn, its code would outlive the statement.
        Stmt::Context(kind, selector, body, _, _) => if !(kind is Positioned) && idle_turns(g)
            && !escapes(body, 0).continues {
            let clause = if kind is At {
                ExecuteAs::At(selector.text)
            } else {
                ExecuteAs::As(selector.text)
            };
            exec_turns(g, env, clause, (g.found)(s.rest, clause), body, s, n)
        } else {
            None
        },
        Stmt::Break(_) => Some((s, Flow::Break)),
        Stmt::Continue(_) => Some((s, Flow::Continue)),
        Stmt::Return(Some(value), _) => if f.ret is Some && known(f, s.vars, value) {
            Some((s, Flow::Return(meaning(f, s.vars, value))))
        } else {
            None
        },
        Stmt::Return(None, _) => if f.ret is None {
            Some((s, Flow::Return(0)))
        } else {
            None
        },
        _ => None,
    }
}

/// What a loop does from the start of a round on.
pub open spec fn exec_loop<R, D>(
    g: Game<R, D>,
    env: Env,
    test: Option<Expr>,
    body: Seq<Stmt>,
    s: State<R>,
    n: nat,
) -> Option<(State<R>, Flow)>
    decreases n, body, -1int,
{
    let f = env.function;
    if n == 0 {
        None
    } else if test is Some && !is_test(f, s.vars, test->0) {
        None
    } else if test is Some && meaning(f, s.vars, test->0) == 0 {
        Some((s, Flow::Normal))
    } else {
        match exec_block(g, env, body, 0, s, (n - 1) as nat) {
            Some((s1, Flow::Normal)) => exec_loop(g, env, test, body, s1, (n - 1) as nat),
            Some((s1, Flow::Continue)) => exec_loop(g, env, test, body, s1, (n - 1) as nat),
            Some((s1, Flow::Break)) => Some((s1, Flow::Normal)),
            Some((s1, Flow::Return(v))) => Some((s1, Flow::Return(v))),
            None => None,
        }
    }
}

/// The state with an element in a binding.
pub open spec fn given<R, D>(
    g: Game<R, D>,
    f: HirFunction,
    s: State<R>,
    local: LocalId,
    d: D,
) -> State<R> {
    if local_of(f, local).ty.storage() {
        State { rest: (g.put)(s.rest, local_path(f, local), d), ..s }
    } else {
        State { vars: s.vars.insert(local_reg(f, local), (g.value)(d)), ..s }
    }
}

/// What a loop over the elements that are left does.
pub open spec fn exec_for<R, D>(
    g: Game<R, D>,
    env: Env,
    local: LocalId,
    items: Seq<D>,
    body: Seq<Stmt>,
    s: State<R>,
    n: nat,
) -> Option<(State<R>, Flow)>
    decreases n, body, -1int,
{
    if items.len() == 0 {
        Some((s, Flow::Normal))
    } else if n == 0 {
        None
    } else {
        let m = (n - 1) as nat;
        match exec_block(g, env, body, 0, given(g, env.function, s, local, items[0]), m) {
            Some((s1, Flow::Normal)) => exec_for(g, env, local, items.skip(1), body, s1, m),
            Some((s1, Flow::Continue)) => exec_for(g, env, local, items.skip(1), body, s1, m),
            Some((s1, Flow::Break)) => Some((s1, Flow::Normal)),
            Some((s1, Flow::Return(v))) => Some((s1, Flow::Return(v))),
            None => None,
        }
    }
}

/// What a body does that runs once for each of those entities.
pub open spec fn exec_turns<R, D>(
    g: Game<R, D>,
    env: Env,
    clause: ExecuteAs,
    found: Seq<D>,
    body: Seq<Stmt>,
    s: State<R>,
    n: nat,
) -> Option<(State<R>, Flow)>
    decreases n, body, -1int,
{
    if found.len() == 0 {
        Some((s, Flow::Normal))
    } else if n == 0 {
        None
    } else {
        let m = (n - 1) as nat;
        let s0 = State { rest: (g.enter)(s.rest, clause, found[0]), ..s };
        match exec_block(g, env, body, 0, s0, m) {
            Some((s1, flow)) => {
                let s2 = State { rest: (g.leave)(s1.rest, s.rest), ..s1 };
                match flow {
                    Flow::Normal => exec_turns(g, env, clause, found.skip(1), body, s2, m),
                    Flow::Continue => exec_turns(g, env, clause, found.skip(1), body, s2, m),
                    Flow::Break => Some((s2, Flow::Normal)),
                    Flow::Return(v) => Some((s2, Flow::Return(v))),
                }
            },
            None => None,
        }
    }
}

} // verus!

//! What the commands on numbers in storage do, and that fields and elements are read and
//! written where they should.
//!
//! A number that is reached through a step lives in storage, and all arithmetic is on the
//! scoreboard: such a number is read out, changed and written back. An index that is only
//! known at runtime has to be spliced into the command, which is what makes it a macro.

use vstd::prelude::*;

use crate::hir::model::{Expr, Function as HirFunction, Place, Stmt};
use crate::hir::{default_tag, NbtTag};
use crate::mir::growing::{
    carries, expr_carries, growing, held, store_carries, write_index_arg_carries,
};
use crate::mir::meaning::{
    apart, between, calculates, combined, lemma_assignments_assign, lemma_between,
    lemma_expressions_compute_their_value, lemma_materialise, lemma_wider, meaning, mentions, ran,
    same_but, settled, size, stands, stepped, temporary, value_in,
};
use crate::mir::model::{Function, Inst, Reg};
use crate::mir::rules::{
    assign_in_storage, assign_to_place, expr, expr_or_copy, indexed_value, macro_helper,
    materialise, place_path, read_place_scaled, runtime_index, store, write_index_arg, Env, Lx,
    Value,
};
use crate::mir::running::{linked, Code};
use crate::mir::strings::{lacks, lemma_spliced_around, spliced};
use crate::syntax::ast::BinaryOp;
use crate::syntax::laws::{grows, grows_facts_for};
use crate::text::{int_text, lemma_digits, lemma_numbers_differ, nat_text};

verus! {

// ---------------------------------------------------------------------------
// The commands.
// ---------------------------------------------------------------------------

/// The scores, and the numbers in storage by their path.
pub struct Stored {
    pub scores: Map<Reg, i32>,
    pub numbers: Map<Seq<char>, i32>,
}

/// The number a text is.
pub open spec fn number_of(text: Seq<char>) -> i32 {
    choose|n: i32| text == int_text(n as int)
}

/// A path with the argument `i` put in.
pub open spec fn at_index(path: Seq<char>, h: Stored) -> Seq<char> {
    spliced(path, 0, "$(i)"@, int_text(h.numbers["mw.args.i"@] as int))
}

/// What a command leaves that calls nothing.
pub open spec fn wrote(inst: Inst, h: Stored) -> Option<Stored> {
    match inst {
        Inst::SetValue(path, text) => Some(
            Stored { numbers: h.numbers.insert(path, number_of(text)), ..h },
        ),
        Inst::StoreData(path, keyword, inner) => match *inner {
            Inst::Get(src) => if keyword == "int"@ {
                Some(Stored { numbers: h.numbers.insert(path, h.scores[src]), ..h })
            } else {
                None
            },
            _ => None,
        },
        _ => match stepped(h.scores, inst) {
            Some(scores) => Some(Stored { scores, ..h }),
            None => None,
        },
    }
}

/// The one command of a macro that is called with arguments.
pub open spec fn macro_line(code: Code, path: Seq<char>) -> Option<Inst> {
    if code.contains_key(path) && code[path].len() == 1 {
        match code[path][0] {
            Inst::Macro(line) => Some(*line),
            _ => None,
        }
    } else {
        None
    }
}

/// What a command leaves.
pub open spec fn did(code: Code, inst: Inst, h: Stored) -> Option<Stored> {
    match inst {
        Inst::StoreResult(dst, inner) => match *inner {
            Inst::GetData(path) => Some(
                Stored { scores: h.scores.insert(dst, h.numbers[path]), ..h },
            ),
            Inst::CallWithArgs(path) => match macro_line(code, path) {
                Some(Inst::ReturnRun(read)) => match *read {
                    Inst::GetData(path) => Some(
                        Stored {
                            scores: h.scores.insert(dst, h.numbers[at_index(path, h)]),
                            ..h
                        },
                    ),
                    _ => None,
                },
                _ => None,
            },
            _ => None,
        },
        Inst::CallWithArgs(path) => match macro_line(code, path) {
            Some(Inst::SetValue(path, text)) => wrote(
                Inst::SetValue(at_index(path, h), text),
                h,
            ),
            Some(Inst::StoreData(path, keyword, inner)) => wrote(
                Inst::StoreData(at_index(path, h), keyword, inner),
                h,
            ),
            _ => None,
        },
        _ => wrote(inst, h),
    }
}

/// What the commands from the `from`th on leave, if they are about numbers.
pub open spec fn did_all(code: Code, insts: Seq<Inst>, from: int, h: Stored) -> Option<Stored>
    decreases insts.len(),
{
    if insts.len() == 0 || insts.len() <= from {
        Some(h)
    } else {
        match did_all(code, insts.drop_last(), from, h) {
            Some(h1) => did(code, insts.last(), h1),
            None => None,
        }
    }
}

/// Whether the commands so far, from the `from`th on, lead from one to the other.
pub open spec fn leads(code: Code, cx: Lx, from: int, start: Stored, h: Stored) -> bool {
    0 <= from <= cx.insts.len() && did_all(code, cx.insts, from, start) == Some(h)
}

// ---------------------------------------------------------------------------
// Steps.
// ---------------------------------------------------------------------------

pub(crate) proof fn lemma_ints_differ(a: int, b: int)
    ensures
        int_text(a) == int_text(b) <==> a == b,
        lacks(int_text(a), '$'),
{
    lemma_digits(if a < 0 { (-a) as nat } else { a as nat });
    lemma_digits(if b < 0 { (-b) as nat } else { b as nat });
    lemma_numbers_differ(
        if a < 0 { (-a) as nat } else { a as nat },
        if b < 0 { (-b) as nat } else { b as nat },
    );
    let x = int_text(a);
    let y = int_text(b);
    if x == y {
        assert(x[0] == y[0]);
        if a < 0 {
            assert(x.skip(1) =~= nat_text((-a) as nat));
        }
        if b < 0 {
            assert(y.skip(1) =~= nat_text((-b) as nat));
        }
    }
    assert forall|i: int| 0 <= i < x.len() implies #[trigger] x[i] != '$' by {
        if a < 0 && i > 0 {
            assert(x[i] == nat_text((-a) as nat)[i - 1]);
        }
    }
}

proof fn lemma_number_of(n: i32)
    ensures
        number_of(int_text(n as int)) == n,
{
    let m = number_of(int_text(n as int));
    assert(int_text(n as int) == int_text(n as int));
    lemma_ints_differ(n as int, m as int);
}

proof fn lemma_next(code: Code, cx: Lx, inst: Inst, from: int, start: Stored, h: Stored)
    requires
        leads(code, cx, from, start, h),
    ensures
        did_all(code, cx.emit(inst).insts, from, start) == did(code, inst, h),
        from <= cx.emit(inst).insts.len(),
{
    assert(cx.emit(inst).insts.drop_last() =~= cx.insts);
}

/// Commands on scores do to the numbers nothing.
proof fn lemma_scores_only(
    code: Code,
    a: Seq<Inst>,
    b: Seq<Inst>,
    from: int,
    start: Stored,
    h: Stored,
    scores: Map<Reg, i32>,
)
    requires
        0 <= from <= a.len() <= b.len(),
        b.take(a.len() as int) == a,
        did_all(code, a, from, start) == Some(h),
        ran(b, a.len() as int, h.scores) == Some(scores),
    ensures
        did_all(code, b, from, start) == Some(Stored { scores, ..h }),
    decreases b.len(),
{
    if b.len() > a.len() {
        let c = b.drop_last();
        assert(c.take(a.len() as int) =~= a);
        let mid = ran(c, a.len() as int, h.scores)->0;
        lemma_scores_only(code, a, c, from, start, h, mid);
    } else {
        assert(b =~= a);
        assert(Stored { scores: h.scores, ..h } == h);
    }
}

/// A value is worked out.
proof fn lemma_value(
    code: Code,
    env: Env,
    cx: Lx,
    e: Expr,
    from: int,
    start: Stored,
    h: Stored,
) -> (scores: Map<Reg, i32>)
    requires
        leads(code, cx, from, start, h),
        calculates(env.function, h.scores, e),
        cx.scores + 3 * size(e) <= u32::MAX,
    ensures
        ({
            let (cx1, v) = expr(env, cx, e);
            &&& leads(code, cx1, from, start, Stored { scores, ..h })
            &&& value_in(v, scores) == meaning(env.function, h.scores, e)
            &&& same_but(h.scores, scores, cx.scores as nat, cx1.scores as nat)
            &&& settled(v, cx.scores as nat, cx1.scores as nat)
            &&& cx.scores <= cx1.scores <= cx.scores + 3 * size(e)
            &&& carries(cx, cx1)
        }),
{
    let at = cx.insts.len() as int;
    let (cx1, v) = expr(env, cx, e);
    assert(stands(cx, at, h.scores, h.scores));
    let scores = lemma_expressions_compute_their_value(env, cx, e, at, h.scores, h.scores);
    expr_carries(env, cx, e);
    reveal(grows);
    lemma_scores_only(code, cx.insts, cx1.insts, from, start, h, scores);
    scores
}

/// The index goes where the macro takes it from.
proof fn lemma_index(
    code: Code,
    env: Env,
    cx: Lx,
    index: Expr,
    from: int,
    start: Stored,
    h: Stored,
) -> (scores: Map<Reg, i32>)
    requires
        leads(code, cx, from, start, h),
        calculates(env.function, h.scores, index),
        cx.scores + 3 * size(index) + 1 <= u32::MAX,
    ensures
        ({
            let cx1 = write_index_arg(env, cx, index);
            let n = meaning(env.function, h.scores, index);
            &&& leads(
                code,
                cx1,
                from,
                start,
                Stored { scores, numbers: h.numbers.insert("mw.args.i"@, n) },
            )
            &&& same_but(h.scores, scores, cx.scores as nat, cx1.scores as nat)
            &&& cx.scores <= cx1.scores <= cx.scores + 3 * size(index) + 1
            &&& grows(cx.generated, cx1.generated)
        }),
{
    reveal(write_index_arg);
    reveal(expr);
    let (cx1, v) = expr(env, cx, index);
    let scores = lemma_value(code, env, cx, index, from, start, h);
    let (cx2, src) = materialise(cx1, v);
    let at = cx1.insts.len() as int;
    assert(stands(cx1, at, scores, scores));
    let scores2 = lemma_materialise(cx1, v, at, scores, scores);
    let h1 = Stored { scores, ..h };
    assert(cx2.insts.take(at) =~= cx1.insts);
    lemma_scores_only(code, cx1.insts, cx2.insts, from, start, h1, scores2);
    let h2 = Stored { scores: scores2, ..h };
    let inst = Inst::StoreData("mw.args.i"@, "int"@, Box::new(Inst::Get(src)));
    lemma_next(code, cx2, inst, from, start, h2);
    lemma_wider(cx.scores as nat, cx1.scores as nat, cx2.scores as nat);
    grows_facts_for::<Function>();
    scores2
}

/// Where an element is: the path of the list, and the index.
pub open spec fn element(path: Seq<char>, n: i32) -> Seq<char> {
    path + "["@ + int_text(n as int) + "]"@
}

proof fn lemma_at_index(path: Seq<char>, h: Stored)
    requires
        lacks(path, '$'),
    ensures
        at_index(crate::mir::rules::spliced(path), h) == element(
            path,
            h.numbers["mw.args.i"@],
        ),
{
    reveal_strlit("[$(i)]");
    reveal_strlit("$(i)");
    reveal_strlit("[");
    reveal_strlit("]");
    let line = crate::mir::rules::spliced(path);
    let s = int_text(h.numbers["mw.args.i"@] as int);
    let hole = "$(i)"@;
    let n = path.len() as int + 1;
    assert forall|j: int| 0 <= j < n implies line[j] != '$' by {
        if j < path.len() {
            assert(line[j] == path[j]);
        }
    }
    lemma_spliced_around(line, 0, n, hole, s);
    assert(line.subrange(n, n + 4) =~= hole);
    lemma_spliced_around(line, n + 4, line.len() as int, hole, s);
    assert(line.subrange(0, n) =~= path + "["@);
    assert(line.subrange(n + 4, line.len() as int) =~= "]"@);
    assert(spliced(line, line.len() as int, hole, s) =~= seq![]);
    assert(spliced(line, 0, hole, s) =~= element(path, h.numbers["mw.args.i"@]));
}

// ---------------------------------------------------------------------------
// Reading.
// ---------------------------------------------------------------------------

/// Where a number is: a path that is known, or the list and the index.
pub open spec fn where_is(f: HirFunction, scores: Map<Reg, i32>, place: Place) -> Seq<char> {
    match runtime_index(place) {
        Some(index) => element(place_path(f, place), meaning(f, scores, index)),
        None => place_path(f, place),
    }
}

/// Whether a place is a number in storage that commands can name.
pub open spec fn is_number_place(env: Env, cx: Lx, scores: Map<Reg, i32>, place: Place) -> bool {
    &&& !(place.root is Entity)
    &&& !place.ty.storage()
    &&& place.steps.len() > 0
    &&& lacks(place_path(env.function, place), '$')
    &&& place.tag is None || place.tag == Some(NbtTag::Int)
    &&& match runtime_index(place) {
        Some(index) => calculates(env.function, scores, index) && size(index) <= 0x100_0000,
        None => true,
    }
    &&& cx.scores <= 0x8000_0000
}

/// Reading a field or an element gives the number that is there, wherever it is put, and
/// changes no number but the argument of macros.
pub proof fn lemma_reads_give_what_is_there(
    code: Code,
    env: Env,
    cx: Lx,
    dst: Reg,
    place: Place,
    from: int,
    start: Stored,
    h: Stored,
) -> (r: Stored)
    requires
        leads(code, cx, from, start, h),
        is_number_place(env, cx, h.scores, place),
        where_is(env.function, h.scores, place) != "mw.args.i"@,
        linked(code, read_place_scaled(env, cx, dst, place, 1).generated),
    ensures
        leads(code, read_place_scaled(env, cx, dst, place, 1), from, start, r),
        r.scores[dst] == h.numbers[where_is(env.function, h.scores, place)],
        forall|p: Seq<char>| p != "mw.args.i"@ ==> #[trigger] r.numbers[p] == h.numbers[p],
        forall|x: Reg| x.kind is Var && x != dst ==> #[trigger] r.scores[x] == h.scores[x],
{
    reveal(read_place_scaled);
    reveal(write_index_arg);
    let f = env.function;
    let path = place_path(f, place);
    match runtime_index(place) {
        None => {
            let inst = Inst::StoreResult(dst, Box::new(Inst::GetData(path)));
            lemma_next(code, cx, inst, from, start, h);
            Stored { scores: h.scores.insert(dst, h.numbers[path]), ..h }
        },
        Some(index) => {
            reveal(macro_helper);
            let line = Inst::ReturnRun(Box::new(Inst::GetData(crate::mir::rules::spliced(path))));
            let (cx1, helper) = macro_helper(env, cx, "index"@, line);
            let scores = lemma_index(code, env, cx1, index, from, start, h);
            let cx2 = write_index_arg(env, cx1, index);
            let n = meaning(f, h.scores, index);
            let h2 = Stored { scores, numbers: h.numbers.insert("mw.args.i"@, n) };
            let call = Inst::StoreResult(dst, Box::new(Inst::CallWithArgs(helper)));
            lemma_next(code, cx2, call, from, start, h2);
            lemma_helper(code, cx, cx1, cx2, helper, line);
            lemma_at_index(path, h2);
            let r = Stored { scores: scores.insert(dst, h2.numbers[element(path, n)]), ..h2 };
            assert(did(code, call, h2) == Some(r));
            assert forall|x: Reg| x.kind is Var && x != dst implies #[trigger] r.scores[x]
                == h.scores[x] by {
                assert(!between(x, cx.scores as nat, cx2.scores as nat));
                assert(scores[x] == h.scores[x]);
            }
            r
        },
    }
}

/// A macro that was split out is where it is called.
proof fn lemma_helper(code: Code, cx: Lx, cx1: Lx, cx2: Lx, helper: Seq<char>, line: Inst)
    requires
        cx1.generated.len() == cx.generated.len() + 1,
        cx1.generated[cx.generated.len() as int].path == helper,
        cx1.generated[cx.generated.len() as int].blocks.len() > 0,
        cx1.generated[cx.generated.len() as int].blocks[0].insts == seq![
            Inst::Macro(Box::new(line)),
        ],
        grows(cx1.generated, cx2.generated),
        linked(code, cx2.generated),
    ensures
        macro_line(code, helper) == Some(line),
{
    reveal(grows);
    let k = cx.generated.len() as int;
    assert(cx2.generated.take(cx1.generated.len() as int)[k] == cx2.generated[k]);
    assert(code[helper] == seq![Inst::Macro(Box::new(line))]);
}

// ---------------------------------------------------------------------------
// Writing.
// ---------------------------------------------------------------------------

/// What an assignment leaves where that number was.
pub open spec fn left_in(
    f: HirFunction,
    scores: Map<Reg, i32>,
    held: i32,
    op: Option<BinaryOp>,
    value: Expr,
) -> i32 {
    match op {
        None => meaning(f, scores, value),
        Some(op) => combined(op, held, meaning(f, scores, value)),
    }
}

pub open spec fn is_number(f: HirFunction, scores: Map<Reg, i32>, e: Expr) -> bool {
    calculates(f, scores, e) && size(e) <= 0x100_0000 && !e.ty.storage()
}

/// The accumulator of a compound assignment comes to what the operator gives.
proof fn lemma_accumulates(
    code: Code,
    env: Env,
    cx: Lx,
    acc: Reg,
    op: BinaryOp,
    value: Expr,
    from: int,
    start: Stored,
    h: Stored,
) -> (scores: Map<Reg, i32>)
    requires
        leads(code, cx, from, start, h),
        calculates(env.function, h.scores, value),
        cx.scores + 3 * size(value) + 1 <= u32::MAX,
        apart(Value::Reg(acc), cx.scores as nat),
        !(acc.kind is Var),
        held(cx.used, acc),
        !crate::mir::rules::is_comparison(op) && !(op is And) && !(op is Or),
    ensures
        leads(
            code,
            store(env, cx, acc, Some(op), value),
            from,
            start,
            Stored { scores, ..h },
        ),
        scores[acc] == combined(op, h.scores[acc], meaning(env.function, h.scores, value)),
        forall|x: Reg| x.kind is Var ==> #[trigger] scores[x] == h.scores[x],
        carries(cx, store(env, cx, acc, Some(op), value)),
        cx.scores <= store(env, cx, acc, Some(op), value).scores <= cx.scores + 3 * size(value) + 1,
{
    let at = cx.insts.len() as int;
    let cx1 = store(env, cx, acc, Some(op), value);
    assert(stands(cx, at, h.scores, h.scores));
    let scores = lemma_assignments_assign(
        env, cx, acc, Some(op), value, at, h.scores, h.scores,
    );
    store_carries(env, cx, acc, Some(op), value);
    reveal(grows);
    lemma_scores_only(code, cx.insts, cx1.insts, from, start, h, scores);
    assert forall|x: Reg| x.kind is Var implies #[trigger] scores[x] == h.scores[x] by {
        assert(!between(x, cx.scores as nat, cx1.scores as nat));
        assert(x != acc);
    }
    scores
}

/// Assigning to a field leaves there what was assigned, by an operator or not, and changes
/// no other number and no binding.
pub proof fn lemma_fields_hold_what_was_assigned(
    code: Code,
    env: Env,
    cx: Lx,
    st: Stmt,
    place: Place,
    op: Option<BinaryOp>,
    value: Expr,
    from: int,
    start: Stored,
    h: Stored,
) -> (r: Stored)
    requires
        st matches Stmt::Assign(p, o, v, _) && p == place && o == op && v == value,
        leads(code, cx, from, start, h),
        is_number_place(env, cx, h.scores, place),
        runtime_index(place) is None,
        is_number(env.function, h.scores, value),
        op is Some ==> !crate::mir::rules::is_comparison(op->0) && !(op->0 is And) && !(
        op->0 is Or),
    ensures
        leads(code, assign_to_place(env, cx, st), from, start, r),
        ({
            let path = place_path(env.function, place);
            r.numbers == h.numbers.insert(
                path,
                left_in(env.function, h.scores, h.numbers[path], op, value),
            )
        }),
        forall|x: Reg| x.kind is Var ==> #[trigger] r.scores[x] == h.scores[x],
{
    reveal(assign_to_place);
    reveal(assign_in_storage);
    reveal_strlit("");
    let f = env.function;
    let path = place_path(f, place);
    let keyword = "int"@;
    match op {
        None => {
            let (cx1, v) = expr(env, cx, value);
            let scores = lemma_value(code, env, cx, value, from, start, h);
            let h1 = Stored { scores, ..h };
            let n = meaning(f, h.scores, value);
            let inst = match v {
                Value::Const(n) => Inst::SetValue(path, int_text(n as int) + ""@),
                Value::Reg(src) => Inst::StoreData(path, keyword, Box::new(Inst::Get(src))),
            };
            assert(int_text(n as int) + ""@ =~= int_text(n as int));
            lemma_number_of(n);
            lemma_next(code, cx1, inst, from, start, h1);
            let r = Stored { numbers: h.numbers.insert(path, n), ..h1 };
            assert(did(code, inst, h1) == Some(r));
            assert forall|x: Reg| x.kind is Var implies #[trigger] r.scores[x] == h.scores[x] by {
                assert(!between(x, cx.scores as nat, cx1.scores as nat));
            }
            r
        },
        Some(by) => {
            let (cx1, acc) = cx.temp();
            assert(acc == temporary(cx.scores as nat));
            let read = Inst::StoreResult(acc, Box::new(Inst::GetData(path)));
            let cx2 = cx1.emit(read);
            lemma_next(code, cx1, read, from, start, h);
            let h2 = Stored { scores: h.scores.insert(acc, h.numbers[path]), ..h };
            lemma_between(cx.scores as nat, cx2.scores as nat, 0x1_0000_0000);
            assert(cx1.used[cx.used.len() as int] == acc);
            lemma_same_meaning(f, h.scores, h2.scores, acc, value);
            let scores = lemma_accumulates(code, env, cx2, acc, by, value, from, start, h2);
            let cx3 = store(env, cx2, acc, Some(by), value);
            let h3 = Stored { scores, ..h };
            let inst = Inst::StoreData(path, keyword, Box::new(Inst::Get(acc)));
            lemma_next(code, cx3, inst, from, start, h3);
            let r = Stored { numbers: h.numbers.insert(path, scores[acc]), ..h3 };
            assert(did(code, inst, h3) == Some(r));
            assert forall|x: Reg| x.kind is Var implies #[trigger] r.scores[x] == h.scores[x] by {
                assert(h2.scores[x] == h.scores[x]);
            }
            r
        },
    }
}

proof fn lemma_helper_is(env: Env, cx: Lx, line: Inst)
    ensures
        ({
            let (cx1, helper) = macro_helper(env, cx, "index"@, line);
            let k = cx.generated.len() as int;
            &&& cx1.insts == cx.insts
            &&& cx1.scores == cx.scores
            &&& cx1.used == cx.used
            &&& grows(cx.generated, cx1.generated)
            &&& cx1.generated.len() == k + 1
            &&& cx1.generated[k].path == helper
            &&& cx1.generated[k].blocks.len() > 0
            &&& cx1.generated[k].blocks[0].insts == seq![Inst::Macro(Box::new(line))]
        }),
{
    reveal(macro_helper);
    reveal(grows);
    let (cx1, helper) = macro_helper(env, cx, "index"@, line);
    assert(cx1.generated.take(cx.generated.len() as int) =~= cx.generated);
}

/// The macro that writes an element writes it where the index says.
proof fn lemma_element_written(
    code: Code,
    env: Env,
    cx: Lx,
    write: Inst,
    path: Seq<char>,
    index: Expr,
    n: i32,
    from: int,
    start: Stored,
    h: Stored,
) -> (r: Stored)
    requires
        leads(code, cx, from, start, h),
        calculates(env.function, h.scores, index),
        cx.scores + 3 * size(index) + 1 <= u32::MAX,
        lacks(path, '$'),
        match write {
            Inst::SetValue(to, text) => to == crate::mir::rules::spliced(path) && text == int_text(
                n as int,
            ),
            Inst::StoreData(to, keyword, inner) => to == crate::mir::rules::spliced(path)
                && keyword == "int"@ && match *inner {
                Inst::Get(src) => h.scores[src] == n && !between(
                    src,
                    cx.scores as nat,
                    0x1_0000_0000,
                ),
                _ => false,
            },
            _ => false,
        },
        ({
            let (cx1, helper) = macro_helper(env, cx, "index"@, write);
            linked(code, write_index_arg(env, cx1, index).generated)
        }),
    ensures
        ({
            let (cx1, helper) = macro_helper(env, cx, "index"@, write);
            let i = meaning(env.function, h.scores, index);
            &&& leads(
                code,
                write_index_arg(env, cx1, index).emit(Inst::CallWithArgs(helper)),
                from,
                start,
                r,
            )
            &&& r.numbers == h.numbers.insert("mw.args.i"@, i).insert(element(path, i), n)
        }),
        forall|x: Reg| x.kind is Var ==> #[trigger] r.scores[x] == h.scores[x],
{
    let f = env.function;
    let i = meaning(f, h.scores, index);
    let (cx1, helper) = macro_helper(env, cx, "index"@, write);
    lemma_helper_is(env, cx, write);
    let scores = lemma_index(code, env, cx1, index, from, start, h);
    let cx2 = write_index_arg(env, cx1, index);
    let h2 = Stored { scores, numbers: h.numbers.insert("mw.args.i"@, i) };
    let call = Inst::CallWithArgs(helper);
    lemma_helper(code, cx, cx1, cx2, helper, write);
    lemma_at_index(path, h2);
    lemma_number_of(n);
    lemma_next(code, cx2, call, from, start, h2);
    lemma_wider(cx.scores as nat, cx2.scores as nat, 0x1_0000_0000);
    let r = Stored { numbers: h2.numbers.insert(element(path, i), n), ..h2 };
    match write {
        Inst::StoreData(_, _, inner) => match *inner {
            Inst::Get(src) => {
                assert(!between(src, cx.scores as nat, cx2.scores as nat));
                assert(scores[src] == n);
            },
            _ => {},
        },
        _ => {},
    }
    assert(did(code, call, h2) == Some(r));
    assert forall|x: Reg| x.kind is Var implies #[trigger] r.scores[x] == h.scores[x] by {
        assert(!between(x, cx.scores as nat, cx2.scores as nat));
    }
    r
}

/// Assigning to an element leaves there what was assigned, by an operator or not: in the
/// element that the index means, and in no other number but the argument of macros.
#[verifier::spinoff_prover]
pub proof fn lemma_elements_hold_what_was_assigned(
    code: Code,
    env: Env,
    cx: Lx,
    st: Stmt,
    place: Place,
    index: Expr,
    op: Option<BinaryOp>,
    value: Expr,
    from: int,
    start: Stored,
    h: Stored,
) -> (r: Stored)
    requires
        st matches Stmt::Assign(p, o, v, _) && p == place && o == op && v == value,
        leads(code, cx, from, start, h),
        is_number_place(env, cx, h.scores, place),
        runtime_index(place) == Some(index),
        default_tag(place.ty) is None || default_tag(place.ty) == Some(NbtTag::Int),
        is_number(env.function, h.scores, value),
        where_is(env.function, h.scores, place) != "mw.args.i"@,
        op is Some ==> !crate::mir::rules::is_comparison(op->0) && !(op->0 is And) && !(
        op->0 is Or),
        linked(code, assign_to_place(env, cx, st).generated),
    ensures
        leads(code, assign_to_place(env, cx, st), from, start, r),
        ({
            let f = env.function;
            let path = where_is(f, h.scores, place);
            &&& r.numbers[path] == left_in(f, h.scores, h.numbers[path], op, value)
            &&& forall|p: Seq<char>|
                p != path && p != "mw.args.i"@ ==> #[trigger] r.numbers[p] == h.numbers[p]
        }),
        forall|x: Reg| x.kind is Var ==> #[trigger] r.scores[x] == h.scores[x],
{
    reveal_strlit("");
    let f = env.function;
    let path = place_path(f, place);
    let to = crate::mir::rules::spliced(path);
    let i = meaning(f, h.scores, index);
    let lo = cx.scores as nat;
    let top: nat = 0x1_0000_0000;
    match op {
        None => {
            let (cx1, v) = expr(env, cx, value);
            let scores = lemma_value(code, env, cx, value, from, start, h);
            let h1 = Stored { scores, ..h };
            let n = meaning(f, h.scores, value);
            let text = int_text(n as int);
            assert(text + ""@ =~= text);
            assert(text + Seq::<char>::empty() =~= text);
            let write = match v {
                Value::Const(n) => Inst::SetValue(to, int_text(n as int)),
                Value::Reg(src) => Inst::StoreData(to, "int"@, Box::new(Inst::Get(src))),
            };
            let (cx2, helper) = macro_helper(env, cx1, "index"@, write);
            assert(assign_to_place(env, cx, st) == write_index_arg(env, cx2, index).emit(
                Inst::CallWithArgs(helper),
            )) by {
                reveal(assign_to_place);
                reveal(indexed_value);
                reveal(expr_or_copy);
                reveal(expr);
            }
            lemma_wider(lo, cx1.scores as nat, top);
            assert forall|x: Reg| x.kind is Var implies #[trigger] scores[x] == h.scores[x] by {
                assert(!between(x, lo, cx1.scores as nat));
            }
            lemma_same_meaning(f, h.scores, scores, temporary(0), index);
            lemma_element_written(code, env, cx1, write, path, index, n, from, start, h1)
        },
        Some(by) => {
            let (cx1, acc) = cx.temp();
            assert(acc == temporary(lo));
            let line = Inst::ReturnRun(Box::new(Inst::GetData(to)));
            let (cx2, read) = macro_helper(env, cx1, "index"@, line);
            let cx3 = write_index_arg(env, cx2, index);
            let get = Inst::StoreResult(acc, Box::new(Inst::CallWithArgs(read)));
            let cx4 = cx3.emit(get);
            let cx5 = store(env, cx4, acc, Some(by), value);
            let write = Inst::StoreData(to, "int"@, Box::new(Inst::Get(acc)));
            let (cx6, helper) = macro_helper(env, cx5, "index"@, write);
            let cx7 = write_index_arg(env, cx6, index);
            let end = cx7.emit(Inst::CallWithArgs(helper));
            assert(assign_to_place(env, cx, st) == end) by {
                reveal(assign_to_place);
                reveal(indexed_value);
            }
            lemma_helper_is(env, cx1, line);
            let scores3 = lemma_index(code, env, cx2, index, from, start, h);
            let h3 = Stored { scores: scores3, numbers: h.numbers.insert("mw.args.i"@, i) };
            lemma_next(code, cx3, get, from, start, h3);
            lemma_at_index(path, h3);
            let before = h.numbers[element(path, i)];
            let h4 = Stored { scores: scores3.insert(acc, before), ..h3 };
            assert forall|x: Reg| x.kind is Var implies #[trigger] h4.scores[x] == h.scores[x] by {
                assert(!between(x, lo + 1, cx3.scores as nat));
                assert(scores3[x] == h.scores[x]);
            }
            lemma_same_meaning(f, h.scores, h4.scores, acc, value);
            lemma_same_meaning(f, h.scores, h4.scores, acc, index);
            lemma_between(lo, cx4.scores as nat, top);
            // Both macros are where they are called.
            write_index_arg_carries(env, cx2, index);
            growing();
            assert(cx1.used[cx.used.len() as int] == acc);
            assert(held(cx1.used, acc));
            assert(held(cx4.used, acc));
            store_carries(env, cx4, acc, Some(by), value);
            write_index_arg_carries(env, cx6, index);
            lemma_helper_is(env, cx5, write);
            grows_facts_for::<Function>();
            assert(grows(cx2.generated, cx3.generated));
            assert(grows(cx4.generated, cx5.generated));
            assert(grows(cx5.generated, cx6.generated));
            assert(grows(cx6.generated, cx7.generated));
            assert(grows(cx2.generated, cx5.generated));
            assert(grows(cx2.generated, cx6.generated));
            assert(grows(cx2.generated, cx7.generated));
            lemma_helper(code, cx1, cx2, end, read, line);
            assert(did(code, get, h3) == Some(h4));
            let scores5 = lemma_accumulates(code, env, cx4, acc, by, value, from, start, h4);
            let h5 = Stored { scores: scores5, ..h4 };
            lemma_same_meaning(f, h4.scores, scores5, acc, index);
            lemma_between(lo, cx5.scores as nat, top);
            let n = combined(by, before, meaning(f, h.scores, value));
            lemma_element_written(code, env, cx5, write, path, index, n, from, start, h5)
        },
    }
}

/// An expression reads bindings only.
pub(crate) proof fn lemma_same_meaning(
    f: HirFunction,
    a: Map<Reg, i32>,
    b: Map<Reg, i32>,
    acc: Reg,
    e: Expr,
)
    requires
        !(acc.kind is Var),
        forall|x: Reg| x.kind is Var ==> #[trigger] b[x] == a[x],
    ensures
        meaning(f, b, e) == meaning(f, a, e),
        calculates(f, b, e) == calculates(f, a, e),
{
    assert forall|r: Reg| #[trigger] mentions(f, e, r) implies b[r] == a[r] by {
        crate::mir::steps::lemma_bindings_are_vars(f, e, r);
    }
    crate::mir::steps::lemma_meaning_reads(f, a, b, e);
}

/// What was assigned to a field is what reading it gives.
pub proof fn lemma_what_was_assigned_is_read(
    code: Code,
    env: Env,
    cx: Lx,
    st: Stmt,
    place: Place,
    op: Option<BinaryOp>,
    value: Expr,
    dst: Reg,
    from: int,
    start: Stored,
    h: Stored,
) -> (r: Stored)
    requires
        st matches Stmt::Assign(p, o, v, _) && p == place && o == op && v == value,
        leads(code, cx, from, start, h),
        is_number_place(env, cx, h.scores, place),
        runtime_index(place) is None,
        place_path(env.function, place) != "mw.args.i"@,
        is_number(env.function, h.scores, value),
        op is Some ==> !crate::mir::rules::is_comparison(op->0) && !(op->0 is And) && !(
        op->0 is Or),
        assign_to_place(env, cx, st).scores <= 0x8000_0000,
        linked(
            code,
            read_place_scaled(env, assign_to_place(env, cx, st), dst, place, 1).generated,
        ),
    ensures
        leads(
            code,
            read_place_scaled(env, assign_to_place(env, cx, st), dst, place, 1),
            from,
            start,
            r,
        ),
        r.scores[dst] == left_in(
            env.function,
            h.scores,
            h.numbers[place_path(env.function, place)],
            op,
            value,
        ),
{
    let h1 = lemma_fields_hold_what_was_assigned(
        code, env, cx, st, place, op, value, from, start, h,
    );
    let cx1 = assign_to_place(env, cx, st);
    lemma_reads_give_what_is_there(code, env, cx1, dst, place, from, start, h1)
}

} // verus!

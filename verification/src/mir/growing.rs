//! What lowering a statement or an expression to commands leaves alone, and what it keeps
//! for the calls that come after.

use vstd::prelude::*;

use crate::hir::{default_tag, ArmTest, FnId, Inline, LocalId, NbtTag, Type};
use crate::hir::model::{
    Arm, Binding, Expr, Field, Function as HirFunction, Hir, Kind, Local, Place, Scrutinee, Stmt,
};
use crate::hir::rules::stmts::kept;
use crate::hir::rules::values::is_static;
use crate::hir::types::element_of;
use crate::mir::{negation, BlockId, RegKind};
use crate::mir::meaning::lemma_slots_hold_what_is_in_use;
use crate::mir::model::{Block, Cond, ExecuteAs, Function, Inst, Reg};
use crate::mir::rules::{
    after_loop, apply, arms_escape, assign_in_storage, assign_to_place, binary, bind_local,
    bind_payload, call, call_values, check_callee, check_root, compare_into, compare_regs,
    concat_into, concat_side, cond, condition_of, consume, context_name, context_stmt, copy_into,
    ctl_is, escapes, expr, expr_into, expr_or_copy, filterable, for_vec, fresh, if_stmt,
    indexed_value, inlined, is_comparison, is_pure, jump, left_out, live_slots, local_of,
    local_path, local_reg, local_slot, loop_body, loop_stmt, lower_function, lower_functions,
    lowered, macro_helper, match_arms, match_stmt, materialise, pass_values, place_path, place_reg,
    propagate, push_into, range_for, read_of, read_place_scaled, recursive, restore, restores,
    ret_reg, return_stmt, runtime_index, saves, scalar_source, snbt, spliced, split, split_expr,
    stmt, stmt_span, stmts, store, store_struct, stored_tag, string_compare, string_match,
    struct_fields, tag_filter, truth, unary, variant_name, write_elements, write_fields,
    write_index_arg, write_rest, write_runtime_fields, write_scalar, CTL_BREAK, CTL_CONTINUE,
    CTL_RETURN, Env, Escapes, Lx, Slot, Value, Written,
};
use crate::syntax::ast::{BinaryOp, UnaryOp};
use crate::syntax::laws::{grows, grows_facts_for};
use crate::syntax::lexer::Span;
use crate::syntax::model::Fault;
use crate::text::nat_text;

verus! {

/// Whether a register belongs to a name of the program, or is a temporary in use.
pub open spec fn held(used: Seq<Reg>, reg: Reg) -> bool {
    reg.kind is Var || used.contains(reg)
}

/// Whether a command writes no temporary but those in use.
pub open spec fn writes_held(used: Seq<Reg>, inst: Inst) -> bool
    decreases inst,
{
    match inst {
        Inst::Const(dst, _) => held(used, dst),
        Inst::AddConst(dst, _) => held(used, dst),
        Inst::Op(dst, _, _) => held(used, dst),
        Inst::Cmp(dst, _, _, _, _) => held(used, dst),
        Inst::Matches(dst, _, _, _, _) => held(used, dst),
        Inst::StoreCond(dst, _) => held(used, dst),
        Inst::Restore(reg, _) => held(used, reg),
        Inst::StoreResult(dst, inner) => held(used, dst) && writes_held(used, *inner),
        Inst::ReturnRun(inner) => writes_held(used, *inner),
        Inst::Macro(inner) => writes_held(used, *inner),
        Inst::StoreData(_, _, inner) => writes_held(used, *inner),
        Inst::StoreScaled(_, _, _, inner) => writes_held(used, *inner),
        Inst::Guarded(_, inner) => writes_held(used, *inner),
        Inst::Otherwise(_, _, inner) => writes_held(used, *inner),
        Inst::Context(_, inner) => writes_held(used, *inner),
        _ => true,
    }
}

pub open spec fn all_held(used: Seq<Reg>, insts: Seq<Inst>) -> bool {
    forall|i: int| 0 <= i < insts.len() ==> writes_held(used, #[trigger] insts[i])
}

pub open spec fn function_held(used: Seq<Reg>, f: Function) -> bool {
    forall|i: int| 0 <= i < f.blocks.len() ==> all_held(used, (#[trigger] f.blocks[i]).insts)
}

/// Whether every temporary that was written so far is in use: a call that has to saves it.
pub open spec fn accounted(cx: Lx) -> bool {
    written_in_use(cx.used, cx.insts, cx.generated)
}

#[verifier::opaque]
pub open spec fn written_in_use(
    used: Seq<Reg>,
    insts: Seq<Inst>,
    generated: Seq<Function>,
) -> bool {
    &&& all_held(used, insts)
    &&& forall|i: int|
        0 <= i < generated.len() ==> function_held(used, #[trigger] generated[i])
}

/// Whether a lowering went on from `a` to `b` in the same function: everything it made
/// before is still there, in front of what it made since, and every temporary that was
/// written is in use.
pub open spec fn carries(a: Lx, b: Lx) -> bool {
    &&& grows(a.insts, b.insts)
    &&& grows(a.generated, b.generated)
    &&& grows(a.errs, b.errs)
    &&& grows(a.used, b.used)
    &&& grows(a.used_data, b.used_data)
    &&& grows(a.initialised, b.initialised)
    &&& tallied(a, b)
    &&& b.prefix == a.prefix
    &&& b.top_level == a.top_level
    &&& b.body_root == a.body_root
    &&& accounted(a) ==> accounted(b)
}

/// Whether the counts went on with the temporaries that were handed out, unless they started
/// over, and the control register is still known to be in use.
pub open spec fn tallied(a: Lx, b: Lx) -> bool {
    let scores = b.used.len() - a.used.len();
    let data = b.used_data.len() - a.used_data.len();
    &&& 0 <= scores
    &&& 0 <= data
    &&& a.scores + scores <= u32::MAX ==> b.scores == a.scores + scores
    &&& a.data + data <= u32::MAX ==> a.data <= b.data <= a.data + data
    &&& a.iters + data <= u32::MAX ==> a.iters <= b.iters <= a.iters + data
    &&& a.used_ctl ==> b.used_ctl
}

proof fn lemma_held_stays(a: Seq<Reg>, b: Seq<Reg>, inst: Inst)
    requires
        grows(a, b),
        writes_held(a, inst),
    ensures
        writes_held(b, inst),
    decreases inst,
{
    held_stays();
    match inst {
        Inst::StoreResult(_, inner) => lemma_held_stays(a, b, *inner),
        Inst::ReturnRun(inner) => lemma_held_stays(a, b, *inner),
        Inst::Macro(inner) => lemma_held_stays(a, b, *inner),
        Inst::StoreData(_, _, inner) => lemma_held_stays(a, b, *inner),
        Inst::StoreScaled(_, _, _, inner) => lemma_held_stays(a, b, *inner),
        Inst::Guarded(_, inner) => lemma_held_stays(a, b, *inner),
        Inst::Otherwise(_, _, inner) => lemma_held_stays(a, b, *inner),
        Inst::Context(_, inner) => lemma_held_stays(a, b, *inner),
        _ => {},
    }
}

proof fn held_stays()
    ensures
        forall|a: Seq<Reg>, b: Seq<Reg>, r: Reg|
            #[trigger] grows(a, b) && #[trigger] held(a, r) ==> held(b, r),
{
    reveal(grows);
    assert forall|a: Seq<Reg>, b: Seq<Reg>, r: Reg|
        #[trigger] grows(a, b) && #[trigger] held(a, r) implies held(b, r) by {
        if !(r.kind is Var) {
            let i = choose|i: int| 0 <= i < a.len() && a[i] == r;
            assert(b.take(a.len() as int)[i] == b[i]);
        }
    }
}

proof fn lemma_all_held_stays(a: Seq<Reg>, b: Seq<Reg>, insts: Seq<Inst>)
    requires
        grows(a, b),
        all_held(a, insts),
    ensures
        all_held(b, insts),
{
    assert forall|i: int| 0 <= i < insts.len() implies writes_held(b, #[trigger] insts[i]) by {
        lemma_held_stays(a, b, insts[i]);
    }
}

proof fn lemma_function_held_stays(a: Seq<Reg>, b: Seq<Reg>, f: Function)
    requires
        grows(a, b),
        function_held(a, f),
    ensures
        function_held(b, f),
{
    assert forall|i: int| 0 <= i < f.blocks.len() implies all_held(
        b,
        (#[trigger] f.blocks[i]).insts,
    ) by {
        lemma_all_held_stays(a, b, f.blocks[i].insts);
    }
}

/// A state stays accounted for when more is in use and what was added is too.
proof fn lemma_accounted(a: Lx, b: Lx)
    requires
        accounted(a),
        grows(a.used, b.used),
        a.insts.len() <= b.insts.len(),
        forall|i: int| 0 <= i < a.insts.len() ==> #[trigger] b.insts[i] == a.insts[i],
        forall|i: int|
            a.insts.len() <= i < b.insts.len() ==> writes_held(b.used, #[trigger] b.insts[i]),
        a.generated.len() <= b.generated.len(),
        forall|i: int| 0 <= i < a.generated.len() ==> #[trigger] b.generated[i] == a.generated[i],
        forall|i: int|
            a.generated.len() <= i < b.generated.len() ==> function_held(
                b.used,
                #[trigger] b.generated[i],
            ),
    ensures
        accounted(b),
{
    reveal(written_in_use);
    assert forall|i: int| 0 <= i < b.insts.len() implies writes_held(
        b.used,
        #[trigger] b.insts[i],
    ) by {
        if i < a.insts.len() {
            lemma_held_stays(a.used, b.used, a.insts[i]);
        }
    }
    assert forall|i: int| 0 <= i < b.generated.len() implies function_held(
        b.used,
        #[trigger] b.generated[i],
    ) by {
        if i < a.generated.len() {
            lemma_function_held_stays(a.used, b.used, a.generated[i]);
        }
    }
}

proof fn grows_by_more<T>()
    ensures
        forall|a: Seq<T>, b: Seq<T>| grows(a, #[trigger] (a + b)),
{
    reveal(grows);
    assert forall|a: Seq<T>, b: Seq<T>| grows(a, #[trigger] (a + b)) by {
        assert((a + b).take(a.len() as int) =~= a);
    }
}

pub(crate) proof fn growing()
    ensures
        forall|a: Lx| #[trigger] carries(a, a),
        forall|a: Lx, b: Lx, c: Lx|
            #[trigger] carries(a, b) && #[trigger] carries(b, c) ==> carries(a, c),
        forall|a: Lx, inst: Inst|
            (accounted(a) ==> writes_held(a.used, inst)) ==> carries(a, #[trigger] a.emit(inst)),
        forall|a: Lx, what: Seq<char>| carries(a, #[trigger] a.unsupported(what)),
        forall|a: Lx| carries(a, (#[trigger] a.temp()).0) && held(a.temp().0.used, a.temp().1),
        forall|a: Lx| carries(a, (#[trigger] a.data_temp()).0),
        forall|a: Lx| carries(a, (#[trigger] a.iter_temp()).0),
        forall|a: Lx| carries(a, #[trigger] a.counted()),
        forall|a: Lx, local: LocalId| carries(a, #[trigger] a.initialise(local)),
        forall|a: Lx| carries(a, #[trigger] a.touch_ctl()),
        forall|a: Lx, id: FnId, path: Seq<char>, inst: Inst|
            writes_held(a.used, inst) ==> carries(
                a,
                #[trigger] a.record(id, path, seq![inst], seq![]),
            ),
        forall|a: Lx, prefix: Seq<char>| accounted(#[trigger] a.child(prefix)),
        forall|a: Lx, id: FnId, path: Seq<char>, inner: Lx|
            accounted(inner) && grows(a.errs, inner.errs) && grows(a.used, inner.used) && grows(
                a.used_data,
                inner.used_data,
            ) && grows(a.initialised, inner.initialised) && tallied(a, inner) ==> carries(
                a,
                #[trigger] a.close(id, path, inner),
            ),
        forall|a: Seq<Reg>, b: Seq<Reg>, r: Reg|
            #[trigger] grows(a, b) && #[trigger] held(a, r) ==> held(b, r),
{
    grows_facts_for::<Inst>();
    grows_facts_for::<Function>();
    grows_facts_for::<Fault>();
    grows_facts_for::<Reg>();
    grows_facts_for::<LocalId>();
    grows_facts_for::<Seq<char>>();
    grows_by_more::<Function>();
    held_stays();
    assert forall|a: Lx, inst: Inst| (accounted(a) ==> writes_held(a.used, inst)) implies carries(
        a,
        #[trigger] a.emit(inst),
    ) by {
        if accounted(a) {
            lemma_accounted(a, a.emit(inst));
        }
    }
    assert forall|a: Lx, what: Seq<char>| carries(a, #[trigger] a.unsupported(what)) by {
        if accounted(a) {
            lemma_accounted(a, a.unsupported(what));
        }
    }
    assert forall|a: Lx|
        carries(a, (#[trigger] a.temp()).0) && held(a.temp().0.used, a.temp().1) by {
        assert(a.temp().0.used[a.used.len() as int] == a.temp().1);
        if accounted(a) {
            lemma_accounted(a, a.temp().0);
        }
    }
    assert forall|a: Lx| carries(a, (#[trigger] a.data_temp()).0) by {
        if accounted(a) {
            lemma_accounted(a, a.data_temp().0);
        }
    }
    assert forall|a: Lx| carries(a, (#[trigger] a.iter_temp()).0) by {
        if accounted(a) {
            lemma_accounted(a, a.iter_temp().0);
        }
    }
    assert forall|a: Lx| carries(a, #[trigger] a.counted()) by {
        if accounted(a) {
            lemma_accounted(a, a.counted());
        }
    }
    assert forall|a: Lx, local: LocalId| carries(a, #[trigger] a.initialise(local)) by {
        if accounted(a) {
            lemma_accounted(a, a.initialise(local));
        }
    }
    assert forall|a: Lx| carries(a, #[trigger] a.touch_ctl()) by {
        if accounted(a) {
            lemma_accounted(a, a.touch_ctl());
        }
    }
    assert forall|a: Lx, id: FnId, path: Seq<char>, inst: Inst|
        writes_held(a.used, inst) implies carries(
        a,
        #[trigger] a.record(id, path, seq![inst], seq![]),
    ) by {
        lemma_recorded(a, id, path, seq![inst], seq![]);
    }
    assert forall|a: Lx, prefix: Seq<char>| accounted(#[trigger] a.child(prefix)) by {
        reveal(written_in_use);
    }
    assert forall|a: Lx, id: FnId, path: Seq<char>, inner: Lx|
        accounted(inner) && grows(a.errs, inner.errs) && grows(a.used, inner.used) && grows(
            a.used_data,
            inner.used_data,
        ) && grows(a.initialised, inner.initialised) && tallied(a, inner) implies carries(
        a,
        #[trigger] a.close(id, path, inner),
    ) by {
        let back = Lx {
            insts: a.insts,
            generated: a.generated,
            prefix: a.prefix,
            counter: a.counter,
            top_level: a.top_level,
            body_root: a.body_root,
            ..inner
        };
        if accounted(a) {
            lemma_accounted(a, back);
        }
        assert(carries(a, back));
        reveal(written_in_use);
        lemma_recorded(back, id, path, inner.insts, inner.generated);
    }
}

proof fn lemma_recorded(
    a: Lx,
    id: FnId,
    path: Seq<char>,
    insts: Seq<Inst>,
    generated: Seq<Function>,
)
    requires
        all_held(a.used, insts),
        forall|i: int| 0 <= i < generated.len() ==> function_held(a.used, #[trigger] generated[i]),
    ensures
        carries(a, a.record(id, path, insts, generated)),
{
    grows_facts_for::<Inst>();
    grows_facts_for::<Function>();
    grows_facts_for::<Fault>();
    grows_facts_for::<Reg>();
    grows_facts_for::<LocalId>();
    grows_facts_for::<Seq<char>>();
    grows_by_more::<Function>();
    let b = a.record(id, path, insts, generated);
    let one = Function {
        id,
        path,
        attrs: seq![],
        blocks: seq![Block { id: BlockId(0), insts }],
    };
    let n = a.generated.len() as int;
    assert(grows(a.generated, a.generated.push(one)));
    assert(grows(a.generated.push(one), b.generated));
    assert(function_held(a.used, one));
    if accounted(a) {
        assert forall|i: int| n <= i < b.generated.len() implies function_held(
            b.used,
            #[trigger] b.generated[i],
        ) by {
            if i > n {
                assert(b.generated[i] == generated[i - n - 1]);
            }
        }
        lemma_accounted(a, b);
    }
}

/// A command taken over from a statement that was lowered on its own.
proof fn one_command(cx: Lx, cx1: Lx, cx2: Lx, inst: Inst)
    requires
        carries(cx, cx1),
        carries(cx1, cx2),
        accounted(cx1) ==> writes_held(cx2.used, inst),
    ensures
        carries(cx, cx2.emit(inst)),
{
    growing();
    grows_facts_for::<Inst>();
    if !accounted(cx1) {
        assert(grows(cx2.insts, cx2.emit(inst).insts));
        assert(carries(cx, cx2));
    }
}

proof fn kept_back(a: Seq<Inst>, b: Seq<Inst>)
    requires
        grows(a, b),
    ensures
        kept(b, a.len()) == a,
{
    reveal(grows);
}

proof fn check_root_carries(cx: Lx, place: Place)
    ensures
        carries(cx, check_root(cx, place)),
{
    growing();
    reveal_with_fuel(writes_held, 4);
}

pub(crate) proof fn copy_into_carries(cx: Lx, dst: Reg, value: Value)
    requires
        held(cx.used, dst),
    ensures
        carries(cx, copy_into(cx, dst, value)),
{
    growing();
    reveal_with_fuel(writes_held, 4);
}

proof fn materialise_carries(cx: Lx, value: Value)
    ensures
        carries(cx, materialise(cx, value).0),
{
    growing();
    reveal_with_fuel(writes_held, 4);
}

proof fn compare_into_carries(cx: Lx, dst: Reg, op: BinaryOp, lhs: Value, rhs: Value)
    requires
        held(cx.used, dst),
    ensures
        carries(cx, compare_into(cx, dst, op, lhs, rhs)),
{
    growing();
    reveal_with_fuel(writes_held, 4);
    reveal(compare_into);
    match (lhs, rhs) {
        (Value::Reg(src), Value::Const(n)) => {
            match range_for(op, n) {
                None => {
                    compare_regs_carries(cx, dst, op, lhs, rhs);
                },
                _ => {},
            }
        },
        _ => {
            compare_regs_carries(cx, dst, op, lhs, rhs);
        },
    }
}

proof fn compare_regs_carries(cx: Lx, dst: Reg, op: BinaryOp, lhs: Value, rhs: Value)
    requires
        held(cx.used, dst),
    ensures
        carries(cx, compare_regs(cx, dst, op, lhs, rhs)),
{
    growing();
    reveal_with_fuel(writes_held, 4);
    materialise_carries(cx, lhs);
    let (cx1, l) = materialise(cx, lhs);
    materialise_carries(cx1, rhs);
}

proof fn apply_carries(cx: Lx, dst: Reg, op: BinaryOp, value: Value)
    requires
        held(cx.used, dst),
    ensures
        carries(cx, apply(cx, dst, op, value)),
{
    growing();
    reveal_with_fuel(writes_held, 4);
    reveal(apply);
    match (op, value) {
        (BinaryOp::Add, Value::Const(n)) => {},
        (BinaryOp::Sub, Value::Const(n)) => {},
        _ => {
            materialise_carries(cx, value);
        },
    }
}

proof fn macro_helper_carries(env: Env, cx: Lx, kind: Seq<char>, inst: Inst)
    requires
        writes_held(cx.used, inst),
    ensures
        carries(cx, macro_helper(env, cx, kind, inst).0),
{
    growing();
    reveal_with_fuel(writes_held, 4);
    reveal(macro_helper);
}

proof fn filterable_carries(cx: Lx, path: Seq<char>)
    ensures
        carries(cx, filterable(cx, path).0),
{
    growing();
    reveal_with_fuel(writes_held, 4);
    reveal(filterable);
}

pub(crate) proof fn jump_carries(env: Env, cx: Lx, code: i32)
    ensures
        carries(cx, jump(env, cx, code)),
{
    growing();
    reveal_with_fuel(writes_held, 4);
    reveal(jump);
}

pub(crate) proof fn propagate_carries(env: Env, cx: Lx)
    ensures
        carries(cx, propagate(env, cx)),
{
    growing();
    reveal_with_fuel(writes_held, 4);
    reveal(propagate);
}

pub(crate) proof fn consume_carries(env: Env, cx: Lx, code: i32)
    ensures
        carries(cx, consume(env, cx, code)),
{
    growing();
    reveal_with_fuel(writes_held, 4);
    reveal(consume);
}

#[verifier::spinoff_prover]
proof fn store_struct_carries(env: Env, cx: Lx, path: Seq<char>, value: Expr)
    ensures
        carries(cx, store_struct(env, cx, path, value)),
    decreases value, 0int, 9int,
{
    growing();
    reveal_with_fuel(writes_held, 4);
    reveal(store_struct);
    reveal(write_runtime_fields);
    reveal(concat_into);
    reveal(write_index_arg);
    reveal(scalar_source);
    match value.kind {
        Kind::Struct(_, _) => {
            write_runtime_fields_carries(
                env,
                cx.emit(Inst::SetValue(path, snbt(env.types, value, None))),
                path,
                value,
            );
        },
        Kind::Enum(_, _, _) => {
            write_runtime_fields_carries(
                env,
                cx.emit(Inst::SetValue(path, snbt(env.types, value, None))),
                path,
                value,
            );
        },
        Kind::List(_, _) => {
            write_runtime_fields_carries(
                env,
                cx.emit(Inst::SetValue(path, snbt(env.types, value, None))),
                path,
                value,
            );
        },
        Kind::Binary(op, lhs, rhs) => {
            if op is Add {
                concat_into_carries(env, cx, path, value);
            }
        },
        Kind::Slice(place, start, end) => {
            check_root_carries(cx, place);
        },
        Kind::Field(place) => {
            check_root_carries(cx, place);
            let cx1 = check_root(cx, place);
            let src = place_path(env.function, place);
            match runtime_index(place) {
                Some(index) => {
                    macro_helper_carries(env, cx1, "index"@, Inst::CopyData(path, spliced(src)));
                    let (cx2, helper) = macro_helper(
                        env,
                        cx1,
                        "index"@,
                        Inst::CopyData(path, spliced(src)),
                    );
                    write_index_arg_carries(env, cx2, index);
                },
                _ => {},
            }
        },
        Kind::AsNbt(inner, scale) => {
            scalar_source_carries(env, cx, *inner);
        },
        _ => {},
    }
}

#[verifier::spinoff_prover]
proof fn scalar_source_carries(env: Env, cx: Lx, inner: Expr)
    ensures
        carries(cx, scalar_source(env, cx, inner).0),
    decreases inner, 0int, 11int,
{
    growing();
    reveal_with_fuel(writes_held, 4);
    reveal(scalar_source);
    reveal(expr);
    let held = match inner.kind {
        Kind::Field(place) => if place.steps.len() == 0 && !place.ty.storage() {
            Some(place)
        } else {
            None
        },
        _ => None,
    };
    match held {
        Some(place) => {
            check_root_carries(cx, place);
        },
        None => {
            expr_carries(env, cx, inner);
            let (cx1, v) = expr(env, cx, inner);
            materialise_carries(cx1, v);
        },
    }
}

#[verifier::spinoff_prover]
proof fn write_runtime_fields_carries(env: Env, cx: Lx, path: Seq<char>, value: Expr)
    ensures
        carries(cx, write_runtime_fields(env, cx, path, value)),
    decreases value, 0int, 7int,
{
    growing();
    reveal_with_fuel(writes_held, 4);
    reveal(write_runtime_fields);
    reveal(write_elements);
    reveal(write_fields);
    match value.kind {
        Kind::List(elem, values) => {
            write_elements_carries(env, cx, path, elem, values, 0);
        },
        Kind::Struct(_, fields) => {
            write_fields_carries(env, cx, path, struct_fields(env.types, value), fields, 0);
        },
        Kind::Enum(_, _, fields) => {
            write_fields_carries(env, cx, path, struct_fields(env.types, value), fields, 0);
        },
        _ => {},
    }
}

#[verifier::spinoff_prover]
proof fn write_rest_carries(
    env: Env,
    cx: Lx,
    path: Seq<char>,
    ty: Type,
    tag: Option<NbtTag>,
    value: Expr,
)
    ensures
        carries(cx, write_rest(env, cx, path, ty, tag, value)),
    decreases value, 0int, 13int,
{
    growing();
    reveal_with_fuel(writes_held, 4);
    reveal(write_rest);
    reveal(write_runtime_fields);
    reveal(store_struct);
    reveal(write_scalar);
    match value.kind {
        Kind::Int(_) => {},
        Kind::Bool(_) => {},
        Kind::Str(_) => {},
        Kind::Nbt(_) => {},
        Kind::Struct(_, _) => {
            write_runtime_fields_carries(env, cx, path, value);
        },
        Kind::Enum(_, _, _) => {
            write_runtime_fields_carries(env, cx, path, value);
        },
        Kind::List(_, _) => {
            write_runtime_fields_carries(env, cx, path, value);
        },
        _ => {
            if ty.storage() {
                store_struct_carries(env, cx, path, value);
            } else {
                write_scalar_carries(env, cx, path, tag, value);
            }
        },
    }
}

#[verifier::spinoff_prover]
proof fn write_elements_carries(
    env: Env,
    cx: Lx,
    path: Seq<char>,
    elem: Type,
    values: Seq<Expr>,
    i: int,
)
    ensures
        carries(cx, write_elements(env, cx, path, elem, values, i)),
    decreases values, values.len() - i, 8int,
{
    growing();
    reveal_with_fuel(writes_held, 4);
    reveal(write_elements);
    reveal(write_rest);
    if i >= 0 && i < values.len() {
        let here = path + "["@ + nat_text(i as nat) + "]"@;
        write_rest_carries(env, cx, here, elem, default_tag(elem), values[i]);
        let cx1 = write_rest(env, cx, here, elem, default_tag(elem), values[i]);
        write_elements_carries(env, cx1, path, elem, values, i + 1);
    }
}

#[verifier::spinoff_prover]
proof fn write_fields_carries(
    env: Env,
    cx: Lx,
    path: Seq<char>,
    declared: Seq<Field>,
    values: Seq<Expr>,
    i: int,
)
    ensures
        carries(cx, write_fields(env, cx, path, declared, values, i)),
    decreases values, values.len() - i, 8int,
{
    growing();
    reveal_with_fuel(writes_held, 4);
    reveal(write_fields);
    reveal(write_rest);
    if i >= 0 && i < values.len() && i < declared.len() {
        let here = path + "."@ + declared[i].nbt;
        write_rest_carries(env, cx, here, declared[i].ty, declared[i].tag, values[i]);
        let cx1 = write_rest(env, cx, here, declared[i].ty, declared[i].tag, values[i]);
        write_fields_carries(env, cx1, path, declared, values, i + 1);
    }
}

#[verifier::spinoff_prover]
proof fn write_scalar_carries(
    env: Env,
    cx: Lx,
    path: Seq<char>,
    tag: Option<NbtTag>,
    value: Expr,
)
    ensures
        carries(cx, write_scalar(env, cx, path, tag, value)),
    decreases value, 0int, 12int,
{
    growing();
    reveal_with_fuel(writes_held, 4);
    reveal(write_scalar);
    reveal(expr);
    expr_carries(env, cx, value);
    let (cx1, v) = expr(env, cx, value);
    materialise_carries(cx1, v);
}

#[verifier::spinoff_prover]
proof fn concat_side_carries(env: Env, cx: Lx, side: Expr, name: Seq<char>)
    ensures
        carries(cx, concat_side(env, cx, side, name).0),
    decreases side, 0int, 13int,
{
    growing();
    reveal_with_fuel(writes_held, 4);
    reveal(concat_side);
    reveal(expr_or_copy);
    match side.kind {
        Kind::Str(text) => {},
        _ => {
            expr_or_copy_carries(env, cx, Type::Str, side);
        },
    }
}

#[verifier::spinoff_prover]
proof fn concat_into_carries(env: Env, cx: Lx, path: Seq<char>, value: Expr)
    ensures
        carries(cx, concat_into(env, cx, path, value)),
    decreases value, 0int, 8int,
{
    growing();
    reveal_with_fuel(writes_held, 4);
    reveal(concat_into);
    reveal(concat_side);
    match value.kind {
        Kind::Binary(_, lhs, rhs) => {
            concat_side_carries(env, cx, *lhs, "a"@);
            let (cx1, a, a_spliced) = concat_side(env, cx, *lhs, "a"@);
            concat_side_carries(env, cx1, *rhs, "b"@);
            let (cx2, b, b_spliced) = concat_side(env, cx1, *rhs, "b"@);
            let write = Inst::SetValue(path, "\""@ + a + b + "\""@);
            if !(!a_spliced && !b_spliced) {
                macro_helper_carries(env, cx2, "concat"@, write);
            }
        },
        _ => {},
    }
}

#[verifier::spinoff_prover]
proof fn expr_or_copy_carries(env: Env, cx: Lx, ty: Type, value: Expr)
    ensures
        carries(cx, expr_or_copy(env, cx, ty, value).0),
    decreases value, 0int, 12int,
{
    growing();
    reveal_with_fuel(writes_held, 4);
    reveal(expr_or_copy);
    reveal(expr);
    reveal(store_struct);
    if !ty.storage() {
        expr_carries(env, cx, value);
    } else {
        let known = match value.kind {
            Kind::Field(place) => is_static(place),
            _ => false,
        };
        match value.kind {
            Kind::Str(text) => {},
            Kind::Local(local) => {},
            _ => {
                if known {
                    let place = value.kind->Field_0;
                    check_root_carries(cx, place);
                } else {
                    let (cx1, temp) = cx.data_temp();
                    store_struct_carries(env, cx1, temp, value);
                }
            },
        }
    }
}

#[verifier::spinoff_prover]
proof fn string_compare_carries(env: Env, cx: Lx, e: Expr, into: Option<Reg>)
    requires
        into is Some ==> held(cx.used, into->0),
    ensures
        carries(cx, string_compare(env, cx, e, into).0),
    decreases e, 0int, 8int,
{
    growing();
    reveal_with_fuel(writes_held, 4);
    reveal(string_compare);
    reveal(expr_or_copy);
    match e.kind {
        Kind::Binary(op, lhs, rhs) => {
            let negated = op is Ne;
            expr_or_copy_carries(env, cx, Type::Str, *lhs);
            let (cx1, l) = expr_or_copy(env, cx, Type::Str, *lhs);
            expr_or_copy_carries(env, cx1, Type::Str, *rhs);
            let (cx2, r) = expr_or_copy(env, cx1, Type::Str, *rhs);
            match (l, r) {
                (Written::Const(a), Written::Const(b)) => {},
                _ => {
                    let (cx3, dst) = match into {
                        Some(dst) => (cx2, dst),
                        None => cx2.temp(),
                    };
                    let (path, other) = match (l, r) {
                        (Written::Data(path), other) => (path, other),
                        (other, Written::Data(path)) => (path, other),
                        (other, _) => (seq![], other),
                    };
                    filterable_carries(cx3, path);
                    let (cx4, parent, key) = filterable(cx3, path);
                    string_match_carries(env, cx4, dst, parent, key, other, negated);
                },
            }
        },
        _ => {},
    }
}

proof fn string_match_carries(
    env: Env,
    cx: Lx,
    dst: Reg,
    parent: Seq<char>,
    key: Seq<char>,
    other: Written,
    negated: bool,
)
    requires
        held(cx.used, dst),
    ensures
        carries(cx, string_match(env, cx, dst, parent, key, other, negated)),
{
    growing();
    reveal_with_fuel(writes_held, 4);
    reveal(string_match);
    match other {
        Written::Data(src) => {
            macro_helper_carries(
                env,
                cx,
                "streq"@,
                Inst::StoreCond(dst, Cond::Data(parent, "{"@ + key + ":\"$(s)\"}"@, negated)),
            );
        },
        _ => {},
    }
}

#[verifier::spinoff_prover]
proof fn read_place_scaled_carries(env: Env, cx: Lx, dst: Reg, place: Place, scale: u32)
    requires
        held(cx.used, dst),
    ensures
        carries(cx, read_place_scaled(env, cx, dst, place, scale)),
    decreases place, 0int, 5int,
{
    growing();
    reveal_with_fuel(writes_held, 4);
    reveal(read_place_scaled);
    reveal(write_index_arg);
    check_root_carries(cx, place);
    let cx0 = check_root(cx, place);
    if !(place.steps.len() == 0 && !place.ty.storage()) {
        let path = place_path(env.function, place);
        match runtime_index(place) {
            Some(index) => {
                macro_helper_carries(
                    env,
                    cx0,
                    "index"@,
                    Inst::ReturnRun(Box::new(read_of(spliced(path), scale))),
                );
                let (cx1, helper) = macro_helper(
                    env,
                    cx0,
                    "index"@,
                    Inst::ReturnRun(Box::new(read_of(spliced(path), scale))),
                );
                write_index_arg_carries(env, cx1, index);
            },
            _ => {},
        }
    }
}

#[verifier::spinoff_prover]
pub(crate) proof fn write_index_arg_carries(env: Env, cx: Lx, index: Expr)
    ensures
        carries(cx, write_index_arg(env, cx, index)),
    decreases index, 0int, 16int,
{
    growing();
    reveal_with_fuel(writes_held, 4);
    reveal(write_index_arg);
    reveal(expr);
    expr_carries(env, cx, index);
    let (cx1, v) = expr(env, cx, index);
    materialise_carries(cx1, v);
}

#[verifier::spinoff_prover]
pub(crate) proof fn expr_carries(env: Env, cx: Lx, e: Expr)
    ensures
        carries(cx, expr(env, cx, e).0),
    decreases e, 0int, 10int,
{
    growing();
    reveal_with_fuel(writes_held, 4);
    reveal(expr);
    reveal(binary);
    reveal(call);
    reveal(read_place_scaled);
    match e.kind {
        Kind::Unary(op, operand) => {
            expr_carries(env, cx, *operand);
            let (cx1, v) = expr(env, cx, *operand);
            unary_carries(cx1, op, v);
        },
        Kind::Binary(_, _, _) => {
            binary_carries(env, cx, e);
        },
        Kind::Call(callee, args) => {
            check_callee_carries(env, cx, callee, e.span);
            let cx0 = check_callee(env, cx, callee, e.span);
            call_carries(env, cx0, callee, args, true);
        },
        Kind::Field(place) => {
            let (cx1, dst) = cx.temp();
            read_place_scaled_carries(env, cx1, dst, place, 1);
        },
        Kind::Len(place) => {
            let (cx1, dst) = cx.temp();
            read_place_scaled_carries(env, cx1, dst, place, 1);
        },
        Kind::ReadScaled(place, scale) => {
            let (cx1, dst) = cx.temp();
            read_place_scaled_carries(env, cx1, dst, place, scale);
        },
        _ => {},
    }
}

proof fn unary_carries(cx: Lx, op: UnaryOp, value: Value)
    ensures
        carries(cx, unary(cx, op, value).0),
{
    growing();
    reveal_with_fuel(writes_held, 4);
    reveal(unary);
    match op {
        UnaryOp::Neg => {
            let (cx1, dst) = cx.temp();
            materialise_carries(cx1.emit(Inst::Const(dst, 0)), value);
        },
        UnaryOp::Not => {
            materialise_carries(cx, value);
        },
    }
}

#[verifier::spinoff_prover]
proof fn binary_carries(env: Env, cx: Lx, e: Expr)
    ensures
        carries(cx, binary(env, cx, e).0),
    decreases e, 0int, 9int,
{
    growing();
    reveal_with_fuel(writes_held, 4);
    reveal(binary);
    reveal(string_compare);
    reveal(expr);
    reveal(split_expr);
    match e.kind {
        Kind::Binary(op, lhs, rhs) => {
            if lhs.ty is Str {
                string_compare_carries(env, cx, e, None);
            } else if (op is And || op is Or) && !is_pure(*rhs) {
                expr_carries(env, cx, *lhs);
                let (cx1, l) = expr(env, cx, *lhs);
                let (cx2, dst) = cx1.temp();
                copy_into_carries(cx2, dst, l);
                let cx3 = copy_into(cx2, dst, l);
                let name = if op is And {
                        "and"@
                    } else {
                        "or"@
                    };
                split_expr_carries(env, cx3, name, dst, *rhs);
            } else {
                expr_carries(env, cx, *lhs);
                let (cx1, l) = expr(env, cx, *lhs);
                expr_carries(env, cx1, *rhs);
                let (cx2, r) = expr(env, cx1, *rhs);
                let (cx3, dst) = cx2.temp();
                compare_into_carries(cx3, dst, op, l, r);
                copy_into_carries(cx3, dst, l);
                apply_carries(copy_into(cx3, dst, l), dst, op, r);
            }
        },
        _ => {},
    }
}

#[verifier::spinoff_prover]
proof fn split_expr_carries(env: Env, cx: Lx, kind: Seq<char>, dst: Reg, e: Expr)
    requires
        held(cx.used, dst),
    ensures
        carries(cx, split_expr(env, cx, kind, dst, e).0),
    decreases e, 0int, 15int,
{
    growing();
    reveal_with_fuel(writes_held, 4);
    reveal(split_expr);
    reveal(expr);
    let path = cx.next_path(kind);
    let outer = cx.counted();
    expr_carries(env, outer.child(path), e);
    let (inner, v) = expr(env, outer.child(path), e);
    copy_into_carries(inner, dst, v);
}

proof fn expr_into_carries(env: Env, cx: Lx, dst: Reg, e: Expr)
    requires
        held(cx.used, dst),
    ensures
        carries(cx, expr_into(env, cx, dst, e)),
    decreases e, 0int, 12int,
{
    growing();
    reveal_with_fuel(writes_held, 4);
    reveal(expr_into);
    match e.kind {
        Kind::Binary(op, lhs, rhs) => {
            if lhs.ty is Str {
                string_compare_carries(env, cx, e, Some(dst));
                match string_compare(env, cx, e, Some(dst)) {
                    (cx1, Value::Const(n)) => {
                        copy_into_carries(cx1, dst, Value::Const(n));
                    },
                    _ => {},
                }
            } else if is_comparison(op) {
                expr_carries(env, cx, *lhs);
                let (cx1, l) = expr(env, cx, *lhs);
                expr_carries(env, cx1, *rhs);
                let (cx2, r) = expr(env, cx1, *rhs);
                compare_into_carries(cx2, dst, op, l, r);
            } else {
                expr_carries(env, cx, e);
                let (cx1, v) = expr(env, cx, e);
                copy_into_carries(cx1, dst, v);
            }
        },
        Kind::Unary(op, operand) => {
            if op is Not {
                expr_carries(env, cx, *operand);
                let (cx1, v) = expr(env, cx, *operand);
                materialise_carries(cx1, v);
            } else {
                expr_carries(env, cx, e);
                let (cx1, v) = expr(env, cx, e);
                copy_into_carries(cx1, dst, v);
            }
        },
        Kind::Field(place) => {
            if !e.ty.storage() {
                read_place_scaled_carries(env, cx, dst, place, 1);
            } else {
                expr_carries(env, cx, e);
                let (cx1, v) = expr(env, cx, e);
                copy_into_carries(cx1, dst, v);
            }
        },
        Kind::Len(place) => {
            read_place_scaled_carries(env, cx, dst, place, 1);
        },
        Kind::ReadScaled(place, scale) => {
            read_place_scaled_carries(env, cx, dst, place, scale);
        },
        _ => {
            expr_carries(env, cx, e);
            let (cx1, v) = expr(env, cx, e);
            copy_into_carries(cx1, dst, v);
        },
    }
}

pub(crate) proof fn store_carries(env: Env, cx: Lx, dst: Reg, op: Option<BinaryOp>, value: Expr)
    requires
        held(cx.used, dst),
    ensures
        carries(cx, store(env, cx, dst, op, value)),
    decreases value, 0int, 13int,
{
    growing();
    reveal_with_fuel(writes_held, 4);
    reveal(store);
    match op {
        None => {
            expr_into_carries(env, cx, dst, value);
        },
        Some(op) => {
            expr_carries(env, cx, value);
            let (cx1, v) = expr(env, cx, value);
            apply_carries(cx1, dst, op, v);
        },
    }
}

pub(crate) proof fn cond_carries(env: Env, cx: Lx, e: Expr)
    ensures
        carries(cx, cond(env, cx, e).0),
    decreases e, 0int, 14int,
{
    growing();
    reveal_with_fuel(writes_held, 4);
    reveal(cond);
    match e.kind {
        Kind::Unary(op, inner) => {
            if op is Not {
                cond_carries(env, cx, *inner);
            } else {
                truth_carries(env, cx, e);
            }
        },
        Kind::Binary(op, lhs, rhs) => {
            if is_comparison(op) && !(lhs.ty is Str) {
                expr_carries(env, cx, *lhs);
                let (cx1, l) = expr(env, cx, *lhs);
                expr_carries(env, cx1, *rhs);
                let (cx2, r) = expr(env, cx1, *rhs);
                condition_of_carries(cx2, op, l, r);
            } else {
                truth_carries(env, cx, e);
            }
        },
        _ => {
            truth_carries(env, cx, e);
        },
    }
}

proof fn truth_carries(env: Env, cx: Lx, e: Expr)
    ensures
        carries(cx, truth(env, cx, e).0),
    decreases e, 0int, 11int,
{
    growing();
    reveal_with_fuel(writes_held, 4);
    reveal(truth);
    expr_carries(env, cx, e);
    let (cx1, v) = expr(env, cx, e);
    materialise_carries(cx1, v);
}

proof fn condition_of_carries(cx: Lx, op: BinaryOp, lhs: Value, rhs: Value)
    ensures
        carries(cx, condition_of(cx, op, lhs, rhs).0),
{
    growing();
    reveal_with_fuel(writes_held, 4);
    reveal(condition_of);
    let range = match (lhs, rhs) {
        (Value::Reg(src), Value::Const(n)) => match range_for(op, n) {
            Some((min, max, negated)) => Some(Cond::Matches(src, min, max, negated)),
            None => None,
        },
        _ => None,
    };
    match range {
        None => {
            materialise_carries(cx, lhs);
            let (cx1, l) = materialise(cx, lhs);
            materialise_carries(cx1, rhs);
        },
        _ => {},
    }
}

#[verifier::spinoff_prover]
proof fn call_values_carries(env: Env, cx: Lx, args: Seq<Expr>, i: int, acc: Seq<Option<Value>>)
    ensures
        carries(cx, call_values(env, cx, args, i, acc).0),
    decreases args, args.len() - i, 18int,
{
    growing();
    reveal_with_fuel(writes_held, 4);
    reveal(call_values);
    reveal(expr);
    if i >= 0 && i < args.len() {
        if args[i].ty.storage() {
            call_values_carries(env, cx, args, i + 1, acc.push(None));
        } else {
            expr_carries(env, cx, args[i]);
            let (cx1, v) = expr(env, cx, args[i]);
            call_values_carries(env, cx1, args, i + 1, acc.push(Some(v)));
        }
    }
}

#[verifier::spinoff_prover]
proof fn pass_values_carries(
    env: Env,
    cx: Lx,
    callee: HirFunction,
    args: Seq<Expr>,
    values: Seq<Option<Value>>,
    i: int,
)
    ensures
        carries(cx, pass_values(env, cx, callee, args, values, i)),
    decreases args, args.len() - i, 18int,
{
    growing();
    reveal_with_fuel(writes_held, 4);
    reveal(pass_values);
    reveal(store_struct);
    if i >= 0 && i < args.len() && i < values.len() && i < callee.params.len() {
        match values[i] {
            Some(v) => {
                copy_into_carries(cx, local_reg(callee, callee.params[i]), v);
            },
            None => {
                store_struct_carries(env, cx, local_path(callee, callee.params[i]), args[i]);
            },
        }
        let cx1 = match values[i] {
            Some(v) => copy_into(cx, local_reg(callee, callee.params[i]), v),
            None => store_struct(env, cx, local_path(callee, callee.params[i]), args[i]),
        };
        pass_values_carries(env, cx1, callee, args, values, i + 1);
    }
}

proof fn check_callee_carries(env: Env, cx: Lx, callee: FnId, span: Span)
    ensures
        carries(cx, check_callee(env, cx, callee, span)),
{
    growing();
    reveal_with_fuel(writes_held, 4);
    grows_facts_for::<Fault>();
    assert(carries(cx, cx));
}

#[verifier::spinoff_prover]
proof fn call_carries(env: Env, cx: Lx, callee: FnId, args: Seq<Expr>, want_result: bool)
    ensures
        carries(cx, call(env, cx, callee, args, want_result).0),
    decreases args, args.len() + 1, 20int,
{
    growing();
    reveal_with_fuel(writes_held, 4);
    reveal(call);
    reveal(call_values);
    reveal(pass_values);
    grows_by_more::<Inst>();
    grows_facts_for::<Inst>();
    if callee.0 < env.functions.len() {
        let f = env.functions[callee.0 as int];
        let again = recursive(env.functions, env.function.id, callee);
        call_values_carries(env, cx, args, 0, seq![]);
        let (cx1, values) = call_values(env, cx, args, 0, seq![]);
        let slots = live_slots(env, cx1);
        let framed = cx1.insts.push(Inst::PushFrame);
        let cx2 = if again {
            Lx { insts: framed + saves(slots), ..cx1 }
        } else {
            cx1
        };
        assert(carries(cx1, cx1));
        assert(grows(cx1.insts, framed) && grows(framed, framed + saves(slots)));
        if again && accounted(cx1) {
            lemma_accounted(cx1, cx2);
        }
        assert(carries(cx1, cx2));
        pass_values_carries(env, cx2, f, args, values, 0);
        let cx3 = pass_values(env, cx2, f, args, values, 0);
        let made = Inst::Call(f.path);
        let (cx4, result) = if want_result {
            cx3.temp()
        } else {
            (cx3, Reg { holder: seq![], kind: RegKind::Temp })
        };
        let cx5 = if want_result {
            cx4.emit(Inst::StoreResult(result, Box::new(made)))
        } else {
            cx4.emit(made)
        };
        assert(carries(cx5, cx5));
        let back = cx5.insts + restores(slots);
        assert(grows(cx5.insts, back) && grows(back, back.push(Inst::PopFrame)));
        let cx6 = Lx { insts: back.push(Inst::PopFrame), ..cx5 };
        assert(carries(cx1, cx5));
        if accounted(cx5) {
            assert forall|i: int| cx5.insts.len() <= i < cx6.insts.len() implies writes_held(
                cx6.used,
                #[trigger] cx6.insts[i],
            ) by {
                let k = i - cx5.insts.len();
                if k < slots.len() {
                    assert(cx6.insts[i] == restore(slots[k], k));
                    lemma_slots_are_held(env, cx1, k);
                }
            }
            lemma_accounted(cx5, cx6);
        }
        assert(carries(cx5, cx6));
    }
}

/// A register that is saved is a binding or a temporary in use.
proof fn lemma_slots_are_held(env: Env, cx: Lx, k: int)
    requires
        0 <= k < live_slots(env, cx).len(),
    ensures
        match live_slots(env, cx)[k] {
            Slot::Score(reg) => held(cx.used, reg),
            Slot::Data(_) => true,
        },
{
    let n = cx.initialised.len() as int;
    let m = cx.used.len() as int;
    let slots = live_slots(env, cx);
    if k < n {
        assert(slots[k] == local_slot(env.function, cx.initialised[k]));
    } else if k < n + m {
        assert(slots[k] == Slot::Score(cx.used[k - n]));
    }
}

#[verifier::spinoff_prover]
pub(crate) proof fn stmts_carries(env: Env, cx: Lx, body: Seq<Stmt>, i: int)
    ensures
        carries(cx, stmts(env, cx, body, i)),
    decreases body, body.len() - i, 6int,
{
    growing();
    reveal_with_fuel(writes_held, 4);
    reveal(stmts);
    reveal(stmt);
    if i >= 0 && i < body.len() {
        stmt_carries(env, cx, body[i]);
        stmts_carries(env, stmt(env, cx, body[i]), body, i + 1);
    }
}

#[verifier::spinoff_prover]
pub(crate) proof fn stmt_carries(env: Env, cx: Lx, s: Stmt)
    ensures
        carries(cx, stmt(env, cx, s)),
    decreases s, 0int, 5int,
{
    growing();
    reveal_with_fuel(writes_held, 4);
    reveal(stmt);
    reveal(context_stmt);
    reveal(if_stmt);
    reveal(loop_stmt);
    reveal(for_vec);
    reveal(match_stmt);
    assert(carries(cx, cx));
    assert(carries(cx, Lx { at: stmt_span(s), ..cx }));
    let cx = Lx { at: stmt_span(s), ..cx };
    match s {
        Stmt::Break(_) => {
            jump_carries(env, cx, CTL_BREAK);
        },
        Stmt::Continue(_) => {
            jump_carries(env, cx, CTL_CONTINUE);
        },
        Stmt::Return(value, _) => {
            return_stmt_carries(env, cx, value);
        },
        Stmt::CallFor(callee, args, span) => {
            check_callee_carries(env, cx, callee, span);
            call_carries(env, check_callee(env, cx, callee, span), callee, args, false);
        },
        Stmt::Context(_, _, _, _, _) => {
            context_stmt_carries(env, cx, s);
        },
        Stmt::If(_, _, _, _, _) => {
            if_stmt_carries(env, cx, s);
        },
        Stmt::Loop(_, _, _, _) => {
            loop_stmt_carries(env, cx, s);
        },
        Stmt::ForVec(_, _, _, _) => {
            for_vec_carries(env, cx, s);
        },
        Stmt::Match(_, _, _) => {
            match_stmt_carries(env, cx, s);
        },
        Stmt::Let(local, value, _) => {
            store_struct_carries(env, cx, local_path(env.function, local), value);
            store_carries(env, cx, local_reg(env.function, local), None, value);
        },
        Stmt::Push(place, value, _) => {
            push_into_carries(env, cx, place, value);
        },
        Stmt::Assign(place, op, value, _) => {
            if place.ty.storage() || place.steps.len() > 0 {
                assign_to_place_carries(env, cx, s);
            } else {
                check_root_carries(cx, place);
                store_carries(
                    env,
                    check_root(cx, place),
                    place_reg(env.function, place),
                    op,
                    value,
                );
            }
        },
        Stmt::Assert(test, message, span) => {
            if env.debug {
                cond_carries(env, cx, test);
            }
        },
        _ => {},
    }
}

pub(crate) proof fn return_stmt_carries(env: Env, cx: Lx, value: Option<Expr>)
    ensures
        carries(cx, return_stmt(env, cx, value)),
{
    growing();
    reveal_with_fuel(writes_held, 4);
    reveal(return_stmt);
    match value {
        None => {
            if !cx.top_level {
                jump_carries(env, cx, CTL_RETURN);
            }
        },
        Some(e) => {
            expr_carries(env, cx, e);
            let (cx1, v) = expr(env, cx, e);
            if !cx1.top_level {
                copy_into_carries(cx1, ret_reg(env.function), v);
                jump_carries(env, copy_into(cx1, ret_reg(env.function), v), CTL_RETURN);
            }
        },
    }
}

proof fn push_into_carries(env: Env, cx: Lx, place: Place, value: Expr)
    ensures
        carries(cx, push_into(env, cx, place, value)),
{
    growing();
    reveal_with_fuel(writes_held, 4);
    reveal(push_into);
    check_root_carries(cx, place);
    let cx0 = check_root(cx, place);
    if !(runtime_index(place) is Some) {
        let elem = match place.ty {
            Type::Vec(id) => element_of(env.types, id),
            _ => Type::I32,
        };
        expr_or_copy_carries(env, cx0, elem, value);
    }
}

proof fn assign_in_storage_carries(
    env: Env,
    cx: Lx,
    path: Seq<char>,
    ty: Type,
    tag: Option<NbtTag>,
    op: Option<BinaryOp>,
    value: Expr,
)
    ensures
        carries(cx, assign_in_storage(env, cx, path, ty, tag, op, value)),
{
    growing();
    reveal_with_fuel(writes_held, 4);
    reveal(assign_in_storage);
    if ty.storage() {
        store_struct_carries(env, cx, path, value);
    } else {
        match op {
            None => {
                expr_carries(env, cx, value);
            },
            Some(_) => {
                let (cx1, acc) = cx.temp();
                store_carries(
                    env,
                    cx1.emit(Inst::StoreResult(acc, Box::new(Inst::GetData(path)))),
                    acc,
                    op,
                    value,
                );
            },
        }
    }
}

proof fn assign_to_place_carries(env: Env, cx: Lx, s: Stmt)
    ensures
        carries(cx, assign_to_place(env, cx, s)),
{
    growing();
    reveal_with_fuel(writes_held, 4);
    reveal(assign_to_place);
    match s {
        Stmt::Assign(place, op, value, _) => {
            check_root_carries(cx, place);
            let cx0 = check_root(cx, place);
            let path = place_path(env.function, place);
            match runtime_index(place) {
                None => {
                    assign_in_storage_carries(env, cx0, path, place.ty, place.tag, op, value);
                },
                Some(index) => {
                    indexed_value_carries(env, cx0, path, index, place.ty, op, value);
                    let (cx1, written) = indexed_value(env, cx0, path, index, place.ty, op, value);
                    let write = match written {
                        Written::Const(text) => Inst::SetValue(spliced(path), text),
                        Written::Reg(src) => Inst::StoreData(
                            spliced(path),
                            stored_tag(place.tag).keyword_text(),
                            Box::new(Inst::Get(src)),
                        ),
                        Written::Data(src) => Inst::CopyData(spliced(path), src),
                    };
                    macro_helper_carries(env, cx1, "index"@, write);
                    let (cx2, helper) = macro_helper(env, cx1, "index"@, write);
                    write_index_arg_carries(env, cx2, index);
                },
            }
        },
        _ => {},
    }
}

proof fn indexed_value_carries(
    env: Env,
    cx: Lx,
    path: Seq<char>,
    index: Expr,
    ty: Type,
    op: Option<BinaryOp>,
    value: Expr,
)
    ensures
        carries(cx, indexed_value(env, cx, path, index, ty, op, value).0),
{
    growing();
    reveal_with_fuel(writes_held, 4);
    reveal(indexed_value);
    match op {
        None => {
            expr_or_copy_carries(env, cx, ty, value);
        },
        Some(_) => {
            let (cx1, acc) = cx.temp();
            macro_helper_carries(
                env,
                cx1,
                "index"@,
                Inst::ReturnRun(Box::new(Inst::GetData(spliced(path)))),
            );
            let (cx2, read) = macro_helper(
                env,
                cx1,
                "index"@,
                Inst::ReturnRun(Box::new(Inst::GetData(spliced(path)))),
            );
            write_index_arg_carries(env, cx2, index);
            let cx3 = write_index_arg(env, cx2, index).emit(
                Inst::StoreResult(acc, Box::new(Inst::CallWithArgs(read))),
            );
            store_carries(env, cx3, acc, op, value);
        },
    }
}

#[verifier::spinoff_prover]
pub(crate) proof fn split_carries(env: Env, cx: Lx, kind: Seq<char>, body: Seq<Stmt>)
    ensures
        carries(cx, split(env, cx, kind, body).0),
    decreases body, body.len() + 1, 7int,
{
    growing();
    reveal_with_fuel(writes_held, 4);
    reveal(split);
    reveal(stmts);
    let path = cx.next_path(kind);
    let outer = cx.counted();
    stmts_carries(env, outer.child(path), body, 0);
}

#[verifier::spinoff_prover]
pub(crate) proof fn inlined_carries(env: Env, cx: Lx, s: Stmt)
    ensures
        carries(cx, inlined(env, cx, s).0),
        accounted(cx) && inlined(env, cx, s).1 is Some ==> writes_held(
            inlined(env, cx, s).0.used,
            inlined(env, cx, s).1->0,
        ),
    decreases s, 0int, 6int,
{
    growing();
    reveal_with_fuel(writes_held, 4);
    reveal(inlined);
    reveal(stmt);
    stmt_carries(env, cx, s);
    let after = stmt(env, cx, s);
    assert(carries(after, after));
    assert(carries(cx, cx));
    kept_back(cx.insts, after.insts);
    let back = inlined(env, cx, s);
    if accounted(cx) {
        reveal(written_in_use);
        assert forall|i: int| 0 <= i < back.0.insts.len() implies writes_held(
            back.0.used,
            #[trigger] back.0.insts[i],
        ) by {
            assert(back.0.insts[i] == after.insts[i]);
        }
    }
}

#[verifier::spinoff_prover]
pub(crate) proof fn if_stmt_carries(env: Env, cx: Lx, s: Stmt)
    ensures
        carries(cx, if_stmt(env, cx, s)),
    decreases s, 0int, 4int,
{
    growing();
    reveal_with_fuel(writes_held, 4);
    reveal(if_stmt);
    reveal(inlined);
    reveal(split);
    match s {
        Stmt::If(test, taken, otherwise, inline, _) => {
            let escaping = match otherwise {
                Some(otherwise) => escapes(taken, 0).union(escapes(otherwise, 0)),
                None => escapes(taken, 0),
            };
            cond_carries(env, cx, test);
            let (cx1, c) = cond(env, cx, test);
            if otherwise is None && taken.len() == 1 && !escaping.any() && inline != Inline::Never {
                inlined_carries(env, cx1, taken[0]);
            }
            let (cx2, one) = if otherwise is None && taken.len() == 1 && !escaping.any() && inline
                != Inline::Never {
                inlined(env, cx1, taken[0])
            } else {
                (cx1, None)
            };
            match one {
                None => {
                    split_carries(env, cx2, "if"@, taken);
                    let (cx3, path) = split(env, cx2, "if"@, taken);
                    let cx4 = cx3.emit(Inst::Guarded(c, Box::new(Inst::Call(path))));
                    match otherwise {
                        Some(otherwise) => {
                            split_carries(env, cx4, "else"@, otherwise);
                        },
                        _ => {},
                    }
                    let cx5 = match otherwise {
                        Some(otherwise) => {
                            let (cx5, other) = split(env, cx4, "else"@, otherwise);
                            cx5.emit(Inst::Guarded(negation(c), Box::new(Inst::Call(other))))
                        },
                        None => cx4,
                    };
                    if escaping.any() {
                        propagate_carries(env, cx5);
                    }
                },
                Some(inst) => {
                    one_command(cx, cx1, cx2, Inst::Guarded(c, Box::new(inst)));
                },
            }
        },
        _ => {},
    }
}

#[verifier::spinoff_prover]
pub(crate) proof fn loop_body_carries(env: Env, cx: Lx, body: Seq<Stmt>)
    ensures
        carries(cx, loop_body(env, cx, body)),
    decreases body, body.len() + 1, 8int,
{
    growing();
    reveal_with_fuel(writes_held, 4);
    reveal(loop_body);
    reveal(split);
    reveal(stmts);
    if escapes(body, 0).continues {
        split_carries(env, cx, "body"@, body);
        let (cx1, path) = split(env, cx, "body"@, body);
        consume_carries(env, cx1.emit(Inst::Call(path)), CTL_CONTINUE);
        propagate_carries(env, consume(env, cx1.emit(Inst::Call(path)), CTL_CONTINUE));
    } else {
        stmts_carries(env, cx, body, 0);
    }
}

pub(crate) proof fn after_loop_carries(env: Env, cx: Lx, escaping: Escapes)
    ensures
        carries(cx, after_loop(env, cx, escaping)),
{
    growing();
    reveal_with_fuel(writes_held, 4);
    if escaping.breaks {
        consume_carries(env, cx, CTL_BREAK);
    }
    let cx1 = if escaping.breaks {
        consume(env, cx, CTL_BREAK)
    } else {
        cx
    };
    if escaping.returns {
        propagate_carries(env, cx1);
    }
}

#[verifier::spinoff_prover]
pub(crate) proof fn loop_stmt_carries(env: Env, cx: Lx, s: Stmt)
    ensures
        carries(cx, loop_stmt(env, cx, s)),
    decreases s, 0int, 4int,
{
    growing();
    reveal_with_fuel(writes_held, 4);
    reveal(loop_stmt);
    reveal(loop_body);
    match s {
        Stmt::Loop(test, body, _, _) => {
            let path = cx.next_path(
                if test is Some {
                    "while"@
                } else {
                    "loop"@
                },
            );
            let outer = cx.counted();
            let inner = outer.child(path);
            match test {
                Some(test) => {
                    cond_carries(env, inner, test);
                },
                _ => {},
            }
            let inner1 = match test {
                Some(test) => {
                    let (inner1, c) = cond(env, inner, test);
                    inner1.emit(Inst::Guarded(negation(c), Box::new(Inst::Return(0))))
                },
                None => inner,
            };
            loop_body_carries(env, inner1, body);
            let inner2 = loop_body(env, inner1, body).emit(Inst::Call(path));
            after_loop_carries(
                env,
                outer.close(env.function.id, path, inner2).emit(Inst::Call(path)),
                escapes(body, 0),
            );
        },
        _ => {},
    }
}

pub(crate) proof fn bind_local_carries(env: Env, cx: Lx, local: LocalId, ty: Type, path: Seq<char>)
    ensures
        carries(cx, bind_local(env, cx, local, ty, path)),
{
    growing();
    reveal_with_fuel(writes_held, 4);
    reveal(bind_local);
}

#[verifier::spinoff_prover]
proof fn for_vec_carries(env: Env, cx: Lx, s: Stmt)
    ensures
        carries(cx, for_vec(env, cx, s)),
    decreases s, 0int, 4int,
{
    growing();
    reveal_with_fuel(writes_held, 4);
    reveal(for_vec);
    reveal(loop_body);
    match s {
        Stmt::ForVec(source, binding, body, _) => {
            check_root_carries(cx, source);
            let (cx1, iter) = check_root(cx, source).iter_temp();
            let cx2 = cx1.emit(Inst::CopyData(iter, place_path(env.function, source)));
            let path = cx2.next_path("for"@);
            let outer = cx2.counted();
            let head = iter + "[0]"@;
            let inner = outer.child(path).emit(
                Inst::Guarded(Cond::Data(head, seq![], true), Box::new(Inst::Return(0))),
            );
            bind_local_carries(env, inner, binding, local_of(env.function, binding).ty, head);
            let inner1 = bind_local(
                env,
                inner,
                binding,
                local_of(env.function, binding).ty,
                head,
            ).emit(Inst::RemoveData(head)).initialise(binding);
            loop_body_carries(env, inner1, body);
            let inner2 = loop_body(env, inner1, body).emit(Inst::Call(path));
            after_loop_carries(
                env,
                outer.close(env.function.id, path, inner2).emit(Inst::Call(path)),
                escapes(body, 0),
            );
        },
        _ => {},
    }
}

#[verifier::spinoff_prover]
proof fn context_stmt_carries(env: Env, cx: Lx, s: Stmt)
    ensures
        carries(cx, context_stmt(env, cx, s)),
    decreases s, 0int, 4int,
{
    growing();
    reveal_with_fuel(writes_held, 4);
    reveal(context_stmt);
    reveal(inlined);
    reveal(stmts);
    match s {
        Stmt::Context(kind, selector, body, inline, _) => {
            if !(kind is Positioned) {
                let escaping = escapes(body, 0);
                let clause = if kind is At {
                    ExecuteAs::At(selector.text)
                } else {
                    ExecuteAs::As(selector.text)
                };
                if body.len() == 1 && !escaping.any() && inline != Inline::Never {
                    inlined_carries(env, cx, body[0]);
                }
                let (cx1, one) = if body.len() == 1 && !escaping.any() && inline != Inline::Never {
                    inlined(env, cx, body[0])
                } else {
                    (cx, None)
                };
                match one {
                    None => {
                        let path = cx1.next_path(context_name(kind));
                        let outer = cx1.counted();
                        let inner = Lx { body_root: true, ..outer.child(path) };
                        if escaping.continues {
                            consume_carries(env, inner, CTL_CONTINUE);
                        }
                        let inner1 = if escaping.continues {
                            consume(env, inner, CTL_CONTINUE)
                        } else {
                            inner
                        };
                        let inner2 = if escaping.breaks || escaping.returns {
                            inner1.touch_ctl().emit(
                                Inst::Guarded(
                                    ctl_is(env, CTL_BREAK, None),
                                    Box::new(Inst::Return(0)),
                                ),
                            )
                        } else {
                            inner1
                        };
                        stmts_carries(env, inner2, body, 0);
                        let inner3 = stmts(env, inner2, body, 0);
                        after_loop_carries(
                            env,
                            outer.close(env.function.id, path, inner3).emit(
                                Inst::Context(clause, Box::new(Inst::Call(path))),
                            ),
                            escaping,
                        );
                    },
                    Some(inst) => {
                        one_command(cx, cx, cx1, Inst::Context(clause, Box::new(inst)));
                    },
                }
            }
        },
        _ => {},
    }
}

pub(crate) proof fn bind_payload_carries(env: Env, cx: Lx, path: Seq<char>, bindings: Seq<Binding>, i: int)
    ensures
        carries(cx, bind_payload(env, cx, path, bindings, i)),
    decreases bindings.len() - i,
{
    growing();
    reveal_with_fuel(writes_held, 4);
    reveal(bind_payload);
    if i >= 0 && i < bindings.len() {
        let b = bindings[i];
        bind_local_carries(env, cx, b.local, b.ty, path + "."@ + b.nbt);
        bind_payload_carries(
            env,
            bind_local(env, cx, b.local, b.ty, path + "."@ + b.nbt).initialise(b.local),
            path,
            bindings,
            i + 1,
        );
    }
}

#[verifier::spinoff_prover]
pub(crate) proof fn match_arms_carries(
    env: Env,
    cx: Lx,
    arms: Seq<Arm>,
    i: int,
    ty: Type,
    path: Seq<char>,
    tested: Seq<char>,
    base: Seq<char>,
    covered: Seq<Seq<char>>,
)
    ensures
        carries(cx, match_arms(env, cx, arms, i, ty, path, tested, base, covered)),
    decreases arms, arms.len() - i, 8int,
{
    growing();
    reveal_with_fuel(writes_held, 4);
    reveal(match_arms);
    reveal(stmts);
    if i >= 0 && i < arms.len() {
        let arm = arms[i];
        let arm_path = cx.prefix + "/"@ + base + "/"@ + arm.path;
        bind_payload_carries(env, cx.child(arm_path), path, arm.bindings, 0);
        stmts_carries(
            env,
            bind_payload(env, cx.child(arm_path), path, arm.bindings, 0),
            arm.body,
            0,
        );
        let inner = stmts(
            env,
            bind_payload(env, cx.child(arm_path), path, arm.bindings, 0),
            arm.body,
            0,
        );
        let cx1 = cx.close(env.function.id, arm_path, inner);
        let called = Inst::Call(arm_path);
        let (cx2, covered1) = match arm.test {
            ArmTest::Variant(variant) => {
                let tag = variant_name(env.types, ty, variant);
                (
                    cx1.emit(
                        Inst::Guarded(
                            Cond::Data(tested, tag_filter(tag), false),
                            Box::new(called),
                        ),
                    ),
                    covered.push(tag),
                )
            },
            _ => (cx1.emit(Inst::Otherwise(tested, covered, Box::new(called))), covered),
        };
        match_arms_carries(env, cx2, arms, i + 1, ty, path, tested, base, covered1);
    }
}

#[verifier::spinoff_prover]
pub(crate) proof fn match_stmt_carries(env: Env, cx: Lx, s: Stmt)
    ensures
        carries(cx, match_stmt(env, cx, s)),
    decreases s, 0int, 4int,
{
    growing();
    reveal_with_fuel(writes_held, 4);
    reveal(match_stmt);
    reveal(match_arms);
    match s {
        Stmt::Match(Scrutinee::Place(place), arms, _) => {
            if place.ty is Enum {
                check_root_carries(cx, place);
                let cx0 = check_root(cx, place);
                let path = place_path(env.function, place);
                let (cx1, tested) = cx0.data_temp();
                let cx2 = cx1.emit(Inst::CopyData(tested, path));
                let base = "match_"@ + nat_text(cx2.counter as nat);
                match_arms_carries(
                    env,
                    cx2.counted(),
                    arms,
                    0,
                    place.ty,
                    path,
                    tested,
                    base,
                    seq![],
                );
                let cx3 = match_arms(
                    env,
                    cx2.counted(),
                    arms,
                    0,
                    place.ty,
                    path,
                    tested,
                    base,
                    seq![],
                );
                if arms_escape(arms, 0).any() {
                    propagate_carries(env, cx3);
                }
            }
        },
        _ => {},
    }
}

/// Lowering the statements of a block keeps every command, every function split out and
/// every problem that was there before.
pub proof fn lemma_statements_forget_nothing(env: Env, cx: Lx, body: Seq<Stmt>, i: int)
    ensures
        carries(cx, stmts(env, cx, body, i)),
{
    stmts_carries(env, cx, body, i);
}

/// Whether a function was lowered: something of its path, with its attributes, is there.
pub open spec fn has_function(functions: Seq<Function>, f: HirFunction) -> bool {
    exists|k: int|
        0 <= k < functions.len() && (#[trigger] functions[k]).path == f.path && functions[k].id
            == f.id && functions[k].attrs == f.attrs
}

proof fn lemma_functions_are_lowered(
    hir: Hir,
    debug: bool,
    cx: Lx,
    i: int,
    acc: Seq<Function>,
)
    requires
        0 <= i <= hir.functions.len(),
    ensures
        ({
            let (cx1, made) = lower_functions(hir, debug, cx, i, acc);
            &&& grows(acc, made)
            &&& grows(cx.errs, cx1.errs)
            &&& forall|k: int|
                i <= k < hir.functions.len() && !left_out(#[trigger] hir.functions[k], debug)
                    ==> has_function(made, hir.functions[k])
        }),
    decreases hir.functions.len() - i,
{
    reveal(lower_functions);
    grows_facts_for::<Function>();
    grows_facts_for::<Fault>();
    grows_by_more::<Function>();
    if i < hir.functions.len() {
        if left_out(hir.functions[i], debug) {
            lemma_functions_are_lowered(hir, debug, cx, i + 1, acc);
        } else {
            let f = hir.functions[i];
            let env = Env { functions: hir.functions, types: hir.types, function: f, debug };
            reveal(lower_function);
            let (cx1, made) = lower_function(env, cx);
            stmts_carries(env, fresh(cx, f), f.body, 0);
            assert(grows(cx.errs, cx1.errs));
            lemma_functions_are_lowered(hir, debug, cx1, i + 1, acc + made);
            let all = lower_functions(hir, debug, cx, i, acc).1;
            reveal(grows);
            let at = acc.len() as int;
            assert(all.take((acc + made).len() as int)[at] == (acc + made)[at]);
            assert((acc + made)[at] == made[0]);
            assert(all[at].path == f.path);
            assert(has_function(all, f));
        }
    }
}

/// Every function of a program is lowered, under its path and with its attributes, but for
/// the tests in a release build.
pub proof fn lemma_every_function_is_lowered(hir: Hir, debug: bool, k: int)
    requires
        0 <= k < hir.functions.len(),
        !left_out(hir.functions[k], debug),
    ensures
        has_function(lowered(hir, debug).0, hir.functions[k]),
{
    reveal(lowered);
    let start = Lx {
        scores: 0,
        data: 0,
        iters: 0,
        used: seq![],
        used_data: seq![],
        used_ctl: false,
        initialised: seq![],
        errs: seq![],
        at: Span { start: 0, end: 0 },
        insts: seq![],
        generated: seq![],
        prefix: seq![],
        counter: 0,
        top_level: true,
        body_root: false,
    };
    lemma_functions_are_lowered(hir, debug, start, 0, seq![]);
}

/// Whether everything that is in use in `a` is in use in `b` too.
pub open spec fn remembers(a: Lx, b: Lx) -> bool {
    &&& grows(a.used, b.used)
    &&& grows(a.used_data, b.used_data)
    &&& grows(a.initialised, b.initialised)
}

/// Whatever a function wrote before a call that can come back to it is among what that call
/// saves: every temporary that a command of the function wrote, every temporary that was
/// handed out, in a register or in storage, and every binding that was given a value. Here
/// `cx` is the state after some statements of the function, and `last` any later state that
/// a call is made in.
pub proof fn lemma_what_was_written_is_saved(
    env: Env,
    start: Lx,
    body: Seq<Stmt>,
    i: int,
    last: Lx,
)
    requires
        remembers(stmts(env, fresh(start, env.function), body, i), last),
    ensures
        ({
            let cx = stmts(env, fresh(start, env.function), body, i);
            let slots = live_slots(env, last);
            &&& accounted(cx)
            &&& forall|r: Reg| cx.used.contains(r) ==> #[trigger] slots.contains(Slot::Score(r))
            &&& forall|path: Seq<char>|
                cx.used_data.contains(path) ==> #[trigger] slots.contains(Slot::Data(path))
            &&& forall|local: LocalId|
                cx.initialised.contains(local) ==> slots.contains(
                    #[trigger] local_slot(env.function, local),
                )
        }),
{
    let first = fresh(start, env.function);
    let cx = stmts(env, first, body, i);
    stmts_carries(env, first, body, i);
    reveal(written_in_use);
    lemma_slots_hold_what_is_in_use(env, last);
    reveal(grows);
    let slots = live_slots(env, last);
    assert forall|r: Reg| cx.used.contains(r) implies #[trigger] slots.contains(
        Slot::Score(r),
    ) by {
        let k = choose|k: int| 0 <= k < cx.used.len() && cx.used[k] == r;
        assert(last.used.take(cx.used.len() as int)[k] == last.used[k]);
    }
    assert forall|path: Seq<char>| cx.used_data.contains(path) implies #[trigger] slots.contains(
        Slot::Data(path),
    ) by {
        let k = choose|k: int| 0 <= k < cx.used_data.len() && cx.used_data[k] == path;
        assert(last.used_data.take(cx.used_data.len() as int)[k] == last.used_data[k]);
    }
    assert forall|local: LocalId| cx.initialised.contains(local) implies slots.contains(
        #[trigger] local_slot(env.function, local),
    ) by {
        let k = choose|k: int| 0 <= k < cx.initialised.len() && cx.initialised[k] == local;
        assert(last.initialised.take(cx.initialised.len() as int)[k] == last.initialised[k]);
    }
}

/// Later statements, in the same block or in one that is split out of it, remember whatever
/// was in use before them.
pub proof fn lemma_statements_remember(
    env: Env,
    cx: Lx,
    prefix: Seq<char>,
    body: Seq<Stmt>,
    i: int,
)
    ensures
        remembers(cx, stmts(env, cx, body, i)),
        remembers(cx, stmts(env, cx.child(prefix), body, i)),
{
    growing();
    stmts_carries(env, cx, body, i);
    stmts_carries(env, cx.child(prefix), body, i);
}

/// A call that can come back to its caller pushes a frame, and puts into it whatever is in
/// use where the call is made.
pub proof fn lemma_recursive_calls_fill_a_frame(
    env: Env,
    cx: Lx,
    callee: FnId,
    args: Seq<Expr>,
    want_result: bool,
)
    requires
        callee.0 < env.functions.len(),
        recursive(env.functions, env.function.id, callee),
    ensures
        exists|at: Lx|
            #![trigger live_slots(env, at)]
            {
                &&& remembers(cx, at)
                &&& grows(
                    at.insts.push(Inst::PushFrame) + saves(live_slots(env, at)),
                    call(env, cx, callee, args, want_result).0.insts,
                )
            },
{
    growing();
    reveal_with_fuel(writes_held, 4);
    reveal(call);
    reveal(call_values);
    reveal(pass_values);
    grows_by_more::<Inst>();
    grows_facts_for::<Inst>();
    let f = env.functions[callee.0 as int];
    call_values_carries(env, cx, args, 0, seq![]);
    let (at, values) = call_values(env, cx, args, 0, seq![]);
    let slots = live_slots(env, at);
    let cx2 = Lx { insts: at.insts.push(Inst::PushFrame) + saves(slots), ..at };
    pass_values_carries(env, cx2, f, args, values, 0);
    let cx3 = pass_values(env, cx2, f, args, values, 0);
    let (cx4, result) = if want_result {
        cx3.temp()
    } else {
        (cx3, Reg { holder: seq![], kind: RegKind::Temp })
    };
    let made = Inst::Call(f.path);
    let cx5 = if want_result {
        cx4.emit(Inst::StoreResult(result, Box::new(made)))
    } else {
        cx4.emit(made)
    };
    assert(grows(cx2.insts, cx5.insts));
    let back = cx5.insts + restores(slots);
    assert(grows(cx5.insts, back) && grows(back, back.push(Inst::PopFrame)));
    assert(remembers(cx, at));
}

/// A binding is given a value where it is declared: after a `let` it is among what calls
/// save from then on.
pub proof fn lemma_bindings_are_saved_from_their_declaration(env: Env, cx: Lx, s: Stmt)
    requires
        s is Let,
    ensures
        stmt(env, cx, s).initialised.contains(s->Let_0),
{
    reveal(stmt);
    let after = stmt(env, cx, s);
    assert(after.initialised.last() == s->Let_0);
    assert(after.initialised[after.initialised.len() - 1] == s->Let_0);
}

/// The parameters of a function are saved from the start: its caller has filled them.
pub proof fn lemma_parameters_are_saved(env: Env, start: Lx, body: Seq<Stmt>, i: int, k: int)
    requires
        0 <= k < env.function.params.len(),
    ensures
        live_slots(env, stmts(env, fresh(start, env.function), body, i)).contains(
            local_slot(env.function, env.function.params[k]),
        ),
{
    let first = fresh(start, env.function);
    let last = stmts(env, first, body, i);
    stmts_carries(env, first, body, i);
    reveal(grows);
    assert(last.initialised.take(first.initialised.len() as int)[k] == last.initialised[k]);
    lemma_slots_hold_what_is_in_use(env, last);
}

/// What an arm of a match binds is saved from where it is bound.
pub proof fn lemma_arm_bindings_are_saved(
    env: Env,
    cx: Lx,
    path: Seq<char>,
    bindings: Seq<Binding>,
    i: int,
    k: int,
)
    requires
        0 <= i <= k < bindings.len(),
    ensures
        bind_payload(env, cx, path, bindings, i).initialised.contains(bindings[k].local),
    decreases k - i,
{
    reveal(bind_payload);
    let b = bindings[i];
    let cx1 = bind_local(env, cx, b.local, b.ty, path + "."@ + b.nbt).initialise(b.local);
    if i < k {
        lemma_arm_bindings_are_saved(env, cx1, path, bindings, i + 1, k);
    } else {
        bind_payload_carries(env, cx1, path, bindings, i + 1);
        reveal(grows);
        let n = cx1.initialised.len() as int;
        let last = bind_payload(env, cx, path, bindings, i).initialised;
        assert(cx1.initialised[n - 1] == b.local);
        assert(last.take(n)[n - 1] == last[n - 1]);
    }
}

/// The result of a call is in a temporary that the next call saves.
pub proof fn lemma_results_are_saved(env: Env, cx: Lx, callee: FnId, args: Seq<Expr>)
    ensures
        ({
            let (cx1, result) = call(env, cx, callee, args, true);
            cx1.used.contains(result)
        }),
{
    reveal(call);
    reveal(call_values);
    reveal(pass_values);
    if callee.0 >= env.functions.len() {
        assert(cx.temp().0.used[cx.used.len() as int] == cx.temp().1);
    } else {
        let f = env.functions[callee.0 as int];
        let again = recursive(env.functions, env.function.id, callee);
        let (cx1, values) = call_values(env, cx, args, 0, seq![]);
        let slots = live_slots(env, cx1);
        let cx2 = if again {
            Lx { insts: cx1.insts.push(Inst::PushFrame) + saves(slots), ..cx1 }
        } else {
            cx1
        };
        let cx3 = pass_values(env, cx2, f, args, values, 0);
        let (cx4, result) = cx3.temp();
        assert(cx4.used[cx3.used.len() as int] == result);
        let after = call(env, cx, callee, args, true);
        assert(after.1 == result);
        assert(after.0.used == cx4.used);
    }
}

} // verus!

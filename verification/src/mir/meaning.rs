//! What the score commands do, and that lowered expressions do what was written.
//!
//! This is about numbers and booleans: literals, bindings and the operators between them.
//! Text, storage and calls are left to the commands themselves.

use vstd::prelude::*;

use crate::hir::model::{Expr, Function as HirFunction, Kind};
use crate::mir::model::{Cond, Inst, Reg};
use crate::mir::rules::{
    apply, arith, binary, calls_in, compare_into, comparison, cond, condition_of, copy_into, expr,
    expr_into, is_comparison, is_pure, live_slots, local_reg, local_slot, materialise, range_for,
    restore, restores, save, saves, store, truth, unary, wrapped_neg, Env, Lx, Slot, Value,
};
use crate::mir::{negation, Cmp, Op, RegKind};
use crate::syntax::ast::{BinaryOp, UnaryOp};
use crate::text::{lemma_numbers_differ, nat_text};

verus! {

// ---------------------------------------------------------------------------
// The commands.
// ---------------------------------------------------------------------------

/// A number as a score holds it: in 32 bits, wrapping around.
pub open spec fn wrapped(n: int) -> i32 {
    ((n + 0x8000_0000) % 0x1_0000_0000 - 0x8000_0000) as i32
}

/// The quotient, rounded down.
pub open spec fn floor_div(a: int, b: int) -> int {
    if b > 0 {
        a / b
    } else {
        (-a) / (-b)
    }
}

/// What `scoreboard players operation` leaves in the score on its left. Dividing by zero
/// leaves it alone.
pub open spec fn operated(op: Op, a: i32, b: i32) -> i32 {
    match op {
        Op::Assign => b,
        Op::Add => wrapped(a + b),
        Op::Sub => wrapped(a - b),
        Op::Mul => wrapped(a * b),
        Op::Div => if b == 0 {
            a
        } else {
            wrapped(floor_div(a as int, b as int))
        },
        Op::Rem => if b == 0 {
            a
        } else {
            wrapped(a - b * floor_div(a as int, b as int))
        },
        Op::Min => if a < b {
            a
        } else {
            b
        },
        Op::Max => if a > b {
            a
        } else {
            b
        },
    }
}

pub open spec fn compared(by: Cmp, a: i32, b: i32) -> bool {
    match by {
        Cmp::Lt => a < b,
        Cmp::Le => a <= b,
        Cmp::Eq => a == b,
        Cmp::Ge => a >= b,
        Cmp::Gt => a > b,
    }
}

pub open spec fn in_range(n: i32, min: Option<i32>, max: Option<i32>) -> bool {
    (match min {
        Some(min) => min <= n,
        None => true,
    }) && (match max {
        Some(max) => n <= max,
        None => true,
    })
}

pub open spec fn bit(b: bool) -> i32 {
    if b {
        1
    } else {
        0
    }
}

/// Whether a test on scores holds.
pub open spec fn holds(c: Cond, s: Map<Reg, i32>) -> bool {
    match c {
        Cond::Score(a, by, b, negated) => compared(by, s[a], s[b]) != negated,
        Cond::Matches(a, min, max, negated) => in_range(s[a], min, max) != negated,
        Cond::Data(_, _, _) => arbitrary(),
    }
}

/// The scores after a command that is about nothing else.
pub open spec fn stepped(s: Map<Reg, i32>, inst: Inst) -> Option<Map<Reg, i32>> {
    match inst {
        Inst::Const(dst, n) => Some(s.insert(dst, n)),
        Inst::AddConst(dst, n) => Some(s.insert(dst, wrapped(s[dst] + n))),
        Inst::Op(dst, op, src) => Some(s.insert(dst, operated(op, s[dst], s[src]))),
        Inst::Cmp(dst, by, negated, a, b) => Some(
            s.insert(dst, bit(compared(by, s[a], s[b]) != negated)),
        ),
        Inst::Matches(dst, src, min, max, negated) => Some(
            s.insert(dst, bit(in_range(s[src], min, max) != negated)),
        ),
        _ => None,
    }
}

/// The scores after the commands from the `from`th on, if all of them are about scores.
pub open spec fn ran(insts: Seq<Inst>, from: int, s: Map<Reg, i32>) -> Option<Map<Reg, i32>>
    decreases insts.len(),
{
    if insts.len() == 0 || insts.len() <= from {
        Some(s)
    } else {
        match ran(insts.drop_last(), from, s) {
            Some(s1) => stepped(s1, insts.last()),
            None => None,
        }
    }
}

// ---------------------------------------------------------------------------
// The language.
// ---------------------------------------------------------------------------

/// What an operator between two numbers gives. Booleans are 0 and 1.
pub open spec fn combined(op: BinaryOp, a: i32, b: i32) -> i32 {
    match op {
        BinaryOp::Add => wrapped(a + b),
        BinaryOp::Sub => wrapped(a - b),
        BinaryOp::Mul => wrapped(a * b),
        BinaryOp::Div => operated(Op::Div, a, b),
        BinaryOp::Rem => operated(Op::Rem, a, b),
        BinaryOp::Eq => bit(a == b),
        BinaryOp::Ne => bit(a != b),
        BinaryOp::Lt => bit(a < b),
        BinaryOp::Le => bit(a <= b),
        BinaryOp::Gt => bit(a > b),
        BinaryOp::Ge => bit(a >= b),
        BinaryOp::And => bit(a != 0 && b != 0),
        BinaryOp::Or => bit(a != 0 || b != 0),
    }
}

/// The value of an expression whose bindings have those scores.
pub open spec fn meaning(f: HirFunction, s: Map<Reg, i32>, e: Expr) -> i32
    decreases e,
{
    match e.kind {
        Kind::Int(n) => n,
        Kind::Bool(b) => bit(b),
        Kind::Local(local) => s[local_reg(f, local)],
        Kind::Unary(op, operand) => match op {
            UnaryOp::Neg => wrapped(-meaning(f, s, *operand)),
            UnaryOp::Not => bit(meaning(f, s, *operand) == 0),
        },
        Kind::Binary(op, lhs, rhs) => combined(op, meaning(f, s, *lhs), meaning(f, s, *rhs)),
        _ => 0,
    }
}

/// Whether an expression is made of numbers, booleans, bindings and operators between
/// them, and what `&&` and `||` stand between is 0 or 1.
pub open spec fn calculates(f: HirFunction, s: Map<Reg, i32>, e: Expr) -> bool
    decreases e,
{
    match e.kind {
        Kind::Int(_) => true,
        Kind::Bool(_) => true,
        Kind::Local(_) => true,
        Kind::Unary(_, operand) => calculates(f, s, *operand),
        Kind::Binary(op, lhs, rhs) => {
            &&& calculates(f, s, *lhs)
            &&& calculates(f, s, *rhs)
            &&& !(lhs.ty is Str)
            &&& op is And || op is Or ==> 0 <= meaning(f, s, *lhs) <= 1 && 0 <= meaning(f, s, *rhs)
                <= 1
        },
        _ => false,
    }
}

/// Whether an expression stands for true or false: it is 0 or 1, and so is what it turns
/// around.
pub open spec fn truthful(f: HirFunction, s: Map<Reg, i32>, e: Expr) -> bool
    decreases e,
{
    &&& 0 <= meaning(f, s, e) <= 1
    &&& match e.kind {
        Kind::Unary(op, operand) => op is Not ==> truthful(f, s, *operand),
        _ => true,
    }
}

/// Whether an expression reads a register.
pub open spec fn mentions(f: HirFunction, e: Expr, r: Reg) -> bool
    decreases e,
{
    match e.kind {
        Kind::Local(local) => r == local_reg(f, local),
        Kind::Unary(_, operand) => mentions(f, *operand, r),
        Kind::Binary(_, lhs, rhs) => mentions(f, *lhs, r) || mentions(f, *rhs, r),
        _ => false,
    }
}

/// Whether a test reads a register.
pub open spec fn reads(c: Cond, r: Reg) -> bool {
    match c {
        Cond::Score(a, _, b, _) => r == a || r == b,
        Cond::Matches(a, _, _, _) => r == a,
        Cond::Data(_, _, _) => false,
    }
}

/// How many operators and operands an expression has.
pub open spec fn size(e: Expr) -> nat
    decreases e,
{
    match e.kind {
        Kind::Unary(_, operand) => size(*operand) + 1,
        Kind::Binary(_, lhs, rhs) => size(*lhs) + size(*rhs) + 1,
        _ => 1,
    }
}

// ---------------------------------------------------------------------------
// Temporaries.
// ---------------------------------------------------------------------------

/// The `n`th temporary.
pub open spec fn temporary(n: nat) -> Reg {
    Reg { holder: "$t"@ + nat_text(n), kind: RegKind::Temp }
}

/// Different temporaries have different names.
pub proof fn lemma_temporaries_differ(a: nat, b: nat)
    ensures
        temporary(a) == temporary(b) <==> a == b,
{
    lemma_numbers_differ(a, b);
    if temporary(a) == temporary(b) {
        reveal_strlit("$t");
        assert(nat_text(a) =~= temporary(a).holder.skip(2));
        assert(nat_text(b) =~= temporary(b).holder.skip(2));
    }
}

/// Whether a register is a temporary that was handed out between two counts.
pub open spec fn between(r: Reg, lo: nat, hi: nat) -> bool {
    exists|n: nat| lo <= n < hi && r == #[trigger] temporary(n)
}

pub(crate) proof fn lemma_between(n: nat, lo: nat, hi: nat)
    ensures
        between(temporary(n), lo, hi) <==> lo <= n < hi,
{
    if between(temporary(n), lo, hi) {
        let k = choose|k: nat| lo <= k < hi && temporary(n) == #[trigger] temporary(k);
        lemma_temporaries_differ(n, k);
    }
}

/// Whether two readings of the scores differ in nothing but the temporaries between two
/// counts.
pub open spec fn same_but(a: Map<Reg, i32>, b: Map<Reg, i32>, lo: nat, hi: nat) -> bool {
    forall|r: Reg| !between(r, lo, hi) ==> #[trigger] b[r] == a[r]
}

/// Whether a value stays what it is while later temporaries are written.
pub open spec fn settled(v: Value, lo: nat, hi: nat) -> bool {
    match v {
        Value::Const(_) => true,
        Value::Reg(r) => r.kind is Var || between(r, lo, hi),
    }
}

pub open spec fn value_in(v: Value, s: Map<Reg, i32>) -> i32 {
    match v {
        Value::Const(n) => n,
        Value::Reg(r) => s[r],
    }
}

pub(crate) proof fn lemma_wider(lo: nat, mid: nat, hi: nat)
    requires
        lo <= mid <= hi,
    ensures
        forall|r: Reg| between(r, lo, mid) ==> #[trigger] between(r, lo, hi),
        forall|r: Reg| between(r, mid, hi) ==> #[trigger] between(r, lo, hi),
        forall|r: Reg|
            #![trigger between(r, lo, mid)]
            #![trigger between(r, mid, hi)]
            !(between(r, lo, mid) && between(r, mid, hi)),
{
    assert forall|r: Reg| !(between(r, lo, mid) && between(r, mid, hi)) by {
        if between(r, lo, mid) && between(r, mid, hi) {
            let a = choose|n: nat| lo <= n < mid && r == #[trigger] temporary(n);
            let b = choose|n: nat| mid <= n < hi && r == #[trigger] temporary(n);
            lemma_temporaries_differ(a, b);
        }
    }
    assert forall|r: Reg| between(r, lo, mid) implies #[trigger] between(r, lo, hi) by {
        let a = choose|n: nat| lo <= n < mid && r == #[trigger] temporary(n);
        assert(lo <= a < hi && r == temporary(a));
    }
    assert forall|r: Reg| between(r, mid, hi) implies #[trigger] between(r, lo, hi) by {
        let a = choose|n: nat| mid <= n < hi && r == #[trigger] temporary(n);
        assert(lo <= a < hi && r == temporary(a));
    }
}

/// An expression means the same while its bindings have the same scores.
proof fn lemma_meaning_depends_on_bindings(
    f: HirFunction,
    a: Map<Reg, i32>,
    b: Map<Reg, i32>,
    lo: nat,
    hi: nat,
    e: Expr,
)
    requires
        same_but(a, b, lo, hi),
    ensures
        meaning(f, a, e) == meaning(f, b, e),
        calculates(f, a, e) == calculates(f, b, e),
    decreases e,
{
    match e.kind {
        Kind::Local(local) => {
            let r = local_reg(f, local);
            assert(!between(r, lo, hi));
        },
        Kind::Unary(_, operand) => {
            lemma_meaning_depends_on_bindings(f, a, b, lo, hi, *operand);
        },
        Kind::Binary(_, lhs, rhs) => {
            lemma_meaning_depends_on_bindings(f, a, b, lo, hi, *lhs);
            lemma_meaning_depends_on_bindings(f, a, b, lo, hi, *rhs);
        },
        _ => {},
    }
}

// ---------------------------------------------------------------------------
// Single commands.
// ---------------------------------------------------------------------------

/// A comparison with a constant holds exactly where the range made for it does, whatever
/// the score.
pub proof fn lemma_ranges_mean_comparisons(op: BinaryOp, n: i32, x: i32)
    requires
        is_comparison(op),
        range_for(op, n) is Some,
    ensures
        ({
            let (min, max, negated) = range_for(op, n)->0;
            combined(op, x, n) == bit(in_range(x, min, max) != negated)
        }),
{
}

/// A range is given up only where its bound would not fit.
pub proof fn lemma_ranges_fit(op: BinaryOp, n: i32)
    requires
        is_comparison(op),
    ensures
        range_for(op, n) is None <==> op is Lt && n == i32::MIN || op is Gt && n == i32::MAX,
{
}

/// The game's comparison that is chosen for an operator is that operator.
pub proof fn lemma_comparisons_mean_themselves(op: BinaryOp, a: i32, b: i32)
    requires
        is_comparison(op),
    ensures
        ({
            let (by, negated) = comparison(op);
            combined(op, a, b) == bit(compared(by, a, b) != negated)
        }),
{
}

/// A test that is turned around holds exactly where the test does not.
pub proof fn lemma_negation_is_not(c: Cond, s: Map<Reg, i32>)
    requires
        !(c is Data),
    ensures
        holds(negation(c), s) == !holds(c, s),
{
}

proof fn lemma_wrapped(n: int, k: int)
    ensures
        wrapped(n + k * 0x1_0000_0000) == wrapped(n),
        i32::MIN <= n <= i32::MAX ==> wrapped(n) == n,
{
    vstd::arithmetic::div_mod::lemma_mod_multiples_vanish(k, n + 0x8000_0000, 0x1_0000_0000);
    assert(0x1_0000_0000 * k + (n + 0x8000_0000) == n + k * 0x1_0000_0000 + 0x8000_0000);
    if i32::MIN <= n <= i32::MAX {
        vstd::arithmetic::div_mod::lemma_small_mod(
            (n + 0x8000_0000) as nat,
            0x1_0000_0000,
        );
    }
}

/// Adding the number with its sign turned is taking it away.
pub proof fn lemma_taking_away_is_adding(a: i32, n: i32)
    ensures
        wrapped(a + wrapped_neg(n)) == wrapped(a - n),
{
    if n == i32::MIN {
        lemma_wrapped(a + wrapped_neg(n), 1);
    }
}

/// The game's operation that is chosen for an operator does what the operator does, where
/// booleans are 0 or 1.
pub proof fn lemma_operations_mean_operators(op: BinaryOp, a: i32, b: i32)
    requires
        !is_comparison(op),
        op is And || op is Or ==> 0 <= a <= 1 && 0 <= b <= 1,
    ensures
        operated(arith(op), a, b) == combined(op, a, b),
{
}

// ---------------------------------------------------------------------------
// Expressions.
// ---------------------------------------------------------------------------

/// Where a lowering stands: the commands from the `from`th on turn the scores `s` into
/// `now`.
pub open spec fn stands(cx: Lx, from: int, s: Map<Reg, i32>, now: Map<Reg, i32>) -> bool {
    from <= cx.insts.len() && ran(cx.insts, from, s) == Some(now)
}

proof fn lemma_emit(cx: Lx, inst: Inst, from: int, s: Map<Reg, i32>, now: Map<Reg, i32>)
    requires
        stands(cx, from, s, now),
        stepped(now, inst) is Some,
    ensures
        stands(cx.emit(inst), from, s, stepped(now, inst)->0),
{
    assert(cx.emit(inst).insts.drop_last() =~= cx.insts);
}

/// What holds after a value was put in a register: it is there, and nothing but at most
/// one new temporary was written.
pub(crate) proof fn lemma_materialise(
    cx: Lx,
    v: Value,
    from: int,
    s: Map<Reg, i32>,
    now: Map<Reg, i32>,
) -> (r: Map<Reg, i32>)
    requires
        stands(cx, from, s, now),
        cx.scores < u32::MAX,
    ensures
        ({
            let (cx1, reg) = materialise(cx, v);
            &&& stands(cx1, from, s, r)
            &&& r[reg] == value_in(v, now)
            &&& same_but(now, r, cx.scores as nat, cx1.scores as nat)
            &&& cx.scores <= cx1.scores <= cx.scores + 1
            &&& v is Reg ==> v->Reg_0 == reg && r == now && cx1 == cx
            &&& v is Const ==> reg == temporary(cx.scores as nat) && between(
                reg,
                cx.scores as nat,
                cx1.scores as nat,
            )
        }),
{
    match v {
        Value::Reg(_) => now,
        Value::Const(n) => {
            let (cx1, dst) = cx.temp();
            lemma_between(cx.scores as nat, cx.scores as nat, cx.scores as nat + 1);
            lemma_emit(cx1, Inst::Const(dst, n), from, s, now);
            assert(dst == temporary(cx.scores as nat));
            now.insert(dst, n)
        },
    }
}

/// Whether a value is in no temporary from the `lo`th on.
pub open spec fn apart(v: Value, lo: nat) -> bool {
    match v {
        Value::Const(_) => true,
        Value::Reg(r) => !between(r, lo, 0x1_0000_0000),
    }
}

proof fn lemma_settled_is_apart(v: Value, lo: nat, hi: nat)
    requires
        settled(v, lo, hi),
        lo <= hi <= 0x1_0000_0000,
    ensures
        apart(v, hi),
{
    lemma_wider(lo, hi, 0x1_0000_0000);
}

/// Whether two readings of the scores differ in nothing but one register and the
/// temporaries between two counts.
pub open spec fn same_but_for(
    a: Map<Reg, i32>,
    b: Map<Reg, i32>,
    dst: Reg,
    lo: nat,
    hi: nat,
) -> bool {
    forall|r: Reg| r != dst && !between(r, lo, hi) ==> #[trigger] b[r] == a[r]
}

proof fn lemma_compare_into(
    cx: Lx,
    dst: Reg,
    op: BinaryOp,
    lhs: Value,
    rhs: Value,
    from: int,
    s: Map<Reg, i32>,
    now: Map<Reg, i32>,
) -> (r: Map<Reg, i32>)
    requires
        stands(cx, from, s, now),
        cx.scores + 2 <= u32::MAX,
        is_comparison(op),
        apart(lhs, cx.scores as nat),
        apart(rhs, cx.scores as nat),
    ensures
        ({
            let cx1 = compare_into(cx, dst, op, lhs, rhs);
            &&& stands(cx1, from, s, r)
            &&& r[dst] == combined(op, value_in(lhs, now), value_in(rhs, now))
            &&& same_but_for(now, r, dst, cx.scores as nat, cx1.scores as nat)
            &&& cx.scores <= cx1.scores <= cx.scores + 2
        }),
{
    reveal(compare_into);
    let ranged = match (lhs, rhs) {
        (Value::Reg(_), Value::Const(n)) => range_for(op, n) is Some,
        _ => false,
    };
    if ranged {
        let n = rhs->Const_0;
        let (min, max, negated) = range_for(op, n)->0;
        let inst = Inst::Matches(dst, lhs->Reg_0, min, max, negated);
        lemma_ranges_mean_comparisons(op, n, now[lhs->Reg_0]);
        lemma_emit(cx, inst, from, s, now);
        stepped(now, inst)->0
    } else {
        let top: nat = 0x1_0000_0000;
        let (cx1, l) = materialise(cx, lhs);
        let now1 = lemma_materialise(cx, lhs, from, s, now);
        let (cx2, r) = materialise(cx1, rhs);
        let now2 = lemma_materialise(cx1, rhs, from, s, now1);
        lemma_wider(cx.scores as nat, cx1.scores as nat, cx2.scores as nat);
        lemma_wider(cx.scores as nat, cx2.scores as nat, top);
        lemma_wider(cx.scores as nat, cx1.scores as nat, top);
        lemma_wider(cx1.scores as nat, cx2.scores as nat, top);
        assert(value_in(rhs, now1) == value_in(rhs, now));
        assert(now2[l] == value_in(lhs, now));
        let (by, negated) = comparison(op);
        let inst = Inst::Cmp(dst, by, negated, l, r);
        lemma_comparisons_mean_themselves(op, now2[l], now2[r]);
        lemma_emit(cx2, inst, from, s, now2);
        stepped(now2, inst)->0
    }
}

proof fn lemma_copy_into(
    cx: Lx,
    dst: Reg,
    v: Value,
    from: int,
    s: Map<Reg, i32>,
    now: Map<Reg, i32>,
)
    requires
        stands(cx, from, s, now),
    ensures
        stands(copy_into(cx, dst, v), from, s, now.insert(dst, value_in(v, now))),
        copy_into(cx, dst, v).scores == cx.scores,
{
    match v {
        Value::Const(n) => lemma_emit(cx, Inst::Const(dst, n), from, s, now),
        Value::Reg(src) => lemma_emit(cx, Inst::Op(dst, Op::Assign, src), from, s, now),
    }
}

proof fn lemma_apply(
    cx: Lx,
    dst: Reg,
    op: BinaryOp,
    v: Value,
    from: int,
    s: Map<Reg, i32>,
    now: Map<Reg, i32>,
) -> (r: Map<Reg, i32>)
    requires
        stands(cx, from, s, now),
        cx.scores + 1 <= u32::MAX,
        !is_comparison(op),
        apart(v, cx.scores as nat),
        apart(Value::Reg(dst), cx.scores as nat),
        op is And || op is Or ==> 0 <= now[dst] <= 1 && 0 <= value_in(v, now) <= 1,
    ensures
        ({
            let cx1 = apply(cx, dst, op, v);
            &&& stands(cx1, from, s, r)
            &&& r[dst] == combined(op, now[dst], value_in(v, now))
            &&& same_but_for(now, r, dst, cx.scores as nat, cx1.scores as nat)
            &&& cx.scores <= cx1.scores <= cx.scores + 1
        }),
{
    reveal(apply);
    match (op, v) {
        (BinaryOp::Add, Value::Const(n)) => {
            let inst = Inst::AddConst(dst, n);
            lemma_emit(cx, inst, from, s, now);
            stepped(now, inst)->0
        },
        (BinaryOp::Sub, Value::Const(n)) => {
            let inst = Inst::AddConst(dst, wrapped_neg(n));
            lemma_taking_away_is_adding(now[dst], n);
            lemma_emit(cx, inst, from, s, now);
            stepped(now, inst)->0
        },
        _ => {
            let top: nat = 0x1_0000_0000;
            let (cx1, src) = materialise(cx, v);
            let now1 = lemma_materialise(cx, v, from, s, now);
            lemma_wider(cx.scores as nat, cx1.scores as nat, top);
            let inst = Inst::Op(dst, arith(op), src);
            lemma_operations_mean_operators(op, now1[dst], now1[src]);
            lemma_emit(cx1, inst, from, s, now1);
            stepped(now1, inst)->0
        },
    }
}

proof fn lemma_calculations_are_pure(f: HirFunction, s: Map<Reg, i32>, e: Expr)
    requires
        calculates(f, s, e),
    ensures
        is_pure(e),
    decreases e,
{
    reveal(is_pure);
    reveal(calls_in);
    match e.kind {
        Kind::Unary(_, operand) => lemma_calculations_are_pure(f, s, *operand),
        Kind::Binary(_, lhs, rhs) => {
            lemma_calculations_are_pure(f, s, *lhs);
            lemma_calculations_are_pure(f, s, *rhs);
        },
        _ => {},
    }
}

proof fn lemma_unary(
    cx: Lx,
    op: UnaryOp,
    v: Value,
    from: int,
    s: Map<Reg, i32>,
    now: Map<Reg, i32>,
) -> (r: Map<Reg, i32>)
    requires
        stands(cx, from, s, now),
        cx.scores + 2 <= u32::MAX,
        apart(v, cx.scores as nat),
    ensures
        ({
            let (cx1, made) = unary(cx, op, v);
            &&& stands(cx1, from, s, r)
            &&& value_in(made, r) == match op {
                UnaryOp::Neg => wrapped(-value_in(v, now)),
                UnaryOp::Not => bit(value_in(v, now) == 0),
            }
            &&& same_but(now, r, cx.scores as nat, cx1.scores as nat)
            &&& settled(made, cx.scores as nat, cx1.scores as nat)
            &&& cx.scores <= cx1.scores <= cx.scores + 2
        }),
{
    reveal(unary);
    let lo = cx.scores as nat;
    let top: nat = 0x1_0000_0000;
    match op {
        UnaryOp::Neg => {
            let (cx1, dst) = cx.temp();
            assert(dst == temporary(lo));
            lemma_between(lo, lo, top);
            lemma_between(lo, lo, lo + 1);
            lemma_between(lo, lo + 1, top);
            lemma_emit(cx1, Inst::Const(dst, 0), from, s, now);
            let zeroed = cx1.emit(Inst::Const(dst, 0));
            let now1 = now.insert(dst, 0);
            let (cx2, src) = materialise(zeroed, v);
            let now2 = lemma_materialise(zeroed, v, from, s, now1);
            lemma_wider(lo, lo + 1, cx2.scores as nat);
            lemma_wider(lo + 1, cx2.scores as nat, top);
            assert(value_in(v, now1) == value_in(v, now));
            let inst = Inst::Op(dst, Op::Sub, src);
            lemma_emit(cx2, inst, from, s, now2);
            stepped(now2, inst)->0
        },
        UnaryOp::Not => {
            let (cx1, src) = materialise(cx, v);
            let now1 = lemma_materialise(cx, v, from, s, now);
            let mid = cx1.scores as nat;
            let (cx2, dst) = cx1.temp();
            assert(dst == temporary(mid));
            lemma_between(mid, lo, mid + 1);
            lemma_wider(lo, mid, mid + 1);
            let inst = Inst::Matches(dst, src, Some(0), Some(0), false);
            lemma_emit(cx2, inst, from, s, now1);
            stepped(now1, inst)->0
        },
    }
}

/// A lowered expression computes what was written: where its value ends up is what the
/// expression means for the scores before it, and nothing but new temporaries is written.
pub proof fn lemma_expressions_compute_their_value(
    env: Env,
    cx: Lx,
    e: Expr,
    from: int,
    s: Map<Reg, i32>,
    now: Map<Reg, i32>,
) -> (r: Map<Reg, i32>)
    requires
        stands(cx, from, s, now),
        calculates(env.function, now, e),
        cx.scores + 3 * size(e) <= u32::MAX,
    ensures
        ({
            let (cx1, v) = expr(env, cx, e);
            &&& stands(cx1, from, s, r)
            &&& value_in(v, r) == meaning(env.function, now, e)
            &&& same_but(now, r, cx.scores as nat, cx1.scores as nat)
            &&& settled(v, cx.scores as nat, cx1.scores as nat)
            &&& v is Reg && v->Reg_0.kind is Var ==> e.kind is Local && mentions(
                env.function,
                e,
                v->Reg_0,
            )
            &&& cx.scores <= cx1.scores <= cx.scores + 3 * size(e)
        }),
    decreases e, 1int,
{
    reveal(expr);
    reveal(binary);
    let f = env.function;
    match e.kind {
        Kind::Unary(op, operand) => {
            let (cx1, v) = expr(env, cx, *operand);
            let now1 = lemma_expressions_compute_their_value(env, cx, *operand, from, s, now);
            let (lo, mid) = (cx.scores as nat, cx1.scores as nat);
            lemma_settled_is_apart(v, lo, mid);
            let r = lemma_unary(cx1, op, v, from, s, now1);
            reveal(unary);
            let (cx2, made) = unary(cx1, op, v);
            lemma_wider(lo, mid, cx2.scores as nat);
            r
        },
        Kind::Binary(_, _, _) => lemma_operators_compute_their_value(env, cx, e, from, s, now),
        _ => now,
    }
}

proof fn lemma_operators_compute_their_value(
    env: Env,
    cx: Lx,
    e: Expr,
    from: int,
    s: Map<Reg, i32>,
    now: Map<Reg, i32>,
) -> (r: Map<Reg, i32>)
    requires
        e.kind is Binary,
        stands(cx, from, s, now),
        calculates(env.function, now, e),
        cx.scores + 3 * size(e) <= u32::MAX,
    ensures
        ({
            let (cx1, v) = binary(env, cx, e);
            &&& stands(cx1, from, s, r)
            &&& value_in(v, r) == meaning(env.function, now, e)
            &&& same_but(now, r, cx.scores as nat, cx1.scores as nat)
            &&& settled(v, cx.scores as nat, cx1.scores as nat)
            &&& v is Reg && !(v->Reg_0.kind is Var)
            &&& cx.scores <= cx1.scores <= cx.scores + 3 * size(e)
        }),
    decreases e, 0int,
{
    reveal(expr);
    reveal(binary);
    let f = env.function;
    let top: nat = 0x1_0000_0000;
    match e.kind {
        Kind::Binary(op, lhs, rhs) => {
            let lo = cx.scores as nat;
            lemma_calculations_are_pure(f, now, *rhs);
            let (cx1, l) = expr(env, cx, *lhs);
            let now1 = lemma_expressions_compute_their_value(env, cx, *lhs, from, s, now);
            let m1 = cx1.scores as nat;
            lemma_meaning_depends_on_bindings(f, now, now1, lo, m1, *rhs);
            let (cx2, r) = expr(env, cx1, *rhs);
            let now2 = lemma_expressions_compute_their_value(env, cx1, *rhs, from, s, now1);
            let m2 = cx2.scores as nat;
            lemma_wider(lo, m1, m2);
            lemma_settled_is_apart(l, lo, m1);
            lemma_settled_is_apart(r, m1, m2);
            lemma_wider(m1, m2, top);
            assert(value_in(l, now2) == value_in(l, now1));
            let (cx3, dst) = cx2.temp();
            assert(dst == temporary(m2));
            lemma_between(m2, m2, m2 + 1);
            lemma_between(m2, m2, top);
            lemma_between(m2, m2 + 1, top);
            lemma_wider(m2, m2 + 1, top);
            let last = if is_comparison(op) {
                lemma_compare_into(cx3, dst, op, l, r, from, s, now2)
            } else {
                lemma_copy_into(cx3, dst, l, from, s, now2);
                let now3 = now2.insert(dst, value_in(l, now2));
                assert(value_in(r, now3) == value_in(r, now2));
                lemma_apply(copy_into(cx3, dst, l), dst, op, r, from, s, now3)
            };
            let hi = binary(env, cx, e).0.scores as nat;
            lemma_wider(m2, m2 + 1, hi);
            lemma_wider(lo, m2, hi);
            lemma_between(m2, lo, hi);
            last
        },
        _ => now,
    }
}

/// A literal and a binding cost nothing to use: no command is made for either.
pub proof fn lemma_literals_and_bindings_are_free(env: Env, cx: Lx, e: Expr)
    requires
        e.kind is Int || e.kind is Bool || e.kind is Local,
    ensures
        expr(env, cx, e).0 == cx,
{
    reveal(expr);
}

/// An expression lowered into a binding leaves its value there, also where the binding is
/// one of its operands, and writes nothing else but new temporaries.
pub proof fn lemma_values_land_where_they_belong(
    env: Env,
    cx: Lx,
    dst: Reg,
    e: Expr,
    from: int,
    s: Map<Reg, i32>,
    now: Map<Reg, i32>,
) -> (r: Map<Reg, i32>)
    requires
        stands(cx, from, s, now),
        calculates(env.function, now, e),
        cx.scores + 3 * size(e) <= u32::MAX,
        dst.kind is Var,
    ensures
        ({
            let cx1 = expr_into(env, cx, dst, e);
            &&& stands(cx1, from, s, r)
            &&& r[dst] == meaning(env.function, now, e)
            &&& same_but_for(now, r, dst, cx.scores as nat, cx1.scores as nat)
            &&& cx.scores <= cx1.scores <= cx.scores + 3 * size(e)
        }),
{
    reveal(expr_into);
    reveal(expr);
    let f = env.function;
    let lo = cx.scores as nat;
    let top: nat = 0x1_0000_0000;
    let compares = match e.kind {
        Kind::Binary(op, _, _) => is_comparison(op),
        _ => false,
    };
    let negates = match e.kind {
        Kind::Unary(op, _) => op is Not,
        _ => false,
    };
    if compares {
        match e.kind {
            Kind::Binary(op, lhs, rhs) => {
                let (cx1, l) = expr(env, cx, *lhs);
                let now1 = lemma_expressions_compute_their_value(env, cx, *lhs, from, s, now);
                let m1 = cx1.scores as nat;
                lemma_meaning_depends_on_bindings(f, now, now1, lo, m1, *rhs);
                let (cx2, r) = expr(env, cx1, *rhs);
                let now2 = lemma_expressions_compute_their_value(env, cx1, *rhs, from, s, now1);
                let m2 = cx2.scores as nat;
                lemma_wider(lo, m1, m2);
                lemma_settled_is_apart(l, lo, m1);
                lemma_settled_is_apart(r, m1, m2);
                lemma_wider(m1, m2, top);
                assert(value_in(l, now2) == value_in(l, now1));
                let last = lemma_compare_into(cx2, dst, op, l, r, from, s, now2);
                lemma_wider(lo, m2, expr_into(env, cx, dst, e).scores as nat);
                last
            },
            _ => now,
        }
    } else if negates {
        match e.kind {
            Kind::Unary(_, operand) => {
                let (cx1, v) = expr(env, cx, *operand);
                let now1 = lemma_expressions_compute_their_value(env, cx, *operand, from, s, now);
                let (cx2, src) = materialise(cx1, v);
                let now2 = lemma_materialise(cx1, v, from, s, now1);
                lemma_wider(lo, cx1.scores as nat, cx2.scores as nat);
                let inst = Inst::Matches(dst, src, Some(0), Some(0), false);
                lemma_emit(cx2, inst, from, s, now2);
                stepped(now2, inst)->0
            },
            _ => now,
        }
    } else {
        let (cx1, v) = expr(env, cx, e);
        let now1 = lemma_expressions_compute_their_value(env, cx, e, from, s, now);
        lemma_copy_into(cx1, dst, v, from, s, now1);
        now1.insert(dst, value_in(v, now1))
    }
}

/// What an assignment leaves in its target.
pub open spec fn assigned(
    f: HirFunction,
    now: Map<Reg, i32>,
    dst: Reg,
    op: Option<BinaryOp>,
    value: Expr,
) -> i32 {
    match op {
        None => meaning(f, now, value),
        Some(op) => combined(op, now[dst], meaning(f, now, value)),
    }
}

/// An assignment to a binding, plain or compound, leaves there what was written, and
/// writes nothing else but new temporaries.
pub proof fn lemma_assignments_assign(
    env: Env,
    cx: Lx,
    dst: Reg,
    op: Option<BinaryOp>,
    value: Expr,
    from: int,
    s: Map<Reg, i32>,
    now: Map<Reg, i32>,
) -> (r: Map<Reg, i32>)
    requires
        stands(cx, from, s, now),
        calculates(env.function, now, value),
        cx.scores + 3 * size(value) + 1 <= u32::MAX,
        dst.kind is Var || op is Some && apart(Value::Reg(dst), cx.scores as nat),
        op is Some ==> !is_comparison(op->0) && !(op->0 is And) && !(op->0 is Or),
    ensures
        ({
            let cx1 = store(env, cx, dst, op, value);
            &&& stands(cx1, from, s, r)
            &&& r[dst] == assigned(env.function, now, dst, op, value)
            &&& same_but_for(now, r, dst, cx.scores as nat, cx1.scores as nat)
            &&& cx.scores <= cx1.scores <= cx.scores + 3 * size(value) + 1
        }),
{
    reveal(store);
    match op {
        None => lemma_values_land_where_they_belong(env, cx, dst, value, from, s, now),
        Some(op) => {
            let lo = cx.scores as nat;
            let (cx1, v) = expr(env, cx, value);
            let now1 = lemma_expressions_compute_their_value(env, cx, value, from, s, now);
            let mid = cx1.scores as nat;
            lemma_settled_is_apart(v, lo, mid);
            lemma_wider(lo, mid, 0x1_0000_0000);
            assert(!between(dst, lo, mid));
            let last = lemma_apply(cx1, dst, op, v, from, s, now1);
            lemma_wider(lo, mid, store(env, cx, dst, Some(op), value).scores as nat);
            last
        },
    }
}

/// A condition holds exactly where what was written is true, and making it writes nothing
/// but new temporaries.
pub proof fn lemma_conditions_hold_where_they_should(
    env: Env,
    cx: Lx,
    e: Expr,
    from: int,
    s: Map<Reg, i32>,
    now: Map<Reg, i32>,
) -> (r: Map<Reg, i32>)
    requires
        stands(cx, from, s, now),
        calculates(env.function, now, e),
        truthful(env.function, now, e),
        cx.scores + 3 * size(e) + 1 <= u32::MAX,
    ensures
        ({
            let (cx1, c) = cond(env, cx, e);
            &&& stands(cx1, from, s, r)
            &&& !(c is Data)
            &&& holds(c, r) == (meaning(env.function, now, e) != 0)
            &&& same_but(now, r, cx.scores as nat, cx1.scores as nat)
            &&& forall|x: Reg| #[trigger]
                reads(c, x) ==> mentions(env.function, e, x) || between(
                    x,
                    cx.scores as nat,
                    cx1.scores as nat,
                )
            &&& cx.scores <= cx1.scores
        }),
    decreases e,
{
    reveal(cond);
    reveal(truth);
    reveal(expr);
    let f = env.function;
    let lo = cx.scores as nat;
    let top: nat = 0x1_0000_0000;
    let compares = match e.kind {
        Kind::Binary(op, _, _) => is_comparison(op),
        _ => false,
    };
    let negates = match e.kind {
        Kind::Unary(op, _) => op is Not,
        _ => false,
    };
    if negates {
        match e.kind {
            Kind::Unary(_, inner) => {
                let r = lemma_conditions_hold_where_they_should(env, cx, *inner, from, s, now);
                let (cx1, c) = cond(env, cx, *inner);
                lemma_negation_is_not(c, r);
                assert forall|x: Reg| #[trigger] reads(negation(c), x) implies mentions(f, e, x)
                    || between(x, lo, cx1.scores as nat) by {
                    assert(reads(c, x));
                }
                r
            },
            _ => now,
        }
    } else if compares {
        match e.kind {
            Kind::Binary(op, lhs, rhs) => {
                reveal(condition_of);
                let (cx1, l) = expr(env, cx, *lhs);
                let now1 = lemma_expressions_compute_their_value(env, cx, *lhs, from, s, now);
                let m1 = cx1.scores as nat;
                lemma_meaning_depends_on_bindings(f, now, now1, lo, m1, *rhs);
                let (cx2, r) = expr(env, cx1, *rhs);
                let now2 = lemma_expressions_compute_their_value(env, cx1, *rhs, from, s, now1);
                let m2 = cx2.scores as nat;
                lemma_wider(lo, m1, m2);
                lemma_settled_is_apart(l, lo, m1);
                lemma_settled_is_apart(r, m1, m2);
                lemma_wider(m1, m2, top);
                assert(value_in(l, now2) == value_in(l, now1));
                let ranged = match (l, r) {
                    (Value::Reg(_), Value::Const(n)) => range_for(op, n) is Some,
                    _ => false,
                };
                let hi = condition_of(cx2, op, l, r).0.scores as nat;
                assert(l is Reg ==> mentions(f, e, l->Reg_0) || between(l->Reg_0, lo, m1));
                assert(r is Reg ==> mentions(f, e, r->Reg_0) || between(r->Reg_0, m1, m2));
                if ranged {
                    lemma_ranges_mean_comparisons(op, r->Const_0, now2[l->Reg_0]);
                    assert(hi == m2);
                    now2
                } else {
                    let (cx3, a) = materialise(cx2, l);
                    let now3 = lemma_materialise(cx2, l, from, s, now2);
                    let (cx4, b) = materialise(cx3, r);
                    let now4 = lemma_materialise(cx3, r, from, s, now3);
                    let m3 = cx3.scores as nat;
                    let m4 = cx4.scores as nat;
                    lemma_wider(m2, m3, top);
                    lemma_wider(m2, m3, m4);
                    lemma_wider(m3, m4, top);
                    lemma_wider(lo, m2, m4);
                    assert(value_in(r, now3) == value_in(r, now2));
                    assert(now4[a] == value_in(l, now2));
                    lemma_comparisons_mean_themselves(op, now4[a], now4[b]);
                    lemma_between(m2, m2, m4);
                    lemma_between(m3, m3, m4);
                    assert(hi == m4);
                    assert(mentions(f, e, a) || between(a, lo, m4));
                    assert(mentions(f, e, b) || between(b, lo, m4));
                    now4
                }
            },
            _ => now,
        }
    } else {
        let (cx1, v) = expr(env, cx, e);
        let now1 = lemma_expressions_compute_their_value(env, cx, e, from, s, now);
        let (cx2, src) = materialise(cx1, v);
        let now2 = lemma_materialise(cx1, v, from, s, now1);
        lemma_wider(lo, cx1.scores as nat, cx2.scores as nat);
        lemma_between(cx1.scores as nat, cx1.scores as nat, cx2.scores as nat);
        assert(mentions(f, e, src) || between(src, lo, cx2.scores as nat));
        now2
    }
}

// ---------------------------------------------------------------------------
// Frames.
// ---------------------------------------------------------------------------

/// The top frame after commands that save into it what `memory` holds.
pub open spec fn framed<T>(
    insts: Seq<Inst>,
    memory: Map<Slot, T>,
    frame: Map<u32, T>,
) -> Map<u32, T>
    decreases insts.len(),
{
    if insts.len() == 0 {
        frame
    } else {
        let before = framed(insts.drop_last(), memory, frame);
        match insts.last() {
            Inst::Save(reg, slot) => before.insert(slot, memory[Slot::Score(reg)]),
            Inst::SaveData(path, slot) => before.insert(slot, memory[Slot::Data(path)]),
            _ => before,
        }
    }
}

/// What is held where after commands that read it back out of the top frame.
pub open spec fn unframed<T>(
    insts: Seq<Inst>,
    memory: Map<Slot, T>,
    frame: Map<u32, T>,
) -> Map<Slot, T>
    decreases insts.len(),
{
    if insts.len() == 0 {
        memory
    } else {
        let before = unframed(insts.drop_last(), memory, frame);
        match insts.last() {
            Inst::Restore(reg, slot) => before.insert(Slot::Score(reg), frame[slot]),
            Inst::RestoreData(path, slot) => before.insert(Slot::Data(path), frame[slot]),
            _ => before,
        }
    }
}

proof fn lemma_saves_fill_the_frame<T>(
    slots: Seq<Slot>,
    n: int,
    memory: Map<Slot, T>,
    frame: Map<u32, T>,
)
    requires
        0 <= n <= slots.len() <= u32::MAX,
    ensures
        forall|k: u32|
            k < n ==> #[trigger] framed(saves(slots).take(n), memory, frame)[k]
                == memory[slots[k as int]],
    decreases n,
{
    if n > 0 {
        lemma_saves_fill_the_frame(slots, n - 1, memory, frame);
        assert(saves(slots).take(n).drop_last() =~= saves(slots).take(n - 1));
        assert(saves(slots).take(n).last() == save(slots[n - 1], n - 1));
        let fewer = framed(saves(slots).take(n - 1), memory, frame);
        let filled = framed(saves(slots).take(n), memory, frame);
        assert(filled == fewer.insert((n - 1) as u32, memory[slots[n - 1]]));
        assert forall|k: u32| k < n implies #[trigger] filled[k] == memory[slots[k as int]] by {
            if k < n - 1 {
                assert(fewer[k] == memory[slots[k as int]]);
            }
        }
    }
}

proof fn lemma_restores_read_the_frame<T>(
    slots: Seq<Slot>,
    n: int,
    memory: Map<Slot, T>,
    wanted: Map<Slot, T>,
    frame: Map<u32, T>,
)
    requires
        0 <= n <= slots.len() <= u32::MAX,
        forall|k: u32| k < slots.len() ==> #[trigger] frame[k] == wanted[slots[k as int]],
    ensures
        forall|slot: Slot|
            #[trigger] unframed(restores(slots).take(n), memory, frame)[slot] == if slots.take(
                n,
            ).contains(slot) {
                wanted[slot]
            } else {
                memory[slot]
            },
    decreases n,
{
    if n > 0 {
        lemma_restores_read_the_frame(slots, n - 1, memory, wanted, frame);
        assert(restores(slots).take(n).drop_last() =~= restores(slots).take(n - 1));
        assert(restores(slots).take(n).last() == restore(slots[n - 1], n - 1));
        assert(frame[(n - 1) as u32] == wanted[slots[n - 1]]);
        let known = slots.take(n);
        let fewer = slots.take(n - 1);
        assert(known =~= fewer.push(slots[n - 1]));
        assert forall|slot: Slot|
            #[trigger] known.contains(slot) == (fewer.contains(slot) || slot == slots[n - 1]) by {
            if slot == slots[n - 1] {
                assert(known[n - 1] == slot);
            }
            if fewer.contains(slot) {
                let k = choose|k: int| 0 <= k < fewer.len() && fewer[k] == slot;
                assert(known[k] == slot);
            }
        }
        let some = unframed(restores(slots).take(n - 1), memory, frame);
        let more = unframed(restores(slots).take(n), memory, frame);
        assert(more == some.insert(slots[n - 1], wanted[slots[n - 1]]));
        assert forall|slot: Slot|
            #[trigger] more[slot] == if known.contains(slot) {
                wanted[slot]
            } else {
                memory[slot]
            } by {
            assert(some[slot] == if fewer.contains(slot) {
                wanted[slot]
            } else {
                memory[slot]
            });
        }
    }
}

/// What a call that can come back to its caller saves, it puts back: afterwards everything
/// that was saved is as it was, whatever happened to it in between, and everything else is
/// as the call left it.
pub proof fn lemma_what_is_saved_is_restored<T>(
    slots: Seq<Slot>,
    before: Map<Slot, T>,
    after: Map<Slot, T>,
    frame: Map<u32, T>,
    slot: Slot,
)
    requires
        slots.len() <= u32::MAX,
    ensures
        unframed(restores(slots), after, framed(saves(slots), before, frame))[slot]
            == if slots.contains(slot) {
            before[slot]
        } else {
            after[slot]
        },
{
    let n = slots.len() as int;
    let kept = framed(saves(slots), before, frame);
    assert(saves(slots).take(n) =~= saves(slots));
    assert(restores(slots).take(n) =~= restores(slots));
    assert(slots.take(n) =~= slots);
    lemma_saves_fill_the_frame(slots, n, before, frame);
    lemma_restores_read_the_frame(slots, n, after, before, kept);
}

/// What a call saves is what the state it is made in holds for in use: the bindings that
/// were given a value, and the temporaries handed out so far.
pub proof fn lemma_slots_hold_what_is_in_use(env: Env, cx: Lx)
    ensures
        forall|i: int|
            0 <= i < cx.initialised.len() ==> live_slots(env, cx).contains(
                local_slot(env.function, #[trigger] cx.initialised[i]),
            ),
        forall|i: int|
            0 <= i < cx.used.len() ==> live_slots(env, cx).contains(
                Slot::Score(#[trigger] cx.used[i]),
            ),
        forall|i: int|
            0 <= i < cx.used_data.len() ==> live_slots(env, cx).contains(
                Slot::Data(#[trigger] cx.used_data[i]),
            ),
{
    let slots = live_slots(env, cx);
    let n = cx.initialised.len() as int;
    let m = cx.used.len() as int;
    assert forall|i: int| 0 <= i < cx.initialised.len() implies slots.contains(
        local_slot(env.function, #[trigger] cx.initialised[i]),
    ) by {
        assert(slots[i] == local_slot(env.function, cx.initialised[i]));
    }
    assert forall|i: int| 0 <= i < cx.used.len() implies slots.contains(
        Slot::Score(#[trigger] cx.used[i]),
    ) by {
        assert(slots[n + i] == Slot::Score(cx.used[i]));
    }
    assert forall|i: int| 0 <= i < cx.used_data.len() implies slots.contains(
        Slot::Data(#[trigger] cx.used_data[i]),
    ) by {
        assert(slots[n + m + i] == Slot::Data(cx.used_data[i]));
    }
}

} // verus!

//! What the call graph promises: a call counts wherever it is written, in whatever part of
//! an expression and in whatever block of a statement, so that no call that can come back
//! goes without a frame.

use vstd::prelude::*;

use crate::hir::model::{
    Arm, Expr, Function as HirFunction, Kind, Place, RawPart, Scrutinee, Step, Stmt,
};
use crate::hir::FnId;
use crate::mir::rules::{
    all_calls, arms_calls, calls, calls_in, calls_of, is_call_chain, is_pure, parts_calls,
    recursive, steps_calls, stmt_calls,
};

verus! {

/// Whether an expression is an index that is only known at runtime, on the way to a place.
pub open spec fn indexes(place: Place, x: Expr) -> bool {
    exists|i: int|
        0 <= i < place.steps.len() && match #[trigger] place.steps[i] {
            Step::At(index) => *index == x,
            _ => false,
        }
}

/// Whether an expression is written directly inside another.
pub open spec fn is_part(e: Expr, x: Expr) -> bool {
    match e.kind {
        Kind::Unary(_, operand) => *operand == x,
        Kind::Binary(_, lhs, rhs) => *lhs == x || *rhs == x,
        Kind::Call(_, args) => args.contains(x),
        Kind::Struct(_, fields) => fields.contains(x),
        Kind::Enum(_, _, fields) => fields.contains(x),
        Kind::List(_, values) => values.contains(x),
        Kind::AsNbt(inner, _) => *inner == x,
        Kind::Present(inner) => *inner == x,
        Kind::Try(inner) => *inner == x,
        Kind::Expect(inner, _) => *inner == x,
        Kind::Field(place) => indexes(place, x),
        Kind::Len(place) => indexes(place, x),
        Kind::ReadScaled(place, _) => indexes(place, x),
        Kind::View(place) => indexes(place, x),
        Kind::Slice(place, _, _) => indexes(place, x),
        _ => false,
    }
}

proof fn lemma_either(a: Seq<u32>, b: Seq<u32>, c: u32)
    ensures
        (a + b).contains(c) <==> a.contains(c) || b.contains(c),
{
    if a.contains(c) {
        let k = choose|k: int| 0 <= k < a.len() && a[k] == c;
        assert((a + b)[k] == c);
    }
    if b.contains(c) {
        let k = choose|k: int| 0 <= k < b.len() && b[k] == c;
        assert((a + b)[a.len() + k] == c);
    }
    if (a + b).contains(c) {
        let k = choose|k: int| 0 <= k < (a + b).len() && (a + b)[k] == c;
        if k < a.len() {
            assert(a[k] == c);
        } else {
            assert(b[k - a.len()] == c);
        }
    }
}

proof fn lemma_all_calls(args: Seq<Expr>, i: int, k: int, c: u32)
    requires
        0 <= i <= k < args.len(),
        calls_in(args[k]).contains(c),
    ensures
        all_calls(args, i).contains(c),
    decreases k - i,
{
    reveal(all_calls);
    reveal(calls_in);
    lemma_either(calls_in(args[i]), all_calls(args, i + 1), c);
    if i < k {
        lemma_all_calls(args, i + 1, k, c);
    }
}

proof fn lemma_steps_calls(steps: Seq<Step>, i: int, k: int, x: Expr, c: u32)
    requires
        0 <= i <= k < steps.len(),
        steps[k] == Step::At(Box::new(x)),
        calls_in(x).contains(c),
    ensures
        steps_calls(steps, i).contains(c),
    decreases k - i,
{
    reveal(steps_calls);
    reveal(calls_in);
    let here = match steps[i] {
        Step::At(index) => calls_in(*index),
        _ => seq![],
    };
    lemma_either(here, steps_calls(steps, i + 1), c);
    if i < k {
        lemma_steps_calls(steps, i + 1, k, x, c);
    }
}

proof fn lemma_place_calls(place: Place, x: Expr, c: u32)
    requires
        indexes(place, x),
        calls_in(x).contains(c),
    ensures
        steps_calls(place.steps, 0).contains(c),
{
    let i = choose|i: int|
        0 <= i < place.steps.len() && match #[trigger] place.steps[i] {
            Step::At(index) => *index == x,
            _ => false,
        };
    lemma_steps_calls(place.steps, 0, i, x, c);
}

/// A call in any part of an expression is a call in the expression, and a call of a function
/// is one itself.
pub proof fn lemma_calls_count_in_every_part(e: Expr, x: Expr, c: u32)
    ensures
        is_part(e, x) && calls_in(x).contains(c) ==> calls_in(e).contains(c),
        e.kind is Call ==> calls_in(e).contains(e.kind->Call_0.0),
{
    reveal(calls_in);
    reveal(all_calls);
    reveal(steps_calls);
    match e.kind {
        Kind::Call(callee, args) => {
            lemma_either(seq![callee.0], all_calls(args, 0), callee.0);
            lemma_either(seq![callee.0], all_calls(args, 0), c);
            assert(seq![callee.0][0] == callee.0);
        },
        Kind::Binary(_, lhs, rhs) => lemma_either(calls_in(*lhs), calls_in(*rhs), c),
        _ => {},
    }
    if is_part(e, x) && calls_in(x).contains(c) {
        match e.kind {
            Kind::Call(_, args) => lemma_list_calls(args, x, c),
            Kind::Struct(_, fields) => lemma_list_calls(fields, x, c),
            Kind::Enum(_, _, fields) => lemma_list_calls(fields, x, c),
            Kind::List(_, values) => lemma_list_calls(values, x, c),
            Kind::Field(place) => lemma_place_calls(place, x, c),
            Kind::Len(place) => lemma_place_calls(place, x, c),
            Kind::ReadScaled(place, _) => lemma_place_calls(place, x, c),
            Kind::View(place) => lemma_place_calls(place, x, c),
            Kind::Slice(place, _, _) => lemma_place_calls(place, x, c),
            _ => {},
        }
    }
}

proof fn lemma_list_calls(values: Seq<Expr>, x: Expr, c: u32)
    requires
        values.contains(x),
        calls_in(x).contains(c),
    ensures
        all_calls(values, 0).contains(c),
{
    let k = choose|k: int| 0 <= k < values.len() && values[k] == x;
    lemma_all_calls(values, 0, k, c);
}

/// An expression whose evaluation cannot be seen calls nothing, and neither does any
/// operand of its operators.
pub proof fn lemma_pure_expressions_call_nothing(e: Expr)
    requires
        is_pure(e),
    ensures
        calls_in(e).len() == 0,
        !(e.kind is Command),
        !(e.kind is Call),
        forall|x: Expr|
            (e.kind is Unary || e.kind is Binary) && #[trigger] is_part(e, x) ==> is_pure(x),
    decreases e,
{
    reveal(is_pure);
    reveal(calls_in);
    reveal(all_calls);
    match e.kind {
        Kind::Unary(_, operand) => lemma_pure_expressions_call_nothing(*operand),
        Kind::Binary(_, lhs, rhs) => {
            lemma_pure_expressions_call_nothing(*lhs);
            lemma_pure_expressions_call_nothing(*rhs);
        },
        _ => {},
    }
}

/// Whether an expression is written directly in a statement.
pub open spec fn is_written_in(s: Stmt, x: Expr) -> bool {
    match s {
        Stmt::Raw(raw) => exists|i: int|
            0 <= i < raw.parts.len() && #[trigger] raw.parts[i] == RawPart::Value(x),
        Stmt::Let(_, value, _) => value == x,
        Stmt::Push(place, value, _) => value == x || indexes(place, x),
        Stmt::Assign(place, _, value, _) => value == x || indexes(place, x),
        Stmt::Assert(test, _, _) => test == x,
        Stmt::Return(Some(value), _) => value == x,
        Stmt::CallFor(_, args, _) => args.contains(x),
        Stmt::If(test, _, _, _, _) => test == x,
        Stmt::Loop(Some(test), _, _, _) => test == x,
        Stmt::Match(Scrutinee::Place(place), _, _) => indexes(place, x),
        Stmt::Match(Scrutinee::Outcome(e), _, _) => e == x,
        Stmt::ForVec(place, _, _, _) => indexes(place, x),
        _ => false,
    }
}

/// Whether a block is one of a statement's own.
pub open spec fn is_block_of(s: Stmt, body: Seq<Stmt>) -> bool {
    match s {
        Stmt::If(_, taken, otherwise, _, _) => taken == body || otherwise == Some(body),
        Stmt::Loop(_, inner, _, _) => inner == body,
        Stmt::Match(_, arms, _) => exists|i: int|
            0 <= i < arms.len() && (#[trigger] arms[i]).body == body,
        Stmt::ForVec(_, _, inner, _) => inner == body,
        Stmt::Context(_, _, inner, _, _) => inner == body,
        _ => false,
    }
}

proof fn lemma_parts_calls(parts: Seq<RawPart>, i: int, k: int, x: Expr, c: u32)
    requires
        0 <= i <= k < parts.len(),
        parts[k] == RawPart::Value(x),
        calls_in(x).contains(c),
    ensures
        parts_calls(parts, i).contains(c),
    decreases k - i,
{
    reveal(parts_calls);
    let here = match parts[i] {
        RawPart::Value(e) => calls_in(e),
        RawPart::Lit(_) => seq![],
    };
    lemma_either(here, parts_calls(parts, i + 1), c);
    if i < k {
        lemma_parts_calls(parts, i + 1, k, x, c);
    }
}

proof fn lemma_arms_calls(arms: Seq<Arm>, i: int, k: int, c: u32)
    requires
        0 <= i <= k < arms.len(),
        calls_of(arms[k].body, 0).contains(c),
    ensures
        arms_calls(arms, i).contains(c),
    decreases k - i,
{
    reveal(arms_calls);
    reveal(calls_of);
    lemma_either(calls_of(arms[i].body, 0), arms_calls(arms, i + 1), c);
    if i < k {
        lemma_arms_calls(arms, i + 1, k, c);
    }
}

/// A call in any expression or block of a statement is a call of the statement, and a call
/// statement is one itself.
#[verifier::spinoff_prover]
pub proof fn lemma_calls_count_in_every_statement(s: Stmt, x: Expr, body: Seq<Stmt>, c: u32)
    ensures
        is_written_in(s, x) && calls_in(x).contains(c) ==> stmt_calls(s).contains(c),
        is_block_of(s, body) && calls_of(body, 0).contains(c) ==> stmt_calls(s).contains(c),
        s is CallFor ==> stmt_calls(s).contains(s->CallFor_0.0),
{
    reveal(stmt_calls);
    reveal(calls_of);
    reveal(arms_calls);
    match s {
        Stmt::Raw(raw) => {
            if is_written_in(s, x) && calls_in(x).contains(c) {
                let i = choose|i: int|
                    0 <= i < raw.parts.len() && #[trigger] raw.parts[i] == RawPart::Value(x);
                lemma_parts_calls(raw.parts, 0, i, x, c);
            }
        },
        Stmt::Push(place, value, _) => {
            lemma_either(steps_calls(place.steps, 0), calls_in(value), c);
            if indexes(place, x) && calls_in(x).contains(c) {
                lemma_place_calls(place, x, c);
            }
        },
        Stmt::Assign(place, _, value, _) => {
            lemma_either(steps_calls(place.steps, 0), calls_in(value), c);
            if indexes(place, x) && calls_in(x).contains(c) {
                lemma_place_calls(place, x, c);
            }
        },
        Stmt::CallFor(callee, args, _) => {
            lemma_either(seq![callee.0], all_calls(args, 0), callee.0);
            lemma_either(seq![callee.0], all_calls(args, 0), c);
            assert(seq![callee.0][0] == callee.0);
            if args.contains(x) && calls_in(x).contains(c) {
                lemma_list_calls(args, x, c);
            }
        },
        Stmt::If(test, taken, otherwise, _, _) => {
            let other = match otherwise {
                Some(otherwise) => calls_of(otherwise, 0),
                None => seq![],
            };
            lemma_either(calls_in(test) + calls_of(taken, 0), other, c);
            lemma_either(calls_in(test), calls_of(taken, 0), c);
        },
        Stmt::Loop(test, inner, _, _) => {
            let tested = match test {
                Some(test) => calls_in(test),
                None => seq![],
            };
            lemma_either(tested, calls_of(inner, 0), c);
        },
        Stmt::Match(scrutinee, arms, _) => {
            let matched = match scrutinee {
                Scrutinee::Place(place) => steps_calls(place.steps, 0),
                Scrutinee::Outcome(e) => calls_in(e),
            };
            lemma_either(matched, arms_calls(arms, 0), c);
            if is_written_in(s, x) && calls_in(x).contains(c) {
                match scrutinee {
                    Scrutinee::Place(place) => lemma_place_calls(place, x, c),
                    Scrutinee::Outcome(_) => {},
                }
            }
            if is_block_of(s, body) && calls_of(body, 0).contains(c) {
                let i = choose|i: int| 0 <= i < arms.len() && (#[trigger] arms[i]).body == body;
                lemma_arms_calls(arms, 0, i, c);
            }
        },
        Stmt::ForVec(place, _, inner, _) => {
            lemma_either(steps_calls(place.steps, 0), calls_of(inner, 0), c);
            if indexes(place, x) && calls_in(x).contains(c) {
                lemma_place_calls(place, x, c);
            }
        },
        _ => {},
    }
}

/// A call of any statement of a block is a call of the block.
pub proof fn lemma_calls_count_in_every_block(body: Seq<Stmt>, i: int, k: int, c: u32)
    requires
        0 <= i <= k < body.len(),
        stmt_calls(body[k]).contains(c),
    ensures
        calls_of(body, i).contains(c),
    decreases k - i,
{
    reveal(calls_of);
    reveal(stmt_calls);
    lemma_either(stmt_calls(body[i]), calls_of(body, i + 1), c);
    if i < k {
        lemma_calls_count_in_every_block(body, i + 1, k, c);
    }
}

/// Two functions that each hold a call of the other come back to each other, and a function
/// that holds a call of itself comes back to itself: such calls are recursive, whichever of
/// the two is the caller.
pub proof fn lemma_calls_that_come_back_are_recursive(
    functions: Seq<HirFunction>,
    a: u32,
    b: u32,
)
    requires
        calls(functions, a as int, b as int),
        calls(functions, b as int, a as int),
    ensures
        recursive(functions, FnId(a), FnId(b)),
        recursive(functions, FnId(b), FnId(a)),
{
    let there = seq![a as int, b as int];
    let back = seq![b as int, a as int];
    assert(is_call_chain(functions, there));
    assert(is_call_chain(functions, back));
    assert(there.last() == b);
    assert(back.last() == a);
}

} // verus!

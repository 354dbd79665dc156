//! What each construct is lowered to.
//!
//! Every function takes the state of a lowering and gives the state after it. The
//! instructions of the block being lowered are part of the state, as are the functions
//! that were split out of it.

use vstd::prelude::*;

use crate::hir::model::{
    Arm, Binding, Expr, Field, Function as HirFunction, Hir, Kind, Local, Place, RawPart, Root,
    Scrutinee, Step, Stmt, Types,
};
use crate::hir::rules::stmts::kept;
use crate::hir::rules::values::is_static;
use crate::hir::types::{element_of, enum_of, struct_of};
use crate::hir::{default_tag, ArmTest, ContextKind, FnId, Inline, LocalId, NbtTag, Type};
use crate::mir::model::{Block, Cond, ExecuteAs, Function, Inst, Reg};
use crate::mir::{negation, BlockId, Cmp, Op, RegKind};
use crate::names::{fake_player_name, var_path_name};
use crate::syntax::ast::{BinaryOp, UnaryOp};
use crate::syntax::lexer::Span;
use crate::syntax::model::Fault;
use crate::text::{escape, int_text, join, nat_text, quote, rfind};

verus! {

// The control register's values.

pub const CTL_NORMAL: i32 = 0;

pub const CTL_BREAK: i32 = 1;

pub const CTL_CONTINUE: i32 = 2;

pub const CTL_RETURN: i32 = 3;

/// What stays the same while one function is lowered.
pub struct Env {
    pub functions: Seq<HirFunction>,
    pub types: Types,
    pub function: HirFunction,
    /// Whether assertions and tests are kept.
    pub debug: bool,
}

/// The state of a lowering.
pub struct Lx {
    /// How many temporaries were handed out, over the whole program. A name is never
    /// reused, so no two temporaries can be live at once under the same name.
    pub scores: u32,
    pub data: u32,
    pub iters: u32,
    /// Temporaries handed out in the function being lowered, in order.
    pub used: Seq<Reg>,
    /// The same, for temporaries that live in storage.
    pub used_data: Seq<Seq<char>>,
    /// Whether the function being lowered touched the control register at all.
    pub used_ctl: bool,
    /// Locals that have been given a value at this point.
    pub initialised: Seq<LocalId>,
    pub errs: Seq<Fault>,
    /// Where the statement being lowered stands.
    pub at: Span,
    pub insts: Seq<Inst>,
    /// Functions split out of this one, named under `prefix`.
    pub generated: Seq<Function>,
    pub prefix: Seq<char>,
    pub counter: u32,
    /// A plain `return` only reaches the caller from the function's own top level.
    pub top_level: bool,
    /// Whether this block is the body of a context block, rather than something nested
    /// in it.
    pub body_root: bool,
}

/// The number after `n`.
pub open spec fn after(n: u32) -> u32 {
    if n == u32::MAX {
        0
    } else {
        (n + 1) as u32
    }
}

impl Lx {
    pub open spec fn emit(self, inst: Inst) -> Lx {
        Lx { insts: self.insts.push(inst), ..self }
    }

    /// What cannot be lowered yet is said, rather than left out in silence.
    pub open spec fn unsupported(self, what: Seq<char>) -> Lx {
        Lx {
            errs: self.errs.push(
                Fault { span: self.at, message: what + " is not implemented yet"@ },
            ),
            ..self
        }
    }

    pub open spec fn temp(self) -> (Lx, Reg) {
        let reg = Reg { holder: "$t"@ + nat_text(self.scores as nat), kind: RegKind::Temp };
        (Lx { scores: after(self.scores), used: self.used.push(reg), ..self }, reg)
    }

    /// A temporary in storage, for a composite that has no register to sit in.
    pub open spec fn data_temp(self) -> (Lx, Seq<char>) {
        let path = "mw.tmp.m"@ + nat_text(self.data as nat);
        (Lx { data: after(self.data), used_data: self.used_data.push(path), ..self }, path)
    }

    /// The copy a `for` walks through, under the root reserved for it.
    pub open spec fn iter_temp(self) -> (Lx, Seq<char>) {
        let path = "mw.iter.i"@ + nat_text(self.iters as nat);
        (Lx { iters: after(self.iters), used_data: self.used_data.push(path), ..self }, path)
    }

    /// The path of the next function split out of this one.
    pub open spec fn next_path(self, kind: Seq<char>) -> Seq<char> {
        self.prefix + "/"@ + kind + "_"@ + nat_text(self.counter as nat)
    }

    pub open spec fn counted(self) -> Lx {
        Lx { counter: after(self.counter), ..self }
    }

    /// A lowering of a block split out of this one.
    pub open spec fn child(self, prefix: Seq<char>) -> Lx {
        Lx {
            insts: seq![],
            generated: seq![],
            prefix,
            counter: 0,
            top_level: false,
            body_root: false,
            ..self
        }
    }

    pub open spec fn record(
        self,
        id: FnId,
        path: Seq<char>,
        insts: Seq<Inst>,
        generated: Seq<Function>,
    ) -> Lx {
        Lx {
            generated: self.generated.push(
                Function {
                    id,
                    path,
                    attrs: seq![],
                    blocks: seq![Block { id: BlockId(0), insts }],
                },
            ) + generated,
            ..self
        }
    }

    /// The state after the block `inner` that was split out of this one is done.
    pub open spec fn close(self, id: FnId, path: Seq<char>, inner: Lx) -> Lx {
        Lx {
            insts: self.insts,
            generated: self.generated,
            prefix: self.prefix,
            counter: self.counter,
            top_level: self.top_level,
            body_root: self.body_root,
            ..inner
        }.record(id, path, inner.insts, inner.generated)
    }

    pub open spec fn initialise(self, local: LocalId) -> Lx {
        Lx { initialised: self.initialised.push(local), ..self }
    }

    pub open spec fn touch_ctl(self) -> Lx {
        Lx { used_ctl: true, ..self }
    }
}

// What can leave a block other than reaching its end.

pub struct Escapes {
    pub breaks: bool,
    pub continues: bool,
    pub returns: bool,
}

impl Escapes {
    pub open spec fn any(self) -> bool {
        self.breaks || self.continues || self.returns
    }

    pub open spec fn union(self, other: Escapes) -> Escapes {
        Escapes {
            breaks: self.breaks || other.breaks,
            continues: self.continues || other.continues,
            returns: self.returns || other.returns,
        }
    }
}

pub open spec fn no_escape() -> Escapes {
    Escapes { breaks: false, continues: false, returns: false }
}

/// What can escape the statements from the `i`th on. A loop swallows the `break` and
/// `continue` of its own body, so only a `return` gets past it.
#[verifier::opaque]
pub open spec fn escapes(stmts: Seq<Stmt>, i: int) -> Escapes
    decreases stmts, stmts.len() - i, 1int,
{
    if i < 0 || i >= stmts.len() {
        no_escape()
    } else {
        stmt_escapes(stmts[i]).union(escapes(stmts, i + 1))
    }
}

#[verifier::opaque]
pub open spec fn stmt_escapes(s: Stmt) -> Escapes
    decreases s, 0int, 0int,
{
    match s {
        Stmt::Break(_) => Escapes { breaks: true, ..no_escape() },
        Stmt::Continue(_) => Escapes { continues: true, ..no_escape() },
        Stmt::Return(_, _) => Escapes { returns: true, ..no_escape() },
        Stmt::If(_, taken, otherwise, _, _) => match otherwise {
            Some(otherwise) => escapes(taken, 0).union(escapes(otherwise, 0)),
            None => escapes(taken, 0),
        },
        Stmt::Loop(_, body, _, _) => Escapes { returns: escapes(body, 0).returns, ..no_escape() },
        Stmt::Match(_, arms, _) => arms_escape(arms, 0),
        Stmt::ForVec(_, _, body, _) => Escapes {
            returns: escapes(body, 0).returns,
            ..no_escape()
        },
        // A context block consumes its own `continue`: returning from the body is what
        // going to the next entity means. `break` and `return` get out.
        Stmt::Context(_, _, body, _, _) => Escapes { continues: false, ..escapes(body, 0) },
        _ => no_escape(),
    }
}

#[verifier::opaque]
pub open spec fn arms_escape(arms: Seq<Arm>, i: int) -> Escapes
    decreases arms, arms.len() - i, 1int,
{
    if i < 0 || i >= arms.len() {
        no_escape()
    } else {
        escapes(arms[i].body, 0).union(arms_escape(arms, i + 1))
    }
}

// The call graph.

/// The functions the statements from the `i`th on call, by number: every call counts,
/// wherever it is written.
#[verifier::opaque]
pub open spec fn calls_of(stmts: Seq<Stmt>, i: int) -> Seq<u32>
    decreases stmts, stmts.len() - i, 1int,
{
    if i < 0 || i >= stmts.len() {
        seq![]
    } else {
        stmt_calls(stmts[i]) + calls_of(stmts, i + 1)
    }
}

#[verifier::opaque]
pub open spec fn stmt_calls(s: Stmt) -> Seq<u32>
    decreases s, 0int, 0int,
{
    match s {
        Stmt::Raw(raw) => parts_calls(raw.parts, 0),
        Stmt::Let(_, value, _) => calls_in(value),
        Stmt::Push(place, value, _) => steps_calls(place.steps, 0) + calls_in(value),
        Stmt::Assign(place, _, value, _) => steps_calls(place.steps, 0) + calls_in(value),
        Stmt::Assert(test, _, _) => calls_in(test),
        Stmt::Return(Some(value), _) => calls_in(value),
        Stmt::CallFor(callee, args, _) => seq![callee.0] + all_calls(args, 0),
        Stmt::If(cond, taken, otherwise, _, _) => calls_in(cond) + calls_of(taken, 0) + match
            otherwise {
            Some(otherwise) => calls_of(otherwise, 0),
            None => seq![],
        },
        Stmt::Loop(cond, body, _, _) => (match cond {
            Some(cond) => calls_in(cond),
            None => seq![],
        }) + calls_of(body, 0),
        Stmt::Match(scrutinee, arms, _) => (match scrutinee {
            Scrutinee::Place(place) => steps_calls(place.steps, 0),
            Scrutinee::Outcome(e) => calls_in(e),
        }) + arms_calls(arms, 0),
        Stmt::ForVec(source, _, body, _) => steps_calls(source.steps, 0) + calls_of(body, 0),
        Stmt::Context(_, _, body, _, _) => calls_of(body, 0),
        _ => seq![],
    }
}

#[verifier::opaque]
pub open spec fn arms_calls(arms: Seq<Arm>, i: int) -> Seq<u32>
    decreases arms, arms.len() - i, 1int,
{
    if i < 0 || i >= arms.len() {
        seq![]
    } else {
        calls_of(arms[i].body, 0) + arms_calls(arms, i + 1)
    }
}

#[verifier::opaque]
pub open spec fn parts_calls(parts: Seq<RawPart>, i: int) -> Seq<u32>
    decreases parts.len() - i,
{
    if i < 0 || i >= parts.len() {
        seq![]
    } else {
        (match parts[i] {
            RawPart::Value(e) => calls_in(e),
            RawPart::Lit(_) => seq![],
        }) + parts_calls(parts, i + 1)
    }
}

#[verifier::opaque]
pub open spec fn calls_in(e: Expr) -> Seq<u32>
    decreases e, 0int, 0int,
{
    match e.kind {
        Kind::Call(callee, args) => seq![callee.0] + all_calls(args, 0),
        Kind::Unary(_, operand) => calls_in(*operand),
        Kind::Binary(_, lhs, rhs) => calls_in(*lhs) + calls_in(*rhs),
        Kind::Struct(_, fields) => all_calls(fields, 0),
        Kind::Enum(_, _, fields) => all_calls(fields, 0),
        Kind::List(_, values) => all_calls(values, 0),
        Kind::AsNbt(inner, _) => calls_in(*inner),
        Kind::Present(inner) => calls_in(*inner),
        Kind::Try(inner) => calls_in(*inner),
        Kind::Expect(inner, _) => calls_in(*inner),
        Kind::Field(place) => steps_calls(place.steps, 0),
        Kind::Len(place) => steps_calls(place.steps, 0),
        Kind::ReadScaled(place, _) => steps_calls(place.steps, 0),
        Kind::View(place) => steps_calls(place.steps, 0),
        Kind::Slice(place, _, _) => steps_calls(place.steps, 0),
        _ => seq![],
    }
}

#[verifier::opaque]
pub open spec fn all_calls(args: Seq<Expr>, i: int) -> Seq<u32>
    decreases args, args.len() - i, 1int,
{
    if i < 0 || i >= args.len() {
        seq![]
    } else {
        calls_in(args[i]) + all_calls(args, i + 1)
    }
}

/// The calls in the indices of a path that are only known at runtime.
#[verifier::opaque]
pub open spec fn steps_calls(steps: Seq<Step>, i: int) -> Seq<u32>
    decreases steps, steps.len() - i, 1int,
{
    if i < 0 || i >= steps.len() {
        seq![]
    } else {
        (match steps[i] {
            Step::At(index) => calls_in(*index),
            _ => seq![],
        }) + steps_calls(steps, i + 1)
    }
}

/// Whether function `a` calls function `b`.
pub open spec fn calls(functions: Seq<HirFunction>, a: int, b: int) -> bool {
    0 <= a < functions.len() && 0 <= b < functions.len() && b <= u32::MAX && calls_of(
        functions[a].body,
        0,
    ).contains(b as u32)
}

/// Whether the functions of `path` each call the next.
pub open spec fn is_call_chain(functions: Seq<HirFunction>, path: Seq<int>) -> bool {
    forall|i: int| 0 <= i < path.len() - 1 ==> calls(functions, path[i], #[trigger] path[i + 1])
}

/// Whether running `a` can come to call `b`.
pub open spec fn reaches(functions: Seq<HirFunction>, a: int, b: int) -> bool {
    exists|path: Seq<int>|
        path.len() >= 2 && path[0] == a && path.last() == b && #[trigger] is_call_chain(
            functions,
            path,
        )
}

/// Whether a call from `a` to `b` is recursive: the two can reach each other. Everything
/// else pays nothing for frames.
pub open spec fn recursive(functions: Seq<HirFunction>, a: FnId, b: FnId) -> bool {
    a == b || (reaches(functions, a.0 as int, b.0 as int) && reaches(
        functions,
        b.0 as int,
        a.0 as int,
    ))
}

// Where things live.

pub open spec fn local_of(f: HirFunction, local: LocalId) -> Local {
    if local.0 < f.locals.len() {
        f.locals[local.0 as int]
    } else {
        Local { id: local, name: seq![], ty: Type::I32, mutable: false }
    }
}

/// The register of a binding, qualified by function so two functions' locals cannot
/// collide.
pub open spec fn local_reg(f: HirFunction, local: LocalId) -> Reg {
    Reg { holder: fake_player_name(f.name, local_of(f, local).name), kind: RegKind::Var }
}

/// Where a composite binding lives.
pub open spec fn local_path(f: HirFunction, local: LocalId) -> Seq<char> {
    var_path_name(f.name, local_of(f, local).name)
}

pub open spec fn ctl_reg(f: HirFunction) -> Reg {
    Reg { holder: fake_player_name(f.name, "ctl"@), kind: RegKind::Var }
}

pub open spec fn ret_reg(f: HirFunction) -> Reg {
    Reg { holder: fake_player_name(f.name, "ret"@), kind: RegKind::Var }
}

pub open spec fn root_path(f: HirFunction, root: Root) -> Seq<char> {
    match root {
        Root::Local(local) => local_path(f, local),
        // A borrowed place belongs to the caller, and says so by name.
        Root::Lent(owner, local, _) => var_path_name(owner, local),
        Root::Entity(_) => seq![],
    }
}

/// The steps of a path from the `i`th on, up to one that is only known at runtime.
pub open spec fn steps_path(steps: Seq<Step>, i: int) -> Seq<char>
    decreases steps.len() - i,
{
    if i < 0 || i >= steps.len() {
        seq![]
    } else {
        match steps[i] {
            Step::Field(name) => "."@ + name + steps_path(steps, i + 1),
            Step::Index(index) => "["@ + int_text(index as int) + "]"@ + steps_path(steps, i + 1),
            Step::At(_) => seq![],
        }
    }
}

/// Where a place lives: the binding's path with one step per field or index. A runtime
/// index is not part of it: that path can only be finished by a macro.
pub open spec fn place_path(f: HirFunction, place: Place) -> Seq<char> {
    root_path(f, place.root) + steps_path(place.steps, 0)
}

/// The register a place names, for a scalar that lives on the scoreboard.
pub open spec fn place_reg(f: HirFunction, place: Place) -> Reg {
    match place.root {
        Root::Local(local) => local_reg(f, local),
        Root::Lent(owner, local, _) => Reg {
            holder: fake_player_name(owner, local),
            kind: RegKind::Var,
        },
        Root::Entity(_) => Reg { holder: seq![], kind: RegKind::Var },
    }
}

/// An entity's own NBT is out of reach of the storage commands.
pub open spec fn check_root(cx: Lx, place: Place) -> Lx {
    if place.root is Entity {
        cx.unsupported("reading or writing an entity's own NBT"@)
    } else {
        cx
    }
}

/// The index expression of a place whose last step is only known at runtime.
pub open spec fn runtime_index(place: Place) -> Option<Expr> {
    if place.steps.len() > 0 {
        match place.steps[place.steps.len() - 1] {
            Step::At(index) => Some(*index),
            _ => None,
        }
    } else {
        None
    }
}

/// The path a macro line writes, with the substitution in place of the index.
pub open spec fn spliced(prefix: Seq<char>) -> Seq<char> {
    prefix + "[$(i)]"@
}

/// The tag to store a scalar as when nothing named one.
pub open spec fn stored_tag(tag: Option<NbtTag>) -> NbtTag {
    match tag {
        Some(tag) => tag,
        None => NbtTag::Int,
    }
}

pub open spec fn tag_suffix(tag: Option<NbtTag>) -> Seq<char> {
    match tag {
        Some(tag) => tag.suffix_text(),
        None => seq![],
    }
}

/// `{tag:"Idle"}`, the filter that picks one variant out of a compound.
pub open spec fn tag_filter(tag: Seq<char>) -> Seq<char> {
    "{tag:\""@ + tag + "\"}"@
}

// Operators.

pub open spec fn is_comparison(op: BinaryOp) -> bool {
    op is Eq || op is Ne || op is Lt || op is Le || op is Gt || op is Ge
}

/// The command's operator. For 0/1 values, min is and, max is or.
pub open spec fn arith(op: BinaryOp) -> Op {
    match op {
        BinaryOp::Add => Op::Add,
        BinaryOp::Sub => Op::Sub,
        BinaryOp::Mul => Op::Mul,
        BinaryOp::Div => Op::Div,
        BinaryOp::Rem => Op::Rem,
        BinaryOp::And => Op::Min,
        BinaryOp::Or => Op::Max,
        _ => Op::Assign,
    }
}

/// The game's comparison, and whether it is turned around: there is no `!=`.
pub open spec fn comparison(op: BinaryOp) -> (Cmp, bool) {
    match op {
        BinaryOp::Ne => (Cmp::Eq, true),
        BinaryOp::Lt => (Cmp::Lt, false),
        BinaryOp::Le => (Cmp::Le, false),
        BinaryOp::Gt => (Cmp::Gt, false),
        BinaryOp::Ge => (Cmp::Ge, false),
        _ => (Cmp::Eq, false),
    }
}

/// The `matches` range for `<reg> <op> <n>`, or `None` when the bound would overflow.
pub open spec fn range_for(op: BinaryOp, n: i32) -> Option<(Option<i32>, Option<i32>, bool)> {
    match op {
        BinaryOp::Eq => Some((Some(n), Some(n), false)),
        BinaryOp::Ne => Some((Some(n), Some(n), true)),
        BinaryOp::Lt => if n == i32::MIN {
            None
        } else {
            Some((None, Some((n - 1) as i32), false))
        },
        BinaryOp::Le => Some((None, Some(n), false)),
        BinaryOp::Gt => if n == i32::MAX {
            None
        } else {
            Some((Some((n + 1) as i32), None, false))
        },
        BinaryOp::Ge => Some((Some(n), None, false)),
        _ => None,
    }
}

/// `n` with its sign turned, wrapping around where it does not fit.
pub open spec fn wrapped_neg(n: i32) -> i32 {
    if n == i32::MIN {
        n
    } else {
        (-n) as i32
    }
}

/// Whether evaluating this expression does nothing other than produce a value. Only calls,
/// of functions or of commands, can do more, and only they make short-circuiting
/// observable.
#[verifier::opaque]
pub open spec fn is_pure(e: Expr) -> bool
    decreases e,
{
    match e.kind {
        Kind::Command(_) => false,
        Kind::Unary(_, operand) => is_pure(*operand),
        Kind::Binary(_, lhs, rhs) => is_pure(*lhs) && is_pure(*rhs),
        _ => calls_in(e).len() == 0,
    }
}

// Values.

/// What an expression produced: either a number known now, or a register holding it.
pub enum Value {
    Const(i32),
    Reg(Reg),
}

/// Where a value to be written into storage came from.
pub enum Written {
    /// Already SNBT: `set value` takes it as it is.
    Const(Seq<char>),
    Reg(Reg),
    /// A path to copy from, for a composite.
    Data(Seq<char>),
}

pub open spec fn copy_into(cx: Lx, dst: Reg, value: Value) -> Lx {
    match value {
        Value::Const(n) => cx.emit(Inst::Const(dst, n)),
        Value::Reg(src) => cx.emit(Inst::Op(dst, Op::Assign, src)),
    }
}

/// Puts a value in a register, spending a command only if it was a constant.
pub open spec fn materialise(cx: Lx, value: Value) -> (Lx, Reg) {
    match value {
        Value::Reg(reg) => (cx, reg),
        Value::Const(n) => {
            let (cx1, dst) = cx.temp();
            (cx1.emit(Inst::Const(dst, n)), dst)
        },
    }
}

/// A comparison against a constant becomes a `matches` range, which is one command rather
/// than two. Ranges cannot express every bound without overflowing, so the general path
/// stays available.
#[verifier::opaque]
pub open spec fn compare_into(cx: Lx, dst: Reg, op: BinaryOp, lhs: Value, rhs: Value) -> Lx {
    match (lhs, rhs) {
        (Value::Reg(src), Value::Const(n)) => match range_for(op, n) {
            Some((min, max, negated)) => cx.emit(Inst::Matches(dst, src, min, max, negated)),
            None => compare_regs(cx, dst, op, lhs, rhs),
        },
        _ => compare_regs(cx, dst, op, lhs, rhs),
    }
}

pub open spec fn compare_regs(cx: Lx, dst: Reg, op: BinaryOp, lhs: Value, rhs: Value) -> Lx {
    let (cx1, l) = materialise(cx, lhs);
    let (cx2, r) = materialise(cx1, rhs);
    let (by, negated) = comparison(op);
    cx2.emit(Inst::Cmp(dst, by, negated, l, r))
}

/// Arithmetic on a register. `players add` and `remove` exist for constants, so they are
/// what is used.
#[verifier::opaque]
pub open spec fn apply(cx: Lx, dst: Reg, op: BinaryOp, value: Value) -> Lx {
    match (op, value) {
        (BinaryOp::Add, Value::Const(n)) => cx.emit(Inst::AddConst(dst, n)),
        (BinaryOp::Sub, Value::Const(n)) => cx.emit(Inst::AddConst(dst, wrapped_neg(n))),
        _ => {
            let (cx1, src) = materialise(cx, value);
            cx1.emit(Inst::Op(dst, arith(op), src))
        },
    }
}

/// A generated function whose whole body is one macro line.
#[verifier::opaque]
pub open spec fn macro_helper(env: Env, cx: Lx, kind: Seq<char>, inst: Inst) -> (Lx, Seq<char>) {
    let path = cx.next_path(kind);
    (
        cx.counted().record(
            env.function.id,
            path,
            seq![Inst::Macro(Box::new(inst))],
            seq![],
        ),
        path,
    )
}

/// A path split into the compound that holds it and the key inside, which is the form
/// `execute if data` needs to match a value. A path that does not end in a key is copied
/// aside first.
#[verifier::opaque]
pub open spec fn filterable(cx: Lx, path: Seq<char>) -> (Lx, Seq<char>, Seq<char>) {
    let at = rfind(path, '.', path.len() as int);
    if 0 <= at && !(path.len() > at + 1 && path.last() == ']') {
        (cx, path.take(at), path.skip(at + 1))
    } else {
        let (cx1, temp) = cx.data_temp();
        let cut = rfind(temp, '.', temp.len() as int);
        (
            cx1.emit(Inst::CopyData(temp, path)),
            if 0 <= cut {
                temp.take(cut)
            } else {
                seq![]
            },
            temp.skip(cut + 1),
        )
    }
}

// Control transfers.

/// `break`, `continue` and `return` all leave the same way: record why in the control
/// register, then return. Only `return` survives past the enclosing loop. At the top of a
/// body that runs once per entity, returning already is going to the next one.
#[verifier::opaque]
pub open spec fn jump(env: Env, cx: Lx, code: i32) -> Lx {
    if code == CTL_CONTINUE && cx.body_root {
        cx.emit(Inst::Return(0))
    } else {
        cx.touch_ctl().emit(Inst::Const(ctl_reg(env.function), code)).emit(Inst::Return(0))
    }
}

/// A test for the control codes from `min` to `max`.
pub open spec fn ctl_is(env: Env, min: i32, max: Option<i32>) -> Cond {
    Cond::Matches(ctl_reg(env.function), Some(min), max, false)
}

/// Hands a control transfer upwards. Inside a generated block that means returning so the
/// parent's own guard sees it. At a function's top level a pending `return` becomes the
/// real one.
#[verifier::opaque]
pub open spec fn propagate(env: Env, cx: Lx) -> Lx {
    if !cx.top_level {
        cx.touch_ctl().emit(
            Inst::Guarded(ctl_is(env, CTL_BREAK, None), Box::new(Inst::Return(0))),
        )
    } else {
        let inst = match env.function.ret {
            Some(_) => Inst::ReturnRun(Box::new(Inst::Get(ret_reg(env.function)))),
            None => Inst::Return(0),
        };
        cx.touch_ctl().emit(
            Inst::Guarded(ctl_is(env, CTL_RETURN, Some(CTL_RETURN)), Box::new(inst)),
        )
    }
}

/// Clears one control code, because this is the construct it was meant for.
#[verifier::opaque]
pub open spec fn consume(env: Env, cx: Lx, code: i32) -> Lx {
    cx.touch_ctl().emit(
        Inst::Guarded(
            ctl_is(env, code, Some(code)),
            Box::new(Inst::Const(ctl_reg(env.function), CTL_NORMAL)),
        ),
    )
}

// Frames.

/// A place a frame has to be saved from and restored to. Two, because a function's state
/// is in two places: numbers are registers, composites are storage paths.
pub enum Slot {
    Score(Reg),
    Data(Seq<char>),
}

pub open spec fn local_slot(f: HirFunction, local: LocalId) -> Slot {
    if local_of(f, local).ty.storage() {
        Slot::Data(local_path(f, local))
    } else {
        Slot::Score(local_reg(f, local))
    }
}

/// Everything this function might still need after a call comes back: every local that
/// holds something, and every temporary handed out so far.
pub open spec fn live_slots(env: Env, cx: Lx) -> Seq<Slot> {
    Seq::new(cx.initialised.len(), |i: int| local_slot(env.function, cx.initialised[i]))
        + Seq::new(cx.used.len(), |i: int| Slot::Score(cx.used[i])) + Seq::new(
        cx.used_data.len(),
        |i: int| Slot::Data(cx.used_data[i]),
    )
}

pub open spec fn save(slot: Slot, i: int) -> Inst {
    match slot {
        Slot::Score(reg) => Inst::Save(reg, i as u32),
        Slot::Data(path) => Inst::SaveData(path, i as u32),
    }
}

pub open spec fn restore(slot: Slot, i: int) -> Inst {
    match slot {
        Slot::Score(reg) => Inst::Restore(reg, i as u32),
        Slot::Data(path) => Inst::RestoreData(path, i as u32),
    }
}

pub open spec fn saves(slots: Seq<Slot>) -> Seq<Inst> {
    Seq::new(slots.len(), |i: int| save(slots[i], i))
}

pub open spec fn restores(slots: Seq<Slot>) -> Seq<Inst> {
    Seq::new(slots.len(), |i: int| restore(slots[i], i))
}

// Composite values.

/// The value as SNBT, with a placeholder wherever it is not known until runtime. The key
/// has to be in the compound either way, and the store that follows overwrites it.
#[verifier::opaque]
pub open spec fn snbt(t: Types, value: Expr, tag: Option<NbtTag>) -> Seq<char>
    decreases value, 0int, 0int,
{
    let suffix = tag_suffix(tag);
    match value.kind {
        Kind::Int(n) => int_text(n as int) + suffix,
        Kind::Str(text) => quote(text),
        Kind::Nbt(text) => text,
        Kind::Bool(b) => (if b {
            "1"@
        } else {
            "0"@
        }) + suffix,
        Kind::Struct(id, fields) => "{"@ + join(
            members(t, struct_fields(t, value), fields, 0),
            ","@,
        ) + "}"@,
        Kind::List(elem, values) => "["@ + join(elements(t, values, 0, default_tag(elem)), ","@)
            + "]"@,
        // The tag comes first, as vanilla's own compounds read.
        Kind::Enum(id, variant, fields) => "{"@ + join(
            seq!["tag:\""@ + variant_name(t, Type::Enum(id), variant) + "\""@] + members(
                t,
                struct_fields(t, value),
                fields,
                0,
            ),
            ","@,
        ) + "}"@,
        _ => match value.ty {
            Type::Struct(_) => "{}"@,
            Type::Enum(_) => "{}"@,
            Type::Vec(_) => "[]"@,
            Type::Str => "\"\""@,
            _ => "0"@ + suffix,
        },
    }
}

#[verifier::opaque]
pub open spec fn elements(t: Types, values: Seq<Expr>, i: int, tag: Option<NbtTag>) -> Seq<Seq<char>>
    decreases values, values.len() - i, 1int,
{
    if i < 0 || i >= values.len() {
        seq![]
    } else {
        seq![snbt(t, values[i], tag)] + elements(t, values, i + 1, tag)
    }
}

/// The entries of a compound, one per field.
#[verifier::opaque]
pub open spec fn members(t: Types, declared: Seq<Field>, values: Seq<Expr>, i: int) -> Seq<Seq<char>>
    decreases values, values.len() - i, 1int,
{
    if i < 0 || i >= values.len() || i >= declared.len() {
        seq![]
    } else {
        seq![declared[i].nbt + ":"@ + snbt(t, values[i], declared[i].tag)] + members(
            t,
            declared,
            values,
            i + 1,
        )
    }
}

/// The declared fields a composite literal has values for.
pub open spec fn struct_fields(t: Types, value: Expr) -> Seq<Field> {
    match value.kind {
        Kind::Struct(id, _) => match struct_of(t, id) {
            Some(def) => def.fields,
            None => seq![],
        },
        Kind::Enum(id, variant, _) => match enum_of(t, id) {
            Some(def) => if variant < def.variants.len() {
                def.variants[variant as int].fields
            } else {
                seq![]
            },
            None => seq![],
        },
        _ => seq![],
    }
}

/// The tag string a variant of an enum is stored under.
pub open spec fn variant_name(t: Types, ty: Type, variant: u32) -> Seq<char> {
    match ty {
        Type::Enum(id) => match enum_of(t, id) {
            Some(def) => if variant < def.variants.len() {
                def.variants[variant as int].name
            } else {
                seq![]
            },
            None => seq![],
        },
        _ => seq![],
    }
}

/// Writes a composite value to `path`. One `set value` puts everything that is known now
/// in place, and only the fields that are not get a command of their own.
#[verifier::opaque]
pub open spec fn store_struct(env: Env, cx: Lx, path: Seq<char>, value: Expr) -> Lx
    decreases value, 0int, 9int,
{
    match value.kind {
        Kind::Struct(_, _) => write_runtime_fields(
            env,
            cx.emit(Inst::SetValue(path, snbt(env.types, value, None))),
            path,
            value,
        ),
        Kind::Enum(_, _, _) => write_runtime_fields(
            env,
            cx.emit(Inst::SetValue(path, snbt(env.types, value, None))),
            path,
            value,
        ),
        Kind::List(_, _) => write_runtime_fields(
            env,
            cx.emit(Inst::SetValue(path, snbt(env.types, value, None))),
            path,
            value,
        ),
        Kind::Nbt(text) => cx.emit(Inst::SetValue(path, text)),
        Kind::Binary(op, lhs, rhs) => if op is Add {
            concat_into(env, cx, path, value)
        } else {
            cx.unsupported("storing this value"@)
        },
        Kind::Slice(place, start, end) => check_root(cx, place).emit(
            Inst::SetString(path, place_path(env.function, place), start, end),
        ),
        Kind::Str(text) => cx.emit(Inst::SetValue(path, quote(text))),
        Kind::Local(local) => cx.emit(Inst::CopyData(path, local_path(env.function, local))),
        Kind::Field(place) => {
            let cx1 = check_root(cx, place);
            let src = place_path(env.function, place);
            match runtime_index(place) {
                None => cx1.emit(Inst::CopyData(path, src)),
                Some(index) => {
                    let (cx2, helper) = macro_helper(
                        env,
                        cx1,
                        "index"@,
                        Inst::CopyData(path, spliced(src)),
                    );
                    write_index_arg(env, cx2, index).emit(Inst::CallWithArgs(helper))
                },
            }
        },
        Kind::AsNbt(inner, scale) => {
            let (cx1, src) = scalar_source(env, cx, *inner);
            cx1.emit(
                Inst::StoreScaled(
                    path,
                    stored_tag(default_tag(value.ty)).keyword_text(),
                    scale,
                    Box::new(Inst::Get(src)),
                ),
            )
        },
        _ => cx.unsupported("storing this value"@),
    }
}

/// The register a converted value is in. A score binding is already one; copying it into
/// a temporary first would be a command spent on nothing.
#[verifier::opaque]
pub open spec fn scalar_source(env: Env, cx: Lx, inner: Expr) -> (Lx, Reg)
    decreases inner, 0int, 11int,
{
    let held = match inner.kind {
        Kind::Field(place) => if place.steps.len() == 0 && !place.ty.storage() {
            Some(place)
        } else {
            None
        },
        _ => None,
    };
    match held {
        Some(place) => (check_root(cx, place), place_reg(env.function, place)),
        None => {
            let (cx1, v) = expr(env, cx, inner);
            materialise(cx1, v)
        },
    }
}

/// Writes the fields `snbt` could only leave a placeholder for.
#[verifier::opaque]
pub open spec fn write_runtime_fields(env: Env, cx: Lx, path: Seq<char>, value: Expr) -> Lx
    decreases value, 0int, 7int,
{
    match value.kind {
        Kind::List(elem, values) => write_elements(env, cx, path, elem, values, 0),
        Kind::Struct(_, fields) => write_fields(
            env,
            cx,
            path,
            struct_fields(env.types, value),
            fields,
            0,
        ),
        Kind::Enum(_, _, fields) => write_fields(
            env,
            cx,
            path,
            struct_fields(env.types, value),
            fields,
            0,
        ),
        _ => cx,
    }
}

/// Writes what of a value inside a literal was not known when the literal was written: a
/// number, a text or an NBT literal is in place already, and of a composite literal only
/// the parts that were not known are left.
#[verifier::opaque]
pub open spec fn write_rest(
    env: Env,
    cx: Lx,
    path: Seq<char>,
    ty: Type,
    tag: Option<NbtTag>,
    value: Expr,
) -> Lx
    decreases value, 0int, 13int,
{
    match value.kind {
        Kind::Int(_) => cx,
        Kind::Bool(_) => cx,
        Kind::Str(_) => cx,
        Kind::Nbt(_) => cx,
        Kind::Struct(_, _) => write_runtime_fields(env, cx, path, value),
        Kind::Enum(_, _, _) => write_runtime_fields(env, cx, path, value),
        Kind::List(_, _) => write_runtime_fields(env, cx, path, value),
        _ => if ty.storage() {
            store_struct(env, cx, path, value)
        } else {
            write_scalar(env, cx, path, tag, value)
        },
    }
}

/// The elements of a list literal from the `i`th on.
#[verifier::opaque]
pub open spec fn write_elements(
    env: Env,
    cx: Lx,
    path: Seq<char>,
    elem: Type,
    values: Seq<Expr>,
    i: int,
) -> Lx
    decreases values, values.len() - i, 8int,
{
    if i < 0 || i >= values.len() {
        cx
    } else {
        let here = path + "["@ + nat_text(i as nat) + "]"@;
        let cx1 = write_rest(env, cx, here, elem, default_tag(elem), values[i]);
        write_elements(env, cx1, path, elem, values, i + 1)
    }
}

/// The fields of a composite literal from the `i`th on.
#[verifier::opaque]
pub open spec fn write_fields(
    env: Env,
    cx: Lx,
    path: Seq<char>,
    declared: Seq<Field>,
    values: Seq<Expr>,
    i: int,
) -> Lx
    decreases values, values.len() - i, 8int,
{
    if i < 0 || i >= values.len() || i >= declared.len() {
        cx
    } else {
        let here = path + "."@ + declared[i].nbt;
        let cx1 = write_rest(env, cx, here, declared[i].ty, declared[i].tag, values[i]);
        write_fields(env, cx1, path, declared, values, i + 1)
    }
}

/// Writes a number into storage.
#[verifier::opaque]
pub open spec fn write_scalar(
    env: Env,
    cx: Lx,
    path: Seq<char>,
    tag: Option<NbtTag>,
    value: Expr,
) -> Lx
    decreases value, 0int, 12int,
{
    let (cx1, v) = expr(env, cx, value);
    let (cx2, src) = materialise(cx1, v);
    cx2.emit(Inst::StoreData(path, stored_tag(tag).keyword_text(), Box::new(Inst::Get(src))))
}

/// One side of a `+` on strings: the text it adds to the macro line, and whether that is
/// a substitution.
#[verifier::opaque]
pub open spec fn concat_side(env: Env, cx: Lx, side: Expr, name: Seq<char>) -> (
    Lx,
    Seq<char>,
    bool,
)
    decreases side, 0int, 13int,
{
    match side.kind {
        Kind::Str(text) => (cx, escape(text), false),
        _ => match expr_or_copy(env, cx, Type::Str, side) {
            (cx1, Written::Data(src)) => (
                cx1.emit(Inst::CopyData("mw.args."@ + name, src)),
                "$("@ + name + ")"@,
                true,
            ),
            (cx1, _) => (cx1, seq![], true),
        },
    }
}

/// `a + b` on strings: one macro line, with every literal part already in it. Two literals
/// joined is still a literal: nothing has to be substituted.
#[verifier::opaque]
pub open spec fn concat_into(env: Env, cx: Lx, path: Seq<char>, value: Expr) -> Lx
    decreases value, 0int, 8int,
{
    match value.kind {
        Kind::Binary(_, lhs, rhs) => {
            let (cx1, a, a_spliced) = concat_side(env, cx, *lhs, "a"@);
            let (cx2, b, b_spliced) = concat_side(env, cx1, *rhs, "b"@);
            let write = Inst::SetValue(path, "\""@ + a + b + "\""@);
            if !a_spliced && !b_spliced {
                cx2.emit(write)
            } else {
                let (cx3, helper) = macro_helper(env, cx2, "concat"@, write);
                cx3.emit(Inst::CallWithArgs(helper))
            }
        },
        _ => cx,
    }
}

/// Evaluates a value into whatever a storage write can take: a literal, a register or a
/// path to copy from.
#[verifier::opaque]
pub open spec fn expr_or_copy(env: Env, cx: Lx, ty: Type, value: Expr) -> (Lx, Written)
    decreases value, 0int, 12int,
{
    if !ty.storage() {
        match expr(env, cx, value) {
            (cx1, Value::Const(n)) => (
                cx1,
                Written::Const(int_text(n as int) + tag_suffix(default_tag(ty))),
            ),
            (cx1, Value::Reg(src)) => (cx1, Written::Reg(src)),
        }
    } else {
        let known = match value.kind {
            Kind::Field(place) => is_static(place),
            _ => false,
        };
        match value.kind {
            Kind::Str(text) => (cx, Written::Const(quote(text))),
            Kind::Local(local) => (cx, Written::Data(local_path(env.function, local))),
            _ => if known {
                let place = value.kind->Field_0;
                (check_root(cx, place), Written::Data(place_path(env.function, place)))
            } else {
                // A composite that is not already somewhere: build it aside, then copy.
                let (cx1, temp) = cx.data_temp();
                (store_struct(env, cx1, temp, value), Written::Data(temp))
            },
        }
    }
}

/// `s == "lit"` and `s == other`. Vanilla can only ask whether a path *holds* a value, so
/// the comparison is a path match. A literal goes into the match as it is written; another
/// string has to be spliced in, which is what makes that case a macro.
#[verifier::opaque]
pub open spec fn string_compare(env: Env, cx: Lx, e: Expr, into: Option<Reg>) -> (Lx, Value)
    decreases e, 0int, 8int,
{
    match e.kind {
        Kind::Binary(op, lhs, rhs) => {
            let negated = op is Ne;
            let (cx1, l) = expr_or_copy(env, cx, Type::Str, *lhs);
            let (cx2, r) = expr_or_copy(env, cx1, Type::Str, *rhs);
            match (l, r) {
                (Written::Const(a), Written::Const(b)) => (
                    cx2,
                    Value::Const(
                        if (a == b) != negated {
                            1i32
                        } else {
                            0i32
                        },
                    ),
                ),
                _ => {
                    let (cx3, dst) = match into {
                        Some(dst) => (cx2, dst),
                        None => cx2.temp(),
                    };
                    let (path, other) = match (l, r) {
                        (Written::Data(path), other) => (path, other),
                        (other, Written::Data(path)) => (path, other),
                        (other, _) => (seq![], other),
                    };
                    let (cx4, parent, key) = filterable(cx3, path);
                    (string_match(env, cx4, dst, parent, key, other, negated), Value::Reg(dst))
                },
            }
        },
        _ => (cx, Value::Const(0)),
    }
}

/// Stores whether the key holds the other string.
#[verifier::opaque]
pub open spec fn string_match(
    env: Env,
    cx: Lx,
    dst: Reg,
    parent: Seq<char>,
    key: Seq<char>,
    other: Written,
    negated: bool,
) -> Lx {
    match other {
        Written::Const(text) => cx.emit(
            Inst::StoreCond(
                dst,
                Cond::Data(parent, "{"@ + key + ":"@ + text + "}"@, negated),
            ),
        ),
        Written::Data(src) => {
            let (cx1, helper) = macro_helper(
                env,
                cx,
                "streq"@,
                Inst::StoreCond(
                    dst,
                    Cond::Data(parent, "{"@ + key + ":\"$(s)\"}"@, negated),
                ),
            );
            cx1.emit(Inst::CopyData("mw.args.s"@, src)).emit(Inst::CallWithArgs(helper))
        },
        Written::Reg(_) => cx,
    }
}

/// The read of a path, in `scale`ths of a unit.
pub open spec fn read_of(path: Seq<char>, scale: u32) -> Inst {
    if scale == 1 {
        Inst::GetData(path)
    } else {
        Inst::GetScaled(path, scale)
    }
}

/// Reads a scalar out of storage into `dst`, through a macro if the path needs one. A list
/// read this way gives its element count, which is what `len` is. A scalar binding lives
/// on the scoreboard, borrowed or not: there is nothing in storage to read.
#[verifier::opaque]
pub open spec fn read_place_scaled(env: Env, cx: Lx, dst: Reg, place: Place, scale: u32) -> Lx
    decreases place, 0int, 5int,
{
    let cx0 = check_root(cx, place);
    if place.steps.len() == 0 && !place.ty.storage() {
        cx0.emit(Inst::Op(dst, Op::Assign, place_reg(env.function, place)))
    } else {
        let path = place_path(env.function, place);
        match runtime_index(place) {
            None => cx0.emit(Inst::StoreResult(dst, Box::new(read_of(path, scale)))),
            Some(index) => {
                let (cx1, helper) = macro_helper(
                    env,
                    cx0,
                    "index"@,
                    Inst::ReturnRun(Box::new(read_of(spliced(path), scale))),
                );
                write_index_arg(env, cx1, index).emit(
                    Inst::StoreResult(dst, Box::new(Inst::CallWithArgs(helper))),
                )
            },
        }
    }
}

/// Writes the index a macro helper will splice into its path.
#[verifier::opaque]
pub open spec fn write_index_arg(env: Env, cx: Lx, index: Expr) -> Lx
    decreases index, 0int, 16int,
{
    let (cx1, v) = expr(env, cx, index);
    let (cx2, src) = materialise(cx1, v);
    cx2.emit(Inst::StoreData("mw.args.i"@, "int"@, Box::new(Inst::Get(src))))
}

// Expressions.

#[verifier::opaque]
pub open spec fn expr(env: Env, cx: Lx, e: Expr) -> (Lx, Value)
    decreases e, 0int, 10int,
{
    match e.kind {
        Kind::Int(n) => (cx, Value::Const(n)),
        Kind::Bool(b) => (
            cx,
            Value::Const(
                if b {
                    1i32
                } else {
                    0i32
                },
            ),
        ),
        Kind::Local(local) => (cx, Value::Reg(local_reg(env.function, local))),
        Kind::Unary(op, operand) => {
            let (cx1, v) = expr(env, cx, *operand);
            unary(cx1, op, v)
        },
        Kind::Binary(_, _, _) => binary(env, cx, e),
        Kind::Call(callee, args) => {
            let cx0 = check_callee(env, cx, callee, e.span);
            let (cx1, result) = call(env, cx0, callee, args, true);
            (cx1, Value::Reg(result))
        },
        // A command as an expression is a command that ran; its value is not captured.
        Kind::Command(text) => (cx.emit(Inst::Raw(text, e.span)), Value::Const(1)),
        // Reading a scalar out of storage: one command, straight into a register.
        Kind::Field(place) => {
            let (cx1, dst) = cx.temp();
            (read_place_scaled(env, cx1, dst, place, 1), Value::Reg(dst))
        },
        Kind::Len(place) => {
            let (cx1, dst) = cx.temp();
            (read_place_scaled(env, cx1, dst, place, 1), Value::Reg(dst))
        },
        Kind::ReadScaled(place, scale) => {
            let (cx1, dst) = cx.temp();
            (read_place_scaled(env, cx1, dst, place, scale), Value::Reg(dst))
        },
        _ => (cx.unsupported("using this value as a number"@), Value::Const(0)),
    }
}

#[verifier::opaque]
pub open spec fn unary(cx: Lx, op: UnaryOp, value: Value) -> (Lx, Value) {
    match op {
        UnaryOp::Neg => {
            let (cx1, dst) = cx.temp();
            let (cx2, src) = materialise(cx1.emit(Inst::Const(dst, 0)), value);
            (cx2.emit(Inst::Op(dst, Op::Sub, src)), Value::Reg(dst))
        },
        UnaryOp::Not => {
            let (cx1, src) = materialise(cx, value);
            let (cx2, dst) = cx1.temp();
            (cx2.emit(Inst::Matches(dst, src, Some(0), Some(0), false)), Value::Reg(dst))
        },
    }
}

/// An operator between two values. With a call on the right of `&&` or `||`,
/// short-circuiting is observable, so it has to actually happen.
#[verifier::opaque]
pub open spec fn binary(env: Env, cx: Lx, e: Expr) -> (Lx, Value)
    decreases e, 0int, 9int,
{
    match e.kind {
        Kind::Binary(op, lhs, rhs) => if lhs.ty is Str {
            string_compare(env, cx, e, None)
        } else if (op is And || op is Or) && !is_pure(*rhs) {
            let (cx1, l) = expr(env, cx, *lhs);
            let (cx2, dst) = cx1.temp();
            let cx3 = copy_into(cx2, dst, l);
            let wanted = if op is And {
                1i32
            } else {
                0i32
            };
            let name = if op is And {
                "and"@
            } else {
                "or"@
            };
            let (cx4, path) = split_expr(env, cx3, name, dst, *rhs);
            (
                cx4.emit(
                    Inst::Guarded(
                        Cond::Matches(dst, Some(wanted), Some(wanted), false),
                        Box::new(Inst::Call(path)),
                    ),
                ),
                Value::Reg(dst),
            )
        } else {
            let (cx1, l) = expr(env, cx, *lhs);
            let (cx2, r) = expr(env, cx1, *rhs);
            let (cx3, dst) = cx2.temp();
            (
                if is_comparison(op) {
                    compare_into(cx3, dst, op, l, r)
                } else {
                    apply(copy_into(cx3, dst, l), dst, op, r)
                },
                Value::Reg(dst),
            )
        },
        _ => (cx, Value::Const(0)),
    }
}

/// Splits an expression into its own function, evaluated into `dst`. Used for the
/// right-hand side of a short-circuiting operator.
#[verifier::opaque]
pub open spec fn split_expr(env: Env, cx: Lx, kind: Seq<char>, dst: Reg, e: Expr) -> (
    Lx,
    Seq<char>,
)
    decreases e, 0int, 15int,
{
    let path = cx.next_path(kind);
    let outer = cx.counted();
    let (inner, v) = expr(env, outer.child(path), e);
    (outer.close(env.function.id, path, copy_into(inner, dst, v)), path)
}

/// Evaluates an expression directly into `dst` where the command already writes somewhere.
/// Safe even when `dst` is also an operand: the condition is evaluated before the store.
#[verifier::opaque]
pub open spec fn expr_into(env: Env, cx: Lx, dst: Reg, e: Expr) -> Lx
    decreases e, 0int, 12int,
{
    match e.kind {
        Kind::Binary(op, lhs, rhs) => if lhs.ty is Str {
            match string_compare(env, cx, e, Some(dst)) {
                (cx1, Value::Const(n)) => copy_into(cx1, dst, Value::Const(n)),
                (cx1, Value::Reg(_)) => cx1,
            }
        } else if is_comparison(op) {
            let (cx1, l) = expr(env, cx, *lhs);
            let (cx2, r) = expr(env, cx1, *rhs);
            compare_into(cx2, dst, op, l, r)
        } else {
            let (cx1, v) = expr(env, cx, e);
            copy_into(cx1, dst, v)
        },
        Kind::Unary(op, operand) => if op is Not {
            let (cx1, v) = expr(env, cx, *operand);
            let (cx2, src) = materialise(cx1, v);
            cx2.emit(Inst::Matches(dst, src, Some(0), Some(0), false))
        } else {
            let (cx1, v) = expr(env, cx, e);
            copy_into(cx1, dst, v)
        },
        Kind::Field(place) => if !e.ty.storage() {
            read_place_scaled(env, cx, dst, place, 1)
        } else {
            let (cx1, v) = expr(env, cx, e);
            copy_into(cx1, dst, v)
        },
        Kind::Len(place) => read_place_scaled(env, cx, dst, place, 1),
        Kind::ReadScaled(place, scale) => read_place_scaled(env, cx, dst, place, scale),
        _ => {
            let (cx1, v) = expr(env, cx, e);
            copy_into(cx1, dst, v)
        },
    }
}

/// Writes a value into `dst`, applying the operator first for a compound assignment.
#[verifier::opaque]
pub open spec fn store(env: Env, cx: Lx, dst: Reg, op: Option<BinaryOp>, value: Expr) -> Lx
    decreases value, 0int, 13int,
{
    match op {
        None => expr_into(env, cx, dst, value),
        Some(op) => {
            let (cx1, v) = expr(env, cx, value);
            apply(cx1, dst, op, v)
        },
    }
}

/// A condition, written straight into the `execute` where possible.
#[verifier::opaque]
pub open spec fn cond(env: Env, cx: Lx, e: Expr) -> (Lx, Cond)
    decreases e, 0int, 14int,
{
    match e.kind {
        Kind::Unary(op, inner) => if op is Not {
            let (cx1, c) = cond(env, cx, *inner);
            (cx1, negation(c))
        } else {
            truth(env, cx, e)
        },
        Kind::Binary(op, lhs, rhs) => if is_comparison(op) && !(lhs.ty is Str) {
            let (cx1, l) = expr(env, cx, *lhs);
            let (cx2, r) = expr(env, cx1, *rhs);
            condition_of(cx2, op, l, r)
        } else {
            truth(env, cx, e)
        },
        _ => truth(env, cx, e),
    }
}

/// The test that a value is `true`.
#[verifier::opaque]
pub open spec fn truth(env: Env, cx: Lx, e: Expr) -> (Lx, Cond)
    decreases e, 0int, 11int,
{
    let (cx1, v) = expr(env, cx, e);
    let (cx2, src) = materialise(cx1, v);
    (cx2, Cond::Matches(src, Some(1), Some(1), false))
}

/// The test of a comparison.
#[verifier::opaque]
pub open spec fn condition_of(cx: Lx, op: BinaryOp, lhs: Value, rhs: Value) -> (Lx, Cond) {
    let range = match (lhs, rhs) {
        (Value::Reg(src), Value::Const(n)) => match range_for(op, n) {
            Some((min, max, negated)) => Some(Cond::Matches(src, min, max, negated)),
            None => None,
        },
        _ => None,
    };
    match range {
        Some(range) => (cx, range),
        None => {
            let (cx1, l) = materialise(cx, lhs);
            let (cx2, r) = materialise(cx1, rhs);
            let (by, negated) = comparison(op);
            (cx2, Cond::Score(l, by, r, negated))
        },
    }
}

/// The arguments evaluated from the `i`th on, with `acc` before them. A composite one is
/// written straight into the callee's storage path later: there is no register to hold it
/// in the meantime.
#[verifier::opaque]
pub open spec fn call_values(
    env: Env,
    cx: Lx,
    args: Seq<Expr>,
    i: int,
    acc: Seq<Option<Value>>,
) -> (Lx, Seq<Option<Value>>)
    decreases args, args.len() - i, 18int,
{
    if i < 0 || i >= args.len() {
        (cx, acc)
    } else if args[i].ty.storage() {
        call_values(env, cx, args, i + 1, acc.push(None))
    } else {
        let (cx1, v) = expr(env, cx, args[i]);
        call_values(env, cx1, args, i + 1, acc.push(Some(v)))
    }
}

/// The arguments written into the callee's parameters, from the `i`th on.
#[verifier::opaque]
pub open spec fn pass_values(
    env: Env,
    cx: Lx,
    callee: HirFunction,
    args: Seq<Expr>,
    values: Seq<Option<Value>>,
    i: int,
) -> Lx
    decreases args, args.len() - i, 18int,
{
    if i < 0 || i >= args.len() || i >= values.len() || i >= callee.params.len() {
        cx
    } else {
        let cx1 = match values[i] {
            Some(v) => copy_into(cx, local_reg(callee, callee.params[i]), v),
            None => store_struct(env, cx, local_path(callee, callee.params[i]), args[i]),
        };
        pass_values(env, cx1, callee, args, values, i + 1)
    }
}

/// A function that is left out cannot be called.
pub open spec fn check_callee(env: Env, cx: Lx, callee: FnId, span: Span) -> Lx {
    if callee.0 < env.functions.len() && left_out(env.functions[callee.0 as int], env.debug) {
        Lx {
            errs: cx.errs.push(
                Fault {
                    span,
                    message: "'"@ + env.functions[callee.0 as int].name
                        + "' is a test, and a release build leaves tests out"@,
                },
            ),
            ..cx
        }
    } else {
        cx
    }
}

/// A call, and where its result landed. Arguments are evaluated before anything is saved:
/// they are expressions in the caller's frame and must be read while it is intact. A call
/// that can come back to this function saves what it still needs, and restores it after.
#[verifier::opaque]
pub open spec fn call(env: Env, cx: Lx, callee: FnId, args: Seq<Expr>, want_result: bool) -> (
    Lx,
    Reg,
)
    decreases args, args.len() + 1, 20int,
{
    if callee.0 >= env.functions.len() {
        cx.temp()
    } else {
        let f = env.functions[callee.0 as int];
        let again = recursive(env.functions, env.function.id, callee);
        let (cx1, values) = call_values(env, cx, args, 0, seq![]);
        let slots = live_slots(env, cx1);
        let cx2 = if again {
            Lx { insts: cx1.insts.push(Inst::PushFrame) + saves(slots), ..cx1 }
        } else {
            cx1
        };
        let cx3 = pass_values(env, cx2, f, args, values, 0);
        let made = Inst::Call(f.path);
        // Allocated after the saves, so restoring cannot clobber it, and saved by the next
        // call that has to.
        let (cx4, result) = if want_result {
            cx3.temp()
        } else {
            (cx3, Reg { holder: seq![], kind: RegKind::Temp })
        };
        let cx5 = if want_result {
            cx4.emit(Inst::StoreResult(result, Box::new(made)))
        } else {
            cx4.emit(made)
        };
        let cx6 = if again {
            Lx { insts: (cx5.insts + restores(slots)).push(Inst::PopFrame), ..cx5 }
        } else {
            cx5
        };
        (cx6, result)
    }
}

// Statements.

pub open spec fn stmt_span(s: Stmt) -> Span {
    match s {
        Stmt::Raw(raw) => raw.span,
        Stmt::If(_, _, _, _, span) => span,
        Stmt::Loop(_, _, _, span) => span,
        Stmt::CallFor(_, _, span) => span,
        Stmt::Match(_, _, span) => span,
        Stmt::ForVec(_, _, _, span) => span,
        Stmt::Context(_, _, _, _, span) => span,
        Stmt::Break(span) => span,
        Stmt::Continue(span) => span,
        Stmt::Return(_, span) => span,
        Stmt::Let(_, _, span) => span,
        Stmt::Assert(_, _, span) => span,
        Stmt::Push(_, _, span) => span,
        Stmt::Assign(_, _, _, span) => span,
    }
}

/// What a check that fails says, to everyone.
pub open spec fn complaint(message: Option<Seq<char>>) -> Seq<char> {
    "tellraw @a {\"text\":"@ + quote(
        "minewell: "@ + match message {
            Some(message) => message,
            None => "a check failed"@,
        },
    ) + "}"@
}

/// The whole command, when nothing in it has to wait for runtime.
pub open spec fn raw_text(parts: Seq<RawPart>) -> Option<Seq<char>> {
    if parts.len() == 1 {
        match parts[0] {
            RawPart::Lit(text) => Some(text),
            RawPart::Value(_) => None,
        }
    } else {
        None
    }
}

#[verifier::opaque]
pub open spec fn stmts(env: Env, cx: Lx, body: Seq<Stmt>, i: int) -> Lx
    decreases body, body.len() - i, 6int,
{
    if i < 0 || i >= body.len() {
        cx
    } else {
        stmts(env, stmt(env, cx, body[i]), body, i + 1)
    }
}

#[verifier::opaque]
pub open spec fn stmt(env: Env, cx: Lx, s: Stmt) -> Lx
    decreases s, 0int, 5int,
{
    let cx = Lx { at: stmt_span(s), ..cx };
    match s {
        Stmt::Break(_) => jump(env, cx, CTL_BREAK),
        Stmt::Continue(_) => jump(env, cx, CTL_CONTINUE),
        Stmt::Return(value, _) => return_stmt(env, cx, value),
        Stmt::CallFor(callee, args, span) => call(
            env,
            check_callee(env, cx, callee, span),
            callee,
            args,
            false,
        ).0,
        Stmt::Context(_, _, _, _, _) => context_stmt(env, cx, s),
        Stmt::If(_, _, _, _, _) => if_stmt(env, cx, s),
        Stmt::Loop(_, _, _, _) => loop_stmt(env, cx, s),
        Stmt::ForVec(_, _, _, _) => for_vec(env, cx, s),
        Stmt::Match(_, _, _) => match_stmt(env, cx, s),
        Stmt::Raw(raw) => match raw_text(raw.parts) {
            Some(text) => cx.emit(Inst::Raw(text, raw.span)),
            None => cx.unsupported("a runtime value inside raw!"@),
        },
        Stmt::Let(local, value, _) => (if local_of(env.function, local).ty.storage() {
            store_struct(env, cx, local_path(env.function, local), value)
        } else {
            store(env, cx, local_reg(env.function, local), None, value)
        }).initialise(local),
        Stmt::Push(place, value, _) => push_into(env, cx, place, value),
        // Anything addressed through a step, and any composite, is in storage.
        Stmt::Assign(place, op, value, _) => if place.ty.storage() || place.steps.len() > 0 {
            assign_to_place(env, cx, s)
        } else {
            store(env, check_root(cx, place), place_reg(env.function, place), op, value)
        },
        // Nothing at all in a release build.
        Stmt::Assert(test, message, span) => if env.debug {
            let (cx1, c) = cond(env, cx, test);
            cx1.emit(
                Inst::Guarded(negation(c), Box::new(Inst::Raw(complaint(message), span))),
            )
        } else {
            cx
        },
    }
}

/// A `return`. From a generated block it cannot reach the caller by itself: it parks its
/// value, raises the control register, and lets the guards carry it out to the top.
#[verifier::opaque]
pub open spec fn return_stmt(env: Env, cx: Lx, value: Option<Expr>) -> Lx {
    match value {
        None => if cx.top_level {
            cx.emit(Inst::Return(0))
        } else {
            jump(env, cx, CTL_RETURN)
        },
        Some(e) => {
            let (cx1, v) = expr(env, cx, e);
            if cx1.top_level {
                match v {
                    Value::Const(n) => cx1.emit(Inst::Return(n)),
                    Value::Reg(src) => cx1.emit(Inst::ReturnRun(Box::new(Inst::Get(src)))),
                }
            } else {
                jump(env, copy_into(cx1, ret_reg(env.function), v), CTL_RETURN)
            }
        },
    }
}

/// `v.push(x)`.
#[verifier::opaque]
pub open spec fn push_into(env: Env, cx: Lx, place: Place, value: Expr) -> Lx {
    let cx0 = check_root(cx, place);
    let path = place_path(env.function, place);
    if runtime_index(place) is Some {
        cx0.emit(
            Inst::Raw(
                "# pushing into a list reached by a runtime index is not implemented"@,
                value.span,
            ),
        )
    } else {
        let elem = match place.ty {
            Type::Vec(id) => element_of(env.types, id),
            _ => Type::I32,
        };
        let tag = default_tag(elem);
        match expr_or_copy(env, cx0, elem, value) {
            (cx1, Written::Const(text)) => cx1.emit(Inst::AppendValue(path, text)),
            (cx1, Written::Data(src)) => cx1.emit(Inst::AppendFrom(path, src)),
            // The list has to grow before the value can be stored into its last slot.
            (cx1, Written::Reg(src)) => cx1.emit(
                Inst::AppendValue(path, "0"@ + tag_suffix(tag)),
            ).emit(
                Inst::StoreData(
                    path + "[-1]"@,
                    stored_tag(tag).keyword_text(),
                    Box::new(Inst::Get(src)),
                ),
            ),
        }
    }
}

/// Writes to something that lives in storage: a whole compound, or one field. A compound
/// assignment reads the field out, changes it and writes it back: vanilla has no
/// arithmetic on storage to shorten this with.
#[verifier::opaque]
pub open spec fn assign_in_storage(
    env: Env,
    cx: Lx,
    path: Seq<char>,
    ty: Type,
    tag: Option<NbtTag>,
    op: Option<BinaryOp>,
    value: Expr,
) -> Lx {
    if ty.storage() {
        store_struct(env, cx, path, value)
    } else {
        let (cx1, v) = match op {
            None => expr(env, cx, value),
            Some(_) => {
                let (cx1, acc) = cx.temp();
                (
                    store(
                        env,
                        cx1.emit(Inst::StoreResult(acc, Box::new(Inst::GetData(path)))),
                        acc,
                        op,
                        value,
                    ),
                    Value::Reg(acc),
                )
            },
        };
        match v {
            Value::Const(n) => cx1.emit(
                Inst::SetValue(path, int_text(n as int) + stored_tag(tag).suffix_text()),
            ),
            Value::Reg(src) => cx1.emit(
                Inst::StoreData(path, stored_tag(tag).keyword_text(), Box::new(Inst::Get(src))),
            ),
        }
    }
}

/// Writes through a place, which may need a macro to finish its path.
#[verifier::opaque]
pub open spec fn assign_to_place(env: Env, cx: Lx, s: Stmt) -> Lx {
    match s {
        Stmt::Assign(place, op, value, _) => {
            let cx0 = check_root(cx, place);
            let path = place_path(env.function, place);
            match runtime_index(place) {
                None => assign_in_storage(env, cx0, path, place.ty, place.tag, op, value),
                Some(index) => {
                    let (cx1, written) = indexed_value(env, cx0, path, index, place.ty, op, value);
                    let write = match written {
                        Written::Const(text) => Inst::SetValue(spliced(path), text),
                        Written::Reg(src) => Inst::StoreData(
                            spliced(path),
                            stored_tag(place.tag).keyword_text(),
                            Box::new(Inst::Get(src)),
                        ),
                        Written::Data(src) => Inst::CopyData(spliced(path), src),
                    };
                    let (cx2, helper) = macro_helper(env, cx1, "index"@, write);
                    write_index_arg(env, cx2, index).emit(Inst::CallWithArgs(helper))
                },
            }
        },
        _ => cx,
    }
}

/// What is written to an element reached by a runtime index. Read-modify-write reads
/// through a macro, does the arithmetic on the scoreboard, and writes back through another.
#[verifier::opaque]
pub open spec fn indexed_value(
    env: Env,
    cx: Lx,
    path: Seq<char>,
    index: Expr,
    ty: Type,
    op: Option<BinaryOp>,
    value: Expr,
) -> (Lx, Written) {
    match op {
        None => expr_or_copy(env, cx, ty, value),
        Some(_) => {
            let (cx1, acc) = cx.temp();
            let (cx2, read) = macro_helper(
                env,
                cx1,
                "index"@,
                Inst::ReturnRun(Box::new(Inst::GetData(spliced(path)))),
            );
            let cx3 = write_index_arg(env, cx2, index).emit(
                Inst::StoreResult(acc, Box::new(Inst::CallWithArgs(read))),
            );
            (store(env, cx3, acc, op, value), Written::Reg(acc))
        },
    }
}

/// Splits a statement list into its own function.
#[verifier::opaque]
pub open spec fn split(env: Env, cx: Lx, kind: Seq<char>, body: Seq<Stmt>) -> (Lx, Seq<char>)
    decreases body, body.len() + 1, 7int,
{
    let path = cx.next_path(kind);
    let outer = cx.counted();
    (outer.close(env.function.id, path, stmts(env, outer.child(path), body, 0)), path)
}

/// One statement that takes exactly one command needs no function of its own. Anything
/// longer is taken back, to be split out instead.
#[verifier::opaque]
pub open spec fn inlined(env: Env, cx: Lx, s: Stmt) -> (Lx, Option<Inst>)
    decreases s, 0int, 6int,
{
    let cx1 = stmt(env, cx, s);
    let before = cx.insts.len();
    (
        Lx { insts: kept(cx1.insts, before), ..cx1 },
        if cx1.insts.len() == before + 1 {
            Some(cx1.insts.last())
        } else {
            None
        },
    )
}

#[verifier::opaque]
pub open spec fn if_stmt(env: Env, cx: Lx, s: Stmt) -> Lx
    decreases s, 0int, 4int,
{
    match s {
        Stmt::If(test, taken, otherwise, inline, _) => {
            let escaping = match otherwise {
                Some(otherwise) => escapes(taken, 0).union(escapes(otherwise, 0)),
                None => escapes(taken, 0),
            };
            let (cx1, c) = cond(env, cx, test);
            let (cx2, one) = if otherwise is None && taken.len() == 1 && !escaping.any() && inline
                != Inline::Never {
                inlined(env, cx1, taken[0])
            } else {
                (cx1, None)
            };
            match one {
                Some(inst) => cx2.emit(Inst::Guarded(c, Box::new(inst))),
                None => {
                    let (cx3, path) = split(env, cx2, "if"@, taken);
                    let cx4 = cx3.emit(Inst::Guarded(c, Box::new(Inst::Call(path))));
                    let cx5 = match otherwise {
                        Some(otherwise) => {
                            let (cx5, other) = split(env, cx4, "else"@, otherwise);
                            cx5.emit(Inst::Guarded(negation(c), Box::new(Inst::Call(other))))
                        },
                        None => cx4,
                    };
                    if escaping.any() {
                        propagate(env, cx5)
                    } else {
                        cx5
                    }
                },
            }
        },
        _ => cx,
    }
}

/// The body of a loop. `continue` returns, and a return from the loop function would end
/// the loop, so a body with one gets its own function and the tail call still happens.
#[verifier::opaque]
pub open spec fn loop_body(env: Env, cx: Lx, body: Seq<Stmt>) -> Lx
    decreases body, body.len() + 1, 8int,
{
    if escapes(body, 0).continues {
        let (cx1, path) = split(env, cx, "body"@, body);
        propagate(env, consume(env, cx1.emit(Inst::Call(path)), CTL_CONTINUE))
    } else {
        stmts(env, cx, body, 0)
    }
}

/// What follows the call of a loop: the `break` that was meant for it is over, and a
/// `return` goes on.
pub open spec fn after_loop(env: Env, cx: Lx, escaping: Escapes) -> Lx {
    let cx1 = if escaping.breaks {
        consume(env, cx, CTL_BREAK)
    } else {
        cx
    };
    if escaping.returns {
        propagate(env, cx1)
    } else {
        cx1
    }
}

#[verifier::opaque]
pub open spec fn loop_stmt(env: Env, cx: Lx, s: Stmt) -> Lx
    decreases s, 0int, 4int,
{
    match s {
        Stmt::Loop(test, body, _, _) => {
            let path = cx.next_path(
                if test is Some {
                    "while"@
                } else {
                    "loop"@
                },
            );
            let outer = cx.counted();
            let inner = outer.child(path);
            let inner1 = match test {
                Some(test) => {
                    let (inner1, c) = cond(env, inner, test);
                    inner1.emit(Inst::Guarded(negation(c), Box::new(Inst::Return(0))))
                },
                None => inner,
            };
            let inner2 = loop_body(env, inner1, body).emit(Inst::Call(path));
            after_loop(
                env,
                outer.close(env.function.id, path, inner2).emit(Inst::Call(path)),
                escapes(body, 0),
            )
        },
        _ => cx,
    }
}

/// Reads a value out of storage into the binding it belongs to.
#[verifier::opaque]
pub open spec fn bind_local(env: Env, cx: Lx, local: LocalId, ty: Type, path: Seq<char>) -> Lx {
    if ty.storage() {
        cx.emit(Inst::CopyData(local_path(env.function, local), path))
    } else {
        cx.emit(
            Inst::StoreResult(local_reg(env.function, local), Box::new(Inst::GetData(path))),
        )
    }
}

/// `for x in v`: walk a copy, taking `[0]` each time. The index is always zero, so every
/// path is known while compiling and no macro is needed.
#[verifier::opaque]
pub open spec fn for_vec(env: Env, cx: Lx, s: Stmt) -> Lx
    decreases s, 0int, 4int,
{
    match s {
        Stmt::ForVec(source, binding, body, _) => {
            let (cx1, iter) = check_root(cx, source).iter_temp();
            let cx2 = cx1.emit(Inst::CopyData(iter, place_path(env.function, source)));
            let path = cx2.next_path("for"@);
            let outer = cx2.counted();
            let head = iter + "[0]"@;
            // Nothing left to take: the loop is over.
            let inner = outer.child(path).emit(
                Inst::Guarded(Cond::Data(head, seq![], true), Box::new(Inst::Return(0))),
            );
            let inner1 = bind_local(
                env,
                inner,
                binding,
                local_of(env.function, binding).ty,
                head,
            ).emit(Inst::RemoveData(head)).initialise(binding);
            let inner2 = loop_body(env, inner1, body).emit(Inst::Call(path));
            after_loop(
                env,
                outer.close(env.function.id, path, inner2).emit(Inst::Call(path)),
                escapes(body, 0),
            )
        },
        _ => cx,
    }
}

pub open spec fn context_name(kind: ContextKind) -> Seq<char> {
    match kind {
        ContextKind::As => "as"@,
        ContextKind::At => "at"@,
        ContextKind::For => "for"@,
        ContextKind::Positioned => "positioned"@,
    }
}

/// `as` / `at` / `for`: the body becomes a function, run once per entity. Nothing can stop
/// `execute as` partway through, so a `break` or `return` makes every later entity return
/// immediately instead.
#[verifier::opaque]
pub open spec fn context_stmt(env: Env, cx: Lx, s: Stmt) -> Lx
    decreases s, 0int, 4int,
{
    match s {
        Stmt::Context(kind, selector, body, inline, _) => if kind is Positioned {
            cx.unsupported("'positioned'"@)
        } else {
            let escaping = escapes(body, 0);
            let clause = if kind is At {
                ExecuteAs::At(selector.text)
            } else {
                ExecuteAs::As(selector.text)
            };
            let (cx1, one) = if body.len() == 1 && !escaping.any() && inline != Inline::Never {
                inlined(env, cx, body[0])
            } else {
                (cx, None)
            };
            match one {
                Some(inst) => cx1.emit(Inst::Context(clause, Box::new(inst))),
                None => {
                    let path = cx1.next_path(context_name(kind));
                    let outer = cx1.counted();
                    let inner = Lx { body_root: true, ..outer.child(path) };
                    let inner1 = if escaping.continues {
                        consume(env, inner, CTL_CONTINUE)
                    } else {
                        inner
                    };
                    let inner2 = if escaping.breaks || escaping.returns {
                        inner1.touch_ctl().emit(
                            Inst::Guarded(
                                ctl_is(env, CTL_BREAK, None),
                                Box::new(Inst::Return(0)),
                            ),
                        )
                    } else {
                        inner1
                    };
                    let inner3 = stmts(env, inner2, body, 0);
                    after_loop(
                        env,
                        outer.close(env.function.id, path, inner3).emit(
                            Inst::Context(clause, Box::new(Inst::Call(path))),
                        ),
                        escaping,
                    )
                },
            }
        },
        _ => cx,
    }
}

/// The payload copied into the bindings of an arm on the way in, from the `i`th on.
#[verifier::opaque]
pub open spec fn bind_payload(env: Env, cx: Lx, path: Seq<char>, bindings: Seq<Binding>, i: int) -> Lx
    decreases bindings.len() - i,
{
    if i < 0 || i >= bindings.len() {
        cx
    } else {
        let b = bindings[i];
        bind_payload(
            env,
            bind_local(env, cx, b.local, b.ty, path + "."@ + b.nbt).initialise(b.local),
            path,
            bindings,
            i + 1,
        )
    }
}

/// The arms of a `match`, from the `i`th on: one guarded call per arm. The tags are
/// exclusive, so nothing has to stop the others.
#[verifier::opaque]
pub open spec fn match_arms(
    env: Env,
    cx: Lx,
    arms: Seq<Arm>,
    i: int,
    ty: Type,
    path: Seq<char>,
    tested: Seq<char>,
    base: Seq<char>,
    covered: Seq<Seq<char>>,
) -> Lx
    decreases arms, arms.len() - i, 8int,
{
    if i < 0 || i >= arms.len() {
        cx
    } else {
        let arm = arms[i];
        let arm_path = cx.prefix + "/"@ + base + "/"@ + arm.path;
        let inner = stmts(
            env,
            bind_payload(env, cx.child(arm_path), path, arm.bindings, 0),
            arm.body,
            0,
        );
        let cx1 = cx.close(env.function.id, arm_path, inner);
        let called = Inst::Call(arm_path);
        let (cx2, covered1) = match arm.test {
            ArmTest::Variant(variant) => {
                let tag = variant_name(env.types, ty, variant);
                (
                    cx1.emit(
                        Inst::Guarded(
                            Cond::Data(tested, tag_filter(tag), false),
                            Box::new(called),
                        ),
                    ),
                    covered.push(tag),
                )
            },
            _ => (cx1.emit(Inst::Otherwise(tested, covered, Box::new(called))), covered),
        };
        match_arms(env, cx2, arms, i + 1, ty, path, tested, base, covered1)
    }
}

/// `match` on an enum. Guards run in order, and an arm is free to rewrite what is being
/// matched. Testing a copy taken on the way in is what keeps exactly one arm running.
#[verifier::opaque]
pub open spec fn match_stmt(env: Env, cx: Lx, s: Stmt) -> Lx
    decreases s, 0int, 4int,
{
    match s {
        Stmt::Match(Scrutinee::Place(place), arms, _) => if place.ty is Enum {
            let cx0 = check_root(cx, place);
            let path = place_path(env.function, place);
            let (cx1, tested) = cx0.data_temp();
            let cx2 = cx1.emit(Inst::CopyData(tested, path));
            let base = "match_"@ + nat_text(cx2.counter as nat);
            let cx3 = match_arms(
                env,
                cx2.counted(),
                arms,
                0,
                place.ty,
                path,
                tested,
                base,
                seq![],
            );
            if arms_escape(arms, 0).any() {
                propagate(env, cx3)
            } else {
                cx3
            }
        } else {
            cx.unsupported("matching on an option"@)
        },
        _ => cx.unsupported("matching on an option"@),
    }
}

// The program.

pub open spec fn fresh(cx: Lx, f: HirFunction) -> Lx {
    Lx {
        used: seq![],
        used_data: seq![],
        used_ctl: false,
        // Parameters arrive with values already in them, written by the caller.
        initialised: f.params,
        insts: seq![],
        generated: seq![],
        prefix: f.path,
        counter: 0,
        top_level: true,
        body_root: false,
        ..cx
    }
}

/// One function, and the functions split out of it. The control register outlives the
/// call: it is cleared on the way in, where its value can no longer mean anything.
#[verifier::opaque]
pub open spec fn lower_function(env: Env, cx: Lx) -> (Lx, Seq<Function>) {
    let f = env.function;
    let cx1 = stmts(env, fresh(cx, f), f.body, 0);
    let insts = if cx1.used_ctl {
        seq![Inst::Const(ctl_reg(f), CTL_NORMAL)] + cx1.insts
    } else {
        cx1.insts
    };
    (
        Lx { insts: seq![], generated: seq![], ..cx1 },
        seq![
            Function {
                id: f.id,
                path: f.path,
                attrs: f.attrs,
                blocks: seq![Block { id: BlockId(0), insts }],
            },
        ] + cx1.generated,
    )
}

/// Whether a function is left out: a test, in a release build.
pub open spec fn left_out(f: HirFunction, debug: bool) -> bool {
    !debug && crate::hir::rules::program::is_test(f.attrs, 0)
}

/// The functions from the `i`th on.
#[verifier::opaque]
pub open spec fn lower_functions(hir: Hir, debug: bool, cx: Lx, i: int, acc: Seq<Function>) -> (
    Lx,
    Seq<Function>,
)
    decreases hir.functions.len() - i,
{
    if i < 0 || i >= hir.functions.len() {
        (cx, acc)
    } else if left_out(hir.functions[i], debug) {
        lower_functions(hir, debug, cx, i + 1, acc)
    } else {
        let env = Env {
            functions: hir.functions,
            types: hir.types,
            function: hir.functions[i],
            debug,
        };
        let (cx1, made) = lower_function(env, cx);
        lower_functions(hir, debug, cx1, i + 1, acc + made)
    }
}

/// A whole program: its functions, and what of it cannot be lowered yet.
#[verifier::opaque]
pub open spec fn lowered(hir: Hir, debug: bool) -> (Seq<Function>, Seq<Fault>) {
    let start = Lx {
        scores: 0,
        data: 0,
        iters: 0,
        used: seq![],
        used_data: seq![],
        used_ctl: false,
        initialised: seq![],
        errs: seq![],
        at: Span { start: 0, end: 0 },
        insts: seq![],
        generated: seq![],
        prefix: seq![],
        counter: 0,
        top_level: true,
        body_root: false,
    };
    let (cx, functions) = lower_functions(hir, debug, start, 0, seq![]);
    (functions, cx.errs)
}

} // verus!

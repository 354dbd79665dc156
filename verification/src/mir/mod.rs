//! The mid-level intermediate representation: scoreboard registers and basic blocks.
//!
//! MIR is close enough to mcfunction that emitting is mechanical, and abstract enough
//! that register allocation and the inline-or-split decision belong here rather than in
//! the emitter.
//!
//! Every instruction corresponds to exactly one command. That is what lets the compiler
//! report what a function costs before it has emitted anything, and it is why choosing
//! `players set` over `operation =` for a constant lives here: it is not an optimisation,
//! it is picking the command the game provides for the job.

use vstd::prelude::*;

use crate::hir::{attrs_view, Attr, FnId};
use crate::syntax::lexer::Span;
use crate::text::texts;

mod calls;
mod lower;
pub mod flow;
pub mod frames;
pub mod graph;
pub mod growing;
pub mod meaning;
pub mod model;
pub mod rules;
pub mod running;
pub mod steps;
pub mod storing;
pub mod strings;

pub use lower::lower;

verus! {

#[derive(Debug, Clone, Copy, PartialEq, Eq, PartialOrd, Ord, Hash, Structural)]
pub struct BlockId(pub u32);

/// A scoreboard holder. Which objective it lives in is decided at emit time, where the
/// namespace is known.
#[derive(Debug, Clone, PartialEq, Eq, PartialOrd, Ord, Hash)]
pub struct Reg {
    pub holder: String,
    pub kind: RegKind,
}

impl Reg {
    pub open spec fn view(&self) -> model::Reg {
        model::Reg { holder: self.holder@, kind: self.kind }
    }

    pub(crate) fn copy(&self) -> (r: Reg)
        ensures
            r@ == self@,
    {
        Reg { holder: self.holder.clone(), kind: self.kind }
    }
}

#[derive(Debug, Clone, Copy, PartialEq, Eq, PartialOrd, Ord, Hash, Structural)]
pub enum RegKind {
    /// A binding the author wrote.
    Var,
    /// A compiler temporary.
    Temp,
}

#[derive(Debug, PartialEq, Eq)]
pub struct Mir {
    pub functions: Vec<Function>,
}

impl Mir {
    pub open spec fn view(&self) -> Seq<model::Function> {
        functions_view(self.functions@)
    }
}

#[derive(Debug, PartialEq, Eq)]
pub struct Function {
    pub id: FnId,
    /// The datapack id this is written to.
    pub path: String,
    pub attrs: Vec<Attr>,
    pub blocks: Vec<Block>,
}

impl Function {
    pub open spec fn view(&self) -> model::Function {
        model::Function {
            id: self.id,
            path: self.path@,
            attrs: attrs_view(self.attrs@),
            blocks: blocks_view(self.blocks@),
        }
    }

    pub fn entry(&self) -> (r: &Block)
        requires
            self@.blocks.len() > 0,
        ensures
            r@ == self@.blocks[0],
    {
        &self.blocks[0]
    }
}

#[derive(Debug, PartialEq, Eq)]
pub struct Block {
    pub id: BlockId,
    pub insts: Vec<Inst>,
}

impl Block {
    pub open spec fn view(&self) -> model::Block {
        model::Block { id: self.id, insts: insts_view(self.insts@) }
    }
}

/// One instruction, one command.
#[allow(inconsistent_fields)]
#[derive(Debug, PartialEq, Eq)]
pub enum Inst {
    /// A command to emit as written.
    Raw { text: String, span: Span },
    /// `scoreboard players set <dst> <value>`
    Const { dst: Reg, value: i32 },
    /// `scoreboard players add|remove <dst> <value>`
    AddConst { dst: Reg, value: i32 },
    /// `scoreboard players operation <dst> <op> <src>`
    Op { dst: Reg, op: Op, src: Reg },
    /// `execute store success score <dst> if|unless score <lhs> <cmp> <rhs>`
    Cmp { dst: Reg, cmp: Cmp, negated: bool, lhs: Reg, rhs: Reg },
    /// `execute store success score <dst> if|unless score <src> matches <min>..<max>`
    Matches { dst: Reg, src: Reg, min: Option<i32>, max: Option<i32>, negated: bool },
    /// `function <path>`
    Call { path: String },
    /// `execute store result score <dst> run <inst>`
    StoreResult { dst: Reg, inst: Box<Inst> },
    /// `scoreboard players get <src>`, whose result is the score.
    Get { src: Reg },
    /// `return run <inst>`
    ReturnRun { inst: Box<Inst> },
    /// `data modify storage <ns>:mw mw.stack append value {}`
    PushFrame,
    /// `data remove storage <ns>:mw mw.stack[-1]`
    PopFrame,
    /// Saves a register into the top frame under `slot`.
    Save { reg: Reg, slot: u32 },
    /// Reads a register back out of the top frame.
    Restore { reg: Reg, slot: u32 },
    /// Saves a value in storage into the top frame under `slot`.
    SaveData { path: String, slot: u32 },
    /// Reads a value in storage back out of the top frame.
    RestoreData { path: String, slot: u32 },
    /// `return <value>`
    Return { value: i32 },
    /// `data modify storage <ns>:mw <path> set value <snbt>`
    SetValue { path: String, value: String },
    /// `data modify storage <ns>:mw <dst> set from storage <ns>:mw <src>`
    CopyData { dst: String, src: String },
    /// `data get storage <ns>:mw <path>`, whose result is the value there.
    GetData { path: String },
    /// `data get storage <ns>:mw <path> <scale>`: the same read, in `scale`ths of a
    /// unit, which is how a `fix<S>` comes out of storage.
    GetScaled { path: String, scale: u32 },
    /// `data remove storage <ns>:mw <path>`
    RemoveData { path: String },
    /// `data modify storage <ns>:mw <path> append value <snbt>`
    AppendValue { path: String, value: String },
    /// `data modify storage <ns>:mw <dst> append from storage <ns>:mw <src>`
    AppendFrom { dst: String, src: String },
    /// `function <path> with storage <ns>:mw mw.args`
    CallWithArgs { path: String },
    /// A macro line: the same command with `$(i)` spliced into a path, which vanilla
    /// substitutes per call. Only ever the whole body of a generated helper, so macro
    /// promotion does not spread to the caller.
    Macro { inst: Box<Inst> },
    /// `execute store result storage <ns>:mw <path> <tag> 1 run <inst>`
    StoreData { path: String, tag: &'static str, inst: Box<Inst> },
    /// The same store, dividing by `scale` on the way in: the register holds `scale`ths
    /// of a unit and storage holds the unit.
    StoreScaled { path: String, tag: &'static str, scale: u32, inst: Box<Inst> },
    /// `execute store success score <dst> <cond>`: the condition's answer as 0 or 1.
    StoreCond { dst: Reg, cond: Cond },
    /// `data modify storage <ns>:mw <dst> set string storage <ns>:mw <src> [a] [b]`
    SetString { dst: String, src: String, start: Option<i32>, end: Option<i32> },
    /// `execute <cond> run <inst>`. Still one command, so still one instruction.
    Guarded { cond: Cond, inst: Box<Inst> },
    /// A `match`'s `_` arm: run when none of `tags` is the one in `path`. Several
    /// `unless` clauses, but still one command.
    Otherwise { path: String, tags: Vec<String>, inst: Box<Inst> },
    /// `execute as|at <selector> run <inst>`.
    Context { clause: ExecuteAs, inst: Box<Inst> },
}

#[derive(Debug, Clone, PartialEq, Eq)]
pub enum ExecuteAs {
    As(String),
    At(String),
}

impl ExecuteAs {
    pub open spec fn view(&self) -> model::ExecuteAs {
        match self {
            ExecuteAs::As(selector) => model::ExecuteAs::As(selector@),
            ExecuteAs::At(selector) => model::ExecuteAs::At(selector@),
        }
    }
}

/// A test that can be written straight into an `execute`.
#[allow(inconsistent_fields)]
#[derive(Debug, Clone, PartialEq, Eq)]
pub enum Cond {
    /// `if|unless score <lhs> <cmp> <rhs>`
    Score { lhs: Reg, cmp: Cmp, rhs: Reg, negated: bool },
    /// `if|unless score <src> matches <min>..<max>`
    Matches { src: Reg, min: Option<i32>, max: Option<i32>, negated: bool },
    /// `if|unless data storage <ns>:mw <path><filter>`
    Data {
        path: String,
        /// An SNBT compound, appended to the path: `{tag:"Idle"}`.
        filter: String,
        negated: bool,
    },
}

/// The opposite test.
pub open spec fn negation(cond: model::Cond) -> model::Cond {
    match cond {
        model::Cond::Score(lhs, by, rhs, negated) => model::Cond::Score(lhs, by, rhs, !negated),
        model::Cond::Matches(src, min, max, negated) => model::Cond::Matches(
            src,
            min,
            max,
            !negated,
        ),
        model::Cond::Data(path, filter, negated) => model::Cond::Data(path, filter, !negated),
    }
}

/// Turning a test around twice leaves it as it was, and turning it around once never does.
pub proof fn lemma_negation_turns_back(cond: model::Cond)
    ensures
        negation(negation(cond)) == cond,
        negation(cond) != cond,
{
}

impl Cond {
    pub open spec fn view(&self) -> model::Cond {
        match self {
            Cond::Score { lhs, cmp, rhs, negated } => model::Cond::Score(
                lhs@,
                *cmp,
                rhs@,
                *negated,
            ),
            Cond::Matches { src, min, max, negated } => model::Cond::Matches(
                src@,
                *min,
                *max,
                *negated,
            ),
            Cond::Data { path, filter, negated } => model::Cond::Data(path@, filter@, *negated),
        }
    }

    pub fn negate(self) -> (r: Cond)
        ensures
            r@ == negation(self@),
    {
        match self {
            Cond::Score { lhs, cmp, rhs, negated } => Cond::Score {
                lhs,
                cmp,
                rhs,
                negated: !negated,
            },
            Cond::Matches { src, min, max, negated } => Cond::Matches {
                src,
                min,
                max,
                negated: !negated,
            },
            Cond::Data { path, filter, negated } => Cond::Data {
                path,
                filter,
                negated: !negated,
            },
        }
    }

    pub(crate) fn copy(&self) -> (r: Cond)
        ensures
            r@ == self@,
    {
        match self {
            Cond::Score { lhs, cmp, rhs, negated } => Cond::Score {
                lhs: lhs.copy(),
                cmp: *cmp,
                rhs: rhs.copy(),
                negated: *negated,
            },
            Cond::Matches { src, min, max, negated } => Cond::Matches {
                src: src.copy(),
                min: *min,
                max: *max,
                negated: *negated,
            },
            Cond::Data { path, filter, negated } => Cond::Data {
                path: path.clone(),
                filter: filter.clone(),
                negated: *negated,
            },
        }
    }
}

#[derive(Debug, Clone, Copy, PartialEq, Eq, Structural)]
pub enum Op {
    Assign,
    Add,
    Sub,
    Mul,
    Div,
    Rem,
    /// `<`, which for 0/1 values is logical and.
    Min,
    /// `>`, which for 0/1 values is logical or.
    Max,
}

#[derive(Debug, Clone, Copy, PartialEq, Eq, Structural)]
pub enum Cmp {
    Lt,
    Le,
    Eq,
    Ge,
    Gt,
}

impl Inst {
    #[verifier::opaque]
    pub open spec fn view(&self) -> model::Inst
        decreases self,
    {
        match self {
            Inst::Raw { text, span } => model::Inst::Raw(text@, *span),
            Inst::Const { dst, value } => model::Inst::Const(dst@, *value),
            Inst::AddConst { dst, value } => model::Inst::AddConst(dst@, *value),
            Inst::Op { dst, op, src } => model::Inst::Op(dst@, *op, src@),
            Inst::Cmp { dst, cmp, negated, lhs, rhs } => model::Inst::Cmp(
                dst@,
                *cmp,
                *negated,
                lhs@,
                rhs@,
            ),
            Inst::Matches { dst, src, min, max, negated } => model::Inst::Matches(
                dst@,
                src@,
                *min,
                *max,
                *negated,
            ),
            Inst::Call { path } => model::Inst::Call(path@),
            Inst::StoreResult { dst, inst } => model::Inst::StoreResult(
                dst@,
                Box::new(inst.view()),
            ),
            Inst::Get { src } => model::Inst::Get(src@),
            Inst::ReturnRun { inst } => model::Inst::ReturnRun(Box::new(inst.view())),
            Inst::PushFrame => model::Inst::PushFrame,
            Inst::PopFrame => model::Inst::PopFrame,
            Inst::Save { reg, slot } => model::Inst::Save(reg@, *slot),
            Inst::Restore { reg, slot } => model::Inst::Restore(reg@, *slot),
            Inst::SaveData { path, slot } => model::Inst::SaveData(path@, *slot),
            Inst::RestoreData { path, slot } => model::Inst::RestoreData(path@, *slot),
            Inst::Return { value } => model::Inst::Return(*value),
            Inst::SetValue { path, value } => model::Inst::SetValue(path@, value@),
            Inst::CopyData { dst, src } => model::Inst::CopyData(dst@, src@),
            Inst::GetData { path } => model::Inst::GetData(path@),
            Inst::GetScaled { path, scale } => model::Inst::GetScaled(path@, *scale),
            Inst::RemoveData { path } => model::Inst::RemoveData(path@),
            Inst::AppendValue { path, value } => model::Inst::AppendValue(path@, value@),
            Inst::AppendFrom { dst, src } => model::Inst::AppendFrom(dst@, src@),
            Inst::CallWithArgs { path } => model::Inst::CallWithArgs(path@),
            Inst::Macro { inst } => model::Inst::Macro(Box::new(inst.view())),
            Inst::StoreData { path, tag, inst } => model::Inst::StoreData(
                path@,
                tag@,
                Box::new(inst.view()),
            ),
            Inst::StoreScaled { path, tag, scale, inst } => model::Inst::StoreScaled(
                path@,
                tag@,
                *scale,
                Box::new(inst.view()),
            ),
            Inst::StoreCond { dst, cond } => model::Inst::StoreCond(dst@, cond@),
            Inst::SetString { dst, src, start, end } => model::Inst::SetString(
                dst@,
                src@,
                *start,
                *end,
            ),
            Inst::Guarded { cond, inst } => model::Inst::Guarded(cond@, Box::new(inst.view())),
            Inst::Otherwise { path, tags, inst } => model::Inst::Otherwise(
                path@,
                texts(tags@),
                Box::new(inst.view()),
            ),
            Inst::Context { clause, inst } => model::Inst::Context(
                clause@,
                Box::new(inst.view()),
            ),
        }
    }

    /// What an instruction is, one level deep.
    pub open spec fn shallow(self) -> model::Inst {
        match self {
            Inst::Raw { text, span } => model::Inst::Raw(text@, span),
            Inst::Const { dst, value } => model::Inst::Const(dst@, value),
            Inst::AddConst { dst, value } => model::Inst::AddConst(dst@, value),
            Inst::Op { dst, op, src } => model::Inst::Op(dst@, op, src@),
            Inst::Cmp { dst, cmp, negated, lhs, rhs } => model::Inst::Cmp(
                dst@,
                cmp,
                negated,
                lhs@,
                rhs@,
            ),
            Inst::Matches { dst, src, min, max, negated } => model::Inst::Matches(
                dst@,
                src@,
                min,
                max,
                negated,
            ),
            Inst::Call { path } => model::Inst::Call(path@),
            Inst::StoreResult { dst, inst } => model::Inst::StoreResult(dst@, Box::new(inst@)),
            Inst::Get { src } => model::Inst::Get(src@),
            Inst::ReturnRun { inst } => model::Inst::ReturnRun(Box::new(inst@)),
            Inst::PushFrame => model::Inst::PushFrame,
            Inst::PopFrame => model::Inst::PopFrame,
            Inst::Save { reg, slot } => model::Inst::Save(reg@, slot),
            Inst::Restore { reg, slot } => model::Inst::Restore(reg@, slot),
            Inst::SaveData { path, slot } => model::Inst::SaveData(path@, slot),
            Inst::RestoreData { path, slot } => model::Inst::RestoreData(path@, slot),
            Inst::Return { value } => model::Inst::Return(value),
            Inst::SetValue { path, value } => model::Inst::SetValue(path@, value@),
            Inst::CopyData { dst, src } => model::Inst::CopyData(dst@, src@),
            Inst::GetData { path } => model::Inst::GetData(path@),
            Inst::GetScaled { path, scale } => model::Inst::GetScaled(path@, scale),
            Inst::RemoveData { path } => model::Inst::RemoveData(path@),
            Inst::AppendValue { path, value } => model::Inst::AppendValue(path@, value@),
            Inst::AppendFrom { dst, src } => model::Inst::AppendFrom(dst@, src@),
            Inst::CallWithArgs { path } => model::Inst::CallWithArgs(path@),
            Inst::Macro { inst } => model::Inst::Macro(Box::new(inst@)),
            Inst::StoreData { path, tag, inst } => model::Inst::StoreData(
                path@,
                tag@,
                Box::new(inst@),
            ),
            Inst::StoreScaled { path, tag, scale, inst } => model::Inst::StoreScaled(
                path@,
                tag@,
                scale,
                Box::new(inst@),
            ),
            Inst::StoreCond { dst, cond } => model::Inst::StoreCond(dst@, cond@),
            Inst::SetString { dst, src, start, end } => model::Inst::SetString(
                dst@,
                src@,
                start,
                end,
            ),
            Inst::Guarded { cond, inst } => model::Inst::Guarded(cond@, Box::new(inst@)),
            Inst::Otherwise { path, tags, inst } => model::Inst::Otherwise(
                path@,
                texts(tags@),
                Box::new(inst@),
            ),
            Inst::Context { clause, inst } => model::Inst::Context(clause@, Box::new(inst@)),
        }
    }

    pub proof fn unfold(&self)
        ensures
            self@ == self.shallow(),
    {
        reveal(Inst::view);
    }
}

pub open spec fn insts_view(v: Seq<Inst>) -> Seq<model::Inst> {
    Seq::new(v.len(), |i: int| v[i]@)
}

pub open spec fn blocks_view(v: Seq<Block>) -> Seq<model::Block> {
    Seq::new(v.len(), |i: int| v[i]@)
}

pub open spec fn functions_view(v: Seq<Function>) -> Seq<model::Function> {
    Seq::new(v.len(), |i: int| v[i]@)
}

} // verus!

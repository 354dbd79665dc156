//! What the mid-level representation says, as mathematical values.

use vstd::prelude::*;

use crate::hir::model::Attr;
use crate::hir::FnId;
use crate::mir::{BlockId, Cmp, Op, RegKind};
use crate::syntax::lexer::Span;

verus! {

pub struct Reg {
    pub holder: Seq<char>,
    pub kind: RegKind,
}

pub enum Cond {
    Score(Reg, Cmp, Reg, bool),
    Matches(Reg, Option<i32>, Option<i32>, bool),
    Data(Seq<char>, Seq<char>, bool),
}

pub enum ExecuteAs {
    As(Seq<char>),
    At(Seq<char>),
}

pub enum Inst {
    Raw(Seq<char>, Span),
    Const(Reg, i32),
    AddConst(Reg, i32),
    Op(Reg, Op, Reg),
    Cmp(Reg, Cmp, bool, Reg, Reg),
    Matches(Reg, Reg, Option<i32>, Option<i32>, bool),
    Call(Seq<char>),
    StoreResult(Reg, Box<Inst>),
    Get(Reg),
    ReturnRun(Box<Inst>),
    PushFrame,
    PopFrame,
    Save(Reg, u32),
    Restore(Reg, u32),
    SaveData(Seq<char>, u32),
    RestoreData(Seq<char>, u32),
    Return(i32),
    SetValue(Seq<char>, Seq<char>),
    CopyData(Seq<char>, Seq<char>),
    GetData(Seq<char>),
    GetScaled(Seq<char>, u32),
    RemoveData(Seq<char>),
    AppendValue(Seq<char>, Seq<char>),
    AppendFrom(Seq<char>, Seq<char>),
    CallWithArgs(Seq<char>),
    Macro(Box<Inst>),
    StoreData(Seq<char>, Seq<char>, Box<Inst>),
    StoreScaled(Seq<char>, Seq<char>, u32, Box<Inst>),
    StoreCond(Reg, Cond),
    SetString(Seq<char>, Seq<char>, Option<i32>, Option<i32>),
    Guarded(Cond, Box<Inst>),
    Otherwise(Seq<char>, Seq<Seq<char>>, Box<Inst>),
    Context(ExecuteAs, Box<Inst>),
}

pub struct Block {
    pub id: BlockId,
    pub insts: Seq<Inst>,
}

pub struct Function {
    pub id: FnId,
    pub path: Seq<char>,
    pub attrs: Seq<Attr>,
    pub blocks: Seq<Block>,
}

} // verus!
